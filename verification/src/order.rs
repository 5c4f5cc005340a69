//! Orders on values, maps kept in that order, and sorting that keeps equal values in place.
use vstd::prelude::*;

use crate::text::to_chars;

verus! {

/// Values that stand in a total order by their rank; values of one rank count as equal.
pub trait Ranked: Sized {
    /// What decides the place of a value in the order.
    type Rank;

    spec fn rank(&self) -> Self::Rank;

    spec fn rank_before(a: Self::Rank, b: Self::Rank) -> bool;

    proof fn rank_irreflexive(a: Self::Rank)
        ensures
            !Self::rank_before(a, a),
    ;

    proof fn rank_total(a: Self::Rank, b: Self::Rank)
        ensures
            a == b || Self::rank_before(a, b) || Self::rank_before(b, a),
    ;

    proof fn rank_transitive(a: Self::Rank, b: Self::Rank, c: Self::Rank)
        requires
            Self::rank_before(a, b),
            Self::rank_before(b, c),
        ensures
            Self::rank_before(a, c),
    ;

    fn is_before(&self, other: &Self) -> (r: bool)
        ensures
            r == Self::rank_before(self.rank(), other.rank()),
    ;
}

/// Whether a relation puts any two different values in order, and never two equal ones.
pub open spec fn strict_order<T>(less: spec_fn(T, T) -> bool) -> bool {
    &&& forall|a: T| !#[trigger] less(a, a)
    &&& forall|a: T, b: T| a == b || #[trigger] less(a, b) || less(b, a)
    &&& forall|a: T, b: T, c: T| #[trigger] less(a, b) && #[trigger] less(b, c) ==> less(a, c)
}

/// The order of sequences: by the first member in which they differ, a prefix before what it
/// starts.
pub open spec fn lex_before<T>(less: spec_fn(T, T) -> bool, a: Seq<T>, b: Seq<T>) -> bool
    decreases a.len(),
{
    if b.len() == 0 {
        false
    } else if a.len() == 0 {
        true
    } else if a[0] == b[0] {
        lex_before(less, a.drop_first(), b.drop_first())
    } else {
        less(a[0], b[0])
    }
}

pub proof fn lemma_lex_irreflexive<T>(less: spec_fn(T, T) -> bool, a: Seq<T>)
    ensures
        !lex_before(less, a, a),
    decreases a.len(),
{
    if a.len() > 0 {
        lemma_lex_irreflexive(less, a.drop_first());
    }
}

pub proof fn lemma_lex_total<T>(less: spec_fn(T, T) -> bool, a: Seq<T>, b: Seq<T>)
    requires
        strict_order(less),
    ensures
        a == b || lex_before(less, a, b) || lex_before(less, b, a),
    decreases a.len(),
{
    if a.len() == 0 || b.len() == 0 {
        if a.len() == 0 && b.len() == 0 {
            assert(a =~= b);
        }
    } else if a[0] == b[0] {
        lemma_lex_total(less, a.drop_first(), b.drop_first());
        if a.drop_first() == b.drop_first() {
            assert(a =~= seq![a[0]] + a.drop_first());
            assert(b =~= seq![b[0]] + b.drop_first());
        }
    } else {
        assert(less(a[0], b[0]) || less(b[0], a[0]));
    }
}

pub proof fn lemma_lex_transitive<T>(
    less: spec_fn(T, T) -> bool,
    a: Seq<T>,
    b: Seq<T>,
    c: Seq<T>,
)
    requires
        strict_order(less),
        lex_before(less, a, b),
        lex_before(less, b, c),
    ensures
        lex_before(less, a, c),
    decreases a.len(),
{
    if a.len() > 0 {
        if a[0] == b[0] && b[0] == c[0] {
            lemma_lex_transitive(less, a.drop_first(), b.drop_first(), c.drop_first());
        } else if a[0] != b[0] && b[0] != c[0] {
            assert(less(a[0], b[0]) && less(b[0], c[0]));
            assert(!less(a[0], a[0]));
        }
    }
}

/// Members that two sequences share at the front do not bear on their order.
pub proof fn lemma_lex_common<T>(less: spec_fn(T, T) -> bool, a: Seq<T>, b: Seq<T>, k: int)
    requires
        0 <= k <= a.len(),
        k <= b.len(),
        forall|i: int| 0 <= i < k ==> a[i] == b[i],
    ensures
        lex_before(less, a, b) == lex_before(less, a.skip(k), b.skip(k)),
    decreases k,
{
    if k == 0 {
        assert(a.skip(0) =~= a);
        assert(b.skip(0) =~= b);
    } else {
        assert(a[0] == b[0]);
        let x = a.drop_first();
        let y = b.drop_first();
        assert forall|i: int| 0 <= i < k - 1 implies x[i] == y[i] by {
            assert(a[i + 1] == b[i + 1]);
        }
        lemma_lex_common(less, x, y, k - 1);
        assert(x.skip(k - 1) =~= a.skip(k));
        assert(y.skip(k - 1) =~= b.skip(k));
    }
}

/// The order of characters.
pub open spec fn char_order() -> spec_fn(char, char) -> bool {
    |x: char, y: char| x < y
}

/// The order of bytes.
pub open spec fn byte_order() -> spec_fn(u8, u8) -> bool {
    |x: u8, y: u8| x < y
}

/// The order of texts, character by character.
pub open spec fn text_before(a: Seq<char>, b: Seq<char>) -> bool {
    lex_before(char_order(), a, b)
}

proof fn lemma_text_order(a: Seq<char>, b: Seq<char>, c: Seq<char>)
    ensures
        !text_before(a, a),
        a == b || text_before(a, b) || text_before(b, a),
        text_before(a, b) && text_before(b, c) ==> text_before(a, c),
{
    lemma_lex_irreflexive(char_order(), a);
    lemma_lex_total(char_order(), a, b);
    if text_before(a, b) && text_before(b, c) {
        lemma_lex_transitive(char_order(), a, b, c);
    }
}

pub proof fn lemma_bytes_order(a: Seq<u8>, b: Seq<u8>, c: Seq<u8>)
    ensures
        !bytes_before(a, a),
        a == b || bytes_before(a, b) || bytes_before(b, a),
        bytes_before(a, b) && bytes_before(b, c) ==> bytes_before(a, c),
{
    lemma_lex_irreflexive(byte_order(), a);
    lemma_lex_total(byte_order(), a, b);
    if bytes_before(a, b) && bytes_before(b, c) {
        lemma_lex_transitive(byte_order(), a, b, c);
    }
}

/// The order of byte strings, byte by byte.
pub open spec fn bytes_before(a: Seq<u8>, b: Seq<u8>) -> bool {
    lex_before(byte_order(), a, b)
}

/// Whether `a` comes before `b` in the order of byte strings.
pub fn bytes_less(a: &Vec<u8>, b: &Vec<u8>) -> (r: bool)
    ensures
        r == bytes_before(a@, b@),
{
    let mut i: usize = 0;
    while i < a.len() && i < b.len() && a[i] == b[i]
        invariant
            i <= a.len(),
            i <= b.len(),
            forall|k: int| 0 <= k < i ==> a@[k] == b@[k],
        decreases a.len() - i,
    {
        i += 1;
    }
    proof {
        lemma_lex_common(byte_order(), a@, b@, i as int);
    }
    if i == b.len() {
        false
    } else if i == a.len() {
        true
    } else {
        a[i] < b[i]
    }
}

/// Whether `a` comes before `b` in the order of texts.
pub fn text_less(a: &str, b: &str) -> (r: bool)
    ensures
        r == text_before(a@, b@),
{
    let x = to_chars(a);
    let y = to_chars(b);
    let mut i: usize = 0;
    while i < x.len() && i < y.len() && x[i] == y[i]
        invariant
            i <= x.len(),
            i <= y.len(),
            forall|k: int| 0 <= k < i ==> x@[k] == y@[k],
        decreases x.len() - i,
    {
        i += 1;
    }
    proof {
        lemma_lex_common(char_order(), a@, b@, i as int);
    }
    if i == y.len() {
        false
    } else if i == x.len() {
        true
    } else {
        x[i] < y[i]
    }
}

impl Ranked for String {
    type Rank = Seq<char>;

    open spec fn rank(&self) -> Seq<char> {
        self@
    }

    open spec fn rank_before(a: Seq<char>, b: Seq<char>) -> bool {
        text_before(a, b)
    }

    proof fn rank_irreflexive(a: Seq<char>) {
        lemma_text_order(a, a, a);
        assert(!Self::rank_before(a, a));
    }

    proof fn rank_total(a: Seq<char>, b: Seq<char>) {
        lemma_text_order(a, b, a);
        assert(a == b || Self::rank_before(a, b) || Self::rank_before(b, a));
    }

    proof fn rank_transitive(a: Seq<char>, b: Seq<char>, c: Seq<char>) {
        lemma_text_order(a, b, c);
        assert(Self::rank_before(a, c));
    }

    fn is_before(&self, other: &Self) -> (r: bool) {
        text_less(self.as_str(), other.as_str())
    }
}

/// Whether the value at `a` has its place before the value at `b`: a lower rank, or the same rank
/// and an earlier position.
pub open spec fn comes_first<T: Ranked>(ranks: Seq<T::Rank>, a: int, b: int) -> bool {
    ||| T::rank_before(ranks[a], ranks[b])
    ||| ranks[a] == ranks[b] && a < b
}

/// Whether `p` lists the positions of values of the given ranks in sorted order.
pub open spec fn stable_order<T: Ranked>(ranks: Seq<T::Rank>, p: Seq<int>) -> bool {
    &&& p.len() == ranks.len()
    &&& forall|i: int| 0 <= i < p.len() ==> 0 <= #[trigger] p[i] < ranks.len()
    &&& forall|i: int, j: int|
        0 <= i < j < p.len() ==> comes_first::<T>(ranks, #[trigger] p[i], #[trigger] p[j])
}

/// The members of a sequence at the given positions.
pub open spec fn pick<A>(s: Seq<A>, p: Seq<int>) -> Seq<A> {
    Seq::new(p.len(), |i: int| s[p[i]])
}

/// The ranks of the members of a sequence.
pub open spec fn ranks<T: Ranked>(s: Seq<T>) -> Seq<T::Rank> {
    Seq::new(s.len(), |i: int| s[i].rank())
}

/// The positions of values of the given ranks in sorted order.
pub open spec fn sort_positions<T: Ranked>(ranks: Seq<T::Rank>) -> Seq<int> {
    choose|p: Seq<int>| stable_order::<T>(ranks, p)
}

/// Values sorted by the given ranks, those of one rank in their old order.
pub open spec fn sorted_by<T: Ranked, A>(ranks: Seq<T::Rank>, s: Seq<A>) -> Seq<A> {
    pick(s, sort_positions::<T>(ranks))
}

/// The first position from `k` on whose value comes after a rank, or the end.
proof fn lemma_place_after<T: Ranked>(
    ranks: Seq<T::Rank>,
    p: Seq<int>,
    rank: T::Rank,
    k: int,
) -> (r: int)
    requires
        0 <= k <= p.len(),
        forall|i: int| 0 <= i < k ==> !T::rank_before(rank, ranks[#[trigger] p[i]]),
    ensures
        k <= r <= p.len(),
        forall|i: int| 0 <= i < r ==> !T::rank_before(rank, ranks[#[trigger] p[i]]),
        r < p.len() ==> T::rank_before(rank, ranks[p[r]]),
    decreases p.len() - k,
{
    if k < p.len() && !T::rank_before(rank, ranks[p[k]]) {
        lemma_place_after::<T>(ranks, p, rank, k + 1)
    } else {
        k
    }
}

/// Values of any ranks have a sorted order.
pub proof fn lemma_stable_order_exists<T: Ranked>(ranks: Seq<T::Rank>)
    ensures
        stable_order::<T>(ranks, sort_positions::<T>(ranks)),
    decreases ranks.len(),
{
    if ranks.len() == 0 {
        assert(stable_order::<T>(ranks, Seq::<int>::empty()));
    } else {
        let n = ranks.len() - 1;
        let shorter = ranks.drop_last();
        lemma_stable_order_exists::<T>(shorter);
        let p = sort_positions::<T>(shorter);
        assert forall|i: int| 0 <= i < p.len() implies 0 <= #[trigger] p[i] < n && ranks[p[i]]
            == shorter[p[i]] by {}
        let k = lemma_place_after::<T>(ranks, p, ranks[n], 0);
        let q = p.insert(k, n);
        assert forall|i: int, j: int| 0 <= i < j < q.len() implies comes_first::<T>(
            ranks,
            #[trigger] q[i],
            #[trigger] q[j],
        ) by {
            let a = if i < k { p[i] } else if i == k { n } else { p[i - 1] };
            let b = if j < k { p[j] } else if j == k { n } else { p[j - 1] };
            assert(q[i] == a && q[j] == b);
            if j == k {
                T::rank_total(ranks[n], ranks[p[i]]);
            } else if i == k {
                if j - 1 > k {
                    assert(comes_first::<T>(shorter, p[k], p[j - 1]));
                    if T::rank_before(ranks[p[k]], ranks[p[j - 1]]) {
                        T::rank_transitive(ranks[n], ranks[p[k]], ranks[p[j - 1]]);
                    }
                }
            } else {
                let x = if i < k { i } else { i - 1 };
                let y = if j < k { j } else { j - 1 };
                assert(comes_first::<T>(shorter, p[x], p[y]));
            }
        }
        assert(stable_order::<T>(ranks, q));
    }
}

/// Sorting neither adds nor drops anything: the sorted values are as many as the values, each of
/// them is one of the values, and each of the values is among them.
pub proof fn lemma_sorted_members<T: Ranked, A>(ranks: Seq<T::Rank>, s: Seq<A>)
    requires
        ranks.len() == s.len(),
    ensures
        sorted_by::<T, A>(ranks, s).len() == s.len(),
        forall|i: int| 0 <= i < s.len() ==> s.contains(#[trigger] sorted_by::<T, A>(ranks, s)[i]),
        forall|i: int| 0 <= i < s.len() ==> sorted_by::<T, A>(ranks, s).contains(#[trigger] s[i]),
{
    lemma_stable_order_exists::<T>(ranks);
    let p = sort_positions::<T>(ranks);
    assert forall|i: int| 0 <= i < s.len() implies s.contains(
        #[trigger] sorted_by::<T, A>(ranks, s)[i],
    ) by {
        assert(0 <= p[i] < ranks.len());
        assert(s[p[i]] == sorted_by::<T, A>(ranks, s)[i]);
    }
    lemma_distinct_positions::<T>(ranks, p);
    assert forall|i: int| 0 <= i < s.len() implies sorted_by::<T, A>(ranks, s).contains(
        #[trigger] s[i],
    ) by {
        lemma_every_position(p, s.len() as int, i);
        let k = choose|k: int| 0 <= k < p.len() && p[k] == i;
        assert(sorted_by::<T, A>(ranks, s)[k] == s[i]);
    }
}

/// Values of given ranks have one sorted order only.
pub proof fn lemma_stable_order_unique<T: Ranked>(ranks: Seq<T::Rank>, p: Seq<int>, q: Seq<int>)
    requires
        stable_order::<T>(ranks, p),
        stable_order::<T>(ranks, q),
    ensures
        p == q,
    decreases ranks.len(),
{
    lemma_distinct_positions::<T>(ranks, p);
    lemma_distinct_positions::<T>(ranks, q);
    lemma_same_prefix::<T>(ranks, p, q, p.len() as int);
    assert(p =~= q);
}

proof fn lemma_first_excludes<T: Ranked>(ranks: Seq<T::Rank>, a: int, b: int)
    requires
        comes_first::<T>(ranks, a, b),
    ensures
        !comes_first::<T>(ranks, b, a),
        a != b,
{
    T::rank_irreflexive(ranks[a]);
    if T::rank_before(ranks[b], ranks[a]) {
        if T::rank_before(ranks[a], ranks[b]) {
            T::rank_transitive(ranks[a], ranks[b], ranks[a]);
        }
    }
}

pub proof fn lemma_distinct_positions<T: Ranked>(ranks: Seq<T::Rank>, p: Seq<int>)
    requires
        stable_order::<T>(ranks, p),
    ensures
        p.no_duplicates(),
{
    assert forall|i: int, j: int| 0 <= i < p.len() && 0 <= j < p.len() && i != j implies p[i]
        != p[j] by {
        if i < j {
            lemma_first_excludes::<T>(ranks, p[i], p[j]);
        } else {
            lemma_first_excludes::<T>(ranks, p[j], p[i]);
        }
    }
}

/// A list of as many different positions as there are names every position.
pub proof fn lemma_every_position(p: Seq<int>, n: int, x: int)
    requires
        p.len() == n,
        p.no_duplicates(),
        forall|i: int| 0 <= i < p.len() ==> 0 <= #[trigger] p[i] < n,
        0 <= x < n,
    ensures
        p.contains(x),
{
    let all = vstd::set_lib::set_int_range(0, n);
    vstd::set_lib::lemma_int_range(0, n);
    p.unique_seq_to_set();
    assert(p.to_set().subset_of(all)) by {
        assert forall|y: int| p.to_set().contains(y) implies all.contains(y) by {
            let i = choose|i: int| 0 <= i < p.len() && p[i] == y;
            assert(0 <= p[i] < n);
        }
    }
    vstd::set_lib::lemma_subset_equality(p.to_set(), all);
    assert(p.to_set().contains(x));
}

proof fn lemma_same_prefix<T: Ranked>(ranks: Seq<T::Rank>, p: Seq<int>, q: Seq<int>, k: int)
    requires
        stable_order::<T>(ranks, p),
        stable_order::<T>(ranks, q),
        p.no_duplicates(),
        q.no_duplicates(),
        0 <= k <= p.len(),
    ensures
        forall|i: int| 0 <= i < k ==> p[i] == q[i],
    decreases k,
{
    if k > 0 {
        let i = k - 1;
        lemma_same_prefix::<T>(ranks, p, q, i);
        lemma_every_position(q, ranks.len() as int, p[i]);
        lemma_every_position(p, ranks.len() as int, q[i]);
        let a = choose|a: int| 0 <= a < q.len() && q[a] == p[i];
        let b = choose|b: int| 0 <= b < p.len() && p[b] == q[i];
        if p[i] != q[i] {
            if a < i {
                assert(p[a] == q[a]);
                assert(p[a] == p[i]);
            }
            if b < i {
                assert(p[b] == q[b]);
                assert(q[b] == q[i]);
            }
            assert(comes_first::<T>(ranks, q[i], q[a]));
            assert(comes_first::<T>(ranks, p[i], p[b]));
            lemma_first_excludes::<T>(ranks, p[i], q[i]);
        }
    }
}

/// Sorts by rank; values of one rank keep their order.
pub fn stable_sort<T: Ranked>(items: Vec<T>) -> (r: Vec<T>)
    ensures
        r@ == sorted_by::<T, T>(ranks(items@), items@),
        stable_order::<T>(ranks(items@), sort_positions::<T>(ranks(items@))),
{
    let ghost input = items@;
    let mut rest = items;
    let mut r: Vec<T> = Vec::new();
    let ghost mut p: Seq<int> = Seq::empty();
    let count = rest.len();
    let mut done: usize = 0;
    while done < count
        invariant
            done <= count,
            count == input.len(),
            rest@ == input.skip(done as int),
            r@.len() == done,
            p.len() == done,
            forall|i: int| 0 <= i < p.len() ==> 0 <= #[trigger] p[i] < done,
            forall|i: int, j: int|
                0 <= i < j < p.len() ==> comes_first::<T>(ranks(input), #[trigger] p[i], #[trigger] p[j]),
            forall|i: int| 0 <= i < done ==> #[trigger] r@[i] == input[p[i]],
        decreases count - done,
    {
        let item = rest.remove(0);
        assert(item == input[done as int]);
        assert(rest@ =~= input.skip(done + 1));
        let mut at: usize = r.len();
        while at > 0 && item.is_before(&r[at - 1])
            invariant
                at <= r.len(),
                r@.len() == done,
                p.len() == done,
                item == input[done as int],
                forall|i: int| 0 <= i < done ==> #[trigger] r@[i] == input[p[i]],
                forall|i: int|
                    at <= i < done ==> T::rank_before(item.rank(), (#[trigger] r@[i]).rank()),
            decreases at,
        {
            at -= 1;
        }
        let ghost before = p;
        let ghost old_r = r@;
        r.insert(at, item);
        proof {
            p = before.insert(at as int, done as int);
            assert forall|i: int| 0 <= i < p.len() implies 0 <= #[trigger] p[i] < done + 1 by {
                if i < at {
                    assert(p[i] == before[i]);
                } else if i > at {
                    assert(p[i] == before[i - 1]);
                }
            }
            assert forall|i: int| 0 <= i < done + 1 implies #[trigger] r@[i] == input[p[i]] by {
                if i < at {
                    assert(r@[i] == old_r[i]);
                } else if i > at {
                    assert(r@[i] == old_r[i - 1]);
                }
            }
            assert forall|i: int, j: int| 0 <= i < j < p.len() implies comes_first::<T>(
                ranks(input),
                #[trigger] p[i],
                #[trigger] p[j],
            ) by {
                if i == at {
                    assert(p[j] == before[j - 1]);
                    assert(old_r[j - 1] == input[before[j - 1]]);
                } else if j == at {
                    assert(p[i] == before[i]);
                    assert(old_r[i] == input[before[i]]);
                    let last = at - 1;
                    assert(old_r[last] == input[before[last]]);
                    let new_rank = input[done as int].rank();
                    let last_rank = input[before[last]].rank();
                    assert(!T::rank_before(new_rank, last_rank));
                    T::rank_total(new_rank, last_rank);
                    if i < last {
                        assert(comes_first::<T>(ranks(input), before[i], before[last]));
                        if T::rank_before(input[before[i]].rank(), last_rank)
                            && T::rank_before(last_rank, new_rank) {
                            T::rank_transitive(input[before[i]].rank(), last_rank, new_rank);
                        }
                    }
                } else {
                    let x = if i < at { before[i] } else { before[i - 1] };
                    let y = if j < at { before[j] } else { before[j - 1] };
                    assert(p[i] == x);
                    assert(p[j] == y);
                }
            }
        }
        done += 1;
    }
    assert(r@ =~= pick(input, p));
    assert(stable_order::<T>(ranks(input), p));
    proof {
        lemma_stable_order_unique::<T>(ranks(input), p, sort_positions::<T>(ranks(input)));
    }
    r
}

/// A map with its keys in order, at most one entry for each rank.
pub struct OrderedMap<K: Ranked, V: View> {
    entries: Vec<(K, V)>,
}

/// Whether the keys stand in strictly rising order.
pub open spec fn rising<K: Ranked>(keys: Seq<K>) -> bool {
    forall|i: int, j: int|
        0 <= i < j < keys.len() ==> K::rank_before(
            (#[trigger] keys[i]).rank(),
            (#[trigger] keys[j]).rank(),
        )
}

/// Whether the key at a position has the given rank.
pub open spec fn ranked_at<K: Ranked>(keys: Seq<K>, rank: K::Rank, i: int) -> bool {
    0 <= i < keys.len() && keys[i].rank() == rank
}

/// The keys of a list of entries.
pub open spec fn entry_keys<K: Ranked, V: View>(entries: Seq<(K, V)>) -> Seq<K> {
    Seq::new(entries.len(), |i: int| entries[i].0)
}

/// The position of the key of a rank.
pub open spec fn entry_position<K: Ranked, V: View>(entries: Seq<(K, V)>, rank: K::Rank) -> int {
    choose|i: int| ranked_at(entry_keys(entries), rank, i)
}

/// What the entries of a list hold, by the rank of their keys.
pub open spec fn entry_map<K: Ranked, V: View>(entries: Seq<(K, V)>) -> Map<K::Rank, V::V> {
    Map::new(
        |rank: K::Rank| exists|i: int| ranked_at(entry_keys(entries), rank, i),
        |rank: K::Rank| entries[entry_position(entries, rank)].1@,
    )
}

/// The key that a list of entries holds for each rank.
pub open spec fn key_map<K: Ranked, V: View>(entries: Seq<(K, V)>) -> Map<K::Rank, K> {
    Map::new(
        |rank: K::Rank| exists|i: int| ranked_at(entry_keys(entries), rank, i),
        |rank: K::Rank| entries[entry_position(entries, rank)].0,
    )
}

/// The keys of a map after one of a rank was put into it: an old key stays.
pub open spec fn with_key<K: Ranked>(keys: Map<K::Rank, K>, key: K) -> Map<K::Rank, K> {
    if keys.dom().contains(key.rank()) {
        keys
    } else {
        keys.insert(key.rank(), key)
    }
}

proof fn lemma_position<K: Ranked, V: View>(entries: Seq<(K, V)>, i: int)
    requires
        rising(entry_keys(entries)),
        0 <= i < entries.len(),
    ensures
        entry_map(entries).dom().contains(entries[i].0.rank()),
        entry_map(entries)[entries[i].0.rank()] == entries[i].1@,
        key_map(entries).dom().contains(entries[i].0.rank()),
        key_map(entries)[entries[i].0.rank()] == entries[i].0,
{
    let keys = entry_keys(entries);
    let rank = entries[i].0.rank();
    assert(ranked_at(keys, rank, i));
    let j = entry_position(entries, rank);
    assert(ranked_at(keys, rank, j));
    K::rank_irreflexive(rank);
    if i < j {
        assert(K::rank_before(keys[i].rank(), keys[j].rank()));
    }
    if j < i {
        assert(K::rank_before(keys[j].rank(), keys[i].rank()));
    }
}

/// Whether every entry of `from` but those of a rank stands in `to`.
spec fn carried<K: Ranked, V: View>(
    from: Seq<(K, V)>,
    to: Seq<(K, V)>,
    rank: K::Rank,
    shift: spec_fn(int) -> int,
) -> bool {
    forall|i: int|
        0 <= i < from.len() && (#[trigger] from[i]).0.rank() != rank ==> 0 <= shift(i) < to.len()
            && to[shift(i)] == from[i]
}

proof fn lemma_changed_map<K: Ranked, V: View>(
    before: Seq<(K, V)>,
    after: Seq<(K, V)>,
    rank: K::Rank,
    forth: spec_fn(int) -> int,
    back: spec_fn(int) -> int,
)
    requires
        rising(entry_keys(before)),
        rising(entry_keys(after)),
        carried(before, after, rank, forth),
        carried(after, before, rank, back),
    ensures
        forall|r: K::Rank|
            r != rank ==> (#[trigger] entry_map(after).dom().contains(r) <==> entry_map(
                before,
            ).dom().contains(r)),
        forall|r: K::Rank|
            r != rank && #[trigger] entry_map(after).dom().contains(r) ==> entry_map(after)[r]
                == entry_map(before)[r] && key_map(after)[r] == key_map(before)[r],
        key_map(before).dom() == entry_map(before).dom(),
        key_map(after).dom() == entry_map(after).dom(),
{
    assert(key_map(before).dom() =~= entry_map(before).dom());
    assert(key_map(after).dom() =~= entry_map(after).dom());
    assert forall|r: K::Rank| r != rank implies (#[trigger] entry_map(after).dom().contains(r)
        <==> entry_map(before).dom().contains(r)) by {
        if entry_map(after).dom().contains(r) {
            let j = entry_position(after, r);
            assert(ranked_at(entry_keys(after), r, j));
            assert(after[j].0.rank() == r);
            lemma_position(before, back(j));
        }
        if entry_map(before).dom().contains(r) {
            let i = entry_position(before, r);
            assert(ranked_at(entry_keys(before), r, i));
            assert(before[i].0.rank() == r);
            lemma_position(after, forth(i));
        }
    }
    assert forall|r: K::Rank| r != rank && #[trigger] entry_map(after).dom().contains(r) implies
        entry_map(after)[r] == entry_map(before)[r] && key_map(after)[r] == key_map(before)[r] by {
        let j = entry_position(after, r);
        assert(ranked_at(entry_keys(after), r, j));
        assert(after[j].0.rank() == r);
        lemma_position(after, j);
        lemma_position(before, back(j));
    }
}

proof fn lemma_replaced<K: Ranked, V: View>(before: Seq<(K, V)>, at: int, key: K, value: V)
    requires
        rising(entry_keys(before)),
        0 <= at < before.len(),
        before[at].0.rank() == key.rank(),
    ensures
        rising(entry_keys(before.update(at, (before[at].0, value)))),
        entry_map(before.update(at, (before[at].0, value))) == entry_map(before).insert(
            key.rank(),
            value@,
        ),
        key_map(before.update(at, (before[at].0, value))) == key_map(before),
        key_map(before).dom().contains(key.rank()),
{
    let after = before.update(at, (before[at].0, value));
    assert(entry_keys(after) =~= entry_keys(before));
    lemma_changed_map(before, after, key.rank(), |i: int| i, |i: int| i);
    lemma_position(after, at);
    lemma_position(before, at);
    assert(key_map(after) =~= key_map(before)) by {
        assert forall|r: K::Rank| key_map(after).dom().contains(r) implies #[trigger] key_map(
            after,
        )[r] == key_map(before)[r] by {
            if r != key.rank() {
                assert(entry_map(after).dom().contains(r));
            }
        }
    }
    assert(entry_map(after) =~= entry_map(before).insert(key.rank(), value@));
}

proof fn lemma_inserted<K: Ranked, V: View>(before: Seq<(K, V)>, at: int, key: K, value: V)
    requires
        rising(entry_keys(before)),
        0 <= at <= before.len(),
        forall|i: int| 0 <= i < at ==> K::rank_before((#[trigger] before[i]).0.rank(), key.rank()),
        forall|i: int|
            at <= i < before.len() ==> K::rank_before(key.rank(), (#[trigger] before[i]).0.rank()),
    ensures
        rising(entry_keys(before.insert(at, (key, value)))),
        entry_map(before.insert(at, (key, value))) == entry_map(before).insert(key.rank(), value@),
        key_map(before.insert(at, (key, value))) == key_map(before).insert(key.rank(), key),
        !key_map(before).dom().contains(key.rank()),
{
    let after = before.insert(at, (key, value));
    let keys = entry_keys(after);
    assert forall|i: int, j: int| 0 <= i < j < keys.len() implies K::rank_before(
        (#[trigger] keys[i]).rank(),
        (#[trigger] keys[j]).rank(),
    ) by {
        let x = if i < at { i } else { i - 1 };
        let y = if j < at { j } else { j - 1 };
        if i != at {
            assert(keys[i] == before[x].0);
        }
        if j != at {
            assert(keys[j] == before[y].0);
        }
        if i != at && j != at {
            assert(K::rank_before(
                entry_keys(before)[x].rank(),
                entry_keys(before)[y].rank(),
            ));
        }
    }
    let forth = |i: int| if i < at { i } else { i + 1 };
    let back = |i: int| if i < at { i } else { i - 1 };
    lemma_changed_map(before, after, key.rank(), forth, back);
    lemma_position(after, at);
    assert(!key_map(before).dom().contains(key.rank())) by {
        if key_map(before).dom().contains(key.rank()) {
            let i = entry_position(before, key.rank());
            assert(ranked_at(entry_keys(before), key.rank(), i));
            assert(before[i].0.rank() == key.rank());
            K::rank_irreflexive(key.rank());
        }
    }
    assert(key_map(after) =~= key_map(before).insert(key.rank(), key)) by {
        assert forall|r: K::Rank| r != key.rank() && key_map(after).dom().contains(r) implies
            #[trigger] key_map(after)[r] == key_map(before)[r] by {
            assert(entry_map(after).dom().contains(r));
        }
    }
    assert(entry_map(after) =~= entry_map(before).insert(key.rank(), value@));
}

proof fn lemma_removed<K: Ranked, V: View>(before: Seq<(K, V)>, at: int, rank: K::Rank)
    requires
        rising(entry_keys(before)),
        0 <= at < before.len(),
        before[at].0.rank() == rank,
    ensures
        rising(entry_keys(before.remove(at))),
        entry_map(before.remove(at)) == entry_map(before).remove(rank),
        key_map(before.remove(at)) == key_map(before).remove(rank),
{
    let after = before.remove(at);
    let keys = entry_keys(after);
    assert forall|i: int, j: int| 0 <= i < j < keys.len() implies K::rank_before(
        (#[trigger] keys[i]).rank(),
        (#[trigger] keys[j]).rank(),
    ) by {
        let x = if i < at { i } else { i + 1 };
        let y = if j < at { j } else { j + 1 };
        assert(keys[i] == before[x].0);
        assert(keys[j] == before[y].0);
        assert(K::rank_before(entry_keys(before)[x].rank(), entry_keys(before)[y].rank()));
    }
    let forth = |i: int| if i < at { i } else { i - 1 };
    let back = |i: int| if i < at { i } else { i + 1 };
    lemma_changed_map(before, after, rank, forth, back);
    K::rank_irreflexive(rank);
    assert(!entry_map(after).dom().contains(rank)) by {
        if entry_map(after).dom().contains(rank) {
            let j = entry_position(after, rank);
            assert(ranked_at(keys, rank, j));
            let i = back(j);
            assert(after[j] == before[i]);
            if i < at {
                assert(K::rank_before(
                    entry_keys(before)[i].rank(),
                    entry_keys(before)[at].rank(),
                ));
            } else {
                assert(K::rank_before(
                    entry_keys(before)[at].rank(),
                    entry_keys(before)[i].rank(),
                ));
            }
        }
    }
    assert(key_map(after) =~= key_map(before).remove(rank)) by {
        assert forall|r: K::Rank| r != rank && key_map(after).dom().contains(r) implies
            #[trigger] key_map(after)[r] == key_map(before)[r] by {
            assert(entry_map(after).dom().contains(r));
        }
    }
    assert(entry_map(after) =~= entry_map(before).remove(rank));
}

/// What a list of entries holds when they are put into a map one after the other.
pub open spec fn built_map<K: Ranked, V: View>(entries: Seq<(K, V)>) -> Map<K::Rank, V::V>
    decreases entries.len(),
{
    if entries.len() == 0 {
        Map::empty()
    } else {
        built_map(entries.drop_last()).insert(entries.last().0.rank(), entries.last().1@)
    }
}

/// Entries in order hold what a map holds into which they are put one after the other.
pub proof fn lemma_built_map<K: Ranked, V: View>(entries: Seq<(K, V)>)
    requires
        rising(entry_keys(entries)),
    ensures
        entry_map(entries) == built_map(entries),
    decreases entries.len(),
{
    if entries.len() == 0 {
        assert(entry_map(entries) =~= Map::empty());
    } else {
        let before = entries.drop_last();
        let (key, value) = entries.last();
        let n = before.len() as int;
        assert forall|i: int, j: int| 0 <= i < j < before.len() implies K::rank_before(
            (#[trigger] entry_keys(before)[i]).rank(),
            (#[trigger] entry_keys(before)[j]).rank(),
        ) by {
            assert(K::rank_before(entry_keys(entries)[i].rank(), entry_keys(entries)[j].rank()));
        }
        assert forall|i: int| 0 <= i < n implies K::rank_before(
            (#[trigger] before[i]).0.rank(),
            key.rank(),
        ) by {
            assert(K::rank_before(entry_keys(entries)[i].rank(), entry_keys(entries)[n].rank()));
        }
        lemma_built_map(before);
        lemma_inserted(before, n, key, value);
        assert(before.insert(n, (key, value)) =~= entries);
    }
}

impl<K: Ranked, V: View> OrderedMap<K, V> {
    #[verifier::type_invariant]
    spec fn ordered(self) -> bool {
        rising(entry_keys(self.entries@))
    }

    /// The entries, in the order of their keys.
    pub closed spec fn entry_seq(&self) -> Seq<(K, V)> {
        self.entries@
    }

    /// The key under which the entry of each rank is kept.
    pub open spec fn keys(&self) -> Map<K::Rank, K> {
        key_map(self.entry_seq())
    }

    pub fn new() -> (r: Self)
        ensures
            r@ == Map::<K::Rank, V::V>::empty(),
            r.keys() == Map::<K::Rank, K>::empty(),
            r.entry_seq() == Seq::<(K, V)>::empty(),
    {
        let r: OrderedMap<K, V> = OrderedMap { entries: Vec::new() };
        assert(r@ =~= Map::<K::Rank, V::V>::empty());
        assert(r.keys() =~= Map::<K::Rank, K>::empty());
        r
    }

    pub fn len(&self) -> (n: usize)
        ensures
            n == self.entry_seq().len(),
            rising(entry_keys(self.entry_seq())),
    {
        proof {
            use_type_invariant(self);
        }
        self.entries.len()
    }

    /// The key at a position.
    pub fn key_at(&self, i: usize) -> (k: &K)
        requires
            i < self.entry_seq().len(),
        ensures
            *k == self.entry_seq()[i as int].0,
            self@.dom().contains(k.rank()),
            self.keys().dom().contains(k.rank()),
            self.keys()[k.rank()] == *k,
    {
        proof {
            use_type_invariant(self);
            lemma_position(self.entries@, i as int);
        }
        &self.entries[i].0
    }

    /// The value at a position.
    pub fn value_at(&self, i: usize) -> (v: &V)
        requires
            i < self.entry_seq().len(),
        ensures
            *v == self.entry_seq()[i as int].1,
            v@ == self@[self.entry_seq()[i as int].0.rank()],
    {
        proof {
            use_type_invariant(self);
            lemma_position(self.entries@, i as int);
        }
        &self.entries[i].1
    }

    /// The first position whose key does not come before `key`.
    fn place(&self, key: &K) -> (at: usize)
        ensures
            at <= self.entries@.len(),
            forall|i: int|
                0 <= i < at ==> K::rank_before((#[trigger] self.entries@[i]).0.rank(), key.rank()),
            forall|i: int|
                at <= i < self.entries@.len() ==> !K::rank_before(
                    (#[trigger] self.entries@[i]).0.rank(),
                    key.rank(),
                ),
    {
        proof {
            use_type_invariant(self);
        }
        let mut at: usize = 0;
        while at < self.entries.len() && self.entries[at].0.is_before(key)
            invariant
                at <= self.entries.len(),
                forall|i: int|
                    0 <= i < at ==> K::rank_before(
                        (#[trigger] self.entries@[i]).0.rank(),
                        key.rank(),
                    ),
            decreases self.entries.len() - at,
        {
            at += 1;
        }
        proof {
            let keys = entry_keys(self.entries@);
            assert forall|i: int| at <= i < self.entries@.len() implies !K::rank_before(
                (#[trigger] self.entries@[i]).0.rank(),
                key.rank(),
            ) by {
                if i > at && K::rank_before(self.entries@[i].0.rank(), key.rank()) {
                    assert(K::rank_before(keys[at as int].rank(), keys[i].rank()));
                    K::rank_transitive(keys[at as int].rank(), keys[i].rank(), key.rank());
                }
            }
        }
        at
    }

    /// The position of a key of the same rank.
    pub fn find(&self, key: &K) -> (r: Option<usize>)
        ensures
            match r {
                Some(i) => i < self.entry_seq().len() && self.entry_seq()[i as int].0.rank()
                    == key.rank() && self@.dom().contains(key.rank()) && self@[key.rank()]
                    == self.entry_seq()[i as int].1@,
                None => !self@.dom().contains(key.rank()),
            },
    {
        let at = self.place(key);
        proof {
            use_type_invariant(self);
        }
        if at < self.entries.len() && !key.is_before(&self.entries[at].0) {
            proof {
                K::rank_total(self.entries@[at as int].0.rank(), key.rank());
                lemma_position(self.entries@, at as int);
            }
            Some(at)
        } else {
            proof {
                let keys = entry_keys(self.entries@);
                if self@.dom().contains(key.rank()) {
                    let i = entry_position(self.entries@, key.rank());
                    assert(ranked_at(keys, key.rank(), i));
                    assert(self.entries@[i].0.rank() == key.rank());
                    K::rank_irreflexive(key.rank());
                    if i > at {
                        assert(K::rank_before(keys[at as int].rank(), keys[i].rank()));
                    }
                }
            }
            None
        }
    }

    pub fn contains(&self, key: &K) -> (r: bool)
        ensures
            r == self@.dom().contains(key.rank()),
    {
        self.find(key).is_some()
    }

    pub fn get(&self, key: &K) -> (r: Option<&V>)
        ensures
            match r {
                Some(v) => self@.dom().contains(key.rank()) && v@ == self@[key.rank()],
                None => !self@.dom().contains(key.rank()),
            },
    {
        match self.find(key) {
            Some(i) => Some(&self.entries[i].1),
            None => None,
        }
    }

    /// Adds an entry, or gives the entry of that rank a new value; its key then stays.
    pub fn insert(&mut self, key: K, value: V)
        ensures
            final(self)@ == old(self)@.insert(key.rank(), value@),
            final(self).keys() == with_key(old(self).keys(), key),
    {
        let at = self.place(&key);
        proof {
            use_type_invariant(&*self);
        }
        let mut entries: Vec<(K, V)> = Vec::new();
        std::mem::swap(&mut entries, &mut self.entries);
        let ghost before = entries@;
        if at < entries.len() && !key.is_before(&entries[at].0) {
            proof {
                K::rank_total(before[at as int].0.rank(), key.rank());
                lemma_replaced(before, at as int, key, value);
            }
            let (kept, _) = entries.remove(at);
            entries.insert(at, (kept, value));
            assert(entries@ =~= before.update(at as int, (before[at as int].0, value)));
        } else {
            proof {
                assert forall|i: int| at <= i < before.len() implies K::rank_before(
                    key.rank(),
                    (#[trigger] before[i]).0.rank(),
                ) by {
                    if i > at {
                        let keys = entry_keys(before);
                        assert(K::rank_before(keys[at as int].rank(), keys[i].rank()));
                        K::rank_transitive(key.rank(), keys[at as int].rank(), keys[i].rank());
                    }
                }
                lemma_inserted(before, at as int, key, value);
            }
            entries.insert(at, (key, value));
        }
        self.entries = entries;
    }

    /// Takes out the entry of a rank, if there is one.
    pub fn remove(&mut self, key: &K)
        ensures
            final(self)@ == old(self)@.remove(key.rank()),
            final(self).keys() == old(self).keys().remove(key.rank()),
    {
        proof {
            use_type_invariant(&*self);
        }
        match self.find(key) {
            Some(at) => {
                let mut entries: Vec<(K, V)> = Vec::new();
                std::mem::swap(&mut entries, &mut self.entries);
                proof {
                    lemma_removed(entries@, at as int, key.rank());
                }
                let _ = entries.remove(at);
                self.entries = entries;
            },
            None => {
                assert(self@ =~= old(self)@.remove(key.rank()));
                assert(self.keys().dom() =~= self@.dom());
                assert(self.keys() =~= old(self).keys().remove(key.rank()));
            },
        }
    }
}

impl<K: Ranked, V: View> View for OrderedMap<K, V> {
    type V = Map<K::Rank, V::V>;

    open spec fn view(&self) -> Map<K::Rank, V::V> {
        entry_map(self.entry_seq())
    }
}

} // verus!
