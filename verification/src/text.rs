//! Text as sequences of characters: splitting, trimming, joining, and numbers in text form.
//!
//! Every function here works on the characters of a string; contracts speak of `Seq<char>`.
use vstd::prelude::*;

verus! {

/// `String::push` of the standard library: appends one character to the end of the string.
pub assume_specification[ String::push ](s: &mut String, c: char)
    ensures
        final(s)@ == old(s)@.push(c),
;

/// The texts held by a sequence of strings.
pub open spec fn texts(v: Seq<String>) -> Seq<Seq<char>> {
    Seq::new(v.len(), |i: int| v[i]@)
}

/// The texts held by a sequence of string slices.
pub open spec fn strs(v: Seq<&str>) -> Seq<Seq<char>> {
    Seq::new(v.len(), |i: int| v[i]@)
}

/// The text held by an optional string.
pub open spec fn opt_text(o: Option<String>) -> Option<Seq<char>> {
    match o {
        Some(s) => Some(s@),
        None => None,
    }
}

/// The given text, or `default` where there is none.
pub open spec fn text_or(o: Option<Seq<char>>, default: Seq<char>) -> Seq<char> {
    match o {
        Some(s) => s,
        None => default,
    }
}

/// The parts in order, with `sep` between each two neighbours.
pub open spec fn join_texts(parts: Seq<Seq<char>>, sep: Seq<char>) -> Seq<char>
    decreases parts.len(),
{
    if parts.len() == 0 {
        Seq::empty()
    } else if parts.len() == 1 {
        parts[0]
    } else {
        join_texts(parts.drop_last(), sep) + sep + parts.last()
    }
}

/// Whether `prefix` stands at the front of `s`.
pub open spec fn has_prefix(s: Seq<char>, prefix: Seq<char>) -> bool {
    prefix.len() <= s.len() && s.take(prefix.len() as int) == prefix
}

/// Whether a character has the Unicode property `White_Space`.
pub open spec fn is_space(c: char) -> bool {
    let v = c as u32;
    ||| 0x09 <= v <= 0x0d
    ||| v == 0x20
    ||| v == 0x85
    ||| v == 0xa0
    ||| v == 0x1680
    ||| 0x2000 <= v <= 0x200a
    ||| v == 0x2028
    ||| v == 0x2029
    ||| v == 0x202f
    ||| v == 0x205f
    ||| v == 0x3000
}

pub open spec fn is_ascii_digit(c: char) -> bool {
    '0' <= c <= '9'
}

pub open spec fn is_ascii_alphanumeric(c: char) -> bool {
    is_ascii_digit(c) || 'a' <= c <= 'z' || 'A' <= c <= 'Z'
}

/// What a text is split at.
#[derive(Clone, Copy, Debug)]
pub enum Separator {
    /// One given character.
    Char(char),
    /// Any white space.
    Space,
    /// Anything but an ASCII digit or a dot.
    NotNumeric,
}

/// Whether the character separates two pieces.
pub open spec fn separates(sep: Separator, c: char) -> bool {
    match sep {
        Separator::Char(d) => c == d,
        Separator::Space => is_space(c),
        Separator::NotNumeric => !is_ascii_digit(c) && c != '.',
    }
}

/// The pieces between separators, empty ones included; one more than there are separators.
pub open spec fn pieces(s: Seq<char>, sep: Separator) -> Seq<Seq<char>>
    decreases s.len(),
{
    if s.len() == 0 {
        seq![Seq::<char>::empty()]
    } else {
        let before = pieces(s.drop_last(), sep);
        if separates(sep, s.last()) {
            before.push(Seq::<char>::empty())
        } else {
            before.drop_last().push(before.last().push(s.last()))
        }
    }
}

/// The members of a sequence of texts that are not empty, in order.
pub open spec fn non_empty(parts: Seq<Seq<char>>) -> Seq<Seq<char>>
    decreases parts.len(),
{
    if parts.len() == 0 {
        Seq::empty()
    } else {
        let before = non_empty(parts.drop_last());
        if parts.last().len() > 0 {
            before.push(parts.last())
        } else {
            before
        }
    }
}

/// The words of a text: its longest runs without white space.
pub open spec fn words(s: Seq<char>) -> Seq<Seq<char>> {
    non_empty(pieces(s, Separator::Space))
}

/// A line without the carriage return that its line feed followed.
pub open spec fn without_return(line: Seq<char>) -> Seq<char> {
    if line.len() > 0 && line.last() == '\r' {
        line.drop_last()
    } else {
        line
    }
}

/// The lines of a text. A line ends in a line feed, with or without a carriage return before it;
/// the last line may go without.
pub open spec fn lines(s: Seq<char>) -> Seq<Seq<char>> {
    let parts = pieces(s, Separator::Char('\n'));
    let ended = Seq::new((parts.len() - 1) as nat, |i: int| without_return(parts[i]));
    if parts.last().len() == 0 {
        ended
    } else {
        ended.push(parts.last())
    }
}

/// The position of the first `c` in `s`, or the length of `s` where there is none.
pub open spec fn first_position(s: Seq<char>, c: char) -> int
    decreases s.len(),
{
    if s.len() == 0 || s[0] == c {
        0
    } else {
        1 + first_position(s.drop_first(), c)
    }
}

/// The text before and the text after the first `c`.
pub open spec fn split_first(s: Seq<char>, c: char) -> Option<(Seq<char>, Seq<char>)> {
    let i = first_position(s, c);
    if i < s.len() {
        Some((s.take(i), s.skip(i + 1)))
    } else {
        None
    }
}

/// The position of the last `c` in `s`, or -1 where there is none.
pub open spec fn last_position(s: Seq<char>, c: char) -> int
    decreases s.len(),
{
    if s.len() == 0 {
        -1
    } else if s.last() == c {
        s.len() - 1
    } else {
        last_position(s.drop_last(), c)
    }
}

/// The text before and the text after the last `c`.
pub open spec fn split_last(s: Seq<char>, c: char) -> Option<(Seq<char>, Seq<char>)> {
    let i = last_position(s, c);
    if i >= 0 {
        Some((s.take(i), s.skip(i + 1)))
    } else {
        None
    }
}

/// A set of characters that is stripped from an end of a text.
#[derive(Clone, Copy, Debug)]
pub enum Margin {
    Space,
    One(char),
    Brackets,
}

pub open spec fn in_margin(m: Margin, c: char) -> bool {
    match m {
        Margin::Space => is_space(c),
        Margin::One(d) => c == d,
        Margin::Brackets => c == '[' || c == ']',
    }
}

/// The text without the margin characters at its front.
pub open spec fn strip_front(s: Seq<char>, m: Margin) -> Seq<char>
    decreases s.len(),
{
    if s.len() > 0 && in_margin(m, s[0]) {
        strip_front(s.drop_first(), m)
    } else {
        s
    }
}

/// The text without the margin characters at its back.
pub open spec fn strip_back(s: Seq<char>, m: Margin) -> Seq<char>
    decreases s.len(),
{
    if s.len() > 0 && in_margin(m, s.last()) {
        strip_back(s.drop_last(), m)
    } else {
        s
    }
}

/// The text without the white space around it.
pub open spec fn trimmed(s: Seq<char>) -> Seq<char> {
    strip_back(strip_front(s, Margin::Space), Margin::Space)
}

/// The decimal digit for a number below ten, the hexadecimal one for a number below sixteen.
pub open spec fn digit_char(d: int) -> char {
    if d < 10 {
        (d + 48) as char
    } else {
        (d - 10 + 97) as char
    }
}

/// A number in decimal, without leading zeros.
pub open spec fn decimal(n: nat) -> Seq<char>
    decreases n,
{
    if n < 10 {
        seq![digit_char(n as int)]
    } else {
        decimal(n / 10).push(digit_char((n % 10) as int))
    }
}

/// The value of a digit in any base up to sixteen.
pub open spec fn digit_value(c: char) -> Option<nat> {
    if '0' <= c <= '9' {
        Some((c as int - 48) as nat)
    } else if 'a' <= c <= 'f' {
        Some((c as int - 97 + 10) as nat)
    } else if 'A' <= c <= 'F' {
        Some((c as int - 65 + 10) as nat)
    } else {
        None
    }
}

pub open spec fn is_digit_of(c: char, radix: nat) -> bool {
    digit_value(c) is Some && digit_value(c)->0 < radix
}

/// The number that digits stand for in a base.
pub open spec fn number_of(digits: Seq<char>, radix: nat) -> nat
    decreases digits.len(),
{
    if digits.len() == 0 {
        0
    } else {
        number_of(digits.drop_last(), radix) * radix + digit_value(digits.last())->0
    }
}

/// The digits of a number that may carry a plus sign.
pub open spec fn unsigned_digits(s: Seq<char>) -> Seq<char> {
    if s.len() > 0 && s[0] == '+' {
        s.skip(1)
    } else {
        s
    }
}

/// The number that a text stands for: at least one digit of the base, nothing else but one plus
/// sign in front, and no more than `max`.
pub open spec fn unsigned(s: Seq<char>, radix: nat, max: nat) -> Option<nat> {
    let digits = unsigned_digits(s);
    if digits.len() > 0 && (forall|i: int|
        0 <= i < digits.len() ==> is_digit_of(#[trigger] digits[i], radix)) && number_of(
        digits,
        radix,
    ) <= max {
        Some(number_of(digits, radix))
    } else {
        None
    }
}

/// The text padded with blanks on the right to `width` characters.
pub open spec fn padded(s: Seq<char>, width: nat) -> Seq<char> {
    if s.len() >= width {
        s
    } else {
        s + Seq::new((width - s.len()) as nat, |i: int| ' ')
    }
}

/// The characters of a text.
pub fn to_chars(s: &str) -> (r: Vec<char>)
    ensures
        r@ == s@,
{
    let mut r: Vec<char> = Vec::new();
    for c in it: s.chars()
        invariant
            r@ == s@.take(it.index() as int),
            it.seq() == s@,
    {
        r.push(c);
    }
    r
}

/// The characters from `from` up to `to` as a text.
pub fn from_chars(chars: &Vec<char>, from: usize, to: usize) -> (r: String)
    requires
        from <= to <= chars.len(),
    ensures
        r@ == chars@.subrange(from as int, to as int),
{
    let mut r = String::new();
    let mut i: usize = from;
    while i < to
        invariant
            from <= i <= to <= chars.len(),
            r@ == chars@.subrange(from as int, i as int),
        decreases to - i,
    {
        r.push(chars[i]);
        i += 1;
    }
    r
}

pub fn same_text(a: &str, b: &str) -> (r: bool)
    ensures
        r == (a@ == b@),
{
    let left = a.to_owned();
    let right = b.to_owned();
    left == right
}

/// Equality of optional texts.
pub fn same_option(a: &Option<String>, b: &Option<String>) -> (r: bool)
    ensures
        r == (opt_text(*a) == opt_text(*b)),
{
    match (a, b) {
        (Some(x), Some(y)) => same_text(x.as_str(), y.as_str()),
        (None, None) => true,
        _ => false,
    }
}

/// Whether an optional text is there and equal to `b`.
pub fn option_is(a: &Option<String>, b: &str) -> (r: bool)
    ensures
        r == (opt_text(*a) == Some(b@)),
{
    match a {
        Some(x) => same_text(x.as_str(), b),
        None => false,
    }
}

pub fn copy_option(o: &Option<String>) -> (r: Option<String>)
    ensures
        r == *o,
        opt_text(r) == opt_text(*o),
{
    match o {
        Some(s) => Some(s.clone()),
        None => None,
    }
}

pub fn copy_texts(v: &Vec<String>) -> (r: Vec<String>)
    ensures
        r@ == v@,
        texts(r@) == texts(v@),
{
    let mut r: Vec<String> = Vec::new();
    let mut i: usize = 0;
    while i < v.len()
        invariant
            i <= v.len(),
            r@ == v@.take(i as int),
        decreases v.len() - i,
    {
        r.push(v[i].clone());
        i += 1;
    }
    assert(r@ =~= v@);
    r
}

/// Owned copies of the given texts, in order.
pub fn arguments(parts: Vec<&str>) -> (r: Vec<String>)
    ensures
        texts(r@) == strs(parts@),
{
    let mut r: Vec<String> = Vec::new();
    let mut i: usize = 0;
    while i < parts.len()
        invariant
            i <= parts.len(),
            r@.len() == i,
            forall|k: int| 0 <= k < i ==> (#[trigger] r@[k])@ == parts@[k]@,
        decreases parts.len() - i,
    {
        r.push(parts[i].to_owned());
        i += 1;
    }
    assert(texts(r@) =~= strs(parts@));
    r
}

/// Adds copies of the texts of one list to the end of another.
pub fn append_texts(list: &mut Vec<String>, more: &Vec<String>)
    ensures
        texts(final(list)@) == texts(old(list)@) + texts(more@),
{
    let ghost before = texts(list@);
    let mut i: usize = 0;
    assert(texts(list@) =~= before + texts(more@).take(0));
    while i < more.len()
        invariant
            i <= more.len(),
            texts(list@) == before + texts(more@).take(i as int),
        decreases more.len() - i,
    {
        let ghost sofar = texts(list@);
        list.push(more[i].clone());
        assert(texts(list@) =~= sofar.push(more@[i as int]@));
        assert(texts(more@).take(i + 1) =~= texts(more@).take(i as int).push(more@[i as int]@));
        assert(sofar.push(more@[i as int]@) =~= before + texts(more@).take(i + 1));
        i += 1;
    }
    assert(texts(more@).take(more.len() as int) =~= texts(more@));
}

pub fn contains_text(v: &Vec<String>, s: &str) -> (r: bool)
    ensures
        r == texts(v@).contains(s@),
{
    let mut i: usize = 0;
    while i < v.len()
        invariant
            i <= v.len(),
            forall|k: int| 0 <= k < i ==> (#[trigger] v@[k])@ != s@,
        decreases v.len() - i,
    {
        if same_text(v[i].as_str(), s) {
            assert(texts(v@)[i as int] == s@);
            return true;
        }
        i += 1;
    }
    assert forall|k: int| 0 <= k < texts(v@).len() implies texts(v@)[k] != s@ by {
        assert(v@[k]@ != s@);
    }
    false
}

pub fn join(v: &Vec<String>, sep: &str) -> (r: String)
    ensures
        r@ == join_texts(texts(v@), sep@),
{
    let mut r = String::new();
    let mut i: usize = 0;
    let ghost all = texts(v@);
    while i < v.len()
        invariant
            i <= v.len(),
            all == texts(v@),
            r@ == join_texts(all.take(i as int), sep@),
        decreases v.len() - i,
    {
        if i > 0 {
            r.append(sep);
        }
        r.append(v[i].as_str());
        proof {
            assert(all.take(i + 1).drop_last() =~= all.take(i as int));
            if i == 0 {
                assert(r@ =~= all[0]);
            }
        }
        i += 1;
    }
    assert(all.take(v.len() as int) =~= all);
    r
}

pub fn starts_with(s: &str, prefix: &str) -> (r: bool)
    ensures
        r == has_prefix(s@, prefix@),
{
    let a = to_chars(s);
    let b = to_chars(prefix);
    if b.len() > a.len() {
        return false;
    }
    let mut i: usize = 0;
    while i < b.len()
        invariant
            i <= b.len() <= a.len(),
            a@ == s@,
            b@ == prefix@,
            forall|k: int| 0 <= k < i ==> a@[k] == b@[k],
        decreases b.len() - i,
    {
        if a[i] != b[i] {
            assert(a@.take(b.len() as int)[i as int] != b@[i as int]);
            return false;
        }
        i += 1;
    }
    assert(a@.take(b.len() as int) =~= b@);
    true
}

pub fn space(c: char) -> (r: bool)
    ensures
        r == is_space(c),
{
    let v = c as u32;
    (0x09 <= v && v <= 0x0d) || v == 0x20 || v == 0x85 || v == 0xa0 || v == 0x1680 || (0x2000 <= v
        && v <= 0x200a) || v == 0x2028 || v == 0x2029 || v == 0x202f || v == 0x205f || v == 0x3000
}

pub fn digit(c: char) -> (r: bool)
    ensures
        r == is_ascii_digit(c),
{
    '0' <= c && c <= '9'
}

pub fn alphanumeric(c: char) -> (r: bool)
    ensures
        r == is_ascii_alphanumeric(c),
{
    digit(c) || ('a' <= c && c <= 'z') || ('A' <= c && c <= 'Z')
}

fn separator(sep: Separator, c: char) -> (r: bool)
    ensures
        r == separates(sep, c),
{
    match sep {
        Separator::Char(d) => c == d,
        Separator::Space => space(c),
        Separator::NotNumeric => !digit(c) && c != '.',
    }
}

fn margin(m: Margin, c: char) -> (r: bool)
    ensures
        r == in_margin(m, c),
{
    match m {
        Margin::Space => space(c),
        Margin::One(d) => c == d,
        Margin::Brackets => c == '[' || c == ']',
    }
}

/// The pieces between separators, empty ones included.
pub fn split(s: &str, sep: Separator) -> (r: Vec<String>)
    ensures
        texts(r@) == pieces(s@, sep),
        r@.len() >= 1,
{
    let chars = to_chars(s);
    let mut r: Vec<String> = Vec::new();
    let mut current = String::new();
    let mut i: usize = 0;
    assert(texts(r@).push(current@) =~= pieces(s@.take(0), sep));
    while i < chars.len()
        invariant
            i <= chars.len(),
            chars@ == s@,
            texts(r@).push(current@) == pieces(s@.take(i as int), sep),
        decreases chars.len() - i,
    {
        let c = chars[i];
        let ghost before = texts(r@);
        proof {
            assert(s@.take(i + 1).drop_last() =~= s@.take(i as int));
            assert(before.push(current@).drop_last() =~= before);
        }
        if separator(sep, c) {
            r.push(current);
            current = String::new();
            assert(texts(r@).drop_last() =~= before);
            assert(texts(r@) =~= pieces(s@.take(i as int), sep));
        } else {
            current.push(c);
        }
        i += 1;
    }
    assert(s@.take(chars.len() as int) =~= s@);
    let ghost before = texts(r@);
    r.push(current);
    assert(texts(r@) =~= before.push(current@));
    r
}

/// The words of a text: its longest runs without white space.
pub fn split_words(s: &str) -> (r: Vec<String>)
    ensures
        texts(r@) == words(s@),
{
    keep_non_empty(split(s, Separator::Space))
}

/// The members that are not empty, in order.
pub fn keep_non_empty(parts: Vec<String>) -> (r: Vec<String>)
    ensures
        texts(r@) == non_empty(texts(parts@)),
{
    let mut r: Vec<String> = Vec::new();
    let mut i: usize = 0;
    let ghost all = texts(parts@);
    while i < parts.len()
        invariant
            i <= parts.len(),
            all == texts(parts@),
            texts(r@) == non_empty(all.take(i as int)),
        decreases parts.len() - i,
    {
        let ghost before = texts(r@);
        if !parts[i].as_str().is_empty() {
            r.push(parts[i].clone());
            assert(texts(r@) =~= before.push(all[i as int]));
        }
        assert(all.take(i + 1).drop_last() =~= all.take(i as int));
        i += 1;
    }
    assert(all.take(parts.len() as int) =~= all);
    r
}

/// The lines of a text, without their endings.
pub fn split_lines(s: &str) -> (r: Vec<String>)
    ensures
        texts(r@) == lines(s@),
{
    let parts = split(s, Separator::Char('\n'));
    let mut r: Vec<String> = Vec::new();
    let ghost all = texts(parts@);
    let count = parts.len();
    let mut i: usize = 0;
    while i + 1 < count
        invariant
            count == parts.len(),
            count >= 1,
            i + 1 <= count,
            all == texts(parts@),
            r@.len() == i,
            forall|k: int| 0 <= k < i ==> (#[trigger] r@[k])@ == without_return(all[k]),
        decreases count - i,
    {
        let chars = to_chars(parts[i].as_str());
        let n = chars.len();
        let line = if n > 0 && chars[n - 1] == '\r' {
            from_chars(&chars, 0, n - 1)
        } else {
            from_chars(&chars, 0, n)
        };
        proof {
            assert(chars@.subrange(0, n as int) =~= chars@);
            if n > 0 {
                assert(chars@.subrange(0, n - 1) =~= chars@.drop_last());
            }
        }
        r.push(line);
        i += 1;
    }
    let ghost ended = Seq::new((all.len() - 1) as nat, |i: int| without_return(all[i]));
    assert(texts(r@) =~= ended);
    if !parts[count - 1].as_str().is_empty() {
        r.push(parts[count - 1].clone());
        assert(texts(r@) =~= ended.push(all.last()));
    }
    r
}

proof fn lemma_first_position(s: Seq<char>, c: char, i: int)
    requires
        0 <= i <= s.len(),
        forall|k: int| 0 <= k < i ==> s[k] != c,
        i == s.len() || s[i] == c,
    ensures
        first_position(s, c) == i,
    decreases s.len(),
{
    if i > 0 {
        assert forall|k: int| 0 <= k < i - 1 implies s.drop_first()[k] != c by {
            assert(s[k + 1] != c);
        }
        lemma_first_position(s.drop_first(), c, i - 1);
    }
}

proof fn lemma_last_position(s: Seq<char>, c: char, i: int)
    requires
        -1 <= i < s.len(),
        forall|k: int| i < k < s.len() ==> s[k] != c,
        i == -1 || s[i] == c,
    ensures
        last_position(s, c) == i,
    decreases s.len(),
{
    if s.len() > 0 && i < s.len() - 1 {
        assert(s[s.len() - 1] != c);
        lemma_last_position(s.drop_last(), c, i);
    }
}

/// The text before and the text after the first `c`.
pub fn split_once(s: &str, c: char) -> (r: Option<(String, String)>)
    ensures
        match r {
            Some((a, b)) => split_first(s@, c) == Some((a@, b@)),
            None => split_first(s@, c) is None,
        },
{
    let chars = to_chars(s);
    let mut i: usize = 0;
    while i < chars.len() && chars[i] != c
        invariant
            i <= chars.len(),
            forall|k: int| 0 <= k < i ==> chars@[k] != c,
        decreases chars.len() - i,
    {
        i += 1;
    }
    proof {
        lemma_first_position(s@, c, i as int);
    }
    if i == chars.len() {
        return None;
    }
    let a = from_chars(&chars, 0, i);
    let b = from_chars(&chars, i + 1, chars.len());
    assert(a@ =~= s@.take(i as int));
    assert(b@ =~= s@.skip(i + 1));
    Some((a, b))
}

/// The text before and the text after the last `c`.
pub fn rsplit_once(s: &str, c: char) -> (r: Option<(String, String)>)
    ensures
        match r {
            Some((a, b)) => split_last(s@, c) == Some((a@, b@)),
            None => split_last(s@, c) is None,
        },
{
    let chars = to_chars(s);
    let mut i: usize = chars.len();
    while i > 0 && chars[i - 1] != c
        invariant
            i <= chars.len(),
            forall|k: int| i <= k < chars.len() ==> chars@[k] != c,
        decreases i,
    {
        i -= 1;
    }
    proof {
        lemma_last_position(s@, c, i - 1);
    }
    if i == 0 {
        return None;
    }
    let a = from_chars(&chars, 0, i - 1);
    let b = from_chars(&chars, i, chars.len());
    assert(a@ =~= s@.take(i - 1));
    assert(b@ =~= s@.skip(i as int));
    Some((a, b))
}

proof fn lemma_strip_front(s: Seq<char>, m: Margin, i: int)
    requires
        0 <= i <= s.len(),
        forall|k: int| 0 <= k < i ==> in_margin(m, #[trigger] s[k]),
        i == s.len() || !in_margin(m, s[i]),
    ensures
        strip_front(s, m) == s.skip(i),
    decreases s.len(),
{
    if i > 0 {
        assert forall|k: int| 0 <= k < i - 1 implies in_margin(m, #[trigger] s.drop_first()[k]) by {
            assert(in_margin(m, s[k + 1]));
        }
        lemma_strip_front(s.drop_first(), m, i - 1);
        assert(s.drop_first().skip(i - 1) =~= s.skip(i));
    } else {
        assert(s.skip(0) =~= s);
    }
}

proof fn lemma_strip_back(s: Seq<char>, m: Margin, i: int)
    requires
        0 <= i <= s.len(),
        forall|k: int| i <= k < s.len() ==> in_margin(m, #[trigger] s[k]),
        i == 0 || !in_margin(m, s[i - 1]),
    ensures
        strip_back(s, m) == s.take(i),
    decreases s.len(),
{
    if i < s.len() {
        assert(in_margin(m, s[s.len() - 1]));
        lemma_strip_back(s.drop_last(), m, i);
        assert(s.drop_last().take(i) =~= s.take(i));
    } else {
        assert(s.take(i) =~= s);
    }
}

/// The text without the margin characters at its front.
pub fn trim_front(s: &str, m: Margin) -> (r: String)
    ensures
        r@ == strip_front(s@, m),
{
    let chars = to_chars(s);
    let mut i: usize = 0;
    while i < chars.len() && margin(m, chars[i])
        invariant
            i <= chars.len(),
            forall|k: int| 0 <= k < i ==> in_margin(m, #[trigger] chars@[k]),
        decreases chars.len() - i,
    {
        i += 1;
    }
    proof {
        lemma_strip_front(s@, m, i as int);
    }
    let r = from_chars(&chars, i, chars.len());
    assert(r@ =~= s@.skip(i as int));
    r
}

/// The text without the margin characters at its back.
pub fn trim_back(s: &str, m: Margin) -> (r: String)
    ensures
        r@ == strip_back(s@, m),
{
    let chars = to_chars(s);
    let mut i: usize = chars.len();
    while i > 0 && margin(m, chars[i - 1])
        invariant
            i <= chars.len(),
            forall|k: int| i <= k < chars.len() ==> in_margin(m, #[trigger] chars@[k]),
        decreases i,
    {
        i -= 1;
    }
    proof {
        lemma_strip_back(s@, m, i as int);
    }
    let r = from_chars(&chars, 0, i);
    assert(r@ =~= s@.take(i as int));
    r
}

/// The text without the white space around it.
pub fn trim(s: &str) -> (r: String)
    ensures
        r@ == trimmed(s@),
{
    let front = trim_front(s, Margin::Space);
    trim_back(front.as_str(), Margin::Space)
}

fn digit_to_char(d: u64) -> (c: char)
    requires
        d < 10,
    ensures
        c == digit_char(d as int),
{
    let byte = 48u8 + d as u8;
    byte as char
}

/// A number in decimal.
pub fn number_text(n: u64) -> (r: String)
    ensures
        r@ == decimal(n as nat),
    decreases n,
{
    if n < 10 {
        let mut r = String::new();
        r.push(digit_to_char(n));
        assert(r@ =~= seq![digit_char(n as int)]);
        r
    } else {
        let mut r = number_text(n / 10);
        r.push(digit_to_char(n % 10));
        r
    }
}

fn char_value(c: char) -> (r: Option<u64>)
    ensures
        match r {
            Some(v) => digit_value(c) == Some(v as nat) && v < 16,
            None => digit_value(c) is None,
        },
{
    if '0' <= c && c <= '9' {
        Some(c as u64 - 48)
    } else if 'a' <= c && c <= 'f' {
        Some(c as u64 - 97 + 10)
    } else if 'A' <= c && c <= 'F' {
        Some(c as u64 - 65 + 10)
    } else {
        None
    }
}

proof fn lemma_number_grows(digits: Seq<char>, radix: nat, i: int)
    requires
        0 <= i <= digits.len(),
        radix >= 1,
    ensures
        number_of(digits.take(i), radix) <= number_of(digits, radix),
    decreases digits.len(),
{
    if i < digits.len() {
        lemma_number_grows(digits.drop_last(), radix, i);
        assert(digits.drop_last().take(i) =~= digits.take(i));
        let low = number_of(digits.drop_last(), radix);
        assert(low <= low * radix) by (nonlinear_arith)
            requires
                radix >= 1,
                low >= 0,
        ;
    } else {
        assert(digits.take(i) =~= digits);
    }
}

/// The number that a text stands for in a base, if it is no more than `max`.
pub fn parse_unsigned(s: &str, radix: u64, max: u64) -> (r: Option<u64>)
    requires
        2 <= radix <= 16,
    ensures
        match r {
            Some(v) => unsigned(s@, radix as nat, max as nat) == Some(v as nat),
            None => unsigned(s@, radix as nat, max as nat) is None,
        },
{
    let chars = to_chars(s);
    let start: usize = if chars.len() > 0 && chars[0] == '+' {
        1
    } else {
        0
    };
    let ghost digits = unsigned_digits(s@);
    assert(digits =~= s@.skip(start as int));
    if start == chars.len() {
        return None;
    }
    let mut value: u64 = 0;
    let mut i: usize = start;
    while i < chars.len()
        invariant
            start <= i <= chars.len(),
            chars@ == s@,
            digits == s@.skip(start as int),
            digits == unsigned_digits(s@),
            2 <= radix <= 16,
            value <= max,
            value as nat == number_of(digits.take(i - start), radix as nat),
            forall|k: int| 0 <= k < i - start ==> is_digit_of(#[trigger] digits[k], radix as nat),
        decreases chars.len() - i,
    {
        let ghost at = i - start;
        assert(digits[at] == chars@[i as int]);
        match char_value(chars[i]) {
            Some(d) if d < radix => {
                assert(value * radix <= 0xffff_ffff_ffff_ffff * 16) by (nonlinear_arith)
                    requires
                        value <= 0xffff_ffff_ffff_ffff,
                        radix <= 16,
                ;
                let next: u128 = value as u128 * radix as u128 + d as u128;
                proof {
                    assert(digits.take(at + 1).drop_last() =~= digits.take(at));
                    assert(number_of(digits.take(at + 1), radix as nat) == next);
                    lemma_number_grows(digits, radix as nat, at + 1);
                }
                if next > max as u128 {
                    return None;
                }
                value = next as u64;
            },
            _ => {
                assert(!is_digit_of(digits[at], radix as nat));
                return None;
            },
        }
        i += 1;
    }
    assert(digits.take(chars.len() - start) =~= digits);
    Some(value)
}

/// The text padded with blanks on the right.
pub fn pad(s: &str, width: usize) -> (r: String)
    ensures
        r@ == padded(s@, width as nat),
{
    let mut r = s.to_owned();
    let count = to_chars(s).len();
    let mut i: usize = count;
    while i < width
        invariant
            count == s@.len(),
            r@ == s@ + Seq::new((i - count) as nat, |k: int| ' '),
            count <= i,
            i <= width || i == count,
        decreases width - i,
    {
        r.push(' ');
        i += 1;
        assert(r@ =~= s@ + Seq::new((i - count) as nat, |k: int| ' '));
    }
    assert(count >= width ==> r@ =~= s@);
    r
}

/// Whether `part` stands somewhere in `s`.
pub open spec fn has_substring(s: Seq<char>, part: Seq<char>) -> bool {
    exists|i: int| 0 <= i <= s.len() && #[trigger] has_prefix(s.skip(i), part)
}

pub fn contains_substring(s: &str, part: &str) -> (r: bool)
    ensures
        r == has_substring(s@, part@),
{
    let chars = to_chars(s);
    let count = chars.len();
    let mut i: usize = 0;
    loop
        invariant
            i <= count,
            count == chars.len(),
            chars@ == s@,
            forall|k: int| 0 <= k < i ==> !#[trigger] has_prefix(s@.skip(k), part@),
        decreases count - i,
    {
        let rest = from_chars(&chars, i, count);
        assert(rest@ =~= s@.skip(i as int));
        if starts_with(rest.as_str(), part) {
            return true;
        }
        if i == count {
            return false;
        }
        i += 1;
    }
}

pub fn contains_char(s: &str, c: char) -> (r: bool)
    ensures
        r == s@.contains(c),
{
    let chars = to_chars(s);
    let mut i: usize = 0;
    while i < chars.len()
        invariant
            i <= chars.len(),
            chars@ == s@,
            forall|k: int| 0 <= k < i ==> chars@[k] != c,
        decreases chars.len() - i,
    {
        if chars[i] == c {
            assert(s@.contains(chars@[i as int]));
            return true;
        }
        i += 1;
    }
    false
}

} // verus!
