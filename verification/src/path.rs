//! Slash-separated paths, compared part by part.
use vstd::prelude::*;
use vstd::utf8::{
    decode_utf8, decode_utf8_encode_utf8, encode_scalar, encode_utf8, valid_utf8,
};

use crate::encoding::decode_exact;
use crate::order::{
    lemma_lex_common, lemma_lex_irreflexive, lemma_lex_total, lemma_lex_transitive, lex_before,
    strict_order, text_before, text_less, with_key, Ranked,
};
use crate::text::{
    from_chars, join, join_texts, pieces, same_text, split, texts, to_chars, Separator,
};

verus! {

/// One part of a path.
pub enum PathPart {
    Root,
    Current,
    Parent,
    Normal(Seq<char>),
}

/// One part of a path, in executable form.
pub enum Component {
    Root,
    Current,
    Parent,
    Normal(String),
}

impl View for Component {
    type V = PathPart;

    open spec fn view(&self) -> PathPart {
        match self {
            Component::Root => PathPart::Root,
            Component::Current => PathPart::Current,
            Component::Parent => PathPart::Parent,
            Component::Normal(name) => PathPart::Normal(name@),
        }
    }
}

/// The character that stands before a byte in the text of a path that is not UTF-8.
pub const BYTE_MARK: char = '\u{10ffff}';

/// The bytes that the text of a path stands for: a character stands for itself in UTF-8, and one
/// behind a mark for a single byte.
pub open spec fn path_bytes(s: Seq<char>) -> Seq<u8>
    decreases s.len(),
{
    if s.len() == 0 {
        Seq::empty()
    } else if s[0] == BYTE_MARK && s.len() > 1 {
        seq![s[1] as u8] + path_bytes(s.skip(2))
    } else {
        encode_scalar(s[0] as u32) + path_bytes(s.skip(1))
    }
}

/// How a single byte is written.
pub open spec fn byte_text(b: u8) -> Seq<char> {
    if b < 0x80 {
        seq![b as char]
    } else {
        seq![BYTE_MARK, b as char]
    }
}

/// Bytes written one by one.
pub open spec fn marked_text(bytes: Seq<u8>) -> Seq<char>
    decreases bytes.len(),
{
    if bytes.len() == 0 {
        Seq::empty()
    } else {
        byte_text(bytes[0]) + marked_text(bytes.skip(1))
    }
}

/// The text of the path that bytes stand for: themselves where they are UTF-8 without a mark, and
/// one by one otherwise.
pub open spec fn bytes_text(bytes: Seq<u8>) -> Seq<char> {
    if valid_utf8(bytes) && !decode_utf8(bytes).contains(BYTE_MARK) {
        decode_utf8(bytes)
    } else {
        marked_text(bytes)
    }
}

proof fn lemma_unmarked(s: Seq<char>)
    requires
        !s.contains(BYTE_MARK),
    ensures
        path_bytes(s) == encode_utf8(s),
    decreases s.len(),
{
    if s.len() > 0 {
        assert(s.contains(s[0]));
        assert(s.skip(1) =~= s.drop_first());
        assert forall|i: int| 0 <= i < s.skip(1).len() implies s.skip(1)[i] != BYTE_MARK by {
            assert(s.contains(s[i + 1]));
        }
        lemma_unmarked(s.skip(1));
    }
}

proof fn lemma_marked(bytes: Seq<u8>)
    ensures
        path_bytes(marked_text(bytes)) == bytes,
    decreases bytes.len(),
{
    if bytes.len() > 0 {
        let b = bytes[0];
        let rest = marked_text(bytes.skip(1));
        lemma_marked(bytes.skip(1));
        let all = byte_text(b) + rest;
        if b < 0x80 {
            assert(all.skip(1) =~= rest);
            assert(b as char as u32 == b);
            let wide = b as u32;
            assert((wide & 0x7f) as u8 == wide) by (bit_vector)
                requires
                    wide < 0x80,
            ;
            assert(encode_scalar(b as char as u32) =~= seq![b]);
        } else {
            assert(all.skip(2) =~= rest);
            assert(all[1] as u8 == b);
        }
        assert(seq![b] + bytes.skip(1) =~= bytes);
    }
}

/// No name is lost: the text of a path stands for the bytes that it was made of, whether they are
/// UTF-8 or not, so that two paths of different bytes have different texts.
pub proof fn law_path_texts_keep_the_bytes(bytes: Seq<u8>)
    ensures
        path_bytes(bytes_text(bytes)) == bytes,
{
    if valid_utf8(bytes) && !decode_utf8(bytes).contains(BYTE_MARK) {
        lemma_unmarked(decode_utf8(bytes));
        decode_utf8_encode_utf8(bytes);
    } else {
        lemma_marked(bytes);
    }
}

/// A path as text. A path that is not UTF-8 is written byte by byte, with marks.
#[derive(Debug)]
pub struct FsPath {
    pub text: String,
}

impl FsPath {
    /// The path that bytes stand for.
    pub fn from_bytes(bytes: &Vec<u8>) -> (r: FsPath)
        ensures
            r@ == bytes_text(bytes@),
    {
        if let Some(text) = decode_exact(bytes) {
            if !has_mark(text.as_str()) {
                return FsPath { text };
            }
        }
        let mut chars: Vec<char> = Vec::new();
        let mut i: usize = 0;
        assert(bytes@.skip(0) =~= bytes@);
        assert(chars@ + marked_text(bytes@) =~= marked_text(bytes@));
        while i < bytes.len()
            invariant
                i <= bytes.len(),
                chars@ + marked_text(bytes@.skip(i as int)) == marked_text(bytes@),
            decreases bytes.len() - i,
        {
            let ghost before = chars@;
            let b = bytes[i];
            if b >= 0x80 {
                chars.push(BYTE_MARK);
            }
            chars.push(b as char);
            assert(bytes@.skip(i as int)[0] == b);
            assert(bytes@.skip(i as int).skip(1) =~= bytes@.skip(i + 1));
            assert(chars@ =~= before + byte_text(b));
            assert(chars@ + marked_text(bytes@.skip(i + 1)) =~= before + (byte_text(b)
                + marked_text(bytes@.skip(i + 1))));
            i += 1;
        }
        assert(bytes@.skip(bytes@.len() as int) =~= Seq::empty());
        assert(chars@ =~= marked_text(bytes@));
        let n = chars.len();
        assert(chars@.subrange(0, n as int) =~= chars@);
        FsPath { text: from_chars(&chars, 0, n) }
    }

    /// The bytes that a path stands for.
    pub fn bytes(&self) -> (r: Vec<u8>)
        ensures
            r@ == path_bytes(self@),
    {
        let chars = to_chars(self.text.as_str());
        let mut r: Vec<u8> = Vec::new();
        let mut i: usize = 0;
        assert(chars@.skip(0) =~= chars@);
        assert(r@ + path_bytes(chars@) =~= path_bytes(chars@));
        while i < chars.len()
            invariant
                i <= chars.len(),
                r@ + path_bytes(chars@.skip(i as int)) == path_bytes(chars@),
            decreases chars.len() - i,
        {
            let ghost before = r@;
            let ghost rest = chars@.skip(i as int);
            if chars[i] == BYTE_MARK && chars.len() - i > 1 {
                r.push(chars[i + 1] as u8);
                assert(rest.skip(2) =~= chars@.skip(i + 2));
                assert(r@ + path_bytes(rest.skip(2)) =~= before + (seq![rest[1] as u8]
                    + path_bytes(rest.skip(2))));
                i += 2;
            } else {
                let mut encoded = from_chars(&chars, i, i + 1).as_str().as_bytes_vec();
                proof {
                    let one = chars@.subrange(i as int, i + 1);
                    assert(one.drop_first() =~= Seq::empty());
                    assert(encode_utf8(one.drop_first()) =~= Seq::empty());
                    assert(encoded@ =~= encode_scalar(rest[0] as u32));
                }
                r.append(&mut encoded);
                assert(rest.skip(1) =~= chars@.skip(i + 1));
                assert(r@ + path_bytes(rest.skip(1)) =~= before + (encode_scalar(rest[0] as u32)
                    + path_bytes(rest.skip(1))));
                i += 1;
            }
        }
        assert(chars@.skip(chars@.len() as int) =~= Seq::empty());
        assert(r@ =~= path_bytes(chars@));
        r
    }
}

fn has_mark(text: &str) -> (r: bool)
    ensures
        r == text@.contains(BYTE_MARK),
{
    let chars = to_chars(text);
    let mut i: usize = 0;
    while i < chars.len()
        invariant
            i <= chars.len(),
            chars@ == text@,
            forall|k: int| 0 <= k < i ==> chars@[k] != BYTE_MARK,
        decreases chars.len() - i,
    {
        if chars[i] == BYTE_MARK {
            assert(text@[i as int] == BYTE_MARK);
            return true;
        }
        i += 1;
    }
    false
}

impl View for FsPath {
    type V = Seq<char>;

    open spec fn view(&self) -> Seq<char> {
        self.text@
    }
}

/// The texts of a sequence of paths.
pub open spec fn path_texts(paths: Seq<FsPath>) -> Seq<Seq<char>> {
    Seq::new(paths.len(), |i: int| paths[i]@)
}

/// Whether the path starts at the root.
pub open spec fn is_rooted(s: Seq<char>) -> bool {
    s.len() > 0 && s[0] == '/'
}

/// The parts that the pieces between slashes stand for: empty pieces stand for nothing, and `.`
/// only counts as the very first piece.
pub open spec fn piece_parts(raw: Seq<Seq<char>>) -> Seq<PathPart>
    decreases raw.len(),
{
    if raw.len() == 0 {
        Seq::empty()
    } else {
        let before = piece_parts(raw.drop_last());
        let piece = raw.last();
        if piece.len() == 0 || (piece == "."@ && raw.len() > 1) {
            before
        } else if piece == "."@ {
            before.push(PathPart::Current)
        } else if piece == ".."@ {
            before.push(PathPart::Parent)
        } else {
            before.push(PathPart::Normal(piece))
        }
    }
}

/// The parts of a path.
pub open spec fn parts(s: Seq<char>) -> Seq<PathPart> {
    let named = piece_parts(pieces(s, Separator::Char('/')));
    if is_rooted(s) {
        seq![PathPart::Root] + named
    } else {
        named
    }
}

/// Whether two paths have the same parts.
pub open spec fn same_parts(a: Seq<char>, b: Seq<char>) -> bool {
    parts(a) == parts(b)
}

/// Whether the parts of `base` stand at the front of `s`.
pub open spec fn is_under(s: Seq<char>, base: Seq<char>) -> bool {
    parts(base).len() <= parts(s).len() && parts(s).take(parts(base).len() as int) == parts(base)
}

/// `relative` taken from `base`; a path from the root replaces it.
pub open spec fn joined(base: Seq<char>, relative: Seq<char>) -> Seq<char> {
    if is_rooted(relative) {
        relative
    } else if base.len() == 0 || base.last() == '/' {
        base + relative
    } else {
        base + "/"@ + relative
    }
}

/// Whether a piece stands for no part inside a path.
pub open spec fn is_blank_piece(piece: Seq<char>) -> bool {
    piece.len() == 0 || piece == "."@
}

/// The pieces without the blank ones in front.
pub open spec fn drop_blank_front(raw: Seq<Seq<char>>) -> Seq<Seq<char>>
    decreases raw.len(),
{
    if raw.len() > 0 && is_blank_piece(raw[0]) {
        drop_blank_front(raw.drop_first())
    } else {
        raw
    }
}

/// The pieces without the blank ones at the back.
pub open spec fn drop_blank_back(raw: Seq<Seq<char>>) -> Seq<Seq<char>>
    decreases raw.len(),
{
    if raw.len() > 0 && is_blank_piece(raw.last()) {
        drop_blank_back(raw.drop_last())
    } else {
        raw
    }
}

/// What follows the root of a path from the root.
pub open spec fn below_root(s: Seq<char>) -> Seq<char> {
    join_texts(
        drop_blank_back(drop_blank_front(pieces(s, Separator::Char('/')))),
        "/"@,
    )
}

/// Whether a path can be taken from any directory without leaving it: it is not empty, does not
/// start at the root, and never goes to a parent.
pub open spec fn is_safe_relative(s: Seq<char>) -> bool {
    s.len() > 0 && !is_rooted(s) && !parts(s).contains(PathPart::Parent)
}

/// The order of parts: the root, the current directory, the parent, then names in text order.
pub open spec fn part_rank(p: PathPart) -> int {
    match p {
        PathPart::Root => 0,
        PathPart::Current => 1,
        PathPart::Parent => 2,
        PathPart::Normal(_) => 3,
    }
}

pub open spec fn part_before(a: PathPart, b: PathPart) -> bool {
    match (a, b) {
        (PathPart::Normal(x), PathPart::Normal(y)) => text_before(x, y),
        _ => part_rank(a) < part_rank(b),
    }
}

/// The order of parts, as a relation.
pub open spec fn part_order() -> spec_fn(PathPart, PathPart) -> bool {
    |x: PathPart, y: PathPart| part_before(x, y)
}

/// The order of paths, part by part.
pub open spec fn parts_before(a: Seq<PathPart>, b: Seq<PathPart>) -> bool {
    lex_before(part_order(), a, b)
}

proof fn lemma_part_order()
    ensures
        strict_order(part_order()),
{
    let less = part_order();
    assert forall|a: PathPart| !#[trigger] less(a, a) by {
        if let PathPart::Normal(x) = a {
            String::rank_irreflexive(x);
        }
    }
    assert forall|a: PathPart, b: PathPart| a == b || #[trigger] less(a, b) || less(b, a) by {
        if let PathPart::Normal(x) = a {
            if let PathPart::Normal(y) = b {
                String::rank_total(x, y);
            }
        }
    }
    assert forall|a: PathPart, b: PathPart, c: PathPart| #[trigger]
        less(a, b) && #[trigger] less(b, c) implies less(a, c) by {
        if let PathPart::Normal(x) = a {
            if let PathPart::Normal(y) = b {
                if let PathPart::Normal(z) = c {
                    String::rank_transitive(x, y, z);
                }
            }
        }
    }
}

/// The parts held by a list of components.
pub open spec fn component_parts(v: Seq<Component>) -> Seq<PathPart> {
    Seq::new(v.len(), |i: int| v[i]@)
}

/// The components of a path.
pub fn components(path: &str) -> (r: Vec<Component>)
    ensures
        component_parts(r@) == parts(path@),
{
    let raw = split(path, Separator::Char('/'));
    let chars = to_chars(path);
    let rooted = chars.len() > 0 && chars[0] == '/';
    let mut r: Vec<Component> = Vec::new();
    let ghost head: Seq<PathPart> = if rooted {
        seq![PathPart::Root]
    } else {
        Seq::empty()
    };
    if rooted {
        r.push(Component::Root);
    }
    let ghost all = texts(raw@);
    let mut i: usize = 0;
    assert(component_parts(r@) =~= head + piece_parts(all.take(0)));
    while i < raw.len()
        invariant
            i <= raw.len(),
            all == texts(raw@),
            component_parts(r@) == head + piece_parts(all.take(i as int)),
        decreases raw.len() - i,
    {
        let ghost before = r@;
        proof {
            assert(all.take(i + 1).drop_last() =~= all.take(i as int));
            assert(all.take(i + 1).last() == raw@[i as int]@);
        }
        let piece = raw[i].as_str();
        if piece.is_empty() {
        } else if same_text(piece, ".") {
            if i == 0 {
                r.push(Component::Current);
                assert(component_parts(r@) =~= component_parts(before).push(PathPart::Current));
            }
        } else if same_text(piece, "..") {
            r.push(Component::Parent);
            assert(component_parts(r@) =~= component_parts(before).push(PathPart::Parent));
        } else {
            r.push(Component::Normal(raw[i].clone()));
            assert(component_parts(r@) =~= component_parts(before).push(
                PathPart::Normal(all[i as int]),
            ));
        }
        i += 1;
        assert(component_parts(r@) =~= head + piece_parts(all.take(i as int)));
    }
    assert(all.take(raw.len() as int) =~= all);
    assert(component_parts(r@) =~= parts(path@));
    r
}

fn same_component(a: &Component, b: &Component) -> (r: bool)
    ensures
        r == (a@ == b@),
{
    match (a, b) {
        (Component::Root, Component::Root) => true,
        (Component::Current, Component::Current) => true,
        (Component::Parent, Component::Parent) => true,
        (Component::Normal(x), Component::Normal(y)) => same_text(x.as_str(), y.as_str()),
        _ => false,
    }
}

fn component_rank(a: &Component) -> (r: u8)
    ensures
        r == part_rank(a@),
{
    match a {
        Component::Root => 0,
        Component::Current => 1,
        Component::Parent => 2,
        Component::Normal(_) => 3,
    }
}

fn component_before(a: &Component, b: &Component) -> (r: bool)
    ensures
        r == part_before(a@, b@),
{
    match (a, b) {
        (Component::Normal(x), Component::Normal(y)) => text_less(x.as_str(), y.as_str()),
        _ => component_rank(a) < component_rank(b),
    }
}

/// The number of leading parts that two paths share.
fn common_length(x: &Vec<Component>, y: &Vec<Component>) -> (i: usize)
    ensures
        i <= x.len(),
        i <= y.len(),
        forall|k: int|
            0 <= k < i ==> #[trigger] component_parts(x@)[k] == component_parts(y@)[k],
        i < x.len() && i < y.len() ==> component_parts(x@)[i as int] != component_parts(
            y@,
        )[i as int],
{
    let mut i: usize = 0;
    while i < x.len() && i < y.len() && same_component(&x[i], &y[i])
        invariant
            i <= x.len(),
            i <= y.len(),
            forall|k: int|
                0 <= k < i ==> #[trigger] component_parts(x@)[k] == component_parts(y@)[k],
        decreases x.len() - i,
    {
        i += 1;
    }
    i
}

impl FsPath {
    pub fn new(text: &str) -> (r: FsPath)
        ensures
            r@ == text@,
    {
        FsPath { text: text.to_owned() }
    }

    pub fn copy(&self) -> (r: FsPath)
        ensures
            r@ == self@,
            r == *self,
    {
        FsPath { text: self.text.clone() }
    }

    /// The path as text.
    pub fn display(&self) -> (r: String)
        ensures
            r@ == self@,
    {
        self.text.clone()
    }

    pub fn is_absolute(&self) -> (r: bool)
        ensures
            r == is_rooted(self@),
    {
        let chars = to_chars(self.text.as_str());
        chars.len() > 0 && chars[0] == '/'
    }

    /// Whether two paths have the same parts.
    pub fn same(&self, other: &FsPath) -> (r: bool)
        ensures
            r == same_parts(self@, other@),
    {
        let x = components(self.text.as_str());
        let y = components(other.text.as_str());
        let i = common_length(&x, &y);
        proof {
            let a = component_parts(x@);
            let b = component_parts(y@);
            if i == x.len() && i == y.len() {
                assert(a =~= b);
            } else if i < x.len() && i < y.len() {
                assert(a[i as int] != b[i as int]);
            } else {
                assert(a.len() != b.len());
            }
        }
        i == x.len() && i == y.len()
    }

    /// Whether the parts of `base` stand at the front of this path.
    pub fn starts_with(&self, base: &FsPath) -> (r: bool)
        ensures
            r == is_under(self@, base@),
    {
        let x = components(self.text.as_str());
        let y = components(base.text.as_str());
        let i = common_length(&x, &y);
        proof {
            let a = component_parts(x@);
            let b = component_parts(y@);
            if i == y.len() {
                assert(a.take(b.len() as int) =~= b);
            } else if i < x.len() && b.len() <= a.len() {
                assert(a.take(b.len() as int)[i as int] == a[i as int]);
            }
        }
        i == y.len()
    }

    /// `relative` taken from this path.
    pub fn join(&self, relative: &str) -> (r: FsPath)
        ensures
            r@ == joined(self@, relative@),
    {
        let tail = to_chars(relative);
        let chars = to_chars(self.text.as_str());
        if tail.len() > 0 && tail[0] == '/' {
            FsPath { text: relative.to_owned() }
        } else if chars.len() == 0 || chars[chars.len() - 1] == '/' {
            FsPath { text: self.text.clone().concat(relative) }
        } else {
            FsPath { text: self.text.clone().concat("/").concat(relative) }
        }
    }

    /// What follows the root of this path.
    pub fn strip_root(&self) -> (r: FsPath)
        ensures
            r@ == below_root(self@),
    {
        let raw = split(self.text.as_str(), Separator::Char('/'));
        let mut from: usize = 0;
        let ghost all = texts(raw@);
        assert(all.skip(0) =~= all);
        while from < raw.len() && blank_piece(raw[from].as_str())
            invariant
                from <= raw.len(),
                all == texts(raw@),
                drop_blank_front(all) == drop_blank_front(all.skip(from as int)),
            decreases raw.len() - from,
        {
            proof {
                assert(all.skip(from as int)[0] == raw@[from as int]@);
                assert(all.skip(from as int).drop_first() =~= all.skip(from + 1));
            }
            from += 1;
        }
        let ghost rest = all.skip(from as int);
        proof {
            if from < raw.len() {
                assert(rest[0] == raw@[from as int]@);
            }
            assert(drop_blank_front(all) == rest);
        }
        let mut to: usize = raw.len();
        assert(rest.take(to - from) =~= rest);
        while to > from && blank_piece(raw[to - 1].as_str())
            invariant
                from <= to <= raw.len(),
                all == texts(raw@),
                rest == all.skip(from as int),
                drop_blank_back(rest) == drop_blank_back(rest.take(to - from)),
            decreases to,
        {
            proof {
                assert(rest.take(to - from).last() == raw@[to - 1]@);
                assert(rest.take(to - from).drop_last() =~= rest.take(to - from - 1));
            }
            to -= 1;
        }
        let ghost kept = rest.take(to - from);
        proof {
            if to > from {
                assert(kept.last() == raw@[to - 1]@);
            }
            assert(drop_blank_back(rest) == kept);
        }
        let mut names: Vec<String> = Vec::new();
        let mut i: usize = from;
        while i < to
            invariant
                from <= i <= to <= raw.len(),
                all == texts(raw@),
                names@.len() == i - from,
                forall|k: int| 0 <= k < i - from ==> (#[trigger] names@[k])@ == all[from + k],
            decreases to - i,
        {
            names.push(raw[i].clone());
            i += 1;
        }
        assert(texts(names@) =~= kept);
        FsPath { text: join(&names, "/") }
    }
}

fn blank_piece(piece: &str) -> (r: bool)
    ensures
        r == is_blank_piece(piece@),
{
    piece.is_empty() || same_text(piece, ".")
}

/// How the paths are written that are kept in a map.
pub open spec fn spelled(keys: Map<Seq<PathPart>, FsPath>) -> Map<Seq<PathPart>, Seq<char>> {
    keys.map_values(|path: FsPath| path@)
}

/// How the paths of a map are written after one was put into it: one that was there stays as it
/// is.
pub open spec fn with_spelling(
    paths: Map<Seq<PathPart>, Seq<char>>,
    path: Seq<char>,
) -> Map<Seq<PathPart>, Seq<char>> {
    if paths.dom().contains(parts(path)) {
        paths
    } else {
        paths.insert(parts(path), path)
    }
}

/// How paths are written does not change when others come and go.
pub proof fn lemma_spelled(keys: Map<Seq<PathPart>, FsPath>)
    ensures
        forall|path: FsPath| #[trigger]
            spelled(with_key(keys, path)) == with_spelling(spelled(keys), path@),
        forall|rank: Seq<PathPart>| #[trigger]
            spelled(keys.remove(rank)) == spelled(keys).remove(rank),
{
    assert forall|path: FsPath| #[trigger]
        spelled(with_key(keys, path)) == with_spelling(spelled(keys), path@) by {
        assert(spelled(with_key(keys, path)) =~= with_spelling(spelled(keys), path@));
    }
    assert forall|rank: Seq<PathPart>| #[trigger]
        spelled(keys.remove(rank)) == spelled(keys).remove(rank) by {
        assert(spelled(keys.remove(rank)) =~= spelled(keys).remove(rank));
    }
}

impl Ranked for FsPath {
    type Rank = Seq<PathPart>;

    open spec fn rank(&self) -> Seq<PathPart> {
        parts(self@)
    }

    open spec fn rank_before(a: Seq<PathPart>, b: Seq<PathPart>) -> bool {
        parts_before(a, b)
    }

    proof fn rank_irreflexive(a: Seq<PathPart>) {
        lemma_lex_irreflexive(part_order(), a);
    }

    proof fn rank_total(a: Seq<PathPart>, b: Seq<PathPart>) {
        lemma_part_order();
        lemma_lex_total(part_order(), a, b);
    }

    proof fn rank_transitive(a: Seq<PathPart>, b: Seq<PathPart>, c: Seq<PathPart>) {
        lemma_part_order();
        lemma_lex_transitive(part_order(), a, b, c);
    }

    fn is_before(&self, other: &Self) -> (r: bool) {
        let x = components(self.text.as_str());
        let y = components(other.text.as_str());
        let i = common_length(&x, &y);
        proof {
            lemma_lex_common(
                part_order(),
                component_parts(x@),
                component_parts(y@),
                i as int,
            );
        }
        if i == y.len() {
            false
        } else if i == x.len() {
            true
        } else {
            component_before(&x[i], &y[i])
        }
    }
}

/// Whether some path of a list has the parts of `path`.
pub open spec fn lists_path(list: Seq<Seq<char>>, path: Seq<char>) -> bool {
    exists|i: int| 0 <= i < list.len() && same_parts(#[trigger] list[i], path)
}

/// The list without the paths that have the parts of `path`.
pub open spec fn without_path(list: Seq<Seq<char>>, path: Seq<char>) -> Seq<Seq<char>>
    decreases list.len(),
{
    if list.len() == 0 {
        Seq::empty()
    } else {
        let before = without_path(list.drop_last(), path);
        if same_parts(list.last(), path) {
            before
        } else {
            before.push(list.last())
        }
    }
}

/// The list with `path` at its end, unless it is there already.
pub open spec fn with_path(list: Seq<Seq<char>>, path: Seq<char>) -> Seq<Seq<char>> {
    if lists_path(list, path) {
        list
    } else {
        list.push(path)
    }
}

pub fn contains_path(list: &Vec<FsPath>, path: &FsPath) -> (r: bool)
    ensures
        r == lists_path(path_texts(list@), path@),
{
    let mut i: usize = 0;
    while i < list.len()
        invariant
            i <= list.len(),
            forall|k: int|
                0 <= k < i ==> !same_parts(#[trigger] path_texts(list@)[k], path@),
        decreases list.len() - i,
    {
        if list[i].same(path) {
            assert(same_parts(path_texts(list@)[i as int], path@));
            return true;
        }
        i += 1;
    }
    false
}

/// Takes the paths with the parts of `path` out of a list.
pub fn drop_path(list: &mut Vec<FsPath>, path: &FsPath)
    ensures
        path_texts(final(list)@) == without_path(path_texts(old(list)@), path@),
{
    let mut kept: Vec<FsPath> = Vec::new();
    let ghost all = path_texts(list@);
    let mut i: usize = 0;
    while i < list.len()
        invariant
            i <= list.len(),
            all == path_texts(list@),
            path_texts(kept@) == without_path(all.take(i as int), path@),
        decreases list.len() - i,
    {
        let ghost before = path_texts(kept@);
        if !list[i].same(path) {
            kept.push(list[i].copy());
            assert(path_texts(kept@) =~= before.push(all[i as int]));
        }
        assert(all.take(i + 1).drop_last() =~= all.take(i as int));
        i += 1;
    }
    assert(all.take(list.len() as int) =~= all);
    *list = kept;
}

/// Adds a path to a list, unless it is there already.
pub fn add_path(list: &mut Vec<FsPath>, path: &FsPath)
    ensures
        path_texts(final(list)@) == with_path(path_texts(old(list)@), path@),
{
    if !contains_path(list, path) {
        let ghost before = path_texts(list@);
        list.push(path.copy());
        assert(path_texts(list@) =~= before.push(path@));
    }
}

pub fn copy_paths(v: &Vec<FsPath>) -> (r: Vec<FsPath>)
    ensures
        r@ == v@,
        path_texts(r@) == path_texts(v@),
{
    let mut r: Vec<FsPath> = Vec::new();
    let mut i: usize = 0;
    while i < v.len()
        invariant
            i <= v.len(),
            r@ == v@.take(i as int),
        decreases v.len() - i,
    {
        r.push(v[i].copy());
        i += 1;
    }
    assert(r@ =~= v@);
    r
}

proof fn lemma_pieces_end(a: Seq<char>, sep: Separator)
    ensures
        pieces(a, sep).len() >= 1,
    decreases a.len(),
{
    if a.len() > 0 {
        lemma_pieces_end(a.drop_last(), sep);
    }
}

proof fn lemma_pieces_join(a: Seq<char>, b: Seq<char>)
    ensures
        pieces(a + "/"@ + b, Separator::Char('/')) == pieces(a, Separator::Char('/')) + pieces(
            b,
            Separator::Char('/'),
        ),
    decreases b.len(),
{
    let sep = Separator::Char('/');
    reveal_strlit("/");
    let whole = a + "/"@ + b;
    if b.len() == 0 {
        assert(whole.drop_last() =~= a);
        assert(whole.last() == '/');
        assert(pieces(a, sep).push(Seq::<char>::empty()) =~= pieces(a, sep) + pieces(b, sep));
    } else {
        lemma_pieces_join(a, b.drop_last());
        lemma_pieces_end(b.drop_last(), sep);
        assert(whole.drop_last() =~= a + "/"@ + b.drop_last());
        let left = pieces(a, sep);
        let right = pieces(b.drop_last(), sep);
        assert((left + right).drop_last() =~= left + right.drop_last());
        assert(pieces(whole, sep) =~= left + pieces(b, sep));
    }
}

proof fn lemma_piece_parts_join(a: Seq<Seq<char>>, b: Seq<Seq<char>>)
    requires
        a.len() > 0,
    ensures
        piece_parts(a + b) == piece_parts(a) + piece_parts(b).filter(
            |p: PathPart| p != PathPart::Current,
        ),
    decreases b.len(),
{
    let keep = |p: PathPart| p != PathPart::Current;
    reveal(Seq::filter);
    if b.len() == 0 {
        assert(a + b =~= a);
        assert(piece_parts(b).filter(keep) =~= Seq::empty());
    } else {
        lemma_piece_parts_join(a, b.drop_last());
        assert((a + b).drop_last() =~= a + b.drop_last());
        assert((a + b).last() == b.last());
        let before = piece_parts(b.drop_last());
        assert forall|p: PathPart|
            before.push(p).filter(keep) == if keep(p) {
                before.filter(keep).push(p)
            } else {
                before.filter(keep)
            } by {
            assert(before.push(p).drop_last() =~= before);
        }
        assert(piece_parts(a + b) =~= piece_parts(a) + piece_parts(b).filter(keep));
    }
}

/// A safe relative path stays below whatever directory it is taken from: the parts of the joined
/// path are those of the directory followed by those of the relative path, without a leading `.`.
pub proof fn law_joined_path_stays_below(base: Seq<char>, relative: Seq<char>)
    requires
        base.len() > 0,
        is_safe_relative(relative),
    ensures
        parts(joined(base, relative)) == parts(base) + parts(relative).filter(
            |p: PathPart| p != PathPart::Current,
        ),
        is_under(joined(base, relative), base),
        forall|i: int|
            parts(base).len() <= i < parts(joined(base, relative)).len() ==> (#[trigger] parts(
                joined(base, relative),
            )[i]) is Normal,
{
    let sep = Separator::Char('/');
    let keep = |p: PathPart| p != PathPart::Current;
    let path = joined(base, relative);
    let head = if base.last() == '/' {
        base.drop_last()
    } else {
        base
    };
    reveal_strlit("/");
    assert(path =~= head + "/"@ + relative);
    lemma_pieces_join(head, relative);
    lemma_pieces_end(head, sep);
    lemma_piece_parts_join(pieces(head, sep), pieces(relative, sep));
    assert(is_rooted(path) == is_rooted(base));
    if base.last() == '/' {
        assert(pieces(base, sep) == pieces(head, sep).push(Seq::<char>::empty()));
        assert(pieces(base, sep).drop_last() =~= pieces(head, sep));
        assert(piece_parts(pieces(base, sep)) == piece_parts(pieces(head, sep)));
    }
    assert(parts(path) =~= parts(base) + parts(relative).filter(keep));
    assert(parts(path).take(parts(base).len() as int) =~= parts(base));
    let tail = parts(relative).filter(keep);
    parts(relative).lemma_filter_len(keep);
    assert forall|i: int| 0 <= i < tail.len() implies (#[trigger] tail[i]) is Normal by {
        lemma_filter_member(parts(relative), keep, i);
        lemma_no_root(pieces(relative, sep));
    }
    assert forall|i: int| parts(base).len() <= i < parts(path).len() implies (#[trigger] parts(
        path,
    )[i]) is Normal by {
        assert(parts(path)[i] == tail[i - parts(base).len()]);
    }
}

proof fn lemma_filter_member(s: Seq<PathPart>, keep: spec_fn(PathPart) -> bool, i: int)
    requires
        0 <= i < s.filter(keep).len(),
    ensures
        keep(s.filter(keep)[i]),
        s.contains(s.filter(keep)[i]),
    decreases s.len(),
{
    reveal(Seq::filter);
    if s.len() > 0 {
        let before = s.drop_last().filter(keep);
        if i < before.len() {
            lemma_filter_member(s.drop_last(), keep, i);
            let x = s.filter(keep)[i];
            let j = choose|j: int| 0 <= j < s.drop_last().len() && s.drop_last()[j] == x;
            assert(s[j] == x);
        } else {
            assert(s[s.len() - 1] == s.filter(keep)[i]);
        }
    }
}

proof fn lemma_no_root(raw: Seq<Seq<char>>)
    ensures
        !piece_parts(raw).contains(PathPart::Root),
    decreases raw.len(),
{
    if raw.len() > 0 {
        lemma_no_root(raw.drop_last());
        let before = piece_parts(raw.drop_last());
        assert forall|i: int| 0 <= i < piece_parts(raw).len() implies piece_parts(raw)[i]
            != PathPart::Root by {
            if i < before.len() {
                assert(before.contains(before[i]));
            }
        }
    }
}

} // verus!
