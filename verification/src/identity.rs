//! Digests, identifiers and their text forms.
use vstd::prelude::*;

use crate::text::{digit_char, digit_value, from_chars, texts, to_chars};

verus! {

/// The SHA-256 digest of bytes.
pub uninterp spec fn sha256_digest(bytes: Seq<u8>) -> Seq<u8>;

/// `Sha256::digest` of `sha2`: the digest depends on the bytes alone and has 32 of them.
#[verifier::external_body]
pub(crate) fn sha256(bytes: &Vec<u8>) -> (r: Vec<u8>)
    ensures
        r@ == sha256_digest(bytes@),
        r@.len() == 32,
{
    <sha2::Sha256 as sha2::Digest>::digest(bytes).to_vec()
}

/// Bytes in hexadecimal, two lower-case digits each.
pub open spec fn hex_text(bytes: Seq<u8>) -> Seq<char>
    decreases bytes.len(),
{
    if bytes.len() == 0 {
        Seq::empty()
    } else {
        hex_text(bytes.drop_last()).push(digit_char((bytes.last() / 16) as int)).push(
            digit_char((bytes.last() % 16) as int),
        )
    }
}

/// `hex::encode`: two lower-case hexadecimal digits for each byte, in order.
#[verifier::external_body]
pub(crate) fn hex_encode(bytes: &Vec<u8>) -> (r: String)
    ensures
        r@ == hex_text(bytes@),
{
    hex::encode(bytes)
}

/// Whether a text is made of pairs of hexadecimal digits.
pub open spec fn is_hex(s: Seq<char>) -> bool {
    s.len() % 2 == 0 && forall|i: int| 0 <= i < s.len() ==> digit_value(#[trigger] s[i]) is Some
}

/// The bytes that pairs of hexadecimal digits stand for.
pub open spec fn hex_bytes(s: Seq<char>) -> Seq<u8> {
    Seq::new(
        s.len() / 2,
        |i: int| (digit_value(s[2 * i])->0 * 16 + digit_value(s[2 * i + 1])->0) as u8,
    )
}

/// `hex::decode`: gives the bytes of a text made of pairs of hexadecimal digits of either case,
/// and an error, here `None`, for any other text.
#[verifier::external_body]
pub(crate) fn hex_decode(s: &str) -> (r: Option<Vec<u8>>)
    ensures
        r is Some <==> is_hex(s@),
        r matches Some(bytes) ==> bytes@ == hex_bytes(s@),
{
    hex::decode(s).ok()
}

/// The identifier of an environment.
#[derive(Debug, Clone, Copy)]
pub struct EnvironmentId {
    pub bytes: [u8; 16],
}

impl View for EnvironmentId {
    type V = Seq<u8>;

    open spec fn view(&self) -> Seq<u8> {
        self.bytes@
    }
}

/// `Uuid::new_v4` of `uuid`: sixteen random bytes, but for the bits that mark the version and the
/// variant. The call panics where the system has no random bytes to give.
#[verifier::external_body]
pub(crate) fn random_id() -> (r: EnvironmentId)
    ensures
        r@.len() == 16,
        r@[6] / 16 == 4,
        r@[8] / 64 == 2,
{
    EnvironmentId { bytes: *uuid::Uuid::new_v4().as_bytes() }
}

/// `Uuid::simple` of `uuid` as text: two lower-case hexadecimal digits for each byte.
#[verifier::external_body]
pub(crate) fn simple_text(id: &EnvironmentId) -> (r: String)
    ensures
        r@ == hex_text(id@),
{
    uuid::Uuid::from_bytes(id.bytes).simple().to_string()
}

/// An identifier in its usual form: groups of hexadecimal digits with hyphens between them.
pub open spec fn hyphenated(id: Seq<u8>) -> Seq<char> {
    let digits = hex_text(id);
    digits.subrange(0, 8).push('-') + digits.subrange(8, 12).push('-') + digits.subrange(
        12,
        16,
    ).push('-') + digits.subrange(16, 20).push('-') + digits.subrange(20, 32)
}

/// `Uuid::to_string` of `uuid`: lower-case hexadecimal digits in groups of eight, four, four, four
/// and twelve, with a hyphen between each two groups.
#[verifier::external_body]
pub(crate) fn hyphenated_text(id: &EnvironmentId) -> (r: String)
    ensures
        r@ == hyphenated(id@),
{
    uuid::Uuid::from_bytes(id.bytes).to_string()
}

/// Whether a character is a hexadecimal digit, in lower case.
pub open spec fn is_lower_hex(c: char) -> bool {
    '0' <= c <= '9' || 'a' <= c <= 'f'
}

/// The hexadecimal form of bytes is made of two lower-case digits for each.
pub proof fn lemma_hex_digits(bytes: Seq<u8>)
    ensures
        hex_text(bytes).len() == 2 * bytes.len(),
        forall|i: int|
            0 <= i < hex_text(bytes).len() ==> is_lower_hex(#[trigger] hex_text(bytes)[i]),
        forall|i: int|
            0 <= i < hex_text(bytes).len() ==> crate::text::is_ascii_alphanumeric(
                #[trigger] hex_text(bytes)[i],
            ),
    decreases bytes.len(),
{
    if bytes.len() > 0 {
        lemma_hex_digits(bytes.drop_last());
        let high = (bytes.last() / 16) as int;
        let low = (bytes.last() % 16) as int;
        assert(crate::text::is_ascii_alphanumeric(digit_char(high)));
        assert(crate::text::is_ascii_alphanumeric(digit_char(low)));
        assert(is_lower_hex(digit_char(high)) && is_lower_hex(digit_char(low)));
    }
}

/// The first `n` hexadecimal digits of an identifier.
pub open spec fn short_id(id: Seq<u8>, n: int) -> Seq<char> {
    hex_text(id).take(n)
}

/// The first `n` hexadecimal digits of an identifier.
pub fn short_text(id: &EnvironmentId, n: usize) -> (r: String)
    requires
        n <= 32,
    ensures
        r@ == short_id(id@, n as int),
        r@.len() == n,
{
    let chars = to_chars(simple_text(id).as_str());
    proof {
        lemma_hex_digits(id@);
    }
    let r = from_chars(&chars, 0, n);
    assert(r@ =~= hex_text(id@).take(n as int));
    r
}

/// Texts, one after the other in UTF-8, with a zero byte between each two.
pub open spec fn zero_separated(parts: Seq<Seq<char>>) -> Seq<u8>
    decreases parts.len(),
{
    if parts.len() == 0 {
        Seq::empty()
    } else if parts.len() == 1 {
        vstd::utf8::encode_utf8(parts[0])
    } else {
        zero_separated(parts.drop_last()).push(0u8) + vstd::utf8::encode_utf8(parts.last())
    }
}

proof fn lemma_no_zero_byte(text: Seq<char>)
    requires
        !text.contains('\0'),
    ensures
        !vstd::utf8::encode_utf8(text).contains(0u8),
    decreases text.len(),
{
    if text.len() > 0 {
        let rest = text.drop_first();
        assert(!rest.contains('\0')) by {
            if rest.contains('\0') {
                let i = choose|i: int| 0 <= i < rest.len() && rest[i] == '\0';
                assert(text[i + 1] == '\0');
            }
        }
        lemma_no_zero_byte(rest);
        let c = text[0] as u32;
        assert(text[0] != '\0');
        vstd::utf8::char_is_scalar(text[0]);
        vstd::utf8::char_u32_cast(text[0], c);
        assert(c != 0);
        lemma_scalar_bytes(c);
        let head = vstd::utf8::encode_scalar(c);
        let tail = vstd::utf8::encode_utf8(rest);
        let all = vstd::utf8::encode_utf8(text);
        assert(all == head + tail);
        if all.contains(0u8) {
            let i = choose|i: int| 0 <= i < all.len() && all[i] == 0u8;
            if i < head.len() {
                assert(head[i] == 0u8);
            } else {
                assert(tail[i - head.len()] == 0u8);
                assert(tail.contains(0u8));
            }
        }
    }
}

proof fn lemma_scalar_bytes(c: u32)
    requires
        c != 0,
    ensures
        forall|i: int|
            0 <= i < vstd::utf8::encode_scalar(c).len() ==> #[trigger] vstd::utf8::encode_scalar(
                c,
            )[i] != 0u8,
{
    assert(0 < c <= 0x7f ==> (c & 0x7f) as u8 != 0u8) by (bit_vector);
    assert(0xC0u8 | ((c >> 6) & 0x1F) as u8 != 0u8) by (bit_vector);
    assert(0xE0u8 | ((c >> 12) & 0x0F) as u8 != 0u8) by (bit_vector);
    assert(0xF0u8 | ((c >> 18) & 0x7) as u8 != 0u8) by (bit_vector);
    assert(0x80u8 | (c & 0x3F) as u8 != 0u8) by (bit_vector);
    assert(0x80u8 | ((c >> 6) & 0x3F) as u8 != 0u8) by (bit_vector);
    assert(0x80u8 | ((c >> 12) & 0x3F) as u8 != 0u8) by (bit_vector);
}

/// Texts without a zero character can be told from their bytes with zero bytes between them.
pub proof fn lemma_zero_separated(a: Seq<Seq<char>>, b: Seq<Seq<char>>)
    requires
        a.len() == b.len(),
        forall|i: int| 0 <= i < a.len() ==> !(#[trigger] a[i]).contains('\0'),
        forall|i: int| 0 <= i < b.len() ==> !(#[trigger] b[i]).contains('\0'),
        zero_separated(a) == zero_separated(b),
    ensures
        a == b,
    decreases a.len(),
{
    if a.len() == 1 {
        vstd::utf8::encode_utf8_decode_utf8(a[0]);
        vstd::utf8::encode_utf8_decode_utf8(b[0]);
        assert(a =~= b);
    } else if a.len() > 1 {
        let x = vstd::utf8::encode_utf8(a.last());
        let y = vstd::utf8::encode_utf8(b.last());
        assert(!a[a.len() - 1].contains('\0') && !b[b.len() - 1].contains('\0'));
        lemma_no_zero_byte(a.last());
        lemma_no_zero_byte(b.last());
        let p = zero_separated(a.drop_last());
        let q = zero_separated(b.drop_last());
        let all = zero_separated(a);
        assert(all == p.push(0u8) + x);
        assert(all == q.push(0u8) + y);
        assert(x.len() == y.len()) by {
            if x.len() < y.len() {
                let i = p.len() as int;
                assert(all[i] == 0u8);
                assert(y[i - q.len() - 1] == 0u8);
                assert(y.contains(0u8));
            } else if y.len() < x.len() {
                let i = q.len() as int;
                assert(all[i] == 0u8);
                assert(x[i - p.len() - 1] == 0u8);
                assert(x.contains(0u8));
            }
        }
        assert(p =~= q) by {
            assert(p =~= all.take(p.len() as int));
            assert(q =~= all.take(q.len() as int));
        }
        assert(x =~= y) by {
            assert(x =~= all.skip(p.len() as int + 1));
            assert(y =~= all.skip(q.len() as int + 1));
        }
        vstd::utf8::encode_utf8_decode_utf8(a.last());
        vstd::utf8::encode_utf8_decode_utf8(b.last());
        assert forall|i: int| 0 <= i < a.drop_last().len() implies !(#[trigger] a.drop_last()[i])
            .contains('\0') by {
            assert(a.drop_last()[i] == a[i]);
        }
        assert forall|i: int| 0 <= i < b.drop_last().len() implies !(#[trigger] b.drop_last()[i])
            .contains('\0') by {
            assert(b.drop_last()[i] == b[i]);
        }
        lemma_zero_separated(a.drop_last(), b.drop_last());
        assert(a =~= a.drop_last().push(a.last()));
        assert(b =~= b.drop_last().push(b.last()));
    } else {
        assert(a =~= b);
    }
}

/// The first eight bytes of the digest of the given texts, in hexadecimal.
pub open spec fn short_digest(parts: Seq<Seq<char>>) -> Seq<char> {
    hex_text(sha256_digest(zero_separated(parts)).take(8))
}

pub fn short_digest_text(parts: &Vec<String>) -> (r: String)
    ensures
        r@ == short_digest(texts(parts@)),
        r@.len() == 16,
        forall|i: int| 0 <= i < 16 ==> is_lower_hex(#[trigger] r@[i]),
{
    let mut bytes: Vec<u8> = Vec::new();
    let ghost all = texts(parts@);
    let mut i: usize = 0;
    while i < parts.len()
        invariant
            i <= parts.len(),
            all == texts(parts@),
            bytes@ == zero_separated(all.take(i as int)),
        decreases parts.len() - i,
    {
        proof {
            assert(all.take(i + 1).drop_last() =~= all.take(i as int));
            assert(all.take(i + 1).last() == parts@[i as int]@);
        }
        if i > 0 {
            bytes.push(0u8);
        }
        bytes.extend_from_slice(parts[i].as_str().as_bytes());
        proof {
            if i == 0 {
                assert(bytes@ =~= vstd::utf8::encode_utf8(all[0]));
            } else {
                assert(bytes@ =~= zero_separated(all.take(i + 1)));
            }
        }
        i += 1;
    }
    assert(all.take(parts.len() as int) =~= all);
    let digest = sha256(&bytes);
    let mut head: Vec<u8> = Vec::new();
    let mut k: usize = 0;
    while k < 8
        invariant
            k <= 8,
            digest@.len() == 32,
            head@ == digest@.take(k as int),
        decreases 8 - k,
    {
        head.push(digest[k]);
        k += 1;
    }
    proof {
        lemma_hex_digits(head@);
    }
    hex_encode(&head)
}

} // verus!
