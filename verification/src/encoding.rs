//! Bytes and numbers as text, maps as JSON, and texts as differences.
use vstd::prelude::*;

use crate::order::text_before;
use crate::text::unsigned;

verus! {

/// Bytes read as UTF-8, with a replacement character for what is not.
pub uninterp spec fn lossy_text(bytes: Seq<u8>) -> Seq<char>;

/// `String::from_utf8_lossy` of the standard library: bytes that are UTF-8 become the text that
/// they stand for.
#[verifier::external_body]
pub(crate) fn decode_lossy(bytes: &Vec<u8>) -> (r: String)
    ensures
        r@ == lossy_text(bytes@),
        vstd::utf8::valid_utf8(bytes@) ==> r@ == vstd::utf8::decode_utf8(bytes@),
{
    String::from_utf8_lossy(bytes).into_owned()
}

/// `std::str::from_utf8` of the standard library: gives the text that bytes stand for where they
/// are UTF-8, and an error, here `None`, where they are not.
#[verifier::external_body]
pub(crate) fn decode_exact(bytes: &Vec<u8>) -> (r: Option<String>)
    ensures
        r is Some <==> vstd::utf8::valid_utf8(bytes@),
        r matches Some(s) ==> s@ == vstd::utf8::decode_utf8(bytes@),
{
    Some(std::str::from_utf8(bytes).ok()?.to_owned())
}

/// What the standard library says of a text that is no octal number of 32 bits.
pub uninterp spec fn octal_failure(text: Seq<char>) -> Seq<char>;

/// `u32::from_str_radix` of the standard library for base eight, its error as text: reads at least
/// one octal digit, with a plus sign in front or not and nothing else, that make a number of 32
/// bits. How the error is worded is not said.
#[verifier::external_body]
pub(crate) fn read_octal(text: &str) -> (r: Result<u32, String>)
    ensures
        match r {
            Ok(number) => unsigned(text@, 8, 4_294_967_295) == Some(number as nat),
            Err(e) => unsigned(text@, 8, 4_294_967_295) is None && e@ == octal_failure(text@),
        },
{
    u32::from_str_radix(text, 8).map_err(|error| error.to_string())
}

/// The texts of a list of pairs.
pub open spec fn pair_texts(pairs: Seq<(String, String)>) -> Seq<(Seq<char>, Seq<char>)> {
    Seq::new(pairs.len(), |i: int| (pairs[i].0@, pairs[i].1@))
}

/// Whether the first texts of the pairs stand in strictly rising order.
pub open spec fn rising_pairs(pairs: Seq<(Seq<char>, Seq<char>)>) -> bool {
    forall|i: int, j: int|
        0 <= i < j < pairs.len() ==> text_before((#[trigger] pairs[i]).0, (#[trigger] pairs[j]).0)
}

/// A map of texts as `serde_json` writes it, its entries in the order of their keys.
pub uninterp spec fn json_object(pairs: Seq<(Seq<char>, Seq<char>)>) -> Seq<char>;

/// The entries that `serde_json` reads from a text as a map of texts, in the order of their keys;
/// `None` for any other text.
pub uninterp spec fn json_entries(text: Seq<char>) -> Option<Seq<(Seq<char>, Seq<char>)>>;

/// `serde_json::to_string` of a map of strings, which cannot fail. What it writes,
/// `serde_json::from_str` reads back.
#[verifier::external_body]
pub(crate) fn write_json_object(pairs: &Vec<(String, String)>) -> (r: String)
    requires
        rising_pairs(pair_texts(pairs@)),
    ensures
        r@ == json_object(pair_texts(pairs@)),
        json_entries(r@) == Some(pair_texts(pairs@)),
{
    let map: std::collections::BTreeMap<String, String> = pairs.iter().cloned().collect();
    serde_json::to_string(&map).unwrap_or_default()
}

/// `serde_json::from_str` into a map of strings: its entries in the order of their keys, or an
/// error, here `None`.
#[verifier::external_body]
pub(crate) fn read_json_object(text: &str) -> (r: Option<Vec<(String, String)>>)
    ensures
        match r {
            Some(pairs) => json_entries(text@) == Some(pair_texts(pairs@)) && rising_pairs(
                pair_texts(pairs@),
            ),
            None => json_entries(text@) is None,
        },
{
    let map: std::collections::BTreeMap<String, String> = serde_json::from_str(text).ok()?;
    Some(map.into_iter().collect())
}

/// Bytes read by `serde_json` as a document of any shape and written out again over several lines,
/// or what `serde_json` says is wrong with them.
pub uninterp spec fn json_document(bytes: Seq<u8>) -> Result<Seq<char>, Seq<char>>;

/// `serde_json::from_slice` into a `serde_json::Value`, which is then shown with indentation. The
/// text, or the message of the error, depends on the bytes alone.
#[verifier::external_body]
pub(crate) fn lay_out_json(bytes: &Vec<u8>) -> (r: Result<String, String>)
    ensures
        match r {
            Ok(text) => json_document(bytes@) == Ok::<Seq<char>, Seq<char>>(text@),
            Err(message) => json_document(bytes@) == Err::<Seq<char>, Seq<char>>(message@),
        },
{
    match serde_json::from_slice::<serde_json::Value>(bytes) {
        Ok(document) => Ok(format!("{document:#}")),
        Err(error) => Err(error.to_string()),
    }
}

/// The unified difference of two texts, line by line, under the given names.
pub uninterp spec fn unified_text(
    old_text: Seq<char>,
    new_text: Seq<char>,
    old_name: Seq<char>,
    new_name: Seq<char>,
) -> Seq<char>;

/// `TextDiff::from_lines` of `similar`, then `unified_diff` with a header: the result depends on
/// the two texts and the two names alone.
#[verifier::external_body]
pub(crate) fn unified_diff(
    old_text: &str,
    new_text: &str,
    old_name: &str,
    new_name: &str,
) -> (r: String)
    ensures
        r@ == unified_text(old_text@, new_text@, old_name@, new_name@),
{
    similar::TextDiff::from_lines(old_text, new_text).unified_diff().header(
        old_name,
        new_name,
    ).to_string()
}

} // verus!
