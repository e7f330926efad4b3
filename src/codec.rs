//! Calls into outside crates and std that compute on plain values.
use vstd::prelude::*;
use base64::Engine;

verus! {

/// The standard base64 encoding, with padding, of a text's UTF-8 bytes.
pub uninterp spec fn base64_of_text(s: Seq<char>) -> Seq<char>;

/// The bytes that a standard base64 text decodes to; `None` where it is not valid base64.
pub uninterp spec fn base64_decoding(s: Seq<char>) -> Option<Seq<u8>>;

/// `s` with every non-overlapping occurrence of `from`, left to right, replaced by `to`.
pub uninterp spec fn replaced(s: Seq<char>, from: Seq<char>, to: Seq<char>) -> Seq<char>;

/// The lowercase mapping of a text, as std's `to_lowercase` gives it.
pub uninterp spec fn lower_of(s: Seq<char>) -> Seq<char>;

/// Relies on base64's `STANDARD.encode`: the padded standard encoding of the
/// text's bytes; nothing in, nothing out.
#[verifier::external_body]
pub(crate) fn encode_base64(s: &str) -> (r: String)
    ensures
        r@ == base64_of_text(s@),
        s@.len() == 0 ==> r@.len() == 0,
{
    base64::engine::general_purpose::STANDARD.encode(s)
}

/// Relies on base64's `STANDARD.decode`: the decoded bytes, or the decoding error.
#[verifier::external_body]
pub(crate) fn decode_base64(s: &str) -> (r: Result<Vec<u8>, base64::DecodeError>)
    ensures
        match r {
            Ok(b) => base64_decoding(s@) == Some(b@),
            Err(_) => base64_decoding(s@) is None,
        },
{
    base64::engine::general_purpose::STANDARD.decode(s)
}

/// Relies on `str::replace`: every match of `from` replaced by `to`.
#[verifier::external_body]
pub(crate) fn replace_all(s: &str, from: &str, to: &str) -> (r: String)
    ensures
        r@ == replaced(s@, from@, to@),
{
    s.replace(from, to)
}

/// Relies on `str::to_lowercase`: the lowercase form of the text.
#[verifier::external_body]
pub(crate) fn lowercase(s: &str) -> (r: String)
    ensures
        r@ == lower_of(s@),
        s@.len() == 0 ==> r@.len() == 0,
{
    s.to_lowercase()
}

/// Relies on uuid's `Uuid::new_v4` shown through `Display`: a random
/// identifier in the 36-character hyphenated form.
#[verifier::external_body]
pub(crate) fn new_uuid() -> (r: String)
    ensures
        r@.len() == 36,
{
    uuid::Uuid::new_v4().to_string()
}

} // verus!
