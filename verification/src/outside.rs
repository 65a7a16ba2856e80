//! Trusted declarations: the few outside functions the library calls, each
//! with the contract the verified code relies on.

use vstd::prelude::*;

verus! {

/// Relies on std's `String::push`: appends one character at the end.
pub assume_specification[ String::push ](s: &mut String, ch: char)
    ensures
        final(s)@ == old(s)@.push(ch),
;

/// What `shell_words::split` returns on a given text: `None` where the text
/// has an unmatched quote, otherwise the POSIX word-split argument list. The
/// split is a function of the text alone.
pub uninterp spec fn shell_split(s: Seq<char>) -> Option<Seq<Seq<char>>>;

/// Relies on `shell_words::split` (1.1.1): POSIX shell word-splitting with
/// quote removal, `Err` exactly on an unmatched quote, `Ok(vec![])` on empty
/// input.
#[verifier::external_body]
pub(crate) fn split_shell_words(input: &str) -> (r: Option<Vec<String>>)
    ensures
        r is Some <==> shell_split(input@) is Some,
        r is Some ==> r.unwrap().deep_view() == shell_split(input@).unwrap(),
        input@.len() == 0 ==> r is Some && r.unwrap().deep_view().len() == 0,
{
    shell_words::split(input).ok()
}

/// Relies on std's `char::from_u32`: `Some` exactly on a valid Unicode
/// scalar value (not a surrogate, at most 0x10FFFF), holding the character
/// with that code point.
pub assume_specification[ char::from_u32 ](v: u32) -> (r: Option<char>)
    ensures
        r is Some <==> (v < 0xD800 || (0xE000 <= v && v <= 0x10FFFF)),
        r matches Some(c) ==> c == v as char,
;

/// What `String::from_utf8_lossy` yields on given bytes: UTF-8 decoded with
/// the replacement character substituted for malformed sequences. The text
/// is a function of the bytes alone.
pub uninterp spec fn lossy_text(b: Seq<u8>) -> Seq<char>;

/// Relies on std's `String::from_utf8_lossy`: best-effort decoding that
/// substitutes the replacement character for malformed sequences and leaves
/// empty input empty.
#[verifier::external_body]
pub fn lossy_decode(b: &Vec<u8>) -> (r: String)
    ensures
        r@ == lossy_text(b@),
        b@.len() == 0 ==> r@.len() == 0,
{
    String::from_utf8_lossy(b.as_slice()).into_owned()
}

/// Relies on std's `SystemTime::now` and `duration_since`: whole seconds
/// since the Unix epoch. Nothing is assumed of the value; it depends on the
/// clock (a clock set before the epoch reads as zero seconds).
#[verifier::external_body]
pub(crate) fn epoch_seconds() -> u64 {
    std::time::SystemTime::now()
        .duration_since(std::time::SystemTime::UNIX_EPOCH)
        .map(|d| d.as_secs())
        .unwrap_or_default()
}

} // verus!
