//! Input decoding: text arrives as bytes that are either UTF-8 or
//! Shift_JIS.  UTF-8 is tried first; only when the bytes are not valid
//! UTF-8 is the Shift_JIS decoder consulted, and input readable as
//! neither is rejected.

use vstd::prelude::*;
use vstd::utf8::{decode_utf8, valid_utf8};

verus! {

/// The input bytes are valid under neither supported encoding.
#[derive(Clone, Copy, Debug, PartialEq, Eq, Structural)]
pub struct DecodeError;

/// What `encoding_rs`'s Shift_JIS decoder returns for a byte sequence:
/// the decoded characters (malformed sequences replaced) and whether any
/// sequence was malformed.  The result depends on the bytes alone.
pub uninterp spec fn sjis_decoded(bytes: Seq<u8>) -> (Seq<char>, bool);

/// Relies on `String::from_utf8` (via `core::str::from_utf8`): it succeeds
/// exactly on valid UTF-8 and returns its decoding.
#[verifier::external_body]
fn try_decode_utf8(bytes: &[u8]) -> (r: Option<String>)
    ensures
        r is Some <==> valid_utf8(bytes@),
        r is Some ==> r->0@ == decode_utf8(bytes@),
{
    match core::str::from_utf8(bytes) {
        Ok(s) => Some(s.to_string()),
        Err(_) => None,
    }
}

/// Relies on `encoding_rs::Encoding::decode` on `SHIFT_JIS`: the decoded
/// text and the malformed-sequence flag are a function of the bytes alone
/// (the byte-order-mark sniffing it performs depends on the bytes too).
#[verifier::external_body]
fn decode_sjis(bytes: &[u8]) -> (r: (String, bool))
    requires
        4 * bytes@.len() <= usize::MAX,
    ensures
        r.0@ == sjis_decoded(bytes@).0,
        r.1 == sjis_decoded(bytes@).1,
{
    let (cow, _, had_errors) = encoding_rs::SHIFT_JIS.decode(bytes);
    (cow.into_owned(), had_errors)
}

/// Decode the input bytes, detecting their encoding: valid UTF-8 is taken
/// as is and labeled `"UTF-8"`; otherwise the bytes are decoded as
/// Shift_JIS and labeled `"Shift_JIS"`, unless that decoder reports a
/// malformed sequence, in which case the input is rejected.
pub fn detect_encoding_and_decode(bytes: &[u8]) -> (r: Result<(String, &'static str), DecodeError>)
    requires
        4 * bytes@.len() <= usize::MAX,
    ensures
        valid_utf8(bytes@) ==> {
            &&& r is Ok
            &&& r->Ok_0.0@ == decode_utf8(bytes@)
            &&& r->Ok_0.1@ == "UTF-8"@
        },
        !valid_utf8(bytes@) && !sjis_decoded(bytes@).1 ==> {
            &&& r is Ok
            &&& r->Ok_0.0@ == sjis_decoded(bytes@).0
            &&& r->Ok_0.1@ == "Shift_JIS"@
        },
        !valid_utf8(bytes@) && sjis_decoded(bytes@).1 ==> r is Err,
{
    match try_decode_utf8(bytes) {
        Some(text) => Ok((text, "UTF-8")),
        None => {
            let (text, had_errors) = decode_sjis(bytes);
            if had_errors {
                Err(DecodeError)
            } else {
                Ok((text, "Shift_JIS"))
            }
        },
    }
}

} // verus!
