//! Little-endian field readers and the check on string payloads.

use vstd::prelude::*;
use vstd::string::StringSliceAdditionalSpecFns;
use vstd::utf8::{decode_utf8, encode_utf8_decode_utf8, valid_utf8, valid_utf8_concat};
use crate::error::TagError;

verus! {

/// The number that the four bytes of `bytes` from index `at` on spell, least
/// significant byte first.
pub open spec fn le_u32(bytes: Seq<u8>, at: int) -> u32 {
    (bytes[at] + bytes[at + 1] * 0x100 + bytes[at + 2] * 0x1_0000 + bytes[at + 3] * 0x100_0000) as u32
}

/// The number that the eight bytes of `bytes` from index `at` on spell, least
/// significant byte first.
pub open spec fn le_u64(bytes: Seq<u8>, at: int) -> u64 {
    (le_u32(bytes, at) + le_u32(bytes, at + 4) * 0x1_0000_0000) as u64
}

/// Whether `width` bytes starting at `at` lie inside a buffer of `len` bytes.
pub open spec fn in_bounds(len: nat, at: int, width: int) -> bool {
    0 <= at && at + width <= len
}

/// Reads a little-endian `u32` at `at`, or reports that it does not fit.
pub fn read_u32(bytes: &[u8], at: usize) -> (r: Result<u32, TagError>)
    ensures
        r == (if in_bounds(bytes@.len(), at as int, 4) {
            Ok::<u32, TagError>(le_u32(bytes@, at as int))
        } else {
            Err::<u32, TagError>(TagError::OutOfBounds)
        }),
{
    let len: usize = bytes.len();
    if at > len || len - at < 4 {
        return Err(TagError::OutOfBounds);
    }
    let b0: u32 = bytes[at] as u32;
    let b1: u32 = bytes[at + 1] as u32;
    let b2: u32 = bytes[at + 2] as u32;
    let b3: u32 = bytes[at + 3] as u32;
    Ok(b0 + b1 * 0x100 + b2 * 0x1_0000 + b3 * 0x100_0000)
}

/// Reads a little-endian `u64` at `at`, or reports that it does not fit.
pub fn read_u64(bytes: &[u8], at: usize) -> (r: Result<u64, TagError>)
    ensures
        r == (if in_bounds(bytes@.len(), at as int, 8) {
            Ok::<u64, TagError>(le_u64(bytes@, at as int))
        } else {
            Err::<u64, TagError>(TagError::OutOfBounds)
        }),
{
    let len: usize = bytes.len();
    if at > len || len - at < 8 {
        return Err(TagError::OutOfBounds);
    }
    let low: u64 = match read_u32(bytes, at) {
        Ok(v) => v as u64,
        Err(e) => return Err(e),
    };
    let high: u64 = match read_u32(bytes, at + 4) {
        Ok(v) => v as u64,
        Err(e) => return Err(e),
    };
    Ok(low + high * 0x1_0000_0000)
}

/// Whether `payload` is a terminated string: it is not empty, its last byte is
/// the null terminator, and the bytes before that are well-formed UTF-8.
pub open spec fn is_cstring(payload: Seq<u8>) -> bool {
    &&& payload.len() > 0
    &&& payload.last() == 0
    &&& valid_utf8(payload.drop_last())
}

/// The text of a terminated string: its bytes without the terminator, decoded.
pub open spec fn cstring_text(payload: Seq<u8>) -> Seq<char>
    recommends
        is_cstring(payload),
{
    decode_utf8(payload.drop_last())
}

/// A payload that is not well-formed UTF-8 is no terminated string, whether the
/// fault lies before its last byte or in it, and whether or not that byte is
/// the terminator.
pub proof fn lemma_bad_text_is_no_cstring(payload: Seq<u8>)
    requires
        !valid_utf8(payload) || !valid_utf8(payload.drop_last()),
    ensures
        !is_cstring(payload),
{
    if is_cstring(payload) {
        let terminator: Seq<u8> = seq![0u8];
        assert(valid_utf8(terminator)) by {
            reveal_with_fuel(valid_utf8, 2);
            assert(terminator.subrange(1, 1) =~= Seq::<u8>::empty());
        }
        valid_utf8_concat(payload.drop_last(), terminator);
        assert(payload =~= payload.drop_last() + terminator);
    }
}

/// `core::str::from_utf8`, with its error dropped. The bytes come back as text
/// exactly when they are well-formed UTF-8, and the text is then made of those
/// same bytes.
#[verifier::external_body]
fn utf8_text<'a>(bytes: &'a [u8]) -> (r: Option<&'a str>)
    ensures
        r is Some <==> valid_utf8(bytes@),
        r matches Some(text) ==> text.spec_bytes() == bytes@,
{
    core::str::from_utf8(bytes).ok()
}

/// The text of a terminated string, if `payload` is one.
pub fn read_cstring<'a>(payload: &'a [u8]) -> (r: Option<&'a str>)
    ensures
        r is Some <==> is_cstring(payload@),
        r matches Some(text) ==> text.spec_bytes() == payload@.drop_last() && text@
            == cstring_text(payload@),
{
    let len: usize = payload.len();
    if len == 0 || payload[len - 1] != 0 {
        return None;
    }
    let body: &'a [u8] = &payload[0..len - 1];
    assert(body@ == payload@.drop_last());
    let text: Option<&'a str> = utf8_text(body);
    proof {
        if let Some(t) = text {
            encode_utf8_decode_utf8(t@);
        }
    }
    text
}

/// Whether `payload` is a terminated string.
pub fn validate_cstring(payload: &[u8]) -> (ok: bool)
    ensures
        ok == is_cstring(payload@),
{
    read_cstring(payload).is_some()
}

} // verus!
