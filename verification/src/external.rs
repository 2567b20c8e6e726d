//! The boundary to the outside crates: every item here is trusted, and
//! each doc comment names the outside function it relies on.

use vstd::prelude::*;

verus! {

/// The inbound byte buffer of the TCP transport is a `bytes::BytesMut`;
/// its contents are modelled as the sequence of readable bytes.
#[verifier::external_type_specification]
#[verifier::external_body]
pub struct ExBytesMut(bytes::BytesMut);

/// The readable bytes a `bytes::BytesMut` currently holds, front to back.
pub uninterp spec fn bytes_view(b: bytes::BytesMut) -> Seq<u8>;

/// Relies on bytes::BytesMut::extend_from_slice: appends the given bytes
/// at the back, growing the buffer as needed.
#[verifier::external_body]
pub(crate) fn buf_extend(dst: &mut bytes::BytesMut, data: &[u8])
    ensures
        bytes_view(*final(dst)) == bytes_view(*old(dst)) + data@,
{
    dst.extend_from_slice(data)
}

/// Relies on bytes::BytesMut::split_to: the first `at` bytes move into the
/// returned buffer and the rest stay behind. The call panics when `at`
/// exceeds the length, so that input is excluded.
#[verifier::external_body]
pub(crate) fn buf_split_to(src: &mut bytes::BytesMut, at: usize) -> (r: bytes::BytesMut)
    requires
        at <= bytes_view(*old(src)).len(),
    ensures
        bytes_view(r) == bytes_view(*old(src)).take(at as int),
        bytes_view(*final(src)) == bytes_view(*old(src)).skip(at as int),
{
    src.split_to(at)
}

/// Relies on <bytes::BytesMut as AsRef<[u8]>>::as_ref: a view of exactly
/// the readable bytes.
#[verifier::external_body]
pub(crate) fn buf_as_slice(b: &bytes::BytesMut) -> (r: &[u8])
    ensures
        r@ == bytes_view(*b),
{
    b.as_ref()
}

/// Each byte decoded as one Unicode code point, as UTF-8 does for ASCII.
pub open spec fn ascii_chars(b: Seq<u8>) -> Seq<char> {
    b.map_values(|x: u8| x as char)
}

/// Are all bytes ASCII?
pub open spec fn is_ascii_bytes(b: Seq<u8>) -> bool {
    forall|i: int| 0 <= i < b.len() ==> b[i] < 128
}

/// What lossy UTF-8 decoding yields: a function of the bytes alone.
pub uninterp spec fn lossy_decode(b: Seq<u8>) -> Seq<char>;

/// Relies on String::from_utf8_lossy: the result depends on the bytes
/// alone, and ASCII bytes are valid UTF-8, so they pass through with each
/// byte becoming the character of the same code.
#[verifier::external_body]
pub(crate) fn from_utf8_lossy(b: &[u8]) -> (r: String)
    ensures
        r@ == lossy_decode(b@),
        is_ascii_bytes(b@) ==> r@ == ascii_chars(b@),
{
    String::from_utf8_lossy(b).into_owned()
}

/// Relies on uuid::Uuid::new_v4 and its Display form: a random version-4
/// UUID rendered as text. The value is random, so nothing is promised
/// of it; the registry itself checks freshness.
#[verifier::external_body]
pub(crate) fn new_session_id() -> (r: String) {
    uuid::Uuid::new_v4().to_string()
}

} // verus!
