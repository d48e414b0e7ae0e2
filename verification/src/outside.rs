//! The library's trusted boundary: declarations of outside types and thin
//! wrappers around outside calls, with the contracts the rest of the crate
//! is verified against.
use vstd::prelude::*;
use vstd::utf8::{encode_utf8, valid_utf8};

verus! {

/// Relies on core::str::from_utf8: succeeds exactly on valid UTF-8 and
/// decodes to the characters whose encoding is the input.
#[verifier::external_body]
pub fn utf8_to_string(v: &[u8]) -> (r: Option<String>)
    ensures
        r is Some <==> valid_utf8(v@),
        r is Some ==> encode_utf8(r->0@) == v@,
{
    match core::str::from_utf8(v) {
        Ok(s) => Some(s.to_owned()),
        Err(_) => None,
    }
}

/// The characters that lossy UTF-8 decoding yields for the given bytes:
/// valid sequences decode to their characters, invalid ones become
/// replacement characters.
pub uninterp spec fn utf8_lossy_of(bytes: Seq<u8>) -> Seq<char>;

/// Relies on String::from_utf8_lossy: the result is a function of the bytes
/// alone; valid UTF-8 decodes to exactly the characters it encodes.
#[verifier::external_body]
pub fn utf8_lossy(v: &[u8]) -> (r: String)
    ensures
        r@ == utf8_lossy_of(v@),
        valid_utf8(v@) ==> encode_utf8(r@) == v@,
{
    String::from_utf8_lossy(v).to_string()
}

/// tokio's bounded channel sender, used as the handle to one listener.
#[verifier::external_type_specification]
#[verifier::external_body]
#[verifier::reject_recursive_types(T)]
pub struct ExMpscSender<T>(tokio::sync::mpsc::Sender<T>);

/// Relies on tokio's Sender::try_send: a non-blocking send that fails when
/// the channel is full or the receiver is gone. Whether it succeeds depends
/// on the receiver's state, so nothing is promised of the outcome.
#[verifier::external_body]
pub fn try_send_event(
    s: &tokio::sync::mpsc::Sender<crate::player::OpusPlayerEvent>,
    ev: crate::player::OpusPlayerEvent,
) -> (ok: bool) {
    s.try_send(ev).is_ok()
}

/// A monotonic clock reading.
#[verifier::external_type_specification]
#[verifier::external_body]
pub struct ExInstant(std::time::Instant);

/// Relies on Instant::now: the current reading of the monotonic clock.
/// Nothing is promised of the value.
#[verifier::external_body]
pub fn instant_now() -> std::time::Instant {
    std::time::Instant::now()
}

/// Relies on Instant::elapsed: the time since the reading was taken.
/// Nothing is promised of the value.
#[verifier::external_body]
pub fn instant_elapsed(i: &std::time::Instant) -> core::time::Duration {
    i.elapsed()
}

/// Relies on Duration::as_millis: the span in whole milliseconds.
#[verifier::external_body]
pub fn duration_as_millis(d: &core::time::Duration) -> u128 {
    d.as_millis()
}

/// The parent directory of a path, as std's path component rules define it.
pub uninterp spec fn parent_dir_of(path: Seq<char>) -> Option<Seq<char>>;

/// Relies on Path::parent: the path without its final component, if it has
/// one; the result is a function of the path's characters alone.
#[verifier::external_body]
pub fn path_parent(path: &str) -> (r: Option<String>)
    ensures
        r is Some <==> parent_dir_of(path@) is Some,
        r is Some ==> r->0@ == parent_dir_of(path@)->0,
{
    std::path::Path::new(path).parent().map(|p| p.to_string_lossy().to_string())
}

/// The uppercase form of the given characters, as Unicode defines it.
pub uninterp spec fn uppercase_of(s: Seq<char>) -> Seq<char>;

/// Relies on str::to_uppercase: the result is a function of the characters
/// alone; the empty string stays empty.
#[verifier::external_body]
pub fn to_uppercase(s: &str) -> (r: String)
    ensures
        r@ == uppercase_of(s@),
        s@.len() == 0 ==> r@.len() == 0,
{
    s.to_uppercase()
}

} // verus!
