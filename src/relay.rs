use vstd::prelude::*;
use vstd::utf8::*;

use crate::text::utf8_text;

verus! {

/// What the error relay does with one chunk read from the child's error
/// stream.
pub enum ErrorRelay {
    /// Write this text, tagged with the child's id, to the log device.
    Log(String),
    /// The child's diagnostics are corrupt: stop the whole terminal.
    Fatal,
}

/// Decides what the error relay does with a chunk: the chunk is logged when
/// it is valid UTF-8, and anything else is fatal.
pub fn relay_error_chunk(chunk: &[u8]) -> (r: ErrorRelay)
    ensures
        r is Fatal <==> !valid_utf8(chunk@),
        r matches ErrorRelay::Log(s) ==> s@ == decode_utf8(chunk@),
{
    match utf8_text(chunk) {
        Some(s) => ErrorRelay::Log(s),
        None => ErrorRelay::Fatal,
    }
}

} // verus!
