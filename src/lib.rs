//! Relays MJPEG frames from a capture stream to one remote viewer: a frame
//! assembler that cuts the raw byte stream at JPEG end-of-image markers, a
//! length-prefixed wire format, and a supervisor that runs one session after
//! another and retries after any failure.
use vstd::prelude::*;

pub mod assembler;
pub mod supervisor;
pub mod wire;

verus! {

} // verus!
