//! Integer core of a monophonic sine-melody synthesizer: note names, note
//! lengths in samples, the attack/decay envelope gains, buffer concatenation
//! and the little-endian sample framing.
use vstd::prelude::*;

pub mod compose;
pub mod envelope;
pub mod pcm;
pub mod pitch;
pub mod timing;

verus! {

} // verus!
