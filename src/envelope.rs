//! The attack/decay envelope, as integer gains in thousandths.
//!
//! A buffer of `len` samples is faded in over its first `RAMP` samples and
//! faded out over its last `RAMP`, measured in samples whatever the sample
//! rate. Sample `i` is scaled by `attack(i) / RAMP` and by `decay(i) / RAMP`.
use vstd::prelude::*;

verus! {

/// Length in samples of each linear ramp, and the gain that stands for 1.
pub const RAMP: u64 = 1000;

/// Attack gain of sample `i`, in thousandths: `min(1000, i)`.
pub open spec fn attack(i: int) -> int {
    if i < RAMP as int {
        i
    } else {
        RAMP as int
    }
}

/// Decay gain of sample `i` of a buffer of `len` samples, in thousandths:
/// `min(1000, len - i)`.
pub open spec fn decay(i: int, len: int) -> int {
    if len - i < RAMP as int {
        len - i
    } else {
        RAMP as int
    }
}

/// Attack gain of sample `i`, in thousandths.
pub fn attack_gain(i: usize) -> (r: u64)
    ensures
        r as int == attack(i as int),
        r <= RAMP,
{
    if (i as u64) < RAMP {
        i as u64
    } else {
        RAMP
    }
}

/// Decay gain of sample `i` of a buffer of `len` samples, in thousandths.
/// Only defined inside the buffer, where it is never negative.
pub fn decay_gain(i: usize, len: usize) -> (r: u64)
    requires
        i < len,
    ensures
        r as int == decay(i as int, len as int),
        1 <= r <= RAMP,
{
    let rest = len - i;
    if (rest as u64) < RAMP {
        rest as u64
    } else {
        RAMP
    }
}

/// The (attack, decay) gains of every sample of a buffer of `len` samples,
/// in order.
pub fn envelope_gains(len: usize) -> (r: Vec<(u64, u64)>)
    ensures
        r@.len() == len,
        forall|i: int|
            0 <= i < len ==> (#[trigger] r@[i]).0 as int == attack(i) && r@[i].1 as int == decay(
                i,
                len as int,
            ),
{
    let mut r: Vec<(u64, u64)> = Vec::new();
    let mut i: usize = 0;
    while i < len
        invariant
            i <= len,
            r@.len() == i,
            forall|j: int|
                0 <= j < i ==> (#[trigger] r@[j]).0 as int == attack(j) && r@[j].1 as int == decay(
                    j,
                    len as int,
                ),
        decreases len - i,
    {
        r.push((attack_gain(i), decay_gain(i, len)));
        i = i + 1;
    }
    r
}

/// The envelope silences the first sample of every non-empty buffer, and
/// leaves untouched every sample that lies at least `RAMP` samples from the
/// start and from the end.
pub proof fn lemma_envelope_bounds(len: int, i: int)
    requires
        len >= 1,
    ensures
        attack(0) == 0,
        0 <= i ==> 0 <= attack(i) <= RAMP,
        0 <= i < len ==> 1 <= decay(i, len) <= RAMP,
        RAMP <= i <= len - RAMP ==> attack(i) == RAMP && decay(i, len) == RAMP,
{
}

} // verus!
