//! Note lengths: beats at a tempo, turned into a count of samples.
use vstd::prelude::*;

verus! {

/// A duration in beats, as the fraction `num / den`.
#[derive(Debug, Clone, Copy, PartialEq, Eq, Structural)]
pub struct Beats {
    pub num: u16,
    pub den: u16,
}

impl Beats {
    pub open spec fn wf(self) -> bool {
        self.den > 0
    }
}

/// Samples in a tone of `beats` at `bpm` beats per minute:
/// `floor(sample_rate * (60 / bpm) * beats)`.
pub open spec fn tone_length(sample_rate: int, bpm: int, beats: Beats) -> int {
    (sample_rate * 60 * beats.num) / (bpm * beats.den)
}

/// Number of samples of a tone that lasts `beats` at `bpm` beats per minute.
pub fn note_length(sample_rate: u32, bpm: u32, beats: Beats) -> (r: u64)
    requires
        bpm > 0,
        beats.wf(),
    ensures
        r as int == tone_length(sample_rate as int, bpm as int, beats),
        beats.num == 0 ==> r == 0,
{
    let sr = sample_rate as u64;
    let num = beats.num as u64;
    let b = bpm as u64;
    let den = beats.den as u64;
    assert(sr * 60 * num <= 0xffff_ffff * 60 * 0xffff) by (nonlinear_arith)
        requires
            sr <= 0xffff_ffff,
            num <= 0xffff,
    ;
    assert(b * den <= 0xffff_ffff * 0xffff) by (nonlinear_arith)
        requires
            b <= 0xffff_ffff,
            den <= 0xffff,
    ;
    assert(b * den >= 1) by (nonlinear_arith)
        requires
            b >= 1,
            den >= 1,
    ;
    if num == 0 {
        assert(sr * 60 * num == 0) by (nonlinear_arith)
            requires
                num == 0,
        ;
    }
    (sr * 60 * num) / (b * den)
}

} // verus!
