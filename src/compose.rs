//! Sequencing a score: each note resolved to a pitch class and a length in
//! samples, and the per-note buffers joined end to end in score order.
use vstd::prelude::*;
use crate::pitch::{SynthError, str_to_semitone, names_class, is_note_name};
use crate::timing::{Beats, note_length, tone_length};

verus! {

/// One note of a score: a pitch-class name held for a number of beats.
#[derive(Debug)]
pub struct ScoreNote {
    pub name: String,
    pub beats: Beats,
}

/// A resolved note: its semitone offset and its length in samples.
#[derive(Debug, Clone, Copy, PartialEq, Eq, Structural)]
pub struct NotePlan {
    pub semitone: i64,
    pub samples: u64,
}

/// `p` is what note `n` of a score becomes at this sample rate and tempo.
pub open spec fn plans_note(p: NotePlan, n: ScoreNote, sample_rate: int, bpm: int) -> bool {
    names_class(n.name@, p.semitone as int) && p.samples as int == tone_length(
        sample_rate,
        bpm,
        n.beats,
    )
}

/// Every note's beats are a proper fraction with a non-zero denominator.
pub open spec fn score_wf(score: Seq<ScoreNote>) -> bool {
    forall|i: int| 0 <= i < score.len() ==> (#[trigger] score[i]).beats.wf()
}

/// Resolves every note of `score`, in order. Fails with `InvalidNoteName`
/// exactly when some note's name is not one of the twelve pitch classes.
pub fn plan_score(score: &Vec<ScoreNote>, sample_rate: u32, bpm: u32) -> (r: Result<
    Vec<NotePlan>,
    SynthError,
>)
    requires
        bpm > 0,
        score_wf(score@),
    ensures
        match r {
            Ok(p) => p@.len() == score@.len() && forall|i: int|
                0 <= i < p@.len() ==> plans_note(
                    #[trigger] p@[i],
                    score@[i],
                    sample_rate as int,
                    bpm as int,
                ),
            Err(e) => e == SynthError::InvalidNoteName && exists|i: int|
                0 <= i < score@.len() && !is_note_name(#[trigger] score@[i].name@),
        },
{
    let mut p: Vec<NotePlan> = Vec::new();
    let mut i: usize = 0;
    while i < score.len()
        invariant
            i <= score@.len(),
            p@.len() == i,
            bpm > 0,
            score_wf(score@),
            forall|j: int|
                0 <= j < i ==> plans_note(
                    #[trigger] p@[j],
                    score@[j],
                    sample_rate as int,
                    bpm as int,
                ),
        decreases score@.len() - i,
    {
        let note = &score[i];
        assert(note.beats.wf());
        match str_to_semitone(note.name.as_str()) {
            Ok(k) => {
                let samples = note_length(sample_rate, bpm, note.beats);
                p.push(NotePlan { semitone: k, samples });
            },
            Err(e) => {
                assert(!is_note_name(score@[i as int].name@));
                return Err(e);
            },
        }
        i = i + 1;
    }
    Ok(p)
}

/// The buffers of `parts` joined end to end, in order.
pub open spec fn joined<T>(parts: Seq<Seq<T>>) -> Seq<T>
    decreases parts.len(),
{
    if parts.len() == 0 {
        Seq::empty()
    } else {
        joined(parts.drop_last()) + parts.last()
    }
}

/// Sum of the lengths in samples of a planned score.
pub open spec fn total_samples(plans: Seq<NotePlan>) -> int
    decreases plans.len(),
{
    if plans.len() == 0 {
        0
    } else {
        total_samples(plans.drop_last()) + plans.last().samples
    }
}

/// What a vector of buffers holds, as a sequence of sequences.
pub open spec fn buffers_view<T>(tones: Seq<Vec<T>>) -> Seq<Seq<T>> {
    tones.map_values(|t: Vec<T>| t@)
}

/// Joins the per-note buffers into one, in order, with nothing between them.
pub fn concat_tones<T: Copy>(tones: &Vec<Vec<T>>) -> (r: Vec<T>)
    ensures
        r@ == joined(buffers_view(tones@)),
{
    let mut r: Vec<T> = Vec::new();
    let mut i: usize = 0;
    while i < tones.len()
        invariant
            i <= tones@.len(),
            r@ == joined(buffers_view(tones@).subrange(0, i as int)),
        decreases tones@.len() - i,
    {
        let tone = &tones[i];
        let ghost before = r@;
        let mut j: usize = 0;
        while j < tone.len()
            invariant
                j <= tone@.len(),
                tone == tones@[i as int],
                r@ == before + tone@.subrange(0, j as int),
            decreases tone@.len() - j,
        {
            r.push(tone[j]);
            j = j + 1;
            assert(r@ =~= before + tone@.subrange(0, j as int));
        }
        proof {
            let parts = buffers_view(tones@);
            assert(parts.subrange(0, i + 1).drop_last() =~= parts.subrange(0, i as int));
            assert(tone@.subrange(0, j as int) =~= tone@);
        }
        i = i + 1;
    }
    assert(buffers_view(tones@).subrange(0, i as int) =~= buffers_view(tones@));
    r
}

/// Joining buffers whose lengths are those of a planned score gives a buffer
/// as long as the sum of the notes' lengths; an empty score gives an empty
/// buffer.
pub proof fn lemma_joined_length<T>(plans: Seq<NotePlan>, parts: Seq<Seq<T>>)
    requires
        parts.len() == plans.len(),
        forall|i: int| 0 <= i < parts.len() ==> (#[trigger] parts[i]).len() == plans[i].samples,
    ensures
        joined(parts).len() == total_samples(plans),
        plans.len() == 0 ==> joined(parts) == Seq::<T>::empty(),
    decreases plans.len(),
{
    if plans.len() > 0 {
        let ps = plans.drop_last();
        let qs = parts.drop_last();
        assert forall|i: int| 0 <= i < qs.len() implies (#[trigger] qs[i]).len() == ps[i].samples by {
            assert(parts[i].len() == plans[i].samples);
        }
        lemma_joined_length(ps, qs);
        assert(parts[parts.len() - 1].len() == plans[plans.len() - 1].samples);
    }
}

} // verus!
