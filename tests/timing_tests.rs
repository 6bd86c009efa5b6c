use melody_synth::timing::{note_length, Beats};

#[test]
fn one_beat_at_120_bpm_is_half_a_second() {
    assert_eq!(note_length(1000, 120, Beats { num: 1, den: 1 }), 500);
}

#[test]
fn length_is_floored() {
    // 48000 * 60 / 113 / 2 = 12743.36...
    assert_eq!(note_length(48000, 113, Beats { num: 1, den: 2 }), 12743);
    // 48000 * 60 / 113 = 25486.72...
    assert_eq!(note_length(48000, 113, Beats { num: 1, den: 1 }), 25486);
}

#[test]
fn zero_beats_give_no_samples() {
    assert_eq!(note_length(48000, 113, Beats { num: 0, den: 1 }), 0);
    assert_eq!(note_length(0, 60, Beats { num: 4, den: 1 }), 0);
}

#[test]
fn largest_inputs_do_not_overflow() {
    let r = note_length(u32::MAX, 1, Beats { num: u16::MAX, den: 1 });
    assert_eq!(r, u32::MAX as u64 * 60 * u16::MAX as u64);
}
