use melody_synth::envelope::{attack_gain, decay_gain, envelope_gains, RAMP};

#[test]
fn attack_ramps_then_holds() {
    assert_eq!(attack_gain(0), 0);
    assert_eq!(attack_gain(1), 1);
    assert_eq!(attack_gain(500), 500);
    assert_eq!(attack_gain(999), 999);
    assert_eq!(attack_gain(1000), RAMP);
    assert_eq!(attack_gain(48000), 1000);
}

#[test]
fn decay_counts_samples_left() {
    assert_eq!(decay_gain(0, 500), 500);
    assert_eq!(decay_gain(499, 500), 1);
    assert_eq!(decay_gain(0, 5000), 1000);
    assert_eq!(decay_gain(4000, 5000), 1000);
    assert_eq!(decay_gain(4001, 5000), 999);
}

#[test]
fn empty_buffer_has_no_gains() {
    assert!(envelope_gains(0).is_empty());
}

#[test]
fn first_sample_is_silenced() {
    for len in [1usize, 2, 999, 1000, 2500] {
        let g = envelope_gains(len);
        assert_eq!(g.len(), len);
        assert_eq!(g[0].0, 0);
        assert_eq!(g[0].1, std::cmp::min(1000, len as u64));
    }
}

#[test]
fn middle_of_long_buffer_is_untouched() {
    let len = 3000usize;
    let g = envelope_gains(len);
    for i in 1000..=(len - 1000) {
        assert_eq!(g[i], (1000, 1000));
    }
    assert_eq!(g[999], (999, 1000));
    assert_eq!(g[2001], (1000, 999));
    assert_eq!(g[len - 1], (1000, 1));
}

#[test]
fn short_buffer_ramps_overlap() {
    let g = envelope_gains(10);
    assert_eq!(g[3], (3, 7));
    assert_eq!(g[9], (9, 1));
}

#[test]
fn gains_are_the_same_on_every_call() {
    assert_eq!(envelope_gains(2345), envelope_gains(2345));
}
