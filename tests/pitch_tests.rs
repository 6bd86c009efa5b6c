use melody_synth::pitch::{str_to_semitone, SynthError};

#[test]
fn every_sharp_name_maps_to_its_class() {
    let names = ["C", "C#", "D", "D#", "E", "F", "F#", "G", "G#", "A", "A#", "B"];
    for (k, name) in names.iter().enumerate() {
        assert_eq!(str_to_semitone(name), Ok(k as i64));
    }
}

#[test]
fn lookup_is_stable_across_calls() {
    assert_eq!(str_to_semitone("F#"), str_to_semitone("F#"));
    assert_eq!(str_to_semitone("A"), Ok(9));
}

#[test]
fn flats_octaves_and_other_strings_are_refused() {
    for bad in ["Db", "C4", "", "c", "H", "E#", "B#", "C##", "A ", " A", "Cb"] {
        assert_eq!(str_to_semitone(bad), Err(SynthError::InvalidNoteName), "{}", bad);
    }
}
