//! Pitch classes: the twelve sharp-spelled note names and their semitone
//! offsets within the octave.
use vstd::prelude::*;
use vstd::string::StrSliceExecFns;

verus! {

/// The error raised when a string names no pitch class.
#[derive(Debug, Clone, Copy, PartialEq, Eq, Structural)]
pub enum SynthError {
    InvalidNoteName,
}

/// Name of pitch class `k` (`0 <= k < 12`), from C up to B, sharps only.
pub open spec fn note_name(k: int) -> Seq<char> {
    if k == 0 {
        seq!['C']
    } else if k == 1 {
        seq!['C', '#']
    } else if k == 2 {
        seq!['D']
    } else if k == 3 {
        seq!['D', '#']
    } else if k == 4 {
        seq!['E']
    } else if k == 5 {
        seq!['F']
    } else if k == 6 {
        seq!['F', '#']
    } else if k == 7 {
        seq!['G']
    } else if k == 8 {
        seq!['G', '#']
    } else if k == 9 {
        seq!['A']
    } else if k == 10 {
        seq!['A', '#']
    } else {
        seq!['B']
    }
}

/// `s` is the name of pitch class `k`.
pub open spec fn names_class(s: Seq<char>, k: int) -> bool {
    0 <= k < 12 && s == note_name(k)
}

/// `s` is one of the twelve note names.
pub open spec fn is_note_name(s: Seq<char>) -> bool {
    exists|k: int| names_class(s, k)
}

/// Distinct pitch classes have distinct names.
pub proof fn lemma_note_names_distinct(j: int, k: int)
    requires
        0 <= j < 12,
        0 <= k < 12,
        note_name(j) == note_name(k),
    ensures
        j == k,
{
    assert(note_name(0)[0] == 'C' && note_name(0).len() == 1);
    assert(note_name(1)[0] == 'C' && note_name(1).len() == 2);
    assert(note_name(1)[1] == '#');
    assert(note_name(2)[0] == 'D' && note_name(2).len() == 1);
    assert(note_name(3)[0] == 'D' && note_name(3).len() == 2);
    assert(note_name(3)[1] == '#');
    assert(note_name(4)[0] == 'E' && note_name(4).len() == 1);
    assert(note_name(5)[0] == 'F' && note_name(5).len() == 1);
    assert(note_name(6)[0] == 'F' && note_name(6).len() == 2);
    assert(note_name(6)[1] == '#');
    assert(note_name(7)[0] == 'G' && note_name(7).len() == 1);
    assert(note_name(8)[0] == 'G' && note_name(8).len() == 2);
    assert(note_name(8)[1] == '#');
    assert(note_name(9)[0] == 'A' && note_name(9).len() == 1);
    assert(note_name(10)[0] == 'A' && note_name(10).len() == 2);
    assert(note_name(10)[1] == '#');
    assert(note_name(11)[0] == 'B' && note_name(11).len() == 1);
    assert(note_name(j).len() == note_name(k).len());
    assert(note_name(j)[0] == note_name(k)[0]);
    if note_name(j).len() == 2 {
        assert(note_name(j)[1] == note_name(k)[1]);
    }
}

/// Base offset of a natural note letter, or `None` for any other character.
fn letter_offset(c: char) -> (r: Option<i64>)
    ensures
        match r {
            Some(k) => 0 <= k < 12 && note_name(k as int) == seq![c],
            None => forall|k: int| 0 <= k < 12 ==> note_name(k) != seq![c],
        },
{
    let r = if c == 'C' {
        Some(0)
    } else if c == 'D' {
        Some(2)
    } else if c == 'E' {
        Some(4)
    } else if c == 'F' {
        Some(5)
    } else if c == 'G' {
        Some(7)
    } else if c == 'A' {
        Some(9)
    } else if c == 'B' {
        Some(11)
    } else {
        None
    };
    proof {
        if r.is_none() {
            assert forall|k: int| 0 <= k < 12 implies note_name(k) != seq![c] by {
                if note_name(k) == seq![c] {
                    assert(note_name(k)[0] == seq![c][0]);
                }
            }
        }
    }
    r
}

/// Semitone offset of the pitch class that `st` names: `C` is 0, `C#` is 1,
/// up to `B` at 11. Flats, octave numbers and anything else are refused.
pub fn str_to_semitone(st: &str) -> (r: Result<i64, SynthError>)
    ensures
        match r {
            Ok(k) => names_class(st@, k as int),
            Err(e) => e == SynthError::InvalidNoteName && !is_note_name(st@),
        },
{
    let n = st.unicode_len();
    if n == 1 {
        let c = st.get_char(0);
        match letter_offset(c) {
            Some(k) => {
                assert(st@ =~= seq![c]);
                Ok(k)
            },
            None => {
                assert(st@ =~= seq![c]);
                Err(SynthError::InvalidNoteName)
            },
        }
    } else if n == 2 {
        let c = st.get_char(0);
        let s = st.get_char(1);
        let k: i64 = if s != '#' {
            -1
        } else if c == 'C' {
            1
        } else if c == 'D' {
            3
        } else if c == 'F' {
            6
        } else if c == 'G' {
            8
        } else if c == 'A' {
            10
        } else {
            -1
        };
        assert(st@ =~= seq![c, s]);
        if k < 0 {
            proof {
                assert forall|j: int| 0 <= j < 12 implies note_name(j) != st@ by {
                    if note_name(j) == st@ {
                        assert(note_name(j)[0] == c);
                        assert(note_name(j)[1] == s);
                    }
                }
            }
            Err(SynthError::InvalidNoteName)
        } else {
            Ok(k)
        }
    } else {
        proof {
            assert forall|j: int| 0 <= j < 12 implies note_name(j) != st@ by {
                if note_name(j) == st@ {
                    assert(note_name(j).len() == st@.len());
                }
            }
        }
        Err(SynthError::InvalidNoteName)
    }
}

} // verus!
