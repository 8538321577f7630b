//! Note names and the note events the sequencer emits.

use crate::text::{push_signed_decimal, signed_decimal};
use vstd::prelude::*;
use vstd::string::StringExecFns;

verus! {

/// Remainder of `pitch` by 12 with the sign of `pitch`, as machine division
/// leaves it.
pub open spec fn pitch_class(pitch: int) -> int {
    if pitch >= 0 {
        pitch % 12
    } else {
        -((-pitch) % 12)
    }
}

/// The octave number shown for `pitch`: twelve semitones to the octave,
/// rounding toward zero, counted from 1.
pub open spec fn octave(pitch: int) -> int {
    if pitch >= 0 {
        pitch / 12 + 1
    } else {
        -((-pitch) / 12) + 1
    }
}

/// The name of a pitch class; empty for a class outside 0..=11.
pub open spec fn pitch_class_name(class: int) -> Seq<char> {
    if class == 0 {
        seq!['C']
    } else if class == 1 {
        seq!['C', '#']
    } else if class == 2 {
        seq!['D']
    } else if class == 3 {
        seq!['D', '#']
    } else if class == 4 {
        seq!['E']
    } else if class == 5 {
        seq!['F']
    } else if class == 6 {
        seq!['F', '#']
    } else if class == 7 {
        seq!['G']
    } else if class == 8 {
        seq!['G', '#']
    } else if class == 9 {
        seq!['A']
    } else if class == 10 {
        seq!['A', '#']
    } else if class == 11 {
        seq!['B']
    } else {
        Seq::empty()
    }
}

/// The displayed name of a pitch: pitch class, a hyphen, octave number.
pub open spec fn note_name(pitch: int) -> Seq<char> {
    pitch_class_name(pitch_class(pitch)) + seq!['-'] + signed_decimal(octave(pitch))
}

/// The text of a pitch class name.
fn pitch_class_str(class: i64) -> (s: &'static str)
    ensures
        s@ == pitch_class_name(class as int),
{
    proof {
        reveal_strlit("C");
        reveal_strlit("C#");
        reveal_strlit("D");
        reveal_strlit("D#");
        reveal_strlit("E");
        reveal_strlit("F");
        reveal_strlit("F#");
        reveal_strlit("G");
        reveal_strlit("G#");
        reveal_strlit("A");
        reveal_strlit("A#");
        reveal_strlit("B");
        reveal_strlit("");
    }
    let s = if class == 0 {
        "C"
    } else if class == 1 {
        "C#"
    } else if class == 2 {
        "D"
    } else if class == 3 {
        "D#"
    } else if class == 4 {
        "E"
    } else if class == 5 {
        "F"
    } else if class == 6 {
        "F#"
    } else if class == 7 {
        "G"
    } else if class == 8 {
        "G#"
    } else if class == 9 {
        "A"
    } else if class == 10 {
        "A#"
    } else if class == 11 {
        "B"
    } else {
        ""
    };
    assert(s@ =~= pitch_class_name(class as int));
    s
}

/// The displayed name of a MIDI pitch, such as `C#-4` for pitch 37.
pub fn get_note_name(midi_pitch: i32) -> (name: String)
    ensures
        name@ == note_name(midi_pitch as int),
{
    let wide: i64 = midi_pitch as i64;
    let magnitude: i64 = if wide < 0 {
        -wide
    } else {
        wide
    };
    let class: i64 = if wide < 0 {
        -(magnitude % 12)
    } else {
        magnitude % 12
    };
    let octave_number: i64 = if wide < 0 {
        -(magnitude / 12) + 1
    } else {
        magnitude / 12 + 1
    };
    let mut name = String::from_str(pitch_class_str(class));
    name.append("-");
    proof {
        reveal_strlit("-");
    }
    push_signed_decimal(&mut name, octave_number);
    assert(name@ =~= note_name(midi_pitch as int));
    name
}

/// Whether an event starts or ends a note.
#[derive(Debug, Clone, Copy, PartialEq, Eq, Structural)]
pub enum NoteKind {
    NoteOn,
    NoteOff,
}

/// A note event for the host: what happens, to which note, how hard, and at
/// which sample of the block being processed.
#[derive(Debug, Clone, Copy, PartialEq, Eq, Structural)]
pub struct NoteEvent {
    pub kind: NoteKind,
    pub pitch: u8,
    pub velocity: u8,
    pub frame_offset: usize,
}

/// The MIDI status byte of an event kind on channel 1.
pub open spec fn status_byte(kind: NoteKind) -> u8 {
    match kind {
        NoteKind::NoteOn => 144,
        NoteKind::NoteOff => 128,
    }
}

impl NoteEvent {
    /// The three bytes of the event as a MIDI channel message: status, pitch
    /// and velocity.
    pub fn midi_data(&self) -> (data: [u8; 3])
        ensures
            data@ == seq![status_byte(self.kind), self.pitch, self.velocity],
    {
        let status: u8 = match self.kind {
            NoteKind::NoteOn => 144,
            NoteKind::NoteOff => 128,
        };
        let data = [status, self.pitch, self.velocity];
        assert(data@ =~= seq![status_byte(self.kind), self.pitch, self.velocity]);
        data
    }
}

} // verus!
