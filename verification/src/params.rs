//! The parameter bank: seven normalized controls, their musical meaning, and
//! the table of named presets.
//!
//! A normalized value is a fraction of [`UNIT`]: `0` stands for 0.0 and
//! `UNIT` for 1.0. `UNIT` is a power of two, so halving, quartering and
//! scaling by [`MAX_STEPS`] are exact.

use crate::note::{get_note_name, note_name};
use crate::pattern::MAX_STEPS;
use crate::text::{decimal, push_decimal, push_signed_decimal, signed_decimal};
use vstd::prelude::*;
use vstd::string::StringExecFns;

verus! {

/// The normalized value 1.0.
pub const UNIT: u32 = 16_777_216;

/// Number of controls.
pub const PARAMETER_COUNT: i32 = 7;

/// Number of presets in the table.
pub const PRESET_COUNT: usize = 19;

/// Picoseconds a note lasts with the note length control fully open: three
/// seconds.
pub const NOTE_LENGTH_SCALE: u64 = 3_000_000_000_000;

/// The controls of the sequencer.
#[derive(Debug, Clone, Copy, PartialEq, Eq, Structural)]
pub enum ParameterId {
    Pulses,
    Steps,
    Multiplier,
    Offset,
    Note,
    Velocity,
    NoteLength,
}

/// The control behind a host parameter index, if there is one.
pub open spec fn parameter_at(index: int) -> Option<ParameterId> {
    if index == 0 {
        Some(ParameterId::Pulses)
    } else if index == 1 {
        Some(ParameterId::Steps)
    } else if index == 2 {
        Some(ParameterId::Multiplier)
    } else if index == 3 {
        Some(ParameterId::Offset)
    } else if index == 4 {
        Some(ParameterId::Note)
    } else if index == 5 {
        Some(ParameterId::Velocity)
    } else if index == 6 {
        Some(ParameterId::NoteLength)
    } else {
        None
    }
}

/// The smallest normalized value a control may hold. Pulses and steps never
/// drop below one step, the multiplier never below one.
pub open spec fn floor_of(id: ParameterId) -> nat {
    match id {
        ParameterId::Pulses => (UNIT / 32) as nat,
        ParameterId::Steps => (UNIT / 32) as nat,
        ParameterId::Multiplier => (UNIT / 4) as nat,
        _ => 0,
    }
}

/// `value` brought into the range a control may hold.
pub open spec fn clamped(id: ParameterId, value: nat) -> nat {
    if value < floor_of(id) {
        floor_of(id)
    } else if value > UNIT {
        UNIT as nat
    } else {
        value
    }
}

/// `num / den` rounded to the nearest integer, a tie going to the even one.
pub open spec fn round_half_even(num: nat, den: nat) -> nat
    recommends
        den > 0,
{
    let q = num / den;
    let rem = num % den;
    if 2 * rem > den || (2 * rem == den && q % 2 == 1) {
        q + 1
    } else {
        q
    }
}

impl ParameterId {
    /// The control behind a host parameter index.
    pub fn from_index(index: i32) -> (id: Option<ParameterId>)
        ensures
            id == parameter_at(index as int),
    {
        if index == 0 {
            Some(ParameterId::Pulses)
        } else if index == 1 {
            Some(ParameterId::Steps)
        } else if index == 2 {
            Some(ParameterId::Multiplier)
        } else if index == 3 {
            Some(ParameterId::Offset)
        } else if index == 4 {
            Some(ParameterId::Note)
        } else if index == 5 {
            Some(ParameterId::Velocity)
        } else if index == 6 {
            Some(ParameterId::NoteLength)
        } else {
            None
        }
    }

    /// The smallest normalized value this control may hold.
    pub fn floor(self) -> (floor: u32)
        ensures
            floor == floor_of(self),
    {
        match self {
            ParameterId::Pulses => UNIT / 32,
            ParameterId::Steps => UNIT / 32,
            ParameterId::Multiplier => UNIT / 4,
            _ => 0,
        }
    }
}

/// A named pair of pulse and step counts.
pub struct Preset {
    pub name: String,
    pub pulses: i32,
    pub max_steps: i32,
}

/// What a preset says, as plain values.
pub struct PresetView {
    pub name: Seq<char>,
    pub pulses: int,
    pub max_steps: int,
}

impl View for Preset {
    type V = PresetView;

    open spec fn view(&self) -> PresetView {
        PresetView { name: self.name@, pulses: self.pulses as int, max_steps: self.max_steps as int }
    }
}

/// The preset table. Entry 0 is the blank preset, which is never applied.
pub open spec fn preset_table() -> Seq<PresetView> {
    seq![
        PresetView { name: "-- blank --"@, pulses: 4, max_steps: 4 },
        PresetView { name: "classical, jazz and Persian"@, pulses: 2, max_steps: 5 },
        PresetView { name: "Bulgarian folk"@, pulses: 5, max_steps: 7 },
        PresetView { name: "Turkey"@, pulses: 4, max_steps: 9 },
        PresetView { name: "classical"@, pulses: 5, max_steps: 11 },
        PresetView { name: "Brazillian necklace"@, pulses: 5, max_steps: 16 },
        PresetView { name: "West Africa, Latin America"@, pulses: 2, max_steps: 3 },
        PresetView { name: "Trinidad, Persia"@, pulses: 3, max_steps: 4 },
        PresetView { name: "Rumanian and Persian necklaces"@, pulses: 3, max_steps: 5 },
        PresetView { name: "West Africa"@, pulses: 3, max_steps: 8 },
        PresetView { name: "Bulgaria"@, pulses: 4, max_steps: 7 },
        PresetView { name: "Frank Zappa"@, pulses: 4, max_steps: 11 },
        PresetView { name: "Arab"@, pulses: 5, max_steps: 6 },
        PresetView { name: "Arab"@, pulses: 5, max_steps: 7 },
        PresetView {
            name: "Arab rhythm, South African and Rumanian necklaces"@,
            pulses: 5,
            max_steps: 9,
        },
        PresetView { name: "South Africa"@, pulses: 5, max_steps: 12 },
        PresetView { name: "Tuareg rhythm of Lybia"@, pulses: 7, max_steps: 8 },
        PresetView { name: "Brazilian necklace"@, pulses: 7, max_steps: 16 },
        PresetView { name: "Central Africa"@, pulses: 11, max_steps: 24 },
    ]
}

/// The views of a list of presets, entry by entry.
pub open spec fn preset_views(presets: Seq<Preset>) -> Seq<PresetView> {
    Seq::new(presets.len(), |i: int| presets[i]@)
}

/// The label shown for a preset: pulses, a slash, steps, a colon and the name.
pub open spec fn preset_label(preset: PresetView) -> Seq<char> {
    signed_decimal(preset.pulses) + seq!['/'] + signed_decimal(preset.max_steps) + seq![':', ' ']
        + preset.name
}

/// The name of the control behind a host parameter index; empty where there
/// is none.
pub open spec fn parameter_name(index: int) -> Seq<char> {
    match parameter_at(index) {
        Some(ParameterId::Pulses) => "Pulses"@,
        Some(ParameterId::Steps) => "Total steps"@,
        Some(ParameterId::Multiplier) => "Multiplier"@,
        Some(ParameterId::Offset) => "Offset"@,
        Some(ParameterId::Note) => "Note"@,
        Some(ParameterId::Velocity) => "Velocity"@,
        Some(ParameterId::NoteLength) => "Note length"@,
        None => Seq::empty(),
    }
}

/// The seven controls, each a normalized value, and the preset table.
pub struct UclidParameters {
    pulses: u32,
    max_steps: u32,
    velocity: u32,
    note: u32,
    offset: u32,
    note_length: u32,
    multiplier: u32,
    presets: Vec<Preset>,
    current_preset: i32,
}

impl UclidParameters {
    /// The normalized value of a control.
    pub closed spec fn value(&self, id: ParameterId) -> nat {
        match id {
            ParameterId::Pulses => self.pulses as nat,
            ParameterId::Steps => self.max_steps as nat,
            ParameterId::Multiplier => self.multiplier as nat,
            ParameterId::Offset => self.offset as nat,
            ParameterId::Note => self.note as nat,
            ParameterId::Velocity => self.velocity as nat,
            ParameterId::NoteLength => self.note_length as nat,
        }
    }

    /// The presets held.
    pub closed spec fn presets(&self) -> Seq<PresetView> {
        preset_views(self.presets@)
    }

    /// The index of the preset that counts as selected.
    pub closed spec fn selected_preset(&self) -> int {
        self.current_preset as int
    }

    /// Every control is within its range and the preset table is the
    /// built-in one.
    pub open spec fn wf(&self) -> bool {
        &&& forall|id: ParameterId| floor_of(id) <= #[trigger] self.value(id) <= UNIT
        &&& self.presets() == preset_table()
        &&& self.selected_preset() == 0
    }

    /// Number of steps in the cycle: the steps control scaled to
    /// [`MAX_STEPS`], rounded down.
    pub open spec fn steps(&self) -> nat {
        self.value(ParameterId::Steps) * 32 / (UNIT as nat)
    }

    /// What the pulses control alone asks for, before it is held to the
    /// number of steps.
    pub open spec fn requested_pulses(&self) -> nat {
        self.value(ParameterId::Pulses) * 32 / (UNIT as nat)
    }

    /// Number of pulses in the cycle: never more than there are steps.
    pub open spec fn pulses(&self) -> nat {
        if self.requested_pulses() > self.steps() {
            self.steps()
        } else {
            self.requested_pulses()
        }
    }

    /// How many steps pass per quarter note.
    pub open spec fn multiplier(&self) -> nat {
        self.value(ParameterId::Multiplier) * 4 / (UNIT as nat)
    }

    /// By how many steps the cycle is shifted: the offset control scaled to
    /// the number of steps, rounded down.
    pub open spec fn offset(&self) -> nat {
        self.value(ParameterId::Offset) * self.steps() / (UNIT as nat)
    }

    /// MIDI pitch of the notes played.
    pub open spec fn pitch(&self) -> nat {
        self.value(ParameterId::Note) * 127 / (UNIT as nat)
    }

    /// MIDI velocity of the notes played.
    pub open spec fn velocity(&self) -> nat {
        self.value(ParameterId::Velocity) * 127 / (UNIT as nat)
    }

    /// How long a note sounds, in picoseconds.
    pub open spec fn note_length(&self) -> nat {
        self.value(ParameterId::NoteLength) * (NOTE_LENGTH_SCALE as nat) / (UNIT as nat)
    }

    /// The text shown beside the control behind a host parameter index;
    /// empty where there is none.
    pub open spec fn parameter_text(&self, index: int) -> Seq<char> {
        match parameter_at(index) {
            Some(ParameterId::Pulses) => decimal(self.requested_pulses()),
            Some(ParameterId::Steps) => decimal(self.steps()),
            Some(ParameterId::Multiplier) => decimal(self.multiplier()),
            Some(ParameterId::Offset) => decimal(
                round_half_even(
                    self.value(ParameterId::Offset) * self.value(ParameterId::Steps) * 32,
                    (UNIT as nat) * (UNIT as nat),
                ),
            ),
            Some(ParameterId::Note) => note_name(self.pitch() as int),
            Some(ParameterId::Velocity) => decimal(
                round_half_even(self.value(ParameterId::Velocity) * 127, UNIT as nat),
            ),
            Some(ParameterId::NoteLength) => decimal(
                round_half_even(self.value(ParameterId::NoteLength) * 3, UNIT as nat),
            ),
            None => Seq::empty(),
        }
    }
}

/// Every preset of the table asks for at least one pulse, no more pulses
/// than steps, and no more steps than a pattern may have.
pub proof fn lemma_preset_table_bounds()
    ensures
        preset_table().len() == PRESET_COUNT,
        forall|i: int|
            0 <= i < PRESET_COUNT ==> 1 <= (#[trigger] preset_table()[i]).pulses
                <= preset_table()[i].max_steps <= MAX_STEPS,
{
    let t = preset_table();
    assert forall|i: int| 0 <= i < PRESET_COUNT implies 1 <= (#[trigger] t[i]).pulses
        <= t[i].max_steps <= MAX_STEPS by {
        if i < 5 {
            assert(1 <= t[0].pulses <= t[0].max_steps <= 32);
            assert(1 <= t[1].pulses <= t[1].max_steps <= 32);
            assert(1 <= t[2].pulses <= t[2].max_steps <= 32);
            assert(1 <= t[3].pulses <= t[3].max_steps <= 32);
            assert(1 <= t[4].pulses <= t[4].max_steps <= 32);
        } else if i < 10 {
            assert(1 <= t[5].pulses <= t[5].max_steps <= 32);
            assert(1 <= t[6].pulses <= t[6].max_steps <= 32);
            assert(1 <= t[7].pulses <= t[7].max_steps <= 32);
            assert(1 <= t[8].pulses <= t[8].max_steps <= 32);
            assert(1 <= t[9].pulses <= t[9].max_steps <= 32);
        } else if i < 15 {
            assert(1 <= t[10].pulses <= t[10].max_steps <= 32);
            assert(1 <= t[11].pulses <= t[11].max_steps <= 32);
            assert(1 <= t[12].pulses <= t[12].max_steps <= 32);
            assert(1 <= t[13].pulses <= t[13].max_steps <= 32);
            assert(1 <= t[14].pulses <= t[14].max_steps <= 32);
        } else {
            assert(1 <= t[15].pulses <= t[15].max_steps <= 32);
            assert(1 <= t[16].pulses <= t[16].max_steps <= 32);
            assert(1 <= t[17].pulses <= t[17].max_steps <= 32);
            assert(1 <= t[18].pulses <= t[18].max_steps <= 32);
        }
    }
}

/// One entry of the preset table.
fn preset(name: &str, pulses: i32, max_steps: i32) -> (p: Preset)
    ensures
        p@ == (PresetView { name: name@, pulses: pulses as int, max_steps: max_steps as int }),
{
    Preset { name: String::from_str(name), pulses, max_steps }
}

/// `num / den` rounded to the nearest integer, a tie going to the even one.
fn rounded(num: u64, den: u64) -> (r: u64)
    requires
        0 < den <= 0x4000_0000_0000_0000,
        num <= 0x4000_0000_0000_0000,
    ensures
        r == round_half_even(num as nat, den as nat),
{
    let q: u64 = num / den;
    assert(q <= num) by (nonlinear_arith)
        requires
            q == num / den,
            den > 0,
    ;
    let rem: u64 = num % den;
    if rem > den - rem || (rem == den - rem && q % 2 == 1) {
        q + 1
    } else {
        q
    }
}

impl Default for UclidParameters {
    /// Four pulses over four steps, one step to the quarter note, no offset;
    /// pitch, velocity and note length at half; the built-in preset table.
    fn default() -> (bank: UclidParameters)
        ensures
            bank.wf(),
            bank.value(ParameterId::Pulses) == UNIT / 8,
            bank.value(ParameterId::Steps) == UNIT / 8,
            bank.value(ParameterId::Multiplier) == UNIT / 4,
            bank.value(ParameterId::Offset) == 0,
            bank.value(ParameterId::Note) == UNIT / 2,
            bank.value(ParameterId::Velocity) == UNIT / 2,
            bank.value(ParameterId::NoteLength) == UNIT / 2,
    {
        let mut presets: Vec<Preset> = Vec::new();
        presets.push(preset("-- blank --", 4, 4));
        presets.push(preset("classical, jazz and Persian", 2, 5));
        presets.push(preset("Bulgarian folk", 5, 7));
        presets.push(preset("Turkey", 4, 9));
        presets.push(preset("classical", 5, 11));
        presets.push(preset("Brazillian necklace", 5, 16));
        presets.push(preset("West Africa, Latin America", 2, 3));
        presets.push(preset("Trinidad, Persia", 3, 4));
        presets.push(preset("Rumanian and Persian necklaces", 3, 5));
        presets.push(preset("West Africa", 3, 8));
        presets.push(preset("Bulgaria", 4, 7));
        presets.push(preset("Frank Zappa", 4, 11));
        presets.push(preset("Arab", 5, 6));
        presets.push(preset("Arab", 5, 7));
        presets.push(preset("Arab rhythm, South African and Rumanian necklaces", 5, 9));
        presets.push(preset("South Africa", 5, 12));
        presets.push(preset("Tuareg rhythm of Lybia", 7, 8));
        presets.push(preset("Brazilian necklace", 7, 16));
        presets.push(preset("Central Africa", 11, 24));
        assert(preset_views(presets@) =~= preset_table());
        UclidParameters {
            pulses: UNIT / 8,
            max_steps: UNIT / 8,
            velocity: UNIT / 2,
            note: UNIT / 2,
            offset: 0,
            note_length: UNIT / 2,
            multiplier: UNIT / 4,
            presets,
            current_preset: 0,
        }
    }
}

impl UclidParameters {
    /// The normalized value of a control.
    pub fn get(&self, id: ParameterId) -> (value: u32)
        ensures
            value == self.value(id),
            self.wf() ==> floor_of(id) <= value <= UNIT,
    {
        assert(self.wf() ==> floor_of(id) <= self.value(id) <= UNIT);
        match id {
            ParameterId::Pulses => self.pulses,
            ParameterId::Steps => self.max_steps,
            ParameterId::Multiplier => self.multiplier,
            ParameterId::Offset => self.offset,
            ParameterId::Note => self.note,
            ParameterId::Velocity => self.velocity,
            ParameterId::NoteLength => self.note_length,
        }
    }

    /// Writes a control, holding the value to the range the control allows.
    /// Nothing else changes; in particular pulses may exceed steps afterwards.
    pub fn set(&mut self, id: ParameterId, value: u32)
        requires
            old(self).wf(),
        ensures
            final(self).wf(),
            final(self).value(id) == clamped(id, value as nat),
            forall|other: ParameterId| other != id ==> final(self).value(other) == old(self).value(other),
    {
        let floor: u32 = id.floor();
        let held: u32 = if value < floor {
            floor
        } else if value > UNIT {
            UNIT
        } else {
            value
        };
        match id {
            ParameterId::Pulses => {
                self.pulses = held;
            },
            ParameterId::Steps => {
                self.max_steps = held;
            },
            ParameterId::Multiplier => {
                self.multiplier = held;
            },
            ParameterId::Offset => {
                self.offset = held;
            },
            ParameterId::Note => {
                self.note = held;
            },
            ParameterId::Velocity => {
                self.velocity = held;
            },
            ParameterId::NoteLength => {
                self.note_length = held;
            },
        }
        assert forall|any: ParameterId| floor_of(any) <= #[trigger] self.value(any) <= UNIT by {
            assert(floor_of(any) <= old(self).value(any) <= UNIT);
        }
    }

    /// The normalized value of the control behind a host parameter index;
    /// 0 where there is none.
    pub fn get_parameter(&self, index: i32) -> (value: u32)
        ensures
            value == match parameter_at(index as int) {
                Some(id) => self.value(id),
                None => 0,
            },
    {
        match ParameterId::from_index(index) {
            Some(id) => self.get(id),
            None => 0,
        }
    }

    /// Writes the control behind a host parameter index as [`Self::set`]
    /// does; an index without a control changes nothing.
    pub fn set_parameter(&mut self, index: i32, val: u32)
        requires
            old(self).wf(),
        ensures
            final(self).wf(),
            match parameter_at(index as int) {
                Some(id) => {
                    &&& final(self).value(id) == clamped(id, val as nat)
                    &&& forall|other: ParameterId|
                        other != id ==> final(self).value(other) == old(self).value(other)
                },
                None => forall|other: ParameterId|
                    final(self).value(other) == old(self).value(other),
            },
    {
        match ParameterId::from_index(index) {
            Some(id) => {
                self.set(id, val);
            },
            None => {},
        }
    }

    /// Applies a preset: preset 0 and negative indices change nothing, any
    /// other preset overwrites the pulses and steps controls with its counts.
    pub fn change_preset(&mut self, preset: i32)
        requires
            old(self).wf(),
            preset < PRESET_COUNT,
        ensures
            final(self).wf(),
            forall|id: ParameterId|
                id != ParameterId::Pulses && id != ParameterId::Steps ==> final(self).value(id)
                    == old(self).value(id),
            preset <= 0 ==> final(self).value(ParameterId::Pulses) == old(self).value(
                ParameterId::Pulses,
            ) && final(self).value(ParameterId::Steps) == old(self).value(ParameterId::Steps),
            preset > 0 ==> final(self).value(ParameterId::Pulses) == preset_table()[preset as int].pulses
                * (UNIT / 32) && final(self).value(ParameterId::Steps)
                == preset_table()[preset as int].max_steps * (UNIT / 32),
            preset > 0 ==> final(self).requested_pulses() == preset_table()[preset as int].pulses
                && final(self).steps() == preset_table()[preset as int].max_steps,
    {
        if preset > 0 {
            proof {
                lemma_preset_table_bounds();
                assert(self.presets()[preset as int] == self.presets@[preset as int]@);
            }
            let pulses: u32 = self.presets[preset as usize].pulses as u32;
            let max_steps: u32 = self.presets[preset as usize].max_steps as u32;
            self.pulses = pulses * (UNIT / 32);
            self.max_steps = max_steps * (UNIT / 32);
            assert forall|any: ParameterId| floor_of(any) <= #[trigger] self.value(any)
                <= UNIT by {
                assert(floor_of(any) <= old(self).value(any) <= UNIT);
            }
        }
    }

    /// The index of the selected preset. Applying a preset writes two
    /// controls and selects nothing, so in a well-formed bank this is always
    /// the blank preset.
    pub fn get_preset_num(&self) -> (index: i32)
        ensures
            index == self.selected_preset(),
    {
        self.current_preset
    }

    /// Number of presets in the table.
    pub fn preset_count(&self) -> (count: usize)
        requires
            self.wf(),
        ensures
            count == PRESET_COUNT,
    {
        proof {
            lemma_preset_table_bounds();
        }
        self.presets.len()
    }

    /// The label of a preset: its pulses, a slash, its steps, a colon and
    /// its name.
    pub fn get_preset_name(&self, preset: i32) -> (label: String)
        requires
            self.wf(),
            0 <= preset < PRESET_COUNT,
        ensures
            label@ == preset_label(preset_table()[preset as int]),
    {
        proof {
            lemma_preset_table_bounds();
            assert(self.presets()[preset as int] == self.presets@[preset as int]@);
        }
        let entry = &self.presets[preset as usize];
        let mut label = String::new();
        push_signed_decimal(&mut label, entry.pulses as i64);
        label.append("/");
        push_signed_decimal(&mut label, entry.max_steps as i64);
        label.append(": ");
        label.append(entry.name.as_str());
        proof {
            reveal_strlit("/");
            reveal_strlit(": ");
            assert(label@ =~= preset_label(preset_table()[preset as int]));
        }
        label
    }

    /// The labels of all presets, in table order.
    pub fn list_presets(&self) -> (labels: Vec<String>)
        requires
            self.wf(),
        ensures
            labels@.len() == PRESET_COUNT,
            forall|i: int| 0 <= i < PRESET_COUNT ==> labels@[i]@ == preset_label(preset_table()[i]),
    {
        let mut labels: Vec<String> = Vec::new();
        let mut preset: i32 = 0;
        while preset < 19
            invariant
                0 <= preset <= 19,
                self.wf(),
                labels@.len() == preset,
                forall|i: int| 0 <= i < preset ==> labels@[i]@ == preset_label(preset_table()[i]),
            decreases 19 - preset,
        {
            labels.push(self.get_preset_name(preset));
            preset += 1;
        }
        labels
    }

    /// Number of steps in the cycle.
    pub fn step_count(&self) -> (steps: usize)
        requires
            self.wf(),
        ensures
            steps == self.steps(),
            1 <= steps <= MAX_STEPS,
    {
        assert(floor_of(ParameterId::Steps) <= self.value(ParameterId::Steps) <= UNIT);
        (self.max_steps * 32 / UNIT) as usize
    }

    /// Number of pulses in the cycle, held to the number of steps.
    pub fn pulse_count(&self) -> (pulses: usize)
        requires
            self.wf(),
        ensures
            pulses == self.pulses(),
            1 <= pulses <= self.steps(),
    {
        assert(floor_of(ParameterId::Pulses) <= self.value(ParameterId::Pulses) <= UNIT);
        let steps: usize = self.step_count();
        let requested: usize = (self.pulses * 32 / UNIT) as usize;
        if requested > steps {
            steps
        } else {
            requested
        }
    }

    /// How many steps pass per quarter note.
    pub fn step_multiplier(&self) -> (multiplier: u32)
        requires
            self.wf(),
        ensures
            multiplier == self.multiplier(),
            1 <= multiplier <= 4,
    {
        assert(floor_of(ParameterId::Multiplier) <= self.value(ParameterId::Multiplier) <= UNIT);
        self.multiplier * 4 / UNIT
    }

    /// By how many steps the cycle is shifted.
    pub fn step_offset(&self) -> (offset: u32)
        requires
            self.wf(),
        ensures
            offset == self.offset(),
            offset <= self.steps(),
    {
        assert(floor_of(ParameterId::Offset) <= self.value(ParameterId::Offset) <= UNIT);
        let steps: u32 = self.step_count() as u32;
        assert(self.offset * steps <= UNIT * steps) by (nonlinear_arith)
            requires
                self.offset <= UNIT,
        ;
        self.offset * steps / UNIT
    }

    /// MIDI pitch of the notes played.
    pub fn note_pitch(&self) -> (pitch: u8)
        requires
            self.wf(),
        ensures
            pitch == self.pitch(),
            pitch <= 127,
    {
        assert(floor_of(ParameterId::Note) <= self.value(ParameterId::Note) <= UNIT);
        (self.note * 127 / UNIT) as u8
    }

    /// MIDI velocity of the notes played.
    pub fn note_velocity(&self) -> (velocity: u8)
        requires
            self.wf(),
        ensures
            velocity == self.velocity(),
            velocity <= 127,
    {
        assert(floor_of(ParameterId::Velocity) <= self.value(ParameterId::Velocity) <= UNIT);
        (self.velocity * 127 / UNIT) as u8
    }

    /// How long a note sounds, in picoseconds.
    pub fn note_duration(&self) -> (picos: u64)
        requires
            self.wf(),
        ensures
            picos == self.note_length(),
            picos <= NOTE_LENGTH_SCALE,
    {
        assert(floor_of(ParameterId::NoteLength) <= self.value(ParameterId::NoteLength) <= UNIT);
        let wide: u128 = self.note_length as u128;
        let scale: u128 = NOTE_LENGTH_SCALE as u128;
        assert(wide * scale <= UNIT * scale) by (nonlinear_arith)
            requires
                wide <= UNIT,
        ;
        (wide * scale / (UNIT as u128)) as u64
    }

    /// The text shown beside the control behind a host parameter index.
    pub fn get_parameter_text(&self, index: i32) -> (text: String)
        requires
            self.wf(),
        ensures
            text@ == self.parameter_text(index as int),
    {
        assert(self.value(ParameterId::Pulses) <= UNIT);
        assert(self.value(ParameterId::Steps) <= UNIT);
        assert(self.value(ParameterId::Offset) <= UNIT);
        assert(self.value(ParameterId::Velocity) <= UNIT);
        assert(self.value(ParameterId::NoteLength) <= UNIT);
        let mut text = String::new();
        match ParameterId::from_index(index) {
            Some(ParameterId::Pulses) => {
                push_decimal(&mut text, (self.pulses * 32 / UNIT) as u64);
            },
            Some(ParameterId::Steps) => {
                push_decimal(&mut text, self.step_count() as u64);
            },
            Some(ParameterId::Multiplier) => {
                push_decimal(&mut text, self.step_multiplier() as u64);
            },
            Some(ParameterId::Offset) => {
                let offset: u64 = self.offset as u64;
                let steps: u64 = self.max_steps as u64;
                let unit: u64 = UNIT as u64;
                assert(offset * steps * 32 <= 0x2000_0000_0000_0000) by (nonlinear_arith)
                    requires
                        offset <= 0x100_0000,
                        steps <= 0x100_0000,
                ;
                push_decimal(&mut text, rounded(offset * steps * 32, unit * unit));
            },
            Some(ParameterId::Note) => {
                return get_note_name(self.note_pitch() as i32);
            },
            Some(ParameterId::Velocity) => {
                push_decimal(&mut text, rounded(self.velocity as u64 * 127, UNIT as u64));
            },
            Some(ParameterId::NoteLength) => {
                push_decimal(&mut text, rounded(self.note_length as u64 * 3, UNIT as u64));
            },
            None => {},
        }
        assert(text@ =~= self.parameter_text(index as int));
        text
    }

    /// The name of the control behind a host parameter index.
    pub fn get_parameter_name(&self, index: i32) -> (name: String)
        ensures
            name@ == parameter_name(index as int),
    {
        let name = match ParameterId::from_index(index) {
            Some(ParameterId::Pulses) => "Pulses",
            Some(ParameterId::Steps) => "Total steps",
            Some(ParameterId::Multiplier) => "Multiplier",
            Some(ParameterId::Offset) => "Offset",
            Some(ParameterId::Note) => "Note",
            Some(ParameterId::Velocity) => "Velocity",
            Some(ParameterId::NoteLength) => "Note length",
            None => "",
        };
        proof {
            reveal_strlit("");
        }
        assert(name@ =~= parameter_name(index as int));
        String::from_str(name)
    }
}


} // verus!
