//! The scheduler: from a transport position to note-on and note-off events,
//! one decision per audio sample.
//!
//! A position counts ticks, [`TICKS_PER_QUARTER`] to the quarter note, and may
//! be negative before the start of the song. Time left on a sounding note is
//! counted in picoseconds, so it keeps its meaning when the sample rate
//! changes while the note sounds.
//!
//! The model of one sample is [`tick_state`] and [`tick_events`]; the model of
//! a block of samples is [`run_state`] and [`run_events`].

use crate::note::{NoteEvent, NoteKind};
use crate::params::UclidParameters;
use crate::pattern::{euclidean_rhythm, euclidian_rythm, lemma_rhythm_measure, Pattern};
use vstd::arithmetic::div_mod::lemma_fundamental_div_mod_converse;
use vstd::prelude::*;

verus! {

/// Resolution of a transport position: ticks per quarter note. It is a
/// multiple of every step multiplier, so scaling a position never loses a
/// step boundary.
pub const TICKS_PER_QUARTER: i64 = 960;

/// Picoseconds per second.
pub const PICOS_PER_SECOND: u64 = 1_000_000_000_000;

/// A note that is sounding: the note-off owed for it and the time until it is
/// due, in picoseconds.
#[derive(Debug, Clone, Copy, PartialEq, Eq, Structural)]
pub struct DelayedMidiEvent {
    pub pitch: u8,
    pub velocity: u8,
    pub time_left: u64,
}

/// What the scheduler remembers between samples.
pub struct SchedulerState {
    /// The step for which the last note decision was made; `None` before the
    /// first sample.
    pub last_note: Option<usize>,
    /// The notes that are sounding, oldest first.
    pub pending: Seq<DelayedMidiEvent>,
    /// Samples per second.
    pub sample_rate: u32,
    /// The step published for display.
    pub time_note: usize,
}

/// The scheduler.
pub struct Uclid {
    sample_rate: u32,
    noteoff_events: Vec<DelayedMidiEvent>,
    last_note: Option<usize>,
    time_note: usize,
}

impl View for Uclid {
    type V = SchedulerState;

    closed spec fn view(&self) -> SchedulerState {
        SchedulerState {
            last_note: self.last_note,
            pending: self.noteoff_events@,
            sample_rate: self.sample_rate,
            time_note: self.time_note,
        }
    }
}

/// The step that a position falls on: the position scaled by the multiplier,
/// in whole quarter notes rounded down, shifted by the offset, modulo the
/// number of steps.
pub open spec fn step_index(params: &UclidParameters, position: int) -> nat {
    (((position * params.multiplier()) / (TICKS_PER_QUARTER as int) + params.offset()) % (
    params.steps() as int)) as nat
}

/// Picoseconds that pass with one sample. At a sample rate of zero no time
/// bound is left to wait for: every sounding note is due.
pub open spec fn decrement(sample_rate: u32) -> nat {
    if sample_rate == 0 {
        u64::MAX as nat
    } else {
        (PICOS_PER_SECOND as nat) / (sample_rate as nat)
    }
}

/// Whether this sample starts a note: the position has moved on to another
/// step than the last one decided, and that step is an onset of the rhythm.
pub open spec fn fires(state: SchedulerState, params: &UclidParameters, position: int) -> bool {
    &&& state.last_note != Some(step_index(params, position) as usize)
    &&& euclidean_rhythm(params.steps(), params.pulses())[step_index(params, position) as int]
}

/// The note-on that the parameters call for.
pub open spec fn note_on(params: &UclidParameters, frame: nat) -> NoteEvent {
    NoteEvent {
        kind: NoteKind::NoteOn,
        pitch: params.pitch() as u8,
        velocity: params.velocity() as u8,
        frame_offset: frame as usize,
    }
}

/// The note-off that ends a sounding note.
pub open spec fn note_off(note: DelayedMidiEvent, frame: nat) -> NoteEvent {
    NoteEvent {
        kind: NoteKind::NoteOff,
        pitch: note.pitch,
        velocity: note.velocity,
        frame_offset: frame as usize,
    }
}

/// The sounding notes once this sample's note, if it starts one, has joined
/// them with its full length left.
pub open spec fn armed(state: SchedulerState, params: &UclidParameters, position: int) -> Seq<
    DelayedMidiEvent,
> {
    if fires(state, params, position) {
        state.pending.push(
            DelayedMidiEvent {
                pitch: params.pitch() as u8,
                velocity: params.velocity() as u8,
                time_left: params.note_length() as u64,
            },
        )
    } else {
        state.pending
    }
}

/// The notes still sounding after `elapsed` picoseconds, each with that much
/// less time left, in their old order.
pub open spec fn survivors(pending: Seq<DelayedMidiEvent>, elapsed: nat) -> Seq<DelayedMidiEvent>
    decreases pending.len(),
{
    if pending.len() == 0 {
        Seq::empty()
    } else {
        let earlier = survivors(pending.drop_last(), elapsed);
        let note = pending.last();
        if note.time_left > elapsed {
            earlier.push(
                DelayedMidiEvent {
                    pitch: note.pitch,
                    velocity: note.velocity,
                    time_left: (note.time_left - elapsed) as u64,
                },
            )
        } else {
            earlier
        }
    }
}

/// The note-offs of the notes that end within `elapsed` picoseconds, in the
/// order in which the notes began.
pub open spec fn expired(pending: Seq<DelayedMidiEvent>, elapsed: nat, frame: nat) -> Seq<
    NoteEvent,
>
    decreases pending.len(),
{
    if pending.len() == 0 {
        Seq::empty()
    } else {
        let earlier = expired(pending.drop_last(), elapsed, frame);
        let note = pending.last();
        if note.time_left > elapsed {
            earlier
        } else {
            earlier.push(note_off(note, frame))
        }
    }
}

/// The events of one sample: the note-on, if a note starts, and then the
/// note-offs of the notes that end.
pub open spec fn tick_events(
    state: SchedulerState,
    params: &UclidParameters,
    position: int,
    frame: nat,
) -> Seq<NoteEvent> {
    (if fires(state, params, position) {
        seq![note_on(params, frame)]
    } else {
        Seq::empty()
    }) + expired(armed(state, params, position), decrement(state.sample_rate), frame)
}

/// The state after one sample.
pub open spec fn tick_state(
    state: SchedulerState,
    params: &UclidParameters,
    position: int,
) -> SchedulerState {
    SchedulerState {
        last_note: Some(step_index(params, position) as usize),
        pending: survivors(armed(state, params, position), decrement(state.sample_rate)),
        sample_rate: state.sample_rate,
        time_note: step_index(params, position) as usize,
    }
}

/// The state after a block of samples, one position per sample.
pub open spec fn run_state(
    state: SchedulerState,
    params: &UclidParameters,
    positions: Seq<i64>,
) -> SchedulerState
    decreases positions.len(),
{
    if positions.len() == 0 {
        state
    } else {
        tick_state(
            run_state(state, params, positions.drop_last()),
            params,
            positions.last() as int,
        )
    }
}

/// The events of a block of samples, sample by sample. The first sample of
/// the block is frame `first_frame`.
pub open spec fn run_events(
    state: SchedulerState,
    params: &UclidParameters,
    positions: Seq<i64>,
    first_frame: nat,
) -> Seq<NoteEvent>
    decreases positions.len(),
{
    if positions.len() == 0 {
        Seq::empty()
    } else {
        run_events(state, params, positions.drop_last(), first_frame) + tick_events(
            run_state(state, params, positions.drop_last()),
            params,
            positions.last() as int,
            (first_frame + positions.len() - 1) as nat,
        )
    }
}

impl Uclid {
    /// A scheduler at rest: no step decided yet, so that the first sample
    /// always counts as a crossing, and no note sounding.
    pub fn new(sample_rate: u32) -> (scheduler: Uclid)
        ensures
            scheduler@ == (SchedulerState {
                last_note: None,
                pending: Seq::empty(),
                sample_rate,
                time_note: 0,
            }),
    {
        Uclid { sample_rate, noteoff_events: Vec::new(), last_note: None, time_note: 0 }
    }

    /// Takes the host's sample rate. Sounding notes keep the time they have
    /// left.
    pub fn set_sample_rate(&mut self, rate: u32)
        ensures
            final(self)@ == (SchedulerState { sample_rate: rate, ..old(self)@ }),
    {
        self.sample_rate = rate;
    }

    /// The step published by the last sample.
    pub fn current_step(&self) -> (step: usize)
        ensures
            step == self@.time_note,
    {
        self.time_note
    }

    /// Whether no note is sounding.
    pub fn is_idle(&self) -> (idle: bool)
        ensures
            idle == (self@.pending.len() == 0),
    {
        self.noteoff_events.len() == 0
    }

    /// Number of notes sounding.
    pub fn pending_count(&self) -> (count: usize)
        ensures
            count == self@.pending.len(),
    {
        self.noteoff_events.len()
    }
}

/// Picoseconds that pass with one sample.
pub fn sample_period(sample_rate: u32) -> (picos: u64)
    ensures
        picos == decrement(sample_rate),
{
    if sample_rate == 0 {
        u64::MAX
    } else {
        PICOS_PER_SECOND / (sample_rate as u64)
    }
}

/// The step that a position falls on.
pub fn step_at(params: &UclidParameters, position: i64) -> (step: usize)
    requires
        params.wf(),
    ensures
        step == step_index(params, position as int),
        step < params.steps(),
{
    let multiplier: i128 = params.step_multiplier() as i128;
    let offset: i128 = params.step_offset() as i128;
    let steps: i128 = params.step_count() as i128;
    assert(-0x2_0000_0000_0000_0000 <= position * multiplier <= 0x2_0000_0000_0000_0000)
        by (nonlinear_arith)
        requires
            1 <= multiplier <= 4,
            -0x8000_0000_0000_0000 <= position <= 0x8000_0000_0000_0000,
    ;
    let scaled: i128 = (position as i128) * multiplier;
    let quarters: i128 = if scaled >= 0 {
        scaled / 960
    } else {
        -((-scaled + 959) / 960)
    };
    assert(quarters == scaled / 960);
    let shifted: i128 = quarters + offset;
    let step: i128 = if shifted >= 0 {
        shifted % steps
    } else {
        let back: i128 = (-shifted) % steps;
        if back == 0 {
            0
        } else {
            steps - back
        }
    };
    proof {
        if shifted < 0 {
            let turns = (-shifted) / (steps as int);
            let back = (-shifted) % (steps as int);
            assert(-shifted == steps * turns + back) by (nonlinear_arith)
                requires
                    steps > 0,
                    turns == (-shifted) / (steps as int),
                    back == (-shifted) % (steps as int),
            ;
            if back == 0 {
                assert(shifted == (-turns) * steps + 0) by (nonlinear_arith)
                    requires
                        -shifted == steps * turns + back,
                        back == 0,
                ;
                lemma_fundamental_div_mod_converse(shifted as int, steps as int, -turns, 0);
            } else {
                assert(shifted == (-turns - 1) * steps + (steps - back)) by (nonlinear_arith)
                    requires
                        -shifted == steps * turns + back,
                ;
                lemma_fundamental_div_mod_converse(
                    shifted as int,
                    steps as int,
                    -turns - 1,
                    steps - back,
                );
            }
        }
        assert(step == shifted % steps);
    }
    step as usize
}

impl Uclid {
    /// One sample. Publishes the step that `position` falls on; if that is
    /// another step than the last one decided and an onset of `pattern`,
    /// appends a note-on to `out` and lets the note sound for the note length;
    /// then lets one sample period pass for every sounding note and appends
    /// the note-off of each note that has ended, oldest first.
    ///
    /// `pattern` is the rhythm that the parameters describe. Every event
    /// appended carries `frame` as its frame offset.
    pub fn do_rhythm(
        &mut self,
        params: &UclidParameters,
        pattern: &Pattern,
        position: i64,
        frame: usize,
        out: &mut Vec<NoteEvent>,
    )
        requires
            params.wf(),
            pattern@ == euclidean_rhythm(params.steps(), params.pulses()),
        ensures
            final(self)@ == tick_state(old(self)@, params, position as int),
            final(out)@ == old(out)@ + tick_events(
                old(self)@,
                params,
                position as int,
                frame as nat,
            ),
    {
        let ghost before = self@;
        let ghost out_before = out@;
        let note: usize = step_at(params, position);
        self.time_note = note;
        let crossing: bool = match self.last_note {
            Some(last) => last != note,
            None => true,
        };
        if crossing {
            self.last_note = Some(note);
            proof {
                lemma_rhythm_measure(params.steps(), params.pulses());
            }
            if pattern.is_onset(note) {
                let pitch: u8 = params.note_pitch();
                let velocity: u8 = params.note_velocity();
                out.push(NoteEvent { kind: NoteKind::NoteOn, pitch, velocity, frame_offset: frame });
                self.noteoff_events.push(
                    DelayedMidiEvent { pitch, velocity, time_left: params.note_duration() },
                );
            }
        }
        let ghost sounding = self.noteoff_events@;
        let ghost out_armed = out@;
        assert(sounding =~= armed(before, params, position as int));
        assert(out_armed =~= out_before + (if fires(before, params, position as int) {
            seq![note_on(params, frame as nat)]
        } else {
            Seq::<NoteEvent>::empty()
        }));

        let elapsed: u64 = sample_period(self.sample_rate);
        let count: usize = self.noteoff_events.len();
        let mut read: usize = 0;
        let mut kept: usize = 0;
        assert(sounding.subrange(0, 0) =~= Seq::<DelayedMidiEvent>::empty());
        while read < count
            invariant
                kept <= read <= count,
                count == sounding.len(),
                self.noteoff_events@.len() == count,
                forall|j: int| read <= j < count ==> self.noteoff_events@[j] == sounding[j],
                self.noteoff_events@.subrange(0, kept as int) == survivors(
                    sounding.subrange(0, read as int),
                    elapsed as nat,
                ),
                out@ == out_armed + expired(
                    sounding.subrange(0, read as int),
                    elapsed as nat,
                    frame as nat,
                ),
                self.last_note == Some(note),
                self.time_note == note,
                self.sample_rate == before.sample_rate,
            decreases count - read,
        {
            let ghost stored = self.noteoff_events@;
            let ghost sent = out@;
            let sounding_note: DelayedMidiEvent = self.noteoff_events[read];
            assert(sounding.subrange(0, read + 1).drop_last() =~= sounding.subrange(
                0,
                read as int,
            ));
            assert(sounding.subrange(0, read + 1).last() == sounding[read as int]);
            if sounding_note.time_left > elapsed {
                self.noteoff_events.set(
                    kept,
                    DelayedMidiEvent {
                        pitch: sounding_note.pitch,
                        velocity: sounding_note.velocity,
                        time_left: sounding_note.time_left - elapsed,
                    },
                );
                assert(self.noteoff_events@.subrange(0, kept + 1) =~= stored.subrange(
                    0,
                    kept as int,
                ).push(self.noteoff_events@[kept as int]));
                kept += 1;
            } else {
                out.push(
                    NoteEvent {
                        kind: NoteKind::NoteOff,
                        pitch: sounding_note.pitch,
                        velocity: sounding_note.velocity,
                        frame_offset: frame,
                    },
                );
                assert(out@ =~= out_armed + expired(
                    sounding.subrange(0, read as int),
                    elapsed as nat,
                    frame as nat,
                ).push(note_off(sounding_note, frame as nat)));
            }
            read += 1;
        }
        self.noteoff_events.truncate(kept);
        assert(sounding.subrange(0, count as int) =~= sounding);
        assert(self@.pending =~= tick_state(before, params, position as int).pending);
        assert(out@ =~= out_before + tick_events(before, params, position as int, frame as nat));
    }

    /// One sample at the given sample rate, with the rhythm rebuilt from the
    /// parameters: the events of the sample, in order.
    pub fn tick(&mut self, params: &UclidParameters, position: i64, sample_rate: u32) -> (events:
        Vec<NoteEvent>)
        requires
            params.wf(),
        ensures
            final(self)@ == tick_state(
                SchedulerState { sample_rate, ..old(self)@ },
                params,
                position as int,
            ),
            events@ == tick_events(
                SchedulerState { sample_rate, ..old(self)@ },
                params,
                position as int,
                0,
            ),
    {
        self.set_sample_rate(sample_rate);
        let mut events: Vec<NoteEvent> = Vec::new();
        // Pulses are held to the steps before the rhythm is built, so the
        // build cannot be refused.
        match euclidian_rythm(params.step_count(), params.pulse_count()) {
            Ok(pattern) => {
                self.do_rhythm(params, &pattern, position, 0, &mut events);
            },
            Err(_) => {},
        }
        events
    }

    /// A block of samples, one position per sample: the events of the block
    /// in order, each with the index of its sample as frame offset. The rhythm
    /// is built once for the block.
    pub fn process(&mut self, params: &UclidParameters, positions: &Vec<i64>) -> (events: Vec<
        NoteEvent,
    >)
        requires
            params.wf(),
        ensures
            final(self)@ == run_state(old(self)@, params, positions@),
            events@ == run_events(old(self)@, params, positions@, 0),
    {
        let ghost before = self@;
        let mut events: Vec<NoteEvent> = Vec::new();
        match euclidian_rythm(params.step_count(), params.pulse_count()) {
            Ok(pattern) => {
                let count: usize = positions.len();
                let mut frame: usize = 0;
                assert(positions@.subrange(0, 0) =~= Seq::<i64>::empty());
                while frame < count
                    invariant
                        frame <= count,
                        count == positions@.len(),
                        params.wf(),
                        pattern@ == euclidean_rhythm(params.steps(), params.pulses()),
                        self@ == run_state(before, params, positions@.subrange(0, frame as int)),
                        events@ == run_events(
                            before,
                            params,
                            positions@.subrange(0, frame as int),
                            0,
                        ),
                    decreases count - frame,
                {
                    assert(positions@.subrange(0, frame + 1).drop_last() =~= positions@.subrange(
                        0,
                        frame as int,
                    ));
                    self.do_rhythm(params, &pattern, positions[frame], frame, &mut events);
                    frame += 1;
                }
                assert(positions@.subrange(0, count as int) =~= positions@);
            },
            Err(_) => {},
        }
        events
    }
}

} // verus!
