//! What holds of the scheduler over whole runs of samples: a step starts at
//! most one note, every note that starts also ends, and the events of a run do
//! not depend on how the run is cut into blocks.

use crate::note::{NoteEvent, NoteKind};
use crate::params::UclidParameters;
use crate::scheduler::{
    armed, decrement, expired, fires, note_on, run_events, run_state, step_index, survivors,
    tick_events, tick_state, DelayedMidiEvent, SchedulerState,
};
use vstd::prelude::*;

verus! {

/// Number of note-ons among `events`.
pub open spec fn note_on_count(events: Seq<NoteEvent>) -> nat
    decreases events.len(),
{
    if events.len() == 0 {
        0
    } else {
        note_on_count(events.drop_last()) + if events.last().kind == NoteKind::NoteOn {
            1nat
        } else {
            0nat
        }
    }
}

/// Number of note-offs among `events`.
pub open spec fn note_off_count(events: Seq<NoteEvent>) -> nat
    decreases events.len(),
{
    if events.len() == 0 {
        0
    } else {
        note_off_count(events.drop_last()) + if events.last().kind == NoteKind::NoteOff {
            1nat
        } else {
            0nat
        }
    }
}

/// `state` with no note sounding.
pub open spec fn quiet(state: SchedulerState) -> SchedulerState {
    SchedulerState { pending: Seq::empty(), ..state }
}

/// Counting events over a concatenation adds up.
pub proof fn lemma_counts_concat(x: Seq<NoteEvent>, y: Seq<NoteEvent>)
    ensures
        note_on_count(x + y) == note_on_count(x) + note_on_count(y),
        note_off_count(x + y) == note_off_count(x) + note_off_count(y),
    decreases y.len(),
{
    if y.len() == 0 {
        assert(x + y =~= x);
    } else {
        lemma_counts_concat(x, y.drop_last());
        assert((x + y).drop_last() =~= x + y.drop_last());
    }
}

/// Every sounding note either goes on sounding or ends, never both, and the
/// events of the notes that end are note-offs.
pub proof fn lemma_partition(pending: Seq<DelayedMidiEvent>, elapsed: nat, frame: nat)
    ensures
        survivors(pending, elapsed).len() + expired(pending, elapsed, frame).len()
            == pending.len(),
        note_on_count(expired(pending, elapsed, frame)) == 0,
        note_off_count(expired(pending, elapsed, frame)) == expired(pending, elapsed, frame).len(),
    decreases pending.len(),
{
    if pending.len() > 0 {
        lemma_partition(pending.drop_last(), elapsed, frame);
        let earlier = expired(pending.drop_last(), elapsed, frame);
        if pending.last().time_left <= elapsed {
            assert(expired(pending, elapsed, frame).drop_last() =~= earlier);
        }
    }
}

/// Notes age independently of the notes around them.
pub proof fn lemma_survivors_concat(
    x: Seq<DelayedMidiEvent>,
    y: Seq<DelayedMidiEvent>,
    elapsed: nat,
)
    ensures
        survivors(x + y, elapsed) == survivors(x, elapsed) + survivors(y, elapsed),
    decreases y.len(),
{
    if y.len() == 0 {
        assert(x + y =~= x);
        assert(survivors(x, elapsed) + survivors(y, elapsed) =~= survivors(x, elapsed));
    } else {
        lemma_survivors_concat(x, y.drop_last(), elapsed);
        assert((x + y).drop_last() =~= x + y.drop_last());
        assert(survivors(x + y, elapsed) =~= survivors(x, elapsed) + survivors(y, elapsed));
    }
}

/// Time passing in two spans is time passing in one: a note keeps what is
/// left of its length, whatever the length of each span.
pub proof fn lemma_survivors_compose(pending: Seq<DelayedMidiEvent>, first: nat, second: nat)
    ensures
        survivors(survivors(pending, first), second) == survivors(pending, first + second),
    decreases pending.len(),
{
    if pending.len() > 0 {
        lemma_survivors_compose(pending.drop_last(), first, second);
        let earlier = survivors(pending.drop_last(), first);
        if pending.last().time_left > first {
            assert(survivors(pending, first).drop_last() =~= earlier);
        }
        assert(survivors(survivors(pending, first), second) =~= survivors(
            pending,
            first + second,
        ));
    }
}

/// Once the time left on every note has passed, none is sounding.
pub proof fn lemma_survivors_all_due(pending: Seq<DelayedMidiEvent>, elapsed: nat)
    requires
        forall|i: int| 0 <= i < pending.len() ==> pending[i].time_left <= elapsed,
    ensures
        survivors(pending, elapsed) == Seq::<DelayedMidiEvent>::empty(),
    decreases pending.len(),
{
    if pending.len() > 0 {
        lemma_survivors_all_due(pending.drop_last(), elapsed);
    }
}

/// In one sample, as many notes start or were sounding as end or go on
/// sounding; a sample starts at most one note.
pub proof fn lemma_tick_balance(
    state: SchedulerState,
    params: &UclidParameters,
    position: int,
    frame: nat,
)
    ensures
        note_on_count(tick_events(state, params, position, frame)) + state.pending.len()
            == note_off_count(tick_events(state, params, position, frame)) + tick_state(
            state,
            params,
            position,
        ).pending.len(),
        note_on_count(tick_events(state, params, position, frame)) == (if fires(
            state,
            params,
            position,
        ) {
            1nat
        } else {
            0nat
        }),
{
    let sounding = armed(state, params, position);
    let elapsed = decrement(state.sample_rate);
    let head = if fires(state, params, position) {
        seq![note_on(params, frame)]
    } else {
        Seq::<NoteEvent>::empty()
    };
    lemma_partition(sounding, elapsed, frame);
    lemma_counts_concat(head, expired(sounding, elapsed, frame));
    if fires(state, params, position) {
        assert(head.drop_last() =~= Seq::<NoteEvent>::empty());
        assert(note_on_count(Seq::<NoteEvent>::empty()) == 0);
        assert(note_off_count(Seq::<NoteEvent>::empty()) == 0);
    }
}

/// A sample at the position of the sample before it starts no note, however
/// often it is repeated: one step, one note-on at most.
pub proof fn lemma_same_position_starts_nothing(
    state: SchedulerState,
    params: &UclidParameters,
    position: int,
    frame: nat,
)
    ensures
        !fires(tick_state(state, params, position), params, position),
        note_on_count(tick_events(tick_state(state, params, position), params, position, frame))
            == 0,
{
    lemma_tick_balance(tick_state(state, params, position), params, position, frame);
}

/// After at least one sample the last step decided is the step of the last
/// position, and the sample rate is what it was.
pub proof fn lemma_run_last_step(
    state: SchedulerState,
    params: &UclidParameters,
    positions: Seq<i64>,
)
    ensures
        run_state(state, params, positions).sample_rate == state.sample_rate,
        positions.len() > 0 ==> run_state(state, params, positions).last_note == Some(
            step_index(params, positions.last() as int) as usize,
        ),
    decreases positions.len(),
{
    if positions.len() > 0 {
        lemma_run_last_step(state, params, positions.drop_last());
    }
}

/// However many samples report the same position, together they start at
/// most one note.
pub proof fn lemma_repeated_position_one_note_on(
    state: SchedulerState,
    params: &UclidParameters,
    positions: Seq<i64>,
    position: i64,
    first_frame: nat,
)
    requires
        forall|i: int| 0 <= i < positions.len() ==> positions[i] == position,
    ensures
        note_on_count(run_events(state, params, positions, first_frame)) <= 1,
{
    if positions.len() > 0 {
        lemma_run_silent_after_first(state, params, positions, position, first_frame);
        lemma_tick_balance(state, params, position as int, first_frame);
    }
}

/// Samples that repeat one position start no note after the first of them.
proof fn lemma_run_silent_after_first(
    state: SchedulerState,
    params: &UclidParameters,
    positions: Seq<i64>,
    position: i64,
    first_frame: nat,
)
    requires
        positions.len() > 0,
        forall|i: int| 0 <= i < positions.len() ==> positions[i] == position,
    ensures
        note_on_count(run_events(state, params, positions, first_frame)) == note_on_count(
            tick_events(state, params, position as int, first_frame),
        ),
    decreases positions.len(),
{
    let earlier = positions.drop_last();
    let frame = (first_frame + positions.len() - 1) as nat;
    lemma_counts_concat(
        run_events(state, params, earlier, first_frame),
        tick_events(run_state(state, params, earlier), params, position as int, frame),
    );
    if earlier.len() == 0 {
        assert(note_on_count(run_events(state, params, earlier, first_frame)) == 0);
    } else {
        lemma_run_silent_after_first(state, params, earlier, position, first_frame);
        lemma_run_last_step(state, params, earlier);
        lemma_tick_balance(run_state(state, params, earlier), params, position as int, frame);
    }
}

/// Over any run, every note that started or was sounding has either ended,
/// with exactly one note-off, or is still sounding.
pub proof fn lemma_run_balance(
    state: SchedulerState,
    params: &UclidParameters,
    positions: Seq<i64>,
    first_frame: nat,
)
    ensures
        note_on_count(run_events(state, params, positions, first_frame)) + state.pending.len()
            == note_off_count(run_events(state, params, positions, first_frame)) + run_state(
            state,
            params,
            positions,
        ).pending.len(),
    decreases positions.len(),
{
    if positions.len() > 0 {
        let earlier = positions.drop_last();
        let frame = (first_frame + positions.len() - 1) as nat;
        lemma_run_balance(state, params, earlier, first_frame);
        lemma_tick_balance(
            run_state(state, params, earlier),
            params,
            positions.last() as int,
            frame,
        );
        lemma_counts_concat(
            run_events(state, params, earlier, first_frame),
            tick_events(run_state(state, params, earlier), params, positions.last() as int, frame),
        );
    } else {
        assert(note_on_count(run_events(state, params, positions, first_frame)) == 0);
        assert(note_off_count(run_events(state, params, positions, first_frame)) == 0);
    }
}

/// Which notes start does not depend on which notes are sounding.
pub proof fn lemma_run_ignores_pending(
    state: SchedulerState,
    params: &UclidParameters,
    positions: Seq<i64>,
)
    ensures
        run_state(quiet(state), params, positions).last_note == run_state(
            state,
            params,
            positions,
        ).last_note,
        run_state(quiet(state), params, positions).time_note == run_state(
            state,
            params,
            positions,
        ).time_note,
        run_state(quiet(state), params, positions).sample_rate == state.sample_rate,
        run_state(state, params, positions).sample_rate == state.sample_rate,
    decreases positions.len(),
{
    if positions.len() > 0 {
        lemma_run_ignores_pending(state, params, positions.drop_last());
    }
}

/// After a run, the notes sounding are those that were sounding before it
/// and have time left once the run's samples have passed, followed by the
/// notes that started during the run and have not ended.
pub proof fn lemma_run_pending(
    state: SchedulerState,
    params: &UclidParameters,
    positions: Seq<i64>,
)
    requires
        positions.len() > 0,
    ensures
        run_state(state, params, positions).pending == survivors(
            state.pending,
            positions.len() * decrement(state.sample_rate),
        ) + run_state(quiet(state), params, positions).pending,
    decreases positions.len(),
{
    let period = decrement(state.sample_rate);
    let count = positions.len();
    let earlier = positions.drop_last();
    let position = positions.last() as int;
    let loud = run_state(state, params, earlier);
    let calm = run_state(quiet(state), params, earlier);
    lemma_run_ignores_pending(state, params, earlier);
    assert(fires(loud, params, position) == fires(calm, params, position));
    if count == 1 {
        assert(count * period == period) by (nonlinear_arith)
            requires
                count == 1,
        ;
        assert(armed(loud, params, position) =~= state.pending + armed(calm, params, position));
        lemma_survivors_concat(state.pending, armed(calm, params, position), period);
    } else {
        lemma_run_pending(state, params, earlier);
        let old_notes = survivors(state.pending, earlier.len() * period);
        assert(armed(loud, params, position) =~= old_notes + armed(calm, params, position));
        lemma_survivors_concat(old_notes, armed(calm, params, position), period);
        lemma_survivors_compose(state.pending, earlier.len() * period, period);
        assert(earlier.len() * period + period == count * period) by (nonlinear_arith)
            requires
                earlier.len() + 1 == count,
        ;
    }
}

/// Once a run has lasted as long as the time left on every note that was
/// sounding before it, none of those notes is sounding any more: the notes
/// sounding are the ones that started during the run.
pub proof fn lemma_sounding_notes_end(
    state: SchedulerState,
    params: &UclidParameters,
    positions: Seq<i64>,
)
    requires
        positions.len() > 0,
        forall|i: int|
            0 <= i < state.pending.len() ==> state.pending[i].time_left <= positions.len()
                * decrement(state.sample_rate),
    ensures
        run_state(state, params, positions).pending == run_state(
            quiet(state),
            params,
            positions,
        ).pending,
{
    let total = positions.len() * decrement(state.sample_rate);
    lemma_run_pending(state, params, positions);
    lemma_survivors_all_due(state.pending, total);
    assert(Seq::<DelayedMidiEvent>::empty() + run_state(quiet(state), params, positions).pending
        =~= run_state(quiet(state), params, positions).pending);
}

/// A change of sample rate between two runs leaves every sounding note the
/// time it had left: after both runs the notes still sounding from before
/// the first are those with more time left than both runs took together,
/// each run counted at its own sample rate.
pub proof fn lemma_rate_change_keeps_time_left(
    state: SchedulerState,
    params: &UclidParameters,
    head: Seq<i64>,
    rate: u32,
    tail: Seq<i64>,
)
    requires
        head.len() > 0,
        tail.len() > 0,
    ensures
        survivors(
            state.pending,
            head.len() * decrement(state.sample_rate) + tail.len() * decrement(rate),
        ).is_prefix_of(
            run_state(
                SchedulerState { sample_rate: rate, ..run_state(state, params, head) },
                params,
                tail,
            ).pending,
        ),
{
    let first = head.len() * decrement(state.sample_rate);
    let second = tail.len() * decrement(rate);
    let mid = SchedulerState { sample_rate: rate, ..run_state(state, params, head) };
    let started = run_state(quiet(state), params, head).pending;
    let end = run_state(mid, params, tail).pending;
    lemma_run_pending(state, params, head);
    lemma_run_pending(mid, params, tail);
    lemma_survivors_concat(survivors(state.pending, first), started, second);
    lemma_survivors_compose(state.pending, first, second);
    let kept = survivors(state.pending, first + second);
    assert(end =~= kept + (survivors(started, second) + run_state(
        quiet(mid),
        params,
        tail,
    ).pending));
    assert(end.subrange(0, kept.len() as int) =~= kept);
}

/// Cutting a run into two blocks changes neither its events nor the state it
/// ends in.
pub proof fn lemma_run_concat(
    state: SchedulerState,
    params: &UclidParameters,
    head: Seq<i64>,
    tail: Seq<i64>,
    first_frame: nat,
)
    ensures
        run_state(state, params, head + tail) == run_state(
            run_state(state, params, head),
            params,
            tail,
        ),
        run_events(state, params, head + tail, first_frame) == run_events(
            state,
            params,
            head,
            first_frame,
        ) + run_events(run_state(state, params, head), params, tail, first_frame + head.len()),
    decreases tail.len(),
{
    if tail.len() == 0 {
        assert(head + tail =~= head);
        assert(run_events(state, params, head, first_frame) + Seq::<NoteEvent>::empty()
            =~= run_events(state, params, head, first_frame));
    } else {
        lemma_run_concat(state, params, head, tail.drop_last(), first_frame);
        assert((head + tail).drop_last() =~= head + tail.drop_last());
        assert((head + tail).last() == tail.last());
        let mid = run_state(state, params, head);
        let frame = (first_frame + head.len() + tail.len() - 1) as nat;
        let a = run_events(state, params, head, first_frame);
        let b = run_events(mid, params, tail.drop_last(), first_frame + head.len());
        let c = tick_events(
            run_state(mid, params, tail.drop_last()),
            params,
            tail.last() as int,
            frame,
        );
        assert((a + b) + c =~= a + (b + c));
    }
}

/// The step published for a sample is the one that the parameters of that
/// sample give for its position, whatever came before; and what a later
/// block emits under other parameters is appended to what was emitted,
/// which stays as it is.
pub proof fn lemma_parameter_change(
    state: SchedulerState,
    before: &UclidParameters,
    after: &UclidParameters,
    head: Seq<i64>,
    tail: Seq<i64>,
    first_frame: nat,
)
    requires
        before.wf(),
        after.wf(),
    ensures
        tail.len() > 0 ==> run_state(run_state(state, before, head), after, tail).time_note
            == step_index(after, tail.last() as int),
        tail.len() > 0 ==> step_index(after, tail.last() as int) == (((tail.last() as int)
            * after.multiplier()) / 960 + after.offset()) % (after.steps() as int),
        run_events(state, before, head, first_frame).is_prefix_of(
            run_events(state, before, head, first_frame) + run_events(
                run_state(state, before, head),
                after,
                tail,
                first_frame + head.len(),
            ),
        ),
{
    let emitted = run_events(state, before, head, first_frame);
    let later = run_events(run_state(state, before, head), after, tail, first_frame + head.len());
    assert((emitted + later).subrange(0, emitted.len() as int) =~= emitted);
}

} // verus!
