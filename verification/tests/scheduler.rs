use uclid::editor::editor_message;
use uclid::note::{NoteEvent, NoteKind};
use uclid::params::{ParameterId, UclidParameters, UNIT};
use uclid::pattern::euclidian_rythm;
use uclid::scheduler::{sample_period, step_at, Uclid, TICKS_PER_QUARTER};

fn on(pitch: u8, velocity: u8, frame_offset: usize) -> NoteEvent {
    NoteEvent { kind: NoteKind::NoteOn, pitch, velocity, frame_offset }
}

fn off(pitch: u8, velocity: u8, frame_offset: usize) -> NoteEvent {
    NoteEvent { kind: NoteKind::NoteOff, pitch, velocity, frame_offset }
}

/// Three pulses over eight steps, notes of no length.
fn tresillo() -> UclidParameters {
    let mut bank = UclidParameters::default();
    bank.set(ParameterId::Steps, UNIT / 4);
    bank.set(ParameterId::Pulses, UNIT / 32 * 3);
    bank.set(ParameterId::NoteLength, 0);
    bank
}

#[test]
fn a_sample_period_is_a_second_over_the_sample_rate() {
    assert_eq!(sample_period(44100), 22_675_736);
    assert_eq!(sample_period(48000), 20_833_333);
    assert_eq!(sample_period(1), 1_000_000_000_000);
    assert_eq!(sample_period(u32::MAX), 232);
    assert_eq!(sample_period(0), u64::MAX);
}

#[test]
fn positions_fall_on_steps() {
    let bank = UclidParameters::default();
    assert_eq!(step_at(&bank, 0), 0);
    assert_eq!(step_at(&bank, 959), 0);
    assert_eq!(step_at(&bank, 960), 1);
    assert_eq!(step_at(&bank, 3 * 960), 3);
    assert_eq!(step_at(&bank, 4 * 960), 0);
    assert_eq!(step_at(&bank, i64::MAX), ((i64::MAX / 960) % 4) as usize);
}

#[test]
fn positions_before_the_start_wrap_backwards() {
    let bank = UclidParameters::default();
    assert_eq!(step_at(&bank, -1), 3);
    assert_eq!(step_at(&bank, -960), 3);
    assert_eq!(step_at(&bank, -961), 2);
    assert_eq!(step_at(&bank, -4 * 960), 0);
    assert_eq!(step_at(&bank, i64::MIN), 1);
}

#[test]
fn multiplier_and_offset_move_the_step() {
    let mut bank = tresillo();
    assert_eq!(step_at(&bank, 5 * TICKS_PER_QUARTER), 5);
    bank.set(ParameterId::Multiplier, UNIT / 2);
    assert_eq!(step_at(&bank, 5 * TICKS_PER_QUARTER), 2);
    assert_eq!(step_at(&bank, 480), 1);
    bank.set(ParameterId::Multiplier, UNIT / 4 * 3);
    assert_eq!(step_at(&bank, 320), 1);
    assert_eq!(step_at(&bank, 319), 0);
    bank.set(ParameterId::Offset, UNIT / 2);
    assert_eq!(step_at(&bank, 0), 4);
    assert_eq!(step_at(&bank, 319), 4);
    assert_eq!(step_at(&bank, 4 * 320), 0);
    bank.set(ParameterId::Offset, UNIT);
    assert_eq!(step_at(&bank, 0), 0);
}

#[test]
fn the_first_sample_always_counts_as_a_crossing() {
    let bank = UclidParameters::default();
    let mut scheduler = Uclid::new(44100);
    assert!(scheduler.is_idle());
    let events = scheduler.tick(&bank, 0, 44100);
    assert_eq!(events, vec![on(63, 63, 0)]);
    assert_eq!(scheduler.current_step(), 0);
    assert_eq!(scheduler.pending_count(), 1);
    assert!(!scheduler.is_idle());
}

#[test]
fn the_same_position_starts_one_note_only() {
    let bank = UclidParameters::default();
    let mut scheduler = Uclid::new(44100);
    let mut started = 0;
    for _ in 0..100 {
        for event in scheduler.tick(&bank, 960, 44100) {
            if event.kind == NoteKind::NoteOn {
                started += 1;
            }
        }
    }
    assert_eq!(started, 1);
    assert_eq!(scheduler.current_step(), 1);
}

#[test]
fn rests_start_no_note() {
    let bank = tresillo();
    let mut scheduler = Uclid::new(48000);
    let positions: Vec<i64> = (0..8).map(|step| step * TICKS_PER_QUARTER).collect();
    let events = scheduler.process(&bank, &positions);
    assert_eq!(
        events,
        vec![on(63, 63, 0), off(63, 63, 0), on(63, 63, 3), off(63, 63, 3), on(63, 63, 6), off(63, 63, 6)]
    );
    assert_eq!(scheduler.current_step(), 7);
    assert!(scheduler.is_idle());
}

#[test]
fn a_note_ends_when_its_length_has_passed() {
    let bank = UclidParameters::default();
    let mut scheduler = Uclid::new(1000);
    let events = scheduler.process(&bank, &vec![0; 1499]);
    assert_eq!(events, vec![on(63, 63, 0)]);
    assert_eq!(scheduler.pending_count(), 1);
    let events = scheduler.process(&bank, &vec![0; 3]);
    assert_eq!(events, vec![off(63, 63, 0)]);
    assert!(scheduler.is_idle());
}

#[test]
fn a_note_keeps_its_time_left_when_the_sample_rate_changes() {
    let bank = UclidParameters::default();
    let mut scheduler = Uclid::new(1000);
    // One second of the note's second and a half passes at 1000 Hz.
    assert_eq!(scheduler.process(&bank, &vec![0; 1000]), vec![on(63, 63, 0)]);
    scheduler.set_sample_rate(500);
    // The other half second takes 250 samples at 500 Hz.
    assert_eq!(scheduler.process(&bank, &vec![0; 249]), vec![]);
    assert_eq!(scheduler.pending_count(), 1);
    assert_eq!(scheduler.process(&bank, &vec![0; 1]), vec![off(63, 63, 0)]);
    assert!(scheduler.is_idle());
}

#[test]
fn at_a_sample_rate_of_zero_every_note_ends_at_once() {
    let bank = UclidParameters::default();
    let mut scheduler = Uclid::new(44100);
    assert_eq!(scheduler.tick(&bank, 0, 44100), vec![on(63, 63, 0)]);
    assert_eq!(scheduler.tick(&bank, 960, 0), vec![on(63, 63, 0), off(63, 63, 0), off(63, 63, 0)]);
    assert!(scheduler.is_idle());
}

#[test]
fn notes_may_overlap_and_end_oldest_first() {
    let mut bank = UclidParameters::default();
    bank.set(ParameterId::Note, 0);
    let mut scheduler = Uclid::new(1000);
    assert_eq!(scheduler.process(&bank, &vec![0; 1000]), vec![on(0, 63, 0)]);
    bank.set(ParameterId::Note, UNIT);
    assert_eq!(scheduler.process(&bank, &vec![960; 499]), vec![on(127, 63, 0)]);
    assert_eq!(scheduler.pending_count(), 2);
    assert_eq!(scheduler.process(&bank, &vec![960; 1]), vec![off(0, 63, 0)]);
    assert_eq!(scheduler.process(&bank, &vec![960; 1000]), vec![off(127, 63, 999)]);
    assert!(scheduler.is_idle());
}

#[test]
fn every_note_that_starts_also_ends() {
    let mut bank = tresillo();
    bank.set(ParameterId::NoteLength, UNIT / 100);
    let mut scheduler = Uclid::new(1000);
    let positions: Vec<i64> = (0..4000).map(|sample| sample * 16).collect();
    let mut events = scheduler.process(&bank, &positions);
    // Let the last note run out.
    events.extend(scheduler.process(&bank, &vec![4000 * 16; 100]));
    let started = events.iter().filter(|e| e.kind == NoteKind::NoteOn).count();
    let ended = events.iter().filter(|e| e.kind == NoteKind::NoteOff).count();
    assert_eq!(started, 25);
    assert_eq!(ended, started);
    assert!(scheduler.is_idle());
}

#[test]
fn blocks_of_any_size_give_the_same_events() {
    let mut bank = tresillo();
    bank.set(ParameterId::NoteLength, UNIT / 50);
    let positions: Vec<i64> = (0..3000).map(|sample| sample * 7).collect();

    let mut whole = Uclid::new(2000);
    let expected = whole.process(&bank, &positions);
    assert!(expected.len() > 10);

    for block in [1usize, 64, 1000, 4096] {
        let mut cut = Uclid::new(2000);
        let mut events = Vec::new();
        for (index, chunk) in positions.chunks(block).enumerate() {
            for event in cut.process(&bank, &chunk.to_vec()) {
                events.push(NoteEvent { frame_offset: event.frame_offset + index * block, ..event });
            }
        }
        assert_eq!(events, expected);
        assert_eq!(cut.current_step(), whole.current_step());
        assert_eq!(cut.pending_count(), whole.pending_count());
    }
}

#[test]
fn single_samples_give_the_events_of_a_block() {
    let bank = tresillo();
    let positions: Vec<i64> = (0..2000).map(|sample| sample * 11).collect();
    let mut whole = Uclid::new(44100);
    let expected = whole.process(&bank, &positions);
    let mut single = Uclid::new(44100);
    let mut events = Vec::new();
    for (frame, &position) in positions.iter().enumerate() {
        for event in single.tick(&bank, position, 44100) {
            events.push(NoteEvent { frame_offset: frame, ..event });
        }
    }
    assert_eq!(events, expected);
}

#[test]
fn changed_parameters_take_effect_at_the_next_sample() {
    let mut bank = tresillo();
    let mut scheduler = Uclid::new(44100);
    let first = scheduler.process(&bank, &vec![0, 960, 1920]);
    assert_eq!(first, vec![on(63, 63, 0), off(63, 63, 0)]);
    assert_eq!(scheduler.current_step(), 2);
    bank.set(ParameterId::Offset, UNIT / 8);
    bank.set(ParameterId::Multiplier, UNIT / 2);
    bank.set(ParameterId::Velocity, UNIT);
    // (1920 * 2) / 960 + 1 = 5, a rest; then 7 and 9 mod 8 = 1, rests; then 11 mod 8 = 3.
    let second = scheduler.process(&bank, &vec![1920, 2880, 3840, 4800]);
    assert_eq!(second, vec![on(63, 127, 3), off(63, 127, 3)]);
    assert_eq!(scheduler.current_step(), 3);
}

#[test]
fn a_transport_jumping_back_is_followed() {
    let bank = tresillo();
    let mut scheduler = Uclid::new(44100);
    let events = scheduler.process(&bank, &vec![0, 960, 0, 0, 2880, 0]);
    assert_eq!(
        events,
        vec![on(63, 63, 0), off(63, 63, 0), on(63, 63, 2), off(63, 63, 2), on(63, 63, 4),
            off(63, 63, 4), on(63, 63, 5), off(63, 63, 5)]
    );
}

#[test]
fn pulses_beyond_the_steps_never_stop_the_scheduler() {
    let mut bank = UclidParameters::default();
    bank.set(ParameterId::Pulses, UNIT);
    bank.set(ParameterId::Steps, UNIT / 32 * 3);
    bank.set(ParameterId::NoteLength, 0);
    assert!(euclidian_rythm(3, 32).is_err());
    let mut scheduler = Uclid::new(44100);
    let events = scheduler.process(&bank, &vec![0, 960, 1920, 2880]);
    let started = events.iter().filter(|e| e.kind == NoteKind::NoteOn).count();
    assert_eq!(started, 4);
}

#[test]
fn an_empty_block_changes_nothing() {
    let bank = UclidParameters::default();
    let mut scheduler = Uclid::new(44100);
    assert_eq!(scheduler.process(&bank, &Vec::new()), vec![]);
    assert!(scheduler.is_idle());
    assert_eq!(scheduler.tick(&bank, 0, 44100), vec![on(63, 63, 0)]);
}

#[test]
fn the_status_line_shows_rhythm_offset_and_step() {
    let mut bank = UclidParameters::default();
    assert_eq!(editor_message(&bank, 0), "[1, 1, 1, 1]-0-0");
    bank.change_preset(9);
    bank.set(ParameterId::Offset, UNIT / 2);
    assert_eq!(editor_message(&bank, 6), "[1, 0, 0, 1, 0, 0, 1, 0]-4-6");
    bank.set(ParameterId::Steps, UNIT / 32);
    assert_eq!(editor_message(&bank, 0), "[1]-0-0");
}
