use uclid::params::{ParameterId, UclidParameters, NOTE_LENGTH_SCALE, PRESET_COUNT, UNIT};

#[test]
fn defaults_are_four_over_four() {
    let bank = UclidParameters::default();
    assert_eq!(bank.get(ParameterId::Pulses), UNIT / 8);
    assert_eq!(bank.get(ParameterId::Steps), UNIT / 8);
    assert_eq!(bank.get(ParameterId::Multiplier), UNIT / 4);
    assert_eq!(bank.get(ParameterId::Offset), 0);
    assert_eq!(bank.get(ParameterId::Note), UNIT / 2);
    assert_eq!(bank.get(ParameterId::Velocity), UNIT / 2);
    assert_eq!(bank.get(ParameterId::NoteLength), UNIT / 2);
    assert_eq!(bank.step_count(), 4);
    assert_eq!(bank.pulse_count(), 4);
    assert_eq!(bank.step_multiplier(), 1);
    assert_eq!(bank.step_offset(), 0);
    assert_eq!(bank.note_pitch(), 63);
    assert_eq!(bank.note_velocity(), 63);
    assert_eq!(bank.note_duration(), 1_500_000_000_000);
    assert_eq!(bank.get_preset_num(), 0);
    assert_eq!(bank.preset_count(), PRESET_COUNT);
}

#[test]
fn parameters_are_reached_by_index() {
    let mut bank = UclidParameters::default();
    for index in 0..7 {
        bank.set_parameter(index, UNIT / 2 + index as u32);
    }
    for index in 0..7 {
        assert_eq!(bank.get_parameter(index), UNIT / 2 + index as u32);
    }
    assert_eq!(bank.get(ParameterId::Pulses), UNIT / 2);
    assert_eq!(bank.get(ParameterId::Steps), UNIT / 2 + 1);
    assert_eq!(bank.get(ParameterId::Multiplier), UNIT / 2 + 2);
    assert_eq!(bank.get(ParameterId::Offset), UNIT / 2 + 3);
    assert_eq!(bank.get(ParameterId::Note), UNIT / 2 + 4);
    assert_eq!(bank.get(ParameterId::Velocity), UNIT / 2 + 5);
    assert_eq!(bank.get(ParameterId::NoteLength), UNIT / 2 + 6);
}

#[test]
fn an_index_without_a_control_reads_zero_and_writes_nothing() {
    let mut bank = UclidParameters::default();
    bank.set_parameter(7, UNIT);
    bank.set_parameter(-1, UNIT);
    assert_eq!(bank.get_parameter(7), 0);
    assert_eq!(bank.get_parameter(-1), 0);
    let fresh = UclidParameters::default();
    for index in 0..7 {
        assert_eq!(bank.get_parameter(index), fresh.get_parameter(index));
    }
    assert_eq!(ParameterId::from_index(7), None);
    assert_eq!(ParameterId::from_index(3), Some(ParameterId::Offset));
}

#[test]
fn writes_are_held_to_each_controls_floor() {
    let mut bank = UclidParameters::default();
    for index in 0..7 {
        bank.set_parameter(index, 0);
    }
    assert_eq!(bank.get(ParameterId::Pulses), UNIT / 32);
    assert_eq!(bank.get(ParameterId::Steps), UNIT / 32);
    assert_eq!(bank.get(ParameterId::Multiplier), UNIT / 4);
    assert_eq!(bank.get(ParameterId::Offset), 0);
    assert_eq!(bank.get(ParameterId::Note), 0);
    assert_eq!(bank.get(ParameterId::Velocity), 0);
    assert_eq!(bank.get(ParameterId::NoteLength), 0);
    assert_eq!(bank.step_count(), 1);
    assert_eq!(bank.pulse_count(), 1);
    assert_eq!(bank.step_multiplier(), 1);
    assert_eq!(ParameterId::Pulses.floor(), UNIT / 32);
    assert_eq!(ParameterId::Velocity.floor(), 0);
}

#[test]
fn writes_are_held_to_one() {
    let mut bank = UclidParameters::default();
    for index in 0..7 {
        bank.set_parameter(index, u32::MAX);
    }
    for index in 0..7 {
        assert_eq!(bank.get_parameter(index), UNIT);
    }
    assert_eq!(bank.step_count(), 32);
    assert_eq!(bank.pulse_count(), 32);
    assert_eq!(bank.step_multiplier(), 4);
    assert_eq!(bank.step_offset(), 32);
    assert_eq!(bank.note_pitch(), 127);
    assert_eq!(bank.note_velocity(), 127);
    assert_eq!(bank.note_duration(), NOTE_LENGTH_SCALE);
    assert_eq!(NOTE_LENGTH_SCALE, 3_000_000_000_000);
}

#[test]
fn pulses_are_held_to_the_steps_when_read_not_when_written() {
    let mut bank = UclidParameters::default();
    bank.set(ParameterId::Steps, UNIT / 8);
    bank.set(ParameterId::Pulses, UNIT);
    assert_eq!(bank.get(ParameterId::Pulses), UNIT);
    assert_eq!(bank.step_count(), 4);
    assert_eq!(bank.pulse_count(), 4);
    assert_eq!(bank.get_parameter_text(0), "32");
}

#[test]
fn denormalization_rounds_down() {
    let mut bank = UclidParameters::default();
    bank.set(ParameterId::Steps, UNIT / 32 * 8 - 1);
    assert_eq!(bank.step_count(), 7);
    bank.set(ParameterId::Steps, UNIT / 32 * 8);
    assert_eq!(bank.step_count(), 8);
    bank.set(ParameterId::Offset, UNIT / 2);
    assert_eq!(bank.step_offset(), 4);
    bank.set(ParameterId::Offset, UNIT / 2 - 1);
    assert_eq!(bank.step_offset(), 3);
    bank.set(ParameterId::Multiplier, UNIT / 4 * 3);
    assert_eq!(bank.step_multiplier(), 3);
    bank.set(ParameterId::Multiplier, UNIT / 4 * 3 - 1);
    assert_eq!(bank.step_multiplier(), 2);
    bank.set(ParameterId::NoteLength, UNIT / 3);
    assert_eq!(bank.note_duration(), 999_999_940_395);
}

#[test]
fn the_blank_preset_changes_nothing() {
    let mut bank = UclidParameters::default();
    bank.set(ParameterId::Pulses, UNIT / 2);
    bank.set(ParameterId::Steps, UNIT);
    bank.change_preset(0);
    bank.change_preset(-3);
    assert_eq!(bank.get(ParameterId::Pulses), UNIT / 2);
    assert_eq!(bank.get(ParameterId::Steps), UNIT);
}

#[test]
fn a_preset_writes_pulses_and_steps_only() {
    let mut bank = UclidParameters::default();
    bank.set(ParameterId::Note, 12345);
    bank.change_preset(2);
    assert_eq!(bank.pulse_count(), 5);
    assert_eq!(bank.step_count(), 7);
    assert_eq!(bank.get(ParameterId::Pulses), 5 * (UNIT / 32));
    assert_eq!(bank.get(ParameterId::Steps), 7 * (UNIT / 32));
    assert_eq!(bank.get(ParameterId::Note), 12345);
    assert_eq!(bank.get(ParameterId::Multiplier), UNIT / 4);
    assert_eq!(bank.get_preset_num(), 0);
    bank.change_preset(18);
    assert_eq!(bank.pulse_count(), 11);
    assert_eq!(bank.step_count(), 24);
}

#[test]
fn presets_are_labelled_with_their_counts() {
    let bank = UclidParameters::default();
    assert_eq!(bank.get_preset_name(0), "4/4: -- blank --");
    assert_eq!(bank.get_preset_name(1), "2/5: classical, jazz and Persian");
    assert_eq!(bank.get_preset_name(11), "4/11: Frank Zappa");
    assert_eq!(bank.get_preset_name(18), "11/24: Central Africa");
}

#[test]
fn presets_are_listed_in_table_order() {
    let bank = UclidParameters::default();
    let labels = bank.list_presets();
    assert_eq!(labels.len(), 19);
    assert_eq!(labels[0], "4/4: -- blank --");
    assert_eq!(labels[5], "5/16: Brazillian necklace");
    assert_eq!(labels[12], "5/6: Arab");
    assert_eq!(labels[13], "5/7: Arab");
    assert_eq!(labels[17], "7/16: Brazilian necklace");
    for (index, label) in labels.iter().enumerate() {
        assert_eq!(*label, bank.get_preset_name(index as i32));
    }
}

#[test]
fn every_preset_has_no_more_pulses_than_steps() {
    for preset in 1..PRESET_COUNT as i32 {
        let mut bank = UclidParameters::default();
        bank.set(ParameterId::Pulses, UNIT);
        bank.change_preset(preset);
        let label = bank.get_preset_name(preset);
        let counts = format!("{}/{}: ", bank.get_parameter_text(0), bank.get_parameter_text(1));
        assert!(label.starts_with(&counts));
        assert!(bank.get(ParameterId::Pulses) <= bank.get(ParameterId::Steps));
    }
}

#[test]
fn controls_have_names() {
    let bank = UclidParameters::default();
    let names: Vec<String> = (0..8).map(|i| bank.get_parameter_name(i)).collect();
    assert_eq!(
        names,
        vec!["Pulses", "Total steps", "Multiplier", "Offset", "Note", "Velocity", "Note length", ""]
    );
}

#[test]
fn controls_show_their_values() {
    let bank = UclidParameters::default();
    let texts: Vec<String> = (0..8).map(|i| bank.get_parameter_text(i)).collect();
    assert_eq!(texts, vec!["4", "4", "1", "0", "D#-6", "64", "2", ""]);
}

#[test]
fn shown_values_round_to_nearest_with_ties_to_even() {
    let mut bank = UclidParameters::default();
    // Just below and just above two and a half of 127 parts.
    bank.set(ParameterId::Velocity, 330260);
    assert_eq!(bank.get_parameter_text(5), "2");
    bank.set(ParameterId::Velocity, 330261);
    assert_eq!(bank.get_parameter_text(5), "3");
    // Exactly 63.5 and exactly 1.5: a tie goes to the even neighbour.
    bank.set(ParameterId::Velocity, UNIT / 2);
    assert_eq!(bank.get_parameter_text(5), "64");
    bank.set(ParameterId::NoteLength, UNIT / 2);
    assert_eq!(bank.get_parameter_text(6), "2");
    bank.set(ParameterId::NoteLength, UNIT / 6);
    assert_eq!(bank.get_parameter_text(6), "0");
    bank.set(ParameterId::NoteLength, UNIT / 2 + UNIT / 3);
    assert_eq!(bank.get_parameter_text(6), "2");
    bank.set(ParameterId::NoteLength, UNIT / 2 + UNIT / 3 + 1);
    assert_eq!(bank.get_parameter_text(6), "3");
    // Offset a half of eight steps shows 4; a sixteenth of them rounds 0.5 down to 0.
    bank.set(ParameterId::Steps, UNIT / 4);
    bank.set(ParameterId::Offset, UNIT / 2);
    assert_eq!(bank.get_parameter_text(3), "4");
    bank.set(ParameterId::Offset, UNIT / 16);
    assert_eq!(bank.get_parameter_text(3), "0");
    bank.set(ParameterId::Offset, UNIT / 16 * 3);
    assert_eq!(bank.get_parameter_text(3), "2");
}
