use uclid::pattern::{euclidian_rythm, PatternError, MAX_STEPS};

fn bits(steps: usize, pulses: usize) -> Vec<u8> {
    euclidian_rythm(steps, pulses).unwrap().to_vec()
}

/// Distances from each onset to the next, around the cycle.
fn gaps(pattern: &[u8]) -> Vec<usize> {
    let onsets: Vec<usize> = (0..pattern.len()).filter(|&i| pattern[i] == 1).collect();
    let mut found = Vec::new();
    for (k, &at) in onsets.iter().enumerate() {
        let next = onsets[(k + 1) % onsets.len()];
        found.push((next + pattern.len() - at - 1) % pattern.len() + 1);
    }
    found
}

#[test]
fn three_over_eight_is_the_tresillo() {
    assert_eq!(bits(8, 3), vec![1, 0, 0, 1, 0, 0, 1, 0]);
    assert_eq!(gaps(&bits(8, 3)), vec![3, 3, 2]);
}

#[test]
fn two_over_four_alternates() {
    assert_eq!(bits(4, 2), vec![1, 0, 1, 0]);
}

#[test]
fn two_over_five_has_gaps_of_two_and_three() {
    let pattern = bits(5, 2);
    assert_eq!(pattern, vec![1, 0, 1, 0, 0]);
    let mut found = gaps(&pattern);
    found.sort();
    assert_eq!(found, vec![2, 3]);
}

#[test]
fn rotation_brings_the_first_onset_to_the_front() {
    // Before rotation the construction for 1 over 4 ends in its only onset.
    assert_eq!(bits(4, 1), vec![1, 0, 0, 0]);
    assert_eq!(bits(7, 5), vec![1, 1, 0, 1, 1, 0, 1]);
    assert_eq!(bits(5, 3), vec![1, 0, 1, 0, 1]);
}

#[test]
fn more_pulses_than_steps_is_rejected() {
    assert!(matches!(euclidian_rythm(4, 5), Err(PatternError::InvalidArgument)));
}

#[test]
fn no_steps_is_rejected() {
    assert!(matches!(euclidian_rythm(0, 0), Err(PatternError::InvalidArgument)));
}

#[test]
fn more_steps_than_the_maximum_is_rejected() {
    assert!(euclidian_rythm(MAX_STEPS, 3).is_ok());
    assert!(matches!(euclidian_rythm(MAX_STEPS + 1, 3), Err(PatternError::InvalidArgument)));
}

#[test]
fn no_pulses_is_silence() {
    assert_eq!(bits(6, 0), vec![0, 0, 0, 0, 0, 0]);
}

#[test]
fn as_many_pulses_as_steps_is_all_onsets() {
    assert_eq!(bits(5, 5), vec![1, 1, 1, 1, 1]);
    assert_eq!(bits(1, 1), vec![1]);
}

#[test]
fn every_pattern_has_its_steps_and_pulses() {
    for steps in 1..=MAX_STEPS {
        for pulses in 0..=steps {
            let pattern = bits(steps, pulses);
            assert_eq!(pattern.len(), steps);
            assert_eq!(pattern.iter().filter(|&&b| b == 1).count(), pulses);
            assert!(pattern.iter().all(|&b| b <= 1));
        }
    }
}

#[test]
fn every_pattern_with_a_pulse_starts_on_an_onset() {
    for steps in 1..=MAX_STEPS {
        for pulses in 1..=steps {
            assert_eq!(bits(steps, pulses)[0], 1);
        }
    }
}

#[test]
fn the_same_dimensions_give_the_same_pattern() {
    for steps in 1..=MAX_STEPS {
        for pulses in 0..=steps {
            assert_eq!(bits(steps, pulses), bits(steps, pulses));
        }
    }
}

#[test]
fn onsets_are_spread_evenly() {
    // No two gaps of a Euclidean rhythm differ by more than one.
    for steps in 1..=MAX_STEPS {
        for pulses in 1..=steps {
            let found = gaps(&bits(steps, pulses));
            let least = *found.iter().min().unwrap();
            let most = *found.iter().max().unwrap();
            assert!(most - least <= 1);
        }
    }
}

#[test]
fn pattern_accessors_agree_with_its_bytes() {
    let pattern = euclidian_rythm(8, 3).unwrap();
    assert_eq!(pattern.len(), 8);
    let read: Vec<bool> = (0..8).map(|i| pattern.is_onset(i)).collect();
    assert_eq!(read, vec![true, false, false, true, false, false, true, false]);
}
