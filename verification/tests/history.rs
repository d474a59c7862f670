use game_of_life_core::game::{Cellule, LifeState};
use game_of_life_core::history::{cellules_equal, History};

fn snapshot(bits: &[u8]) -> Vec<Cellule> {
    bits.iter()
        .map(|&b| Cellule {
            life_state: if b == 1 { LifeState::Alive } else { LifeState::Dead },
        })
        .collect()
}

#[test]
fn first_seen_snapshot_is_not_a_loop() {
    let history = History { previous_steps: Vec::new() };
    assert!(!history.is_in_endless_loop(&snapshot(&[0, 1, 0])));
}

#[test]
fn recorded_snapshot_is_detected_again() {
    let mut history = History { previous_steps: Vec::new() };
    history.record(snapshot(&[0, 1, 0, 1]));
    history.record(snapshot(&[1, 1, 0, 0]));
    assert!(history.is_in_endless_loop(&snapshot(&[0, 1, 0, 1])));
    assert!(history.is_in_endless_loop(&snapshot(&[1, 1, 0, 0])));
    assert!(!history.is_in_endless_loop(&snapshot(&[1, 1, 1, 0])));
}

#[test]
fn mismatched_length_is_not_a_loop() {
    let mut history = History { previous_steps: Vec::new() };
    history.record(snapshot(&[0, 1, 0, 1]));
    assert!(!history.is_in_endless_loop(&snapshot(&[0, 1, 0])));
    assert!(!history.is_in_endless_loop(&snapshot(&[0, 1, 0, 1, 0])));
}

#[test]
fn clearing_forgets_every_snapshot() {
    let mut history = History { previous_steps: Vec::new() };
    history.record(snapshot(&[1, 0]));
    history.record(snapshot(&[0, 1]));
    history.clear_previous_steps();
    assert!(history.previous_steps.is_empty());
    assert!(!history.is_in_endless_loop(&snapshot(&[1, 0])));
}

#[test]
fn snapshot_comparison_is_element_wise() {
    assert!(cellules_equal(&snapshot(&[1, 0, 1]), &snapshot(&[1, 0, 1])));
    assert!(!cellules_equal(&snapshot(&[1, 0, 1]), &snapshot(&[1, 1, 1])));
    assert!(!cellules_equal(&snapshot(&[1, 0]), &snapshot(&[1, 0, 0])));
    assert!(cellules_equal(&snapshot(&[]), &snapshot(&[])));
}
