use ferropt::cost::{held_key_cost, log_norm, next_key_cost, Model};
use ferropt::events::TypingEvent;
use ferropt::annotated::AnnotatedLayout;
use ferropt::layout::{Key, KeyCode, Layer, Layout, Win1252Char};

#[test]
fn cost_log_norm_small() {
    let inputs = [0u8, 1, 2, 3, 4, 5, 6, 7, 8, 9];
    let expected = [0u8, 1, 1, 2, 2, 2, 2, 3, 3, 3];
    assert_eq!(inputs.map(log_norm), expected);
}

#[test]
fn heuristic_log_norm_small() {
    let inputs = [0u8, 1, 2, 3, 4, 5, 6, 7, 8, 9];
    let expected = [0u8, 1, 1, 2, 2, 2, 2, 3, 3, 3];
    assert_eq!(inputs.map(log_norm), expected);
}

#[test]
fn log_norm_largest_input() {
    assert_eq!(log_norm(254), 7);
    assert_eq!(log_norm(255), 8);
}

#[test]
fn next_key_cost_values() {
    // Same key twice with the left index finger: only the strength penalty.
    assert_eq!(next_key_cost(13, 13), 6);
    // Left index, home row to top row of the same column: 6 + log_norm(3 * 1) = 8.
    assert_eq!(next_key_cost(13, 3), 8);
    // Different hands.
    assert_eq!(next_key_cost(0, 9), 2);
    // Left pinky home to left ring home: inward roll, no row change.
    assert_eq!(next_key_cost(10, 11), 0);
    // Left ring home to left pinky home: outward roll.
    assert_eq!(next_key_cost(11, 10), 1);
}

#[test]
fn held_key_cost_values() {
    // The same finger cannot hold one key and tap another.
    assert_eq!(held_key_cost(13, 3), 255);
    // Holding with the left thumb (inner key 31) while the right hand taps.
    assert_eq!(held_key_cost(31, 16), 6);
}

#[test]
fn cost_of_typing_counts_characters() {
    let m = Model::new();
    let events = vec![
        TypingEvent::Tap { pos: 13, for_char: true },
        TypingEvent::Tap { pos: 16, for_char: true },
    ];
    // Base costs 10 + 10, then moving from 13 to 16 across hands costs 2.
    assert_eq!(m.checked_cost_of_typing(&events), Some((22, 2)));
}

#[test]
fn cost_of_typing_surcharges_held_keys() {
    let m = Model::new();
    let events = vec![
        TypingEvent::Hold(31),
        TypingEvent::Tap { pos: 16, for_char: true },
        TypingEvent::Release(31),
    ];
    // Base cost 10 plus holding 31 while tapping 16 (6).
    assert_eq!(m.checked_cost_of_typing(&events), Some((16, 1)));
}

#[test]
fn cost_of_typing_rejects_unheld_release() {
    let m = Model::new();
    let events = vec![TypingEvent::Release(31)];
    assert_eq!(m.checked_cost_of_typing(&events), None);
    let events = vec![TypingEvent::Tap { pos: 40, for_char: true }];
    assert_eq!(m.checked_cost_of_typing(&events), None);
}

#[test]
fn cost_of_typing_empty() {
    let m = Model::new();
    assert_eq!(m.checked_cost_of_typing(&[]), Some((0, 0)));
}

#[test]
fn simple_model_recency() {
    let m = ferropt::simple::Model;
    let events = vec![
        TypingEvent::Tap { pos: 13, for_char: true },
        TypingEvent::Tap { pos: 13, for_char: true },
        TypingEvent::Hold(33),
        TypingEvent::Tap { pos: 3, for_char: false },
    ];
    // First use from rest: 1. Repeat one step later: 10 * 1 / 1. One row up two steps
    // later: 10 * (1 + log_norm(1)) / 2, plus 6 for the right thumb holding key 33.
    assert_eq!(m.checked_cost_of_typing(&events), Some((27, 2)));
    assert_eq!(m.checked_cost_of_typing(&[TypingEvent::Tap { pos: 34, for_char: true }]), None);
}

#[test]
fn string_cost_matches_pipeline() {
    let mut home = vec![Key::Empty; 34];
    home[13] = Key::Typing(KeyCode::F);
    home[16] = Key::Typing(KeyCode::J);
    home[33] = Key::Shift;
    let layout = AnnotatedLayout::new(Layout { layers: vec![Layer(home)] }).unwrap();
    let m = Model::new();
    // "fj": 10 + 10 + 2 across hands.
    assert_eq!(m.string_cost(&layout, &[Win1252Char(b'f'), Win1252Char(b'j')]), Some((22, 2)));
    // "F": one-shot shift tap (33: 16) then f (10), thumb-to-index of the same hand
    // is free here (column 3 of the thumbs, index column 3, home row: 0) plus base costs.
    let (cost, count) = m.string_cost(&layout, &[Win1252Char(b'F')]).unwrap();
    assert_eq!(count, 1);
    assert_eq!(cost, 16 + 10 + next_key_cost(33, 13) as u128);
}

#[test]
fn simple_model_surcharges_held_keys() {
    let m = ferropt::simple::Model;
    let plain = vec![TypingEvent::Tap { pos: 16, for_char: true }];
    let held = vec![
        TypingEvent::Hold(31),
        TypingEvent::Tap { pos: 16, for_char: true },
        TypingEvent::Release(31),
    ];
    let (plain_cost, _) = m.cost_of_typing(&plain);
    let (held_cost, count) = m.cost_of_typing(&held);
    assert_eq!(count, 1);
    assert_eq!(held_cost, plain_cost + held_key_cost(31, 16) as u128);
    assert!(held_cost > plain_cost);
    assert_eq!(m.checked_cost_of_typing(&[TypingEvent::Release(31)]), None);
}

#[test]
fn heuristic_cost_of_valid_stream() {
    let m = Model::new();
    let events = vec![TypingEvent::Tap { pos: 13, for_char: true }];
    assert_eq!(m.cost_of_typing(&events), (10, 1));
}
