use ferropt::annotated::AnnotatedLayout;
use ferropt::codec::{key_to_token, layer_from_tokens, layout_from_tokens, layout_to_tokens, parse_key, ParseError};
use ferropt::layout::{finger_for_pos, to_bytes, Digit, Finger, Hand, Key, KeyCode, Layer, Layout, Win1252Char};
use ferropt::quality::layout_penalties;

#[test]
fn typed_chars() {
    assert_eq!(Key::Typing(KeyCode::A).typed_char(false), Some(Win1252Char(b'a')));
    assert_eq!(Key::Typing(KeyCode::A).typed_char(true), Some(Win1252Char(b'A')));
    assert_eq!(Key::Shifted(KeyCode::Digit3).typed_char(false), Some(Win1252Char(0xA3)));
    assert_eq!(Key::Typing(KeyCode::Grave).typed_char(true), Some(Win1252Char(0xAC)));
    assert_eq!(Key::Shift.typed_char(false), None);
    assert_eq!(Key::Layer(1).typed_char(true), None);
}

#[test]
fn fingers() {
    assert_eq!(finger_for_pos(1, 4), Digit::LeftIndex);
    assert_eq!(finger_for_pos(3, 2), Digit::RightThumb);
    assert_eq!(Digit::new(Hand::Right, Finger::Ring), Digit::RightRing);
    assert_eq!(Digit::RightRing.hand(), Hand::Right);
    assert_eq!(Digit::LeftPinky.finger(), Finger::Pinky);
}

#[test]
fn encodes_text() {
    assert_eq!(
        to_bytes("Hi £".to_owned()),
        Some(vec![Win1252Char(b'H'), Win1252Char(b'i'), Win1252Char(b' '), Win1252Char(0xA3)])
    );
    assert_eq!(to_bytes("€".to_owned()), Some(vec![Win1252Char(0x80)]));
    assert_eq!(to_bytes("日本".to_owned()), None);
    assert_eq!(to_bytes(String::new()), Some(vec![]));
}

fn all_keys() -> Vec<Key> {
    let mut keys = vec![Key::Empty, Key::Shift, Key::Layer(0), Key::Layer(9), Key::Layer(42), Key::Layer(255)];
    for b in 0..=255u8 {
        let t = format!("KC_{}", b as char);
        if let Some(k) = parse_key(t.as_bytes()) {
            keys.push(k);
        }
    }
    for name in ["KC_COMM", "KC_QUOT", "KC_NUHS", "KC_MINS", "KC_ENT", "KC_SPC", "KC_TAB", "KC_GRV"] {
        let k = parse_key(name.as_bytes()).unwrap();
        keys.push(k);
        if let Key::Typing(kc) = k {
            keys.push(Key::Shifted(kc));
        }
    }
    keys
}

#[test]
fn key_tokens_round_trip() {
    let keys = all_keys();
    assert!(keys.len() > 40);
    for k in keys {
        assert_eq!(parse_key(&key_to_token(k)), Some(k), "{k:?}");
    }
    assert_eq!(key_to_token(Key::Layer(42)), b"OSL(42)".to_vec());
    assert_eq!(key_to_token(Key::Shifted(KeyCode::Digit1)), b"LSFT(KC_1)".to_vec());
}

#[test]
fn layout_tokens_round_trip() {
    let keys = all_keys();
    let layers: Vec<Layer<Key>> =
        (0..3).map(|l| Layer((0..34).map(|p| keys[(l * 34 + p) % keys.len()]).collect())).collect();
    let layout = Layout { layers };
    assert_eq!(layout_from_tokens(&layout_to_tokens(&layout)), Ok(layout.clone()));
    assert_eq!(layout.hamming_dist(&layout), 0);
}

#[test]
fn layer_errors() {
    let mut tokens: Vec<Vec<u8>> = vec![b"KC_NO".to_vec(); 34];
    assert!(layer_from_tokens(&tokens).is_ok());
    tokens.pop();
    assert_eq!(layer_from_tokens(&tokens), Err(ParseError::WrongLength { expected: 34, found: 33 }));
    tokens[3] = b"KC_BOGUS".to_vec();
    assert_eq!(layer_from_tokens(&tokens), Err(ParseError::UnknownValue(b"KC_BOGUS".to_vec())));
}

fn simple_layout() -> Layout {
    let mut home = vec![Key::Empty; 34];
    home[0] = Key::Typing(KeyCode::A);
    home[33] = Key::Shift;
    home[32] = Key::Layer(1);
    let mut other = vec![Key::Empty; 34];
    other[5] = Key::Typing(KeyCode::B);
    Layout { layers: vec![Layer(home), Layer(other)] }
}

#[test]
fn annotate_checks_modifiers() {
    assert!(AnnotatedLayout::new(simple_layout()).is_some());
    let mut bad = simple_layout();
    bad.layers[1].0[7] = Key::Shift;
    assert!(AnnotatedLayout::new(bad).is_none());
    let mut bad = simple_layout();
    bad.layers[0].0[7] = Key::Layer(1);
    assert!(AnnotatedLayout::new(bad).is_none());
    let mut bad = simple_layout();
    bad.layers[0].0[7] = Key::Layer(5);
    assert!(AnnotatedLayout::new(bad).is_none());
    let mut bad = simple_layout();
    bad.layers[0].0[7] = Key::Typing(KeyCode::Digit1);
    assert!(AnnotatedLayout::new(bad).is_none());
}

#[test]
fn hamming_and_has_key() {
    let a = simple_layout();
    let mut b = simple_layout();
    b.layers[1].0[5] = Key::Empty;
    b.layers[0].0[1] = Key::Typing(KeyCode::C);
    assert_eq!(a.hamming_dist(&b), 2);
    assert!(a.has_key(Key::Typing(KeyCode::B)));
    assert!(!b.has_key(Key::Typing(KeyCode::B)));
}

#[test]
fn penalties() {
    let layout = AnnotatedLayout::new(simple_layout()).unwrap();
    let p = layout_penalties(&layout);
    // 'a' on the home layer unshifted, 'b' on layer 1: one differing pair of two.
    assert_eq!(p.lower_alpha, (1, 2));
    // 'A' and 'B' are both shifted, on different layers.
    assert_eq!(p.upper_alpha, (1, 2));
    assert_eq!(p.shift, 0);
    assert_eq!(p.layers, 0);
    assert_eq!(p.ordered_pairs, 0);
}
