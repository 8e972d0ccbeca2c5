use ferropt::annotated::AnnotatedLayout;
use ferropt::codec::{layout_from_tokens, parse_key};
use ferropt::events::{all_holds_released, collect, keys, lookahead, oneshot, LookaheadIterator, TypingEvent};
use ferropt::events::TypingEvent::{Hold, Release};
use ferropt::layout::{to_bytes, Key, Layout, Win1252Char};
use ferropt::replay::type_events;
use rand::Rng;

fn tok(s: &str) -> Vec<u8> {
    s.as_bytes().to_vec()
}

/// A QWERTY-style layout: letters on the home layer, symbols on layer 1, digits on layer 2.
fn qwerty_tokens() -> Vec<Vec<Vec<u8>>> {
    let home = [
        "KC_Q", "KC_W", "KC_E", "KC_R", "KC_T", "KC_Y", "KC_U", "KC_I", "KC_O", "KC_P", "KC_A", "KC_S",
        "KC_D", "KC_F", "KC_G", "KC_H", "KC_J", "KC_K", "KC_L", "KC_SCLN", "KC_Z", "KC_X", "KC_C",
        "KC_V", "KC_B", "KC_N", "KC_M", "KC_COMM", "KC_DOT", "KC_SLSH", "OSL(2)", "KC_SPC", "OSL(1)",
        "OSM(MOD_LSFT)",
    ];
    let mut sym = vec!["KC_NO"; 34];
    sym[12] = "LSFT(KC_9)";
    sym[13] = "LSFT(KC_0)";
    sym[19] = "LSFT(KC_1)";
    sym[21] = "LSFT(KC_NUHS)";
    sym[31] = "KC_ENT";
    let mut num = vec!["KC_NO"; 34];
    let digits = ["KC_0", "KC_1", "KC_2", "KC_3", "KC_4", "KC_5", "KC_6", "KC_7", "KC_8", "KC_9"];
    let placement = [15usize, 16, 17, 18, 26, 27, 28, 6, 7, 8];
    for (d, p) in digits.iter().zip(placement) {
        num[p] = d;
    }
    vec![
        home.iter().map(|s| tok(s)).collect(),
        sym.iter().map(|s| tok(s)).collect(),
        num.iter().map(|s| tok(s)).collect(),
    ]
}

fn qwerty() -> Layout {
    layout_from_tokens(&qwerty_tokens()).unwrap()
}

fn annotated() -> AnnotatedLayout {
    AnnotatedLayout::new(qwerty()).unwrap()
}

fn tap(pos: u8) -> TypingEvent {
    TypingEvent::Tap { pos, for_char: true }
}

fn oneshot_tap(pos: u8) -> TypingEvent {
    TypingEvent::Tap { pos, for_char: false }
}

fn hello() -> Vec<Win1252Char> {
    to_bytes("Hello, WORLD!\n(~1)".to_owned()).unwrap()
}

#[test]
fn layout_keys_helloworld() {
    let layout = annotated();
    let expected = vec![
        Hold(33), tap(15), Release(33), tap(2), tap(18), tap(18), tap(8), tap(27), tap(31),
        Hold(33), tap(1), tap(8), tap(3), tap(18), tap(12), Release(33), Hold(32), tap(19),
        tap(31), tap(12), tap(21), Release(32), Hold(30), tap(16), Release(30), Hold(32), tap(13),
        Release(32),
    ];
    let actual = collect(keys(&layout, hello()));
    assert_eq!(expected, actual);
}

#[test]
fn layout_oneshot_helloworld() {
    let layout = annotated();
    let expected = vec![
        oneshot_tap(33), tap(15), tap(2), tap(18), tap(18), tap(8), tap(27), tap(31), Hold(33),
        tap(1), tap(8), tap(3), tap(18), tap(12), Release(33), Hold(32), tap(19), tap(31),
        tap(12), tap(21), Release(32), oneshot_tap(30), tap(16), oneshot_tap(32), tap(13),
    ];
    let actual = oneshot(keys(&layout, hello())).collect();
    assert_eq!(expected, actual);
}

#[test]
fn type_helloworld() {
    let layout = annotated();
    let events = vec![
        oneshot_tap(33), tap(15), tap(2), tap(18), tap(18), tap(8), tap(27), tap(31), Hold(33),
        tap(1), tap(8), tap(3), tap(18), tap(12), Release(33), Hold(32), tap(19), tap(31),
        tap(12), tap(21), Release(32), oneshot_tap(30), tap(16), oneshot_tap(32), tap(13),
    ];
    assert_eq!(type_events(layout.layout(), &events), hello());
}

fn random_input(layout: &AnnotatedLayout, len: usize) -> Vec<Win1252Char> {
    let mut rng = rand::thread_rng();
    let available: Vec<Win1252Char> = (0..=255u8)
        .map(Win1252Char)
        .filter(|&c| layout.char_idx().preferred(c).is_some())
        .collect();
    (0..len).map(|_| available[rng.gen_range(0..available.len())]).collect()
}

#[test]
fn type_keys() {
    let layout = annotated();
    let input = random_input(&layout, rand::thread_rng().gen_range(0..65536));
    let events = collect(keys(&layout, input.clone()));
    assert_eq!(type_events(layout.layout(), &events), input);
}

#[test]
fn type_oneshot() {
    let layout = annotated();
    let input = random_input(&layout, rand::thread_rng().gen_range(0..65536));
    let events = oneshot(keys(&layout, input.clone())).collect();
    assert_eq!(type_events(layout.layout(), &events), input);
}

#[test]
fn pipeline_lengths() {
    let layout = annotated();
    for len in [0usize, 1, 17, 500] {
        let input = random_input(&layout, len);
        let events = collect(keys(&layout, input.clone()));
        assert!(events.len() >= input.len());
        let compressed = oneshot(lookahead(events.clone())).collect();
        assert!(compressed.len() <= events.len());
    }
}

#[test]
fn untypable_character_is_unknown() {
    let layout = annotated();
    // '#' has no key in this layout; shift is released before it.
    let input = vec![Win1252Char(b'A'), Win1252Char(b'#'), Win1252Char(b'a')];
    let events = collect(keys(&layout, input));
    assert_eq!(
        events,
        vec![TypingEvent::Hold(33), tap(10), TypingEvent::Release(33), TypingEvent::Unknown, tap(10)]
    );
}

#[test]
fn oneshot_drops_idle_hold_and_keeps_busy_hold() {
    let events = vec![TypingEvent::Hold(5), TypingEvent::Release(5), tap(3)];
    assert_eq!(oneshot(lookahead(events)).collect(), vec![tap(3)]);
    let events = vec![TypingEvent::Hold(5), tap(3), TypingEvent::Release(5)];
    assert_eq!(oneshot(lookahead(events)).collect(), vec![oneshot_tap(5), tap(3)]);
    let events = vec![TypingEvent::Hold(5), tap(3), tap(4), TypingEvent::Release(5)];
    assert_eq!(
        oneshot(lookahead(events)).collect(),
        vec![TypingEvent::Hold(5), tap(3), tap(4), TypingEvent::Release(5)]
    );
}

#[test]
fn unreleased_hold_is_detected() {
    assert!(!all_holds_released(&[TypingEvent::Hold(5), tap(3)]));
    assert!(!all_holds_released(&[TypingEvent::Hold(5), TypingEvent::Hold(5), TypingEvent::Release(5)]));
    assert!(all_holds_released(&[TypingEvent::Hold(5), tap(3), TypingEvent::Release(5)]));
    let layout = annotated();
    assert!(all_holds_released(&collect(keys(&layout, hello()))));
}

#[test]
fn lookahead_peek_and_remove() {
    let mut it = lookahead(vec![1u8, 2, 3, 4]);
    assert_eq!(it.peek_nth(2), Some(3));
    assert_eq!(it.remove_nth(1), Some(2));
    assert_eq!(it.peek_nth(5), None);
    assert_eq!(it.next(), Some(1));
    assert_eq!(it.next(), Some(3));
    assert_eq!(it.next(), Some(4));
    assert_eq!(it.next(), None);
}

#[test]
fn parse_key_shapes() {
    assert_eq!(parse_key(b"KC_A"), Some(Key::Typing(ferropt::layout::KeyCode::A)));
    assert_eq!(parse_key(b"OSL(007)"), Some(Key::Layer(7)));
    assert_eq!(parse_key(b"OSL(256)"), None);
    assert_eq!(parse_key(b"LSFT(KC_NO)"), None);
    assert_eq!(parse_key(b"KC_XYZ"), None);
}
