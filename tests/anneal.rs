use ferropt::anneal::{fixed_step, pinned, Draw, Mutation, Outcome, PinnedTo, StableRun, Step, TooConstrained};
use ferropt::annotated::AnnotatedLayout;
use ferropt::codec::layout_from_tokens;
use ferropt::layout::Layout;

fn tok(s: &str) -> Vec<u8> {
    s.as_bytes().to_vec()
}

fn qwerty() -> Layout {
    let home = [
        "KC_Q", "KC_W", "KC_E", "KC_R", "KC_T", "KC_Y", "KC_U", "KC_I", "KC_O", "KC_P", "KC_A", "KC_S",
        "KC_D", "KC_F", "KC_G", "KC_H", "KC_J", "KC_K", "KC_L", "KC_SCLN", "KC_Z", "KC_X", "KC_C",
        "KC_V", "KC_B", "KC_N", "KC_M", "KC_COMM", "KC_DOT", "KC_SLSH", "OSL(2)", "KC_SPC", "OSL(1)",
        "OSM(MOD_LSFT)",
    ];
    let mut sym = vec!["KC_NO"; 34];
    sym[12] = "LSFT(KC_9)";
    sym[13] = "LSFT(KC_0)";
    sym[19] = "LSFT(KC_1)";
    sym[21] = "LSFT(KC_NUHS)";
    sym[31] = "KC_ENT";
    sym[0] = "KC_MINS";
    sym[1] = "KC_EQL";
    sym[2] = "KC_LBRC";
    sym[3] = "KC_RBRC";
    let mut num = vec!["KC_NO"; 34];
    let digits = ["KC_0", "KC_1", "KC_2", "KC_3", "KC_4", "KC_5", "KC_6", "KC_7", "KC_8", "KC_9"];
    let placement = [15usize, 16, 17, 18, 26, 27, 28, 6, 7, 8];
    for (d, p) in digits.iter().zip(placement) {
        num[p] = d;
    }
    num[0] = "KC_GRV";
    num[9] = "KC_TAB";
    let tokens: Vec<Vec<Vec<u8>>> = vec![
        home.iter().map(|s| tok(s)).collect(),
        sym.iter().map(|s| tok(s)).collect(),
        num.iter().map(|s| tok(s)).collect(),
    ];
    layout_from_tokens(&tokens).unwrap()
}

fn same(a: &AnnotatedLayout, b: &AnnotatedLayout) -> bool {
    a.layout() == b.layout()
        && a.layer_idx() == b.layer_idx()
        && a.shift_idx() == b.shift_idx()
        && a.num_layout() == b.num_layout()
        && (0..=255u8).all(|c| {
            let c = ferropt::layout::Win1252Char(c);
            a.char_idx().preferred(c) == b.char_idx().preferred(c)
        })
}

#[test]
fn mutation_apply_undo_inverses() {
    let mut layout = AnnotatedLayout::new(qwerty()).unwrap();
    let mut rng = rand::thread_rng();
    for _ in 0..1000 {
        let start = AnnotatedLayout::new(layout.layout().clone()).unwrap();
        let mutation = Mutation::gen(&mut rng, &layout).unwrap();
        mutation.apply(&mut layout);
        mutation.undo(&mut layout);
        assert!(same(&start, &layout), "mutation {mutation:?} not undone correctly");
    }
}

#[test]
fn mutation_apply_undo_shuffled() {
    let mut layout = AnnotatedLayout::new(qwerty()).unwrap();
    let mut rng = rand::thread_rng();
    for _ in 0..1000 {
        let mutation = Mutation::gen(&mut rng, &layout).unwrap();
        mutation.apply(&mut layout);
    }
    for _ in 0..1000 {
        let start = AnnotatedLayout::new(layout.layout().clone()).unwrap();
        let mutation = Mutation::gen(&mut rng, &layout).unwrap();
        mutation.apply(&mut layout);
        mutation.undo(&mut layout);
        assert!(same(&start, &layout), "mutation {mutation:?} not undone correctly");
    }
}

#[test]
fn swap_twice_restores_everything() {
    let start = AnnotatedLayout::new(qwerty()).unwrap();
    let mut layout = AnnotatedLayout::new(qwerty()).unwrap();
    // A letter with a symbol on another layer, and the shift key within the home layer.
    for (a, b) in [((0u8, 5u8), (1u8, 12u8)), ((0, 33), (0, 20)), ((1, 0), (2, 9))] {
        layout.swap(a, b);
        assert!(!same(&start, &layout));
        layout.swap(a, b);
        assert!(same(&start, &layout));
    }
}

#[test]
fn swap_moves_shift_index() {
    let mut layout = AnnotatedLayout::new(qwerty()).unwrap();
    layout.swap((0, 33), (0, 20));
    assert_eq!(layout.shift_idx(), Some(20));
    layout.swap((0, 30), (0, 21));
    assert_eq!(layout.layer_idx()[2], 21);
}

#[test]
fn digits_move_as_a_block() {
    let mut layout = AnnotatedLayout::new(qwerty()).unwrap();
    assert_eq!(layout.num_layout(), 3);
    layout.switch_to_num_layout(10);
    assert_eq!(layout.num_layout(), 10);
    for (i, c) in (b'0'..=b'9').enumerate() {
        let e = layout.char_idx().preferred(ferropt::layout::Win1252Char(c)).unwrap();
        assert_eq!((e.layer, e.pos, e.shifted), (2, i as u8, false));
    }
    let again = AnnotatedLayout::new(layout.layout().clone()).unwrap();
    assert_eq!(again.num_layout(), 10);
}

#[test]
fn pin_classes() {
    let layout = AnnotatedLayout::new(qwerty()).unwrap();
    assert_eq!(pinned(&layout, 0, 31), Some(PinnedTo::Position));
    assert_eq!(pinned(&layout, 0, 0), Some(PinnedTo::Position));
    assert_eq!(pinned(&layout, 0, 33), Some(PinnedTo::Layer));
    assert_eq!(pinned(&layout, 1, 12), None);
}

#[test]
fn improving_run_never_undoes() {
    let mut run = StableRun::new(3);
    for _ in 0..10 {
        assert_eq!(run.step(Outcome::Better), Step::Keep);
        assert_eq!(run.unchanged, 0);
    }
    assert_eq!(fixed_step(Outcome::Better), Step::Keep);
    assert_eq!(fixed_step(Outcome::Equal), Step::Keep);
    assert_eq!(fixed_step(Outcome::Worse { accepted: true }), Step::Keep);
    assert_eq!(fixed_step(Outcome::Worse { accepted: false }), Step::Undo);
}

#[test]
fn stalled_run_stops() {
    let mut run = StableRun::new(3);
    assert_eq!(run.step(Outcome::Worse { accepted: false }), Step::Undo);
    assert_eq!(run.step(Outcome::Equal), Step::Keep);
    assert_eq!(run.step(Outcome::Worse { accepted: false }), Step::UndoAndStop);
    let mut run = StableRun::new(3);
    assert_eq!(run.step(Outcome::Equal), Step::Keep);
    assert_eq!(run.step(Outcome::Equal), Step::Keep);
    assert_eq!(run.step(Outcome::Equal), Step::KeepAndStop);
    let mut run = StableRun::new(2);
    assert_eq!(run.step(Outcome::Worse { accepted: false }), Step::Undo);
    assert_eq!(run.step(Outcome::Worse { accepted: true }), Step::Keep);
    assert_eq!(run.step(Outcome::Worse { accepted: false }), Step::Undo);
}

#[test]
fn partner_rules() {
    let layout = AnnotatedLayout::new(qwerty()).unwrap();
    // A free symbol may swap with another free symbol, not with a letter or a digit.
    assert!(ferropt::anneal::partner_allowed(&layout, None, 1, 12));
    assert!(!ferropt::anneal::partner_allowed(&layout, None, 0, 5));
    assert!(!ferropt::anneal::partner_allowed(&layout, None, 2, 16));
    // The shift key may swap with another modifier of the home layer, not with a letter.
    assert!(ferropt::anneal::partner_allowed(&layout, Some(PinnedTo::Layer), 0, 30));
    assert!(!ferropt::anneal::partner_allowed(&layout, Some(PinnedTo::Layer), 0, 5));
}

#[test]
fn digit_switch_undone_exactly() {
    for from in 0..22u8 {
        for to in 0..22u8 {
            let start = AnnotatedLayout::new(qwerty()).unwrap();
            let mut layout = AnnotatedLayout::new(qwerty()).unwrap();
            let m = Mutation::SwapNumLayout { layout_a: 3, layout_b: from };
            m.apply(&mut layout);
            let before = AnnotatedLayout::new(layout.layout().clone()).unwrap();
            let m = Mutation::SwapNumLayout { layout_a: from, layout_b: to };
            m.apply(&mut layout);
            m.undo(&mut layout);
            assert!(same(&before, &layout), "{from} -> {to}");
            assert!(!same(&start, &before) || from == 3);
        }
    }
}

fn draw(layer: u8, pos: u8, row: u8) -> Draw {
    Draw { layer, pos, row }
}

#[test]
fn mutation_from_draws() {
    let layout = AnnotatedLayout::new(qwerty()).unwrap();
    // Every first draw names the pinned thumb key or a letter: the generator gives up.
    let first = vec![draw(0, 31, 0), draw(0, 0, 0), draw(0, 15, 0)];
    assert_eq!(Mutation::from_draws(&layout, &first, &[draw(1, 0, 0)]), Err(TooConstrained));
    // The first movable slot is '(' on layer 1; a digit and an equal empty key are skipped.
    let first = vec![draw(0, 31, 0), draw(1, 12, 0), draw(1, 0, 0)];
    let second = vec![draw(2, 16, 0), draw(1, 12, 0), draw(1, 0, 0)];
    assert_eq!(
        Mutation::from_draws(&layout, &first, &second),
        Ok(Mutation::SwapKeys { layer_a: 1, layer_b: 1, pos_a: 12, pos_b: 0 })
    );
    // An empty key may not swap with another empty key.
    let first = vec![draw(1, 20, 0)];
    assert_eq!(Mutation::from_draws(&layout, &first, &[draw(1, 22, 0)]), Err(TooConstrained));
    // A digit moves the whole block to the first other placement drawn.
    let first = vec![draw(2, 16, 0)];
    let second = vec![draw(0, 0, 3), draw(0, 0, 3), draw(0, 0, 5)];
    assert_eq!(
        Mutation::from_draws(&layout, &first, &second),
        Ok(Mutation::SwapNumLayout { layout_a: 3, layout_b: 5 })
    );
    assert_eq!(Mutation::from_draws(&layout, &first, &[draw(0, 0, 3)]), Err(TooConstrained));
    // The shift key stays on the home layer: its partner is drawn by position only.
    let first = vec![draw(0, 33, 0)];
    assert_eq!(
        Mutation::from_draws(&layout, &first, &[draw(2, 30, 0)]),
        Ok(Mutation::SwapKeys { layer_a: 0, layer_b: 0, pos_a: 33, pos_b: 30 })
    );
}
