use vstd::prelude::*;
use crate::layout::{Key, Layout, Win1252Char};
use crate::events::{TypingEvent, keys_from, keys_spec, keys_step, release_all, shift_pos, typing_entry};
use crate::annotated::{AnnotatedView, best, slot_types};
use crate::layout::NUM_KEYS;

verus! {

/// A modifier state that is either held down or armed for the next keystroke only.
#[derive(Debug, Clone, Copy, PartialEq, Eq, Structural)]
pub enum OneshotState<T> {
    Persistent(T),
    Oneshot(T),
}

impl<T: Copy> OneshotState<T> {
    pub open spec fn spec_current(self) -> T {
        match self {
            OneshotState::Persistent(v) => v,
            OneshotState::Oneshot(v) => v,
        }
    }

    #[verifier::when_used_as_spec(spec_current)]
    pub fn current(self) -> (r: T)
        ensures
            r == self.spec_current(),
    {
        match self {
            OneshotState::Persistent(v) => v,
            OneshotState::Oneshot(v) => v,
        }
    }

    pub fn is_oneshot(self) -> (r: bool)
        ensures
            r == (self is Oneshot),
    {
        match self {
            OneshotState::Persistent(_) => false,
            OneshotState::Oneshot(_) => true,
        }
    }
}

/// The firmware's modifier state: active layer and shift.
pub type TypistState = (OneshotState<u8>, OneshotState<bool>);

/// One-shot modifiers lapse after a keystroke.
pub open spec fn finish_oneshot(st: TypistState) -> TypistState {
    (
        if st.0 is Oneshot { OneshotState::Persistent(0u8) } else { st.0 },
        if st.1 is Oneshot { OneshotState::Persistent(false) } else { st.1 },
    )
}

/// The key at (layer, pos), if there is one.
pub open spec fn key_in(l: Seq<Seq<Key>>, layer: u8, pos: u8) -> Option<Key> {
    if (layer as int) < l.len() && (pos as int) < l[layer as int].len() {
        Some(l[layer as int][pos as int])
    } else {
        None
    }
}

/// One event played on the keyboard: the next state and the character typed, if any.
pub open spec fn replay_step(l: Seq<Seq<Key>>, st: TypistState, e: TypingEvent) -> (TypistState, Option<Win1252Char>) {
    match e {
        TypingEvent::Tap { pos, .. } => match key_in(l, st.0.spec_current(), pos) {
            Some(Key::Layer(n)) => ((OneshotState::Oneshot(n), st.1), None),
            Some(Key::Shift) => ((st.0, OneshotState::Oneshot(true)), None),
            Some(k) => (finish_oneshot(st), k.spec_typed_char(st.1.spec_current())),
            None => (finish_oneshot(st), None),
        },
        TypingEvent::Hold(pos) => match key_in(l, st.0.spec_current(), pos) {
            Some(Key::Layer(n)) => ((OneshotState::Persistent(n), st.1), None),
            Some(Key::Shift) => ((st.0, OneshotState::Persistent(true)), None),
            _ => (st, None),
        },
        TypingEvent::Release(pos) => match key_in(l, 0, pos) {
            Some(Key::Layer(_)) => ((OneshotState::Persistent(0u8), st.1), None),
            Some(Key::Shift) => ((st.0, OneshotState::Persistent(false)), None),
            _ => (st, None),
        },
        TypingEvent::Unknown => (finish_oneshot(st), None),
    }
}

/// The characters that `events` type, starting in state `st`.
pub open spec fn replay(l: Seq<Seq<Key>>, st: TypistState, events: Seq<TypingEvent>) -> Seq<Win1252Char>
    decreases events.len(),
{
    if events.len() == 0 {
        Seq::empty()
    } else {
        let (st2, c) = replay_step(l, st, events[0]);
        (match c {
            Some(c) => seq![c],
            None => Seq::empty(),
        }) + replay(l, st2, events.drop_first())
    }
}

pub open spec fn typist_start() -> TypistState {
    (OneshotState::Persistent(0u8), OneshotState::Persistent(false))
}

fn key_at(layout: &Layout, layer: u8, pos: u8) -> (r: Option<Key>)
    ensures
        r == key_in(layout@, layer, pos),
{
    if (layer as usize) < layout.layers.len() {
        let l = &layout.layers[layer as usize];
        assert(l@ == layout@[layer as int]);
        if (pos as usize) < l.0.len() {
            return Some(l.0[pos as usize]);
        }
    }
    None
}

/// Plays `events` on `layout` as the keyboard firmware would, giving the characters typed.
pub fn type_events(layout: &Layout, events: &[TypingEvent]) -> (r: Vec<Win1252Char>)
    ensures
        r@ == replay(layout@, typist_start(), events@),
{
    let mut out: Vec<Win1252Char> = Vec::new();
    let mut layer_state: OneshotState<u8> = OneshotState::Persistent(0);
    let mut shift_state: OneshotState<bool> = OneshotState::Persistent(false);
    let mut i: usize = 0;
    assert(events@.skip(0) =~= events@);
    while i < events.len()
        invariant
            0 <= i <= events@.len(),
            replay(layout@, typist_start(), events@) == out@ + replay(
                layout@,
                (layer_state, shift_state),
                events@.skip(i as int),
            ),
        decreases events@.len() - i,
    {
        let ghost st = (layer_state, shift_state);
        let ghost rest = events@.skip(i as int);
        let ghost out0 = out@;
        assert(rest[0] == events@[i as int]);
        assert(rest.drop_first() =~= events@.skip(i as int + 1));
        match events[i] {
            TypingEvent::Tap { pos, .. } => match key_at(layout, layer_state.current(), pos) {
                Some(Key::Layer(n)) => {
                    layer_state = OneshotState::Oneshot(n);
                },
                Some(Key::Shift) => {
                    shift_state = OneshotState::Oneshot(true);
                },
                k => {
                    let shifted = shift_state.current();
                    if layer_state.is_oneshot() {
                        layer_state = OneshotState::Persistent(0);
                    }
                    if shift_state.is_oneshot() {
                        shift_state = OneshotState::Persistent(false);
                    }
                    if let Some(k) = k {
                        if let Some(c) = k.typed_char(shifted) {
                            out.push(c);
                        }
                    }
                },
            },
            TypingEvent::Hold(pos) => match key_at(layout, layer_state.current(), pos) {
                Some(Key::Layer(n)) => {
                    layer_state = OneshotState::Persistent(n);
                },
                Some(Key::Shift) => {
                    shift_state = OneshotState::Persistent(true);
                },
                _ => {},
            },
            TypingEvent::Release(pos) => match key_at(layout, 0, pos) {
                // The held key is on the home layer, and only one of each kind is held.
                Some(Key::Layer(_)) => {
                    layer_state = OneshotState::Persistent(0);
                },
                Some(Key::Shift) => {
                    shift_state = OneshotState::Persistent(false);
                },
                _ => {},
            },
            TypingEvent::Unknown => {
                if layer_state.is_oneshot() {
                    layer_state = OneshotState::Persistent(0);
                }
                if shift_state.is_oneshot() {
                    shift_state = OneshotState::Persistent(false);
                }
            },
        }
        proof {
            let (st2, c) = replay_step(layout@, st, events@[i as int]);
            assert(st2 == (layer_state, shift_state));
            let typed = match c {
                Some(c) => seq![c],
                None => Seq::<Win1252Char>::empty(),
            };
            assert(out@ =~= out0 + typed);
            assert(replay(layout@, st, rest) == typed + replay(layout@, st2, rest.drop_first()));
            assert(out0 + replay(layout@, st, rest) =~= out@ + replay(layout@, st2, rest.drop_first()));
        }
        i += 1;
    }
    assert(events@.skip(i as int) =~= Seq::<TypingEvent>::empty());
    assert(out@ =~= out@ + Seq::<Win1252Char>::empty());
    out
}

/// The state after playing `events` from `st`.
pub open spec fn replay_state(l: Seq<Seq<Key>>, st: TypistState, events: Seq<TypingEvent>) -> TypistState
    decreases events.len(),
{
    if events.len() == 0 {
        st
    } else {
        replay_state(l, replay_step(l, st, events[0]).0, events.drop_first())
    }
}

proof fn lemma_replay_append(l: Seq<Seq<Key>>, st: TypistState, a: Seq<TypingEvent>, b: Seq<TypingEvent>)
    ensures
        replay(l, st, a + b) == replay(l, st, a) + replay(l, replay_state(l, st, a), b),
        replay_state(l, st, a + b) == replay_state(l, replay_state(l, st, a), b),
    decreases a.len(),
{
    if a.len() == 0 {
        assert(a + b =~= b);
    } else {
        let (st2, c) = replay_step(l, st, a[0]);
        assert((a + b).drop_first() =~= a.drop_first() + b);
        lemma_replay_append(l, st2, a.drop_first(), b);
        let typed = match c {
            Some(c) => seq![c],
            None => Seq::<Win1252Char>::empty(),
        };
        assert(replay(l, st, a + b) == typed + replay(l, st2, a.drop_first() + b));
        assert(typed + (replay(l, st2, a.drop_first()) + replay(l, replay_state(l, st2, a.drop_first()), b))
            =~= (typed + replay(l, st2, a.drop_first())) + replay(l, replay_state(l, st2, a.drop_first()), b));
    }
}

proof fn lemma_replay_one(l: Seq<Seq<Key>>, st: TypistState, e: TypingEvent)
    ensures
        replay(l, st, seq![e]) == match replay_step(l, st, e).1 {
            Some(c) => seq![c],
            None => Seq::<Win1252Char>::empty(),
        },
        replay_state(l, st, seq![e]) == replay_step(l, st, e).0,
{
    reveal_with_fuel(replay, 2);
    reveal_with_fuel(replay_state, 2);
    assert(seq![e][0] == e);
    assert(seq![e].drop_first() =~= Seq::<TypingEvent>::empty());
    let typed = match replay_step(l, st, e).1 {
        Some(c) => seq![c],
        None => Seq::<Win1252Char>::empty(),
    };
    assert(typed + Seq::<Win1252Char>::empty() =~= typed);
}

/// The switch key of layer `n` sits on the home layer where the index says.
pub open spec fn switch_ok(v: AnnotatedView, n: u8) -> bool {
    v.layout[0][v.layer_idx[n as int] as int] == Key::Layer(n)
}

/// A synthesis state whose held modifiers the keyboard can release.
pub open spec fn held_ok(v: AnnotatedView, st: (u8, bool)) -> bool {
    &&& (st.0 as int) < v.layout.len()
    &&& (st.0 != 0 ==> switch_ok(v, st.0))
    &&& (st.1 ==> v.shift_idx is Some)
}

/// The keyboard state that a synthesis state holds down.
pub open spec fn as_typist(st: (u8, bool)) -> TypistState {
    (OneshotState::Persistent(st.0), OneshotState::Persistent(st.1))
}

/// Every byte of `cs` can be typed, and each layer it needs has a switch key.
pub open spec fn reachable(v: AnnotatedView, cs: Seq<Win1252Char>) -> bool {
    forall|i: int|
        0 <= i < cs.len() ==> ((#[trigger] typing_entry(v, cs[i])) matches Some(e) && (e.layer != 0 ==> switch_ok(
            v,
            e.layer,
        )))
}

proof fn lemma_release_all(v: AnnotatedView, st: (u8, bool))
    requires
        v.wf(),
        held_ok(v, st),
    ensures
        replay(v.layout, as_typist(st), release_all(v, st)) == Seq::<Win1252Char>::empty(),
        replay_state(v.layout, as_typist(st), release_all(v, st)) == as_typist((0u8, false)),
{
    let l = v.layout;
    assert(l[0].len() == NUM_KEYS);
    let a = if st.0 != 0 { seq![TypingEvent::Release(v.layer_idx[st.0 as int])] } else { Seq::empty() };
    let b = if st.1 { seq![TypingEvent::Release(shift_pos(v))] } else { Seq::empty() };
    assert(release_all(v, st) == a + b);
    lemma_replay_append(l, as_typist(st), a, b);
    let mid = as_typist((0u8, st.1));
    if st.0 != 0 {
        lemma_replay_one(l, as_typist(st), TypingEvent::Release(v.layer_idx[st.0 as int]));
    }
    assert(replay_state(l, as_typist(st), a) == mid);
    if st.1 {
        lemma_replay_one(l, mid, TypingEvent::Release(shift_pos(v)));
    }
    assert(replay(l, as_typist(st), a) =~= Seq::<Win1252Char>::empty());
    assert(replay(l, mid, b) =~= Seq::<Win1252Char>::empty());
}

/// Plays `events` and says both what they type and where they leave the keyboard.
pub open spec fn plays(l: Seq<Seq<Key>>, st: TypistState, events: Seq<TypingEvent>, typed: Seq<Win1252Char>, end: TypistState) -> bool {
    replay(l, st, events) == typed && replay_state(l, st, events) == end
}

proof fn lemma_plays_append(
    l: Seq<Seq<Key>>,
    st: TypistState,
    a: Seq<TypingEvent>,
    ta: Seq<Win1252Char>,
    mid: TypistState,
    b: Seq<TypingEvent>,
    tb: Seq<Win1252Char>,
    end: TypistState,
)
    requires
        plays(l, st, a, ta, mid),
        plays(l, mid, b, tb, end),
    ensures
        plays(l, st, a + b, ta + tb, end),
{
    lemma_replay_append(l, st, a, b);
}

proof fn lemma_plays_empty(l: Seq<Seq<Key>>, st: TypistState)
    ensures
        plays(l, st, Seq::empty(), Seq::empty(), st),
{
}

proof fn lemma_plays_one(l: Seq<Seq<Key>>, st: TypistState, e: TypingEvent)
    ensures
        plays(l, st, seq![e], match replay_step(l, st, e).1 {
            Some(c) => seq![c],
            None => Seq::<Win1252Char>::empty(),
        }, replay_step(l, st, e).0),
{
    lemma_replay_one(l, st, e);
}

/// The events that type one reachable byte replay as exactly that byte, and leave the
/// keyboard holding what synthesis believes is held.
proof fn lemma_entry_replays(v: AnnotatedView, st: (u8, bool), c: Win1252Char)
    requires
        v.wf(),
        held_ok(v, st),
        typing_entry(v, c) matches Some(e) && (e.layer != 0 ==> switch_ok(v, e.layer)),
    ensures
        plays(v.layout, as_typist(st), keys_step(v, st, c).1, seq![c], as_typist(keys_step(v, st, c).0)),
        held_ok(v, keys_step(v, st, c).0),
{
    let l = v.layout;
    let e = typing_entry(v, c).unwrap();
    let s = v.char_idx[c.0 as int];
    assert(best(s) == Some(e));
    assert(s.contains(e));
    assert(slot_types(l, e, c.0 as int));
    assert(l[0].len() == NUM_KEYS);
    assert(l[e.layer as int].len() == NUM_KEYS);
    let sh = shift_pos(v);
    if e.shifted {
        assert(v.shift_idx is Some);
        assert(l[0][sh as int] == Key::Shift);
    }
    if st.1 {
        assert(l[0][sh as int] == Key::Shift);
    }
    // Release of the active layer.
    let (l1, ev1) = if st.0 != 0 && e.layer != st.0 {
        (0u8, seq![TypingEvent::Release(v.layer_idx[st.0 as int])])
    } else {
        (st.0, Seq::empty())
    };
    if st.0 != 0 && e.layer != st.0 {
        lemma_plays_one(l, as_typist(st), TypingEvent::Release(v.layer_idx[st.0 as int]));
    } else {
        lemma_plays_empty(l, as_typist(st));
    }
    assert(plays(l, as_typist(st), ev1, Seq::empty(), as_typist((l1, st.1))));
    // Release of shift.
    let (s2, ev2) = if st.1 && !e.shifted {
        (false, seq![TypingEvent::Release(sh)])
    } else {
        (st.1, Seq::empty())
    };
    if st.1 && !e.shifted {
        lemma_plays_one(l, as_typist((l1, st.1)), TypingEvent::Release(sh));
    } else {
        lemma_plays_empty(l, as_typist((l1, st.1)));
    }
    assert(plays(l, as_typist((l1, st.1)), ev2, Seq::empty(), as_typist((l1, s2))));
    lemma_plays_append(l, as_typist(st), ev1, Seq::empty(), as_typist((l1, st.1)), ev2, Seq::empty(), as_typist((l1, s2)));
    assert(Seq::<Win1252Char>::empty() + Seq::<Win1252Char>::empty() =~= Seq::<Win1252Char>::empty());
    // Hold of shift, from the home layer.
    let (l3, s3, ev3) = if e.shifted && !s2 {
        if l1 != 0 {
            (0u8, true, seq![TypingEvent::Release(v.layer_idx[l1 as int]), TypingEvent::Hold(sh)])
        } else {
            (l1, true, seq![TypingEvent::Hold(sh)])
        }
    } else {
        (l1, s2, Seq::empty())
    };
    if e.shifted && !s2 {
        if l1 != 0 {
            lemma_plays_one(l, as_typist((l1, s2)), TypingEvent::Release(v.layer_idx[l1 as int]));
            lemma_plays_one(l, as_typist((0u8, s2)), TypingEvent::Hold(sh));
            lemma_plays_append(l, as_typist((l1, s2)), seq![TypingEvent::Release(v.layer_idx[l1 as int])], Seq::empty(), as_typist((0u8, s2)), seq![TypingEvent::Hold(sh)], Seq::empty(), as_typist((0u8, true)));
            assert(seq![TypingEvent::Release(v.layer_idx[l1 as int])] + seq![TypingEvent::Hold(sh)] =~= ev3);
        } else {
            lemma_plays_one(l, as_typist((l1, s2)), TypingEvent::Hold(sh));
        }
    } else {
        lemma_plays_empty(l, as_typist((l1, s2)));
    }
    assert(plays(l, as_typist((l1, s2)), ev3, Seq::empty(), as_typist((l3, s3))));
    // Hold of the target layer, from the home layer.
    let (l4, ev4) = if e.layer != 0 && l3 != e.layer {
        (e.layer, seq![TypingEvent::Hold(v.layer_idx[e.layer as int])])
    } else {
        (l3, Seq::empty())
    };
    if e.layer != 0 && l3 != e.layer {
        assert(l3 == 0);
        lemma_plays_one(l, as_typist((l3, s3)), TypingEvent::Hold(v.layer_idx[e.layer as int]));
    } else {
        lemma_plays_empty(l, as_typist((l3, s3)));
    }
    assert(plays(l, as_typist((l3, s3)), ev4, Seq::empty(), as_typist((l4, s3))));
    // The tap itself.
    assert(l4 == e.layer);
    assert(s3 == e.shifted);
    let tap = TypingEvent::Tap { pos: e.pos, for_char: true };
    lemma_plays_one(l, as_typist((l4, s3)), tap);
    assert(plays(l, as_typist((l4, s3)), seq![tap], seq![c], as_typist((l4, s3))));
    lemma_plays_append(l, as_typist(st), ev1 + ev2, Seq::empty(), as_typist((l1, s2)), ev3, Seq::empty(), as_typist((l3, s3)));
    lemma_plays_append(l, as_typist(st), ev1 + ev2 + ev3, Seq::empty(), as_typist((l3, s3)), ev4, Seq::empty(), as_typist((l4, s3)));
    lemma_plays_append(l, as_typist(st), ev1 + ev2 + ev3 + ev4, Seq::empty(), as_typist((l4, s3)), seq![tap], seq![c], as_typist((l4, s3)));
    assert(Seq::<Win1252Char>::empty() + seq![c] =~= seq![c]);
    assert(keys_step(v, st, c).1 == ev1 + ev2 + ev3 + ev4 + seq![tap]);
}

/// Replaying the events synthesised for reachable bytes gives the bytes back.
pub proof fn lemma_keys_replay(v: AnnotatedView, st: (u8, bool), cs: Seq<Win1252Char>)
    requires
        v.wf(),
        held_ok(v, st),
        reachable(v, cs),
    ensures
        replay(v.layout, as_typist(st), keys_from(v, st, cs)) == cs,
    decreases cs.len(),
{
    if cs.len() == 0 {
        lemma_release_all(v, st);
    } else {
        let (st2, ev) = keys_step(v, st, cs[0]);
        assert(typing_entry(v, cs[0]) is Some);
        lemma_entry_replays(v, st, cs[0]);
        assert(reachable(v, cs.drop_first())) by {
            assert forall|i: int| 0 <= i < cs.drop_first().len() implies ((#[trigger] typing_entry(v, cs.drop_first()[i])) matches Some(e) && (e.layer != 0 ==> switch_ok(v, e.layer))) by {
                assert(cs.drop_first()[i] == cs[i + 1]);
            }
        }
        lemma_keys_replay(v, st2, cs.drop_first());
        lemma_replay_append(v.layout, as_typist(st), ev, keys_from(v, st2, cs.drop_first()));
        assert(seq![cs[0]] + cs.drop_first() =~= cs);
    }
}

/// Playing back the events synthesised for text made of reachable characters types exactly
/// that text (before one-shot compression).
pub proof fn lemma_keys_round_trip(v: AnnotatedView, cs: Seq<Win1252Char>)
    requires
        v.wf(),
        reachable(v, cs),
    ensures
        replay(v.layout, typist_start(), keys_spec(v, cs)) == cs,
{
    assert(as_typist((0u8, false)) == typist_start());
    lemma_keys_replay(v, (0u8, false), cs);
}

} // verus!
