use vstd::prelude::*;
use std::collections::VecDeque;
use crate::layout::{Key, Win1252Char, NUM_KEYS};
use crate::annotated::{AnnotatedLayout, AnnotatedView, CharIdxEntry, best, slot_types};

verus! {

/// One hardware action on the keyboard.
#[derive(Debug, Clone, Copy, PartialEq, Eq, Structural)]
pub enum TypingEvent {
    /// Press and release a key; `for_char` is set when the tap types a character.
    Tap { pos: u8, for_char: bool },
    Hold(u8),
    Release(u8),
    Unknown,
}

/// The home-layer position of the shift key (0 when there is none).
pub open spec fn shift_pos(v: AnnotatedView) -> u8 {
    match v.shift_idx {
        Some(p) => p,
        None => 0,
    }
}

/// The events that let go of whatever is held in state `st` (active layer, shift held).
pub open spec fn release_all(v: AnnotatedView, st: (u8, bool)) -> Seq<TypingEvent> {
    (if st.0 != 0 {
        seq![TypingEvent::Release(v.layer_idx[st.0 as int])]
    } else {
        Seq::empty()
    }) + (if st.1 {
        seq![TypingEvent::Release(shift_pos(v))]
    } else {
        Seq::empty()
    })
}

/// The way `keys` types byte `c`: its preferred entry, unless that needs a shift key the
/// layout lacks.
pub open spec fn typing_entry(v: AnnotatedView, c: Win1252Char) -> Option<CharIdxEntry> {
    match best(v.char_idx[c.0 as int]) {
        Some(e) => if e.shifted && v.shift_idx is None {
            None
        } else {
            Some(e)
        },
        None => None,
    }
}

/// The state after typing entry `e` from state `st`, and the events that do it.
pub open spec fn entry_step(v: AnnotatedView, st: (u8, bool), e: CharIdxEntry) -> ((u8, bool), Seq<TypingEvent>) {
    let (l1, ev1) = if st.0 != 0 && e.layer != st.0 {
        (0u8, seq![TypingEvent::Release(v.layer_idx[st.0 as int])])
    } else {
        (st.0, Seq::empty())
    };
    let (s2, ev2) = if st.1 && !e.shifted {
        (false, seq![TypingEvent::Release(shift_pos(v))])
    } else {
        (st.1, Seq::empty())
    };
    let (l3, s3, ev3) = if e.shifted && !s2 {
        if l1 != 0 {
            (0u8, true, seq![TypingEvent::Release(v.layer_idx[l1 as int]), TypingEvent::Hold(shift_pos(v))])
        } else {
            (l1, true, seq![TypingEvent::Hold(shift_pos(v))])
        }
    } else {
        (l1, s2, Seq::empty())
    };
    let (l4, ev4) = if e.layer != 0 && l3 != e.layer {
        (e.layer, seq![TypingEvent::Hold(v.layer_idx[e.layer as int])])
    } else {
        (l3, Seq::empty())
    };
    ((l4, s3), ev1 + ev2 + ev3 + ev4 + seq![TypingEvent::Tap { pos: e.pos, for_char: true }])
}

/// One step of event synthesis: the next state and the events emitted for byte `c`.
pub open spec fn keys_step(v: AnnotatedView, st: (u8, bool), c: Win1252Char) -> ((u8, bool), Seq<TypingEvent>) {
    match typing_entry(v, c) {
        Some(e) => entry_step(v, st, e),
        None => ((0u8, false), release_all(v, st) + seq![TypingEvent::Unknown]),
    }
}

/// All events for the bytes `cs`, starting in state `st`, ending with every modifier released.
pub open spec fn keys_from(v: AnnotatedView, st: (u8, bool), cs: Seq<Win1252Char>) -> Seq<TypingEvent>
    decreases cs.len(),
{
    if cs.len() == 0 {
        release_all(v, st)
    } else {
        let (st2, ev) = keys_step(v, st, cs[0]);
        ev + keys_from(v, st2, cs.drop_first())
    }
}

/// The events that type `cs` from the home layer with nothing held.
pub open spec fn keys_spec(v: AnnotatedView, cs: Seq<Win1252Char>) -> Seq<TypingEvent> {
    keys_from(v, (0u8, false), cs)
}

/// How many modifiers are held in state `st`.
pub open spec fn held_count(st: (u8, bool)) -> int {
    (if st.0 != 0 { 1int } else { 0int }) + (if st.1 { 1int } else { 0int })
}

pub proof fn lemma_step_bound(v: AnnotatedView, st: (u8, bool), c: Win1252Char)
    ensures
        keys_step(v, st, c).1.len() + held_count(keys_step(v, st, c).0) <= 6 + held_count(st),
{
}

/// At most six events come out per byte, plus the final releases.
pub proof fn lemma_keys_bound(v: AnnotatedView, st: (u8, bool), cs: Seq<Win1252Char>)
    ensures
        keys_from(v, st, cs).len() <= 6 * cs.len() + held_count(st),
    decreases cs.len(),
{
    if cs.len() > 0 {
        let (st2, ev) = keys_step(v, st, cs[0]);
        lemma_step_bound(v, st, cs[0]);
        lemma_keys_bound(v, st2, cs.drop_first());
    }
}

/// At least one event comes out for every byte that goes in.
pub proof fn lemma_keys_len(v: AnnotatedView, st: (u8, bool), cs: Seq<Win1252Char>)
    ensures
        keys_from(v, st, cs).len() >= cs.len(),
    decreases cs.len(),
{
    if cs.len() > 0 {
        let (st2, ev) = keys_step(v, st, cs[0]);
        lemma_keys_len(v, st2, cs.drop_first());
        assert(ev.len() >= 1);
    }
}

/// A forward-only sequence that can look ahead and remove an element ahead without
/// consuming the ones before it.
pub trait LookaheadIterator<T>: Sized {
    /// What is left to come, in order.
    spec fn remaining(&self) -> Seq<T>;

    spec fn inv(&self) -> bool;

    /// What is left always fits in memory indices.
    proof fn lemma_remaining_bounded(&self)
        requires
            self.inv(),
        ensures
            self.remaining().len() < usize::MAX,
    ;

    fn next(&mut self) -> (r: Option<T>)
        requires
            old(self).inv(),
        ensures
            final(self).inv(),
            match r {
                Some(e) => old(self).remaining() == seq![e] + final(self).remaining(),
                None => old(self).remaining().len() == 0 && final(self).remaining().len() == 0,
            },
    ;

    /// The `n`th element ahead, without consuming anything.
    fn peek_nth(&mut self, n: usize) -> (r: Option<T>)
        requires
            old(self).inv(),
        ensures
            final(self).inv(),
            final(self).remaining() == old(self).remaining(),
            r == if n < old(self).remaining().len() {
                Some(old(self).remaining()[n as int])
            } else {
                None
            },
    ;

    /// Takes out exactly the `n`th element ahead, keeping the order of the rest.
    fn remove_nth(&mut self, n: usize) -> (r: Option<T>)
        requires
            old(self).inv(),
        ensures
            final(self).inv(),
            if n < old(self).remaining().len() {
                r == Some(old(self).remaining()[n as int]) && final(self).remaining() == old(
                    self,
                ).remaining().remove(n as int)
            } else {
                r is None && final(self).remaining() == old(self).remaining()
            },
    ;
}

/// Lazily synthesised typing events for a sequence of bytes.
pub struct Keys<'l> {
    layout: &'l AnnotatedLayout,
    chars: Vec<Win1252Char>,
    next_char: usize,
    cur_layer: u8,
    cur_shifted: bool,
    buf: VecDeque<TypingEvent>,
}

impl<'l> Keys<'l> {
    pub closed spec fn state(&self) -> (u8, bool) {
        (self.cur_layer, self.cur_shifted)
    }

    closed spec fn inv_core(&self) -> bool {
        &&& self.layout.wf()
        &&& self.next_char <= self.chars@.len()
        &&& (self.cur_layer as int) < self.layout@.layout.len()
        &&& (self.cur_shifted ==> self.layout@.shift_idx is Some)
    }

    /// Appends the events for the next byte, or the final releases once the bytes run out.
    /// Returns whether a byte was consumed.
    fn handle_next(&mut self) -> (r: bool)
        requires
            old(self).inv(),
        ensures
            final(self).inv(),
            final(self).remaining() == old(self).remaining(),
            final(self).layout == old(self).layout,
            r ==> final(self).buf@.len() > old(self).buf@.len(),
            r ==> final(self).chars@.len() - final(self).next_char < old(self).chars@.len() - old(self).next_char,
            !r ==> final(self).next_char == final(self).chars@.len() && final(self).cur_layer == 0 && !final(self).cur_shifted,
            final(self).next_char >= old(self).next_char,
            final(self).chars == old(self).chars,
    {
        let ghost v = self.layout@;
        let ghost st = self.state();
        let ghost rest = self.chars@.skip(self.next_char as int);
        if self.next_char < self.chars.len() {
            let c = self.chars[self.next_char];
            let entry = match self.layout.char_idx().preferred(c) {
                Some(e) => if e.shifted && self.layout.shift_idx().is_none() {
                    None
                } else {
                    Some(e)
                },
                None => None,
            };
            assert(entry == typing_entry(v, c));
            let ghost buf0 = self.buf@;
            match entry {
                Some(e) => {
                    proof {
                        let s = v.char_idx[c.0 as int];
                        assert(s.contains(e));
                        assert(slot_types(v.layout, e, c.0 as int));
                    }
                    proof {
                        lemma_step_bound(v, st, c);
                    }
                    self.push_entry(e);
                },
                None => {
                    self.release_held();
                    self.buf.push_back(TypingEvent::Unknown);
                },
            }
            self.next_char = self.next_char + 1;
            proof {
                let (st2, ev) = keys_step(v, st, c);
                assert(rest[0] == c);
                assert(rest.drop_first() =~= self.chars@.skip(self.next_char as int));
                assert(self.buf@ =~= buf0 + ev);
                assert(self.state() == st2);
                assert(keys_from(v, st, rest) == ev + keys_from(v, st2, rest.drop_first()));
                assert(self.remaining() =~= old(self).remaining());
            }
            true
        } else {
            let ghost buf0 = self.buf@;
            self.release_held();
            proof {
                assert(rest.len() == 0);
                assert(self.chars@.skip(self.next_char as int).len() == 0);
                assert(self.buf@ =~= buf0 + release_all(v, st));
                assert(release_all(v, (0u8, false)) =~= Seq::<TypingEvent>::empty());
                assert(self.remaining() =~= old(self).remaining());
            }
            false
        }
    }

    /// Appends the events that type entry `e`.
    fn push_entry(&mut self, e: CharIdxEntry)
        requires
            old(self).inv_core(),
            old(self).buf@.len() + 6 < usize::MAX,
            (e.layer as int) < old(self).layout@.layout.len(),
            e.shifted ==> old(self).layout@.shift_idx is Some,
        ensures
            final(self).inv_core(),
            final(self).buf@ == old(self).buf@ + entry_step(old(self).layout@, old(self).state(), e).1,
            final(self).state() == entry_step(old(self).layout@, old(self).state(), e).0,
            final(self).layout == old(self).layout,
            final(self).chars == old(self).chars,
            final(self).next_char == old(self).next_char,
    {
        let ghost b0 = self.buf@;
        if self.cur_layer != 0 && e.layer != self.cur_layer {
            self.buf.push_back(TypingEvent::Release(self.layout.layer_idx()[self.cur_layer as usize]));
            self.cur_layer = 0;
        }
        let ghost b1 = self.buf@;
        if self.cur_shifted && !e.shifted {
            self.buf.push_back(TypingEvent::Release(self.shift_key()));
            self.cur_shifted = false;
        }
        let ghost b2 = self.buf@;
        if e.shifted && !self.cur_shifted {
            // The shift key is on the home layer.
            if self.cur_layer != 0 {
                self.buf.push_back(TypingEvent::Release(self.layout.layer_idx()[self.cur_layer as usize]));
                self.cur_layer = 0;
            }
            self.buf.push_back(TypingEvent::Hold(self.shift_key()));
            self.cur_shifted = true;
        }
        let ghost b3 = self.buf@;
        if e.layer != 0 && self.cur_layer != e.layer {
            self.buf.push_back(TypingEvent::Hold(self.layout.layer_idx()[e.layer as usize]));
            self.cur_layer = e.layer;
        }
        let ghost b4 = self.buf@;
        self.buf.push_back(TypingEvent::Tap { pos: e.pos, for_char: true });
        proof {
            let ev = entry_step(old(self).layout@, old(self).state(), e).1;
            assert(self.buf@ =~= b0 + ev);
        }
    }

    fn shift_key(&self) -> (r: u8)
        ensures
            r == shift_pos(self.layout@),
    {
        match self.layout.shift_idx() {
            Some(p) => p,
            None => 0,
        }
    }

    /// Lets go of the active layer and of shift.
    fn release_held(&mut self)
        requires
            old(self).inv(),
        ensures
            final(self).buf@ == old(self).buf@ + release_all(old(self).layout@, old(self).state()),
            final(self).state() == (0u8, false),
            final(self).layout == old(self).layout,
            final(self).chars == old(self).chars,
            final(self).next_char == old(self).next_char,
            final(self).inv(),
    {
        let ghost b0 = self.buf@;
        if self.cur_layer != 0 {
            self.buf.push_back(TypingEvent::Release(self.layout.layer_idx()[self.cur_layer as usize]));
            self.cur_layer = 0;
        }
        if self.cur_shifted {
            self.buf.push_back(TypingEvent::Release(self.shift_key()));
            self.cur_shifted = false;
        }
        assert(self.buf@ =~= b0 + release_all(old(self).layout@, old(self).state()));
    }

    fn extend_buf_to(&mut self, n: usize)
        requires
            old(self).inv(),
        ensures
            final(self).inv(),
            final(self).remaining() == old(self).remaining(),
            final(self).buf@.len() > n || final(self).buf@ == final(self).remaining(),
    {
        while self.buf.len() <= n
            invariant
                self.inv(),
                self.remaining() == old(self).remaining(),
            decreases self.chars@.len() - self.next_char, 
        {
            if !self.handle_next() {
                proof {
                    assert(self.chars@.skip(self.next_char as int).len() == 0);
                    assert(release_all(self.layout@, (0u8, false)) =~= Seq::<TypingEvent>::empty());
                    assert(self.remaining() =~= self.buf@);
                }
                return;
            }
        }
    }
}

impl<'l> LookaheadIterator<TypingEvent> for Keys<'l> {
    proof fn lemma_remaining_bounded(&self) {
        lemma_keys_bound(self.layout@, self.state(), self.chars@.skip(self.next_char as int));
    }

    closed spec fn remaining(&self) -> Seq<TypingEvent> {
        self.buf@ + keys_from(self.layout@, self.state(), self.chars@.skip(self.next_char as int))
    }

    closed spec fn inv(&self) -> bool {
        &&& self.inv_core()
        &&& self.buf@.len() + 6 * (self.chars@.len() - self.next_char) + held_count(self.state()) < usize::MAX
    }

    fn next(&mut self) -> (r: Option<TypingEvent>) {
        if self.buf.len() == 0 {
            self.handle_next();
        }
        if self.buf.len() == 0 {
            proof {
                assert(self.chars@.skip(self.next_char as int).len() == 0);
                assert(release_all(self.layout@, (0u8, false)) =~= Seq::<TypingEvent>::empty());
                assert(self.remaining() =~= Seq::<TypingEvent>::empty());
            }
            return None;
        }
        let ghost before = self.remaining();
        let ghost b0 = self.buf@;
        let e = self.buf.pop_front();
        proof {
            assert(b0 =~= seq![b0[0]] + self.buf@);
            assert(before =~= seq![b0[0]] + self.remaining());
        }
        e
    }

    fn peek_nth(&mut self, n: usize) -> (r: Option<TypingEvent>) {
        self.extend_buf_to(n);
        if n < self.buf.len() {
            proof {
                assert(self.remaining()[n as int] == self.buf@[n as int]);
            }
            Some(self.buf[n])
        } else {
            None
        }
    }

    fn remove_nth(&mut self, n: usize) -> (r: Option<TypingEvent>) {
        self.extend_buf_to(n);
        if n < self.buf.len() {
            let ghost rem = self.remaining();
            let ghost b0 = self.buf@;
            let r = self.buf.remove(n);
            proof {
                let tail = keys_from(self.layout@, self.state(), self.chars@.skip(self.next_char as int));
                assert(rem =~= b0 + tail);
                assert(self.remaining() =~= rem.remove(n as int));
            }
            r
        } else {
            None
        }
    }
}

/// Starts synthesising the events that type `chars` on `layout`.
pub fn keys<'l>(layout: &'l AnnotatedLayout, chars: Vec<Win1252Char>) -> (r: Keys<'l>)
    requires
        layout.wf(),
        6 * chars@.len() < usize::MAX,
    ensures
        r.inv(),
        r.remaining() == keys_spec(layout@, chars@),
{
    let r = Keys { layout, chars, next_char: 0, cur_layer: 0, cur_shifted: false, buf: VecDeque::new() };
    proof {
        assert(r.chars@.skip(0) =~= r.chars@);
        assert(r.remaining() =~= keys_spec(layout@, chars@));
    }
    r
}

/// A lookahead buffer over the elements of a vector.
pub struct NPeekable<T> {
    inner: Vec<T>,
    next: usize,
    buf: VecDeque<T>,
}

impl<T: Copy> NPeekable<T> {
    fn extend_buf_to(&mut self, n: usize)
        requires
            old(self).inv(),
        ensures
            final(self).inv(),
            final(self).remaining() == old(self).remaining(),
            final(self).buf@.len() > n || final(self).buf@ == final(self).remaining(),
    {
        while self.buf.len() <= n && self.next < self.inner.len()
            invariant
                self.inv(),
                self.remaining() == old(self).remaining(),
            decreases self.inner@.len() - self.next,
        {
            let ghost r0 = self.remaining();
            let x = self.inner[self.next];
            self.buf.push_back(x);
            self.next = self.next + 1;
            assert(self.remaining() =~= r0);
        }
        if self.buf.len() <= n {
            assert(self.inner@.skip(self.next as int).len() == 0);
            assert(self.remaining() =~= self.buf@);
        }
    }
}

impl<T: Copy> LookaheadIterator<T> for NPeekable<T> {
    closed spec fn remaining(&self) -> Seq<T> {
        self.buf@ + self.inner@.skip(self.next as int)
    }

    closed spec fn inv(&self) -> bool {
        &&& self.next <= self.inner@.len()
        &&& self.buf@.len() <= self.next
        &&& self.inner@.len() < usize::MAX
    }

    proof fn lemma_remaining_bounded(&self) {
    }

    fn next(&mut self) -> (r: Option<T>) {
        let ghost r0 = self.remaining();
        if self.buf.len() > 0 {
            let ghost b0 = self.buf@;
            let e = self.buf.pop_front();
            assert(b0 =~= seq![b0[0]] + self.buf@);
            assert(r0 =~= seq![b0[0]] + self.remaining());
            return e;
        }
        if self.next < self.inner.len() {
            let x = self.inner[self.next];
            self.next = self.next + 1;
            assert(r0 =~= seq![x] + self.remaining());
            Some(x)
        } else {
            assert(self.remaining().len() == 0);
            None
        }
    }

    fn peek_nth(&mut self, n: usize) -> (r: Option<T>) {
        self.extend_buf_to(n);
        if n < self.buf.len() {
            assert(self.remaining()[n as int] == self.buf@[n as int]);
            Some(self.buf[n])
        } else {
            None
        }
    }

    fn remove_nth(&mut self, n: usize) -> (r: Option<T>) {
        self.extend_buf_to(n);
        if n < self.buf.len() {
            let ghost rem = self.remaining();
            let r = self.buf.remove(n);
            assert(self.remaining() =~= rem.remove(n as int));
            r
        } else {
            None
        }
    }
}

/// A lookahead buffer over `items`.
pub fn lookahead<T: Copy>(items: Vec<T>) -> (r: NPeekable<T>)
    requires
        items@.len() < usize::MAX,
    ensures
        r.inv(),
        r.remaining() == items@,
{
    let r = NPeekable { inner: items, next: 0, buf: VecDeque::new() };
    assert(r.remaining() =~= items@);
    r
}

/// Everything left in a lookahead sequence, in order.
pub fn collect<T, I: LookaheadIterator<T>>(source: I) -> (r: Vec<T>)
    requires
        source.inv(),
    ensures
        r@ == source.remaining(),
{
    let ghost all = source.remaining();
    let mut it = source;
    let mut out: Vec<T> = Vec::new();
    loop
        invariant
            it.inv(),
            all == source.remaining(),
            all == out@ + it.remaining(),
        decreases it.remaining().len(),
    {
        let ghost r0 = it.remaining();
        match it.next() {
            Some(e) => {
                out.push(e);
                assert(all =~= out@ + it.remaining());
            },
            None => {
                assert(all =~= out@);
                return out;
            },
        }
    }
}

/// What a hold of key `pos` guards, scanning the events after it from index `i`
/// (`used`: whether one tap was already seen).
pub enum HoldUse {
    /// Two or more taps: the hold stays a hold.
    Kept,
    /// Exactly one tap before the release at the index: a one-shot tap.
    OneShot(int),
    /// No tap before the release at the index: the hold does nothing.
    Idle(int),
    /// The hold is never released; `oneshot` admits no such stream.
    Unreleased,
}

pub open spec fn scan_hold(rest: Seq<TypingEvent>, pos: u8, i: int, used: bool) -> HoldUse
    decreases rest.len() - i,
{
    if i < 0 || i >= rest.len() {
        HoldUse::Unreleased
    } else {
        match rest[i] {
            TypingEvent::Tap { .. } | TypingEvent::Unknown => if used {
                HoldUse::Kept
            } else {
                scan_hold(rest, pos, i + 1, true)
            },
            TypingEvent::Release(released) => if released == pos {
                if used {
                    HoldUse::OneShot(i)
                } else {
                    HoldUse::Idle(i)
                }
            } else {
                scan_hold(rest, pos, i + 1, used)
            },
            TypingEvent::Hold(_) => scan_hold(rest, pos, i + 1, used),
        }
    }
}

/// The compressed event stream: a hold guarding one tap becomes a tap of the held key, a hold
/// guarding none disappears with its release, and a hold guarding several taps is kept.
/// `oneshot` only takes streams in which every hold is released (`holds_released`).
pub open spec fn compress(s: Seq<TypingEvent>) -> Seq<TypingEvent>
    decreases s.len(),
{
    if s.len() == 0 {
        Seq::empty()
    } else {
        let rest = s.drop_first();
        match s[0] {
            TypingEvent::Hold(pos) => match scan_hold(rest, pos, 0, false) {
                HoldUse::OneShot(i) => if 0 <= i < rest.len() {
                    seq![TypingEvent::Tap { pos, for_char: false }] + compress(rest.remove(i))
                } else {
                    seq![TypingEvent::Hold(pos)] + compress(rest)
                },
                HoldUse::Idle(i) => if 0 <= i < rest.len() {
                    compress(rest.remove(i))
                } else {
                    seq![TypingEvent::Hold(pos)] + compress(rest)
                },
                _ => seq![TypingEvent::Hold(pos)] + compress(rest),
            },
            e => seq![e] + compress(rest),
        }
    }
}

/// Compression never lengthens the stream.
pub proof fn lemma_compress_len(s: Seq<TypingEvent>)
    ensures
        compress(s).len() <= s.len(),
    decreases s.len(),
{
    if s.len() > 0 {
        let rest = s.drop_first();
        lemma_compress_len(rest);
        match s[0] {
            TypingEvent::Hold(pos) => match scan_hold(rest, pos, 0, false) {
                HoldUse::OneShot(i) => if 0 <= i < rest.len() {
                    lemma_compress_len(rest.remove(i));
                },
                HoldUse::Idle(i) => if 0 <= i < rest.len() {
                    lemma_compress_len(rest.remove(i));
                },
                _ => {},
            },
            _ => {},
        }
    }
}

/// Event synthesis emits at least one event per byte, and compression never emits more events
/// than it consumes.
pub proof fn lemma_pipeline_lengths(v: AnnotatedView, cs: Seq<Win1252Char>, events: Seq<TypingEvent>)
    ensures
        keys_spec(v, cs).len() >= cs.len(),
        compress(events).len() <= events.len(),
{
    lemma_keys_len(v, (0u8, false), cs);
    lemma_compress_len(events);
}

/// The hold at index `i`, if any, is released later, before its key is held again.
pub open spec fn released_after(s: Seq<TypingEvent>, i: int) -> bool {
    s[i] matches TypingEvent::Hold(p) ==> exists|j: int|
        i < j < s.len() && s[j] == TypingEvent::Release(p) && forall|k: int|
            i < k < j ==> s[k] != TypingEvent::Hold(p)
}

/// Every hold of the stream is released: a hold left pressed is a logic error.
pub open spec fn holds_released(s: Seq<TypingEvent>) -> bool {
    forall|i: int| 0 <= i < s.len() ==> #[trigger] released_after(s, i)
}

proof fn lemma_released_drop_first(s: Seq<TypingEvent>)
    requires
        s.len() > 0,
        holds_released(s),
    ensures
        holds_released(s.drop_first()),
{
    let t = s.drop_first();
    assert forall|m: int| 0 <= m < t.len() implies #[trigger] released_after(t, m) by {
        assert(released_after(s, m + 1));
        if let TypingEvent::Hold(p) = t[m] {
            let j = choose|j: int|
                m + 1 < j < s.len() && s[j] == TypingEvent::Release(p) && forall|k: int|
                    m + 1 < k < j ==> s[k] != TypingEvent::Hold(p);
            assert(t[j - 1] == TypingEvent::Release(p));
            assert forall|k: int| m < k < j - 1 implies t[k] != TypingEvent::Hold(p) by {
                assert(t[k] == s[k + 1]);
            }
        }
    }
}

/// Taking out the first release of the key held at the front keeps every other hold released.
proof fn lemma_released_remove(s: Seq<TypingEvent>, pos: u8, i: int)
    requires
        holds_released(s),
        s.len() > 0,
        s[0] == TypingEvent::Hold(pos),
        0 <= i < s.len() - 1,
        s.drop_first()[i] == TypingEvent::Release(pos),
        forall|k: int| 0 <= k < i ==> s.drop_first()[k] != TypingEvent::Release(pos),
    ensures
        holds_released(s.drop_first().remove(i)),
{
    let rest = s.drop_first();
    let t = rest.remove(i);
    assert(released_after(s, 0));
    let j0 = choose|j: int|
        0 < j < s.len() && s[j] == TypingEvent::Release(pos) && forall|k: int|
            0 < k < j ==> s[k] != TypingEvent::Hold(pos);
    if j0 - 1 < i {
        assert(rest[j0 - 1] == TypingEvent::Release(pos));
    }
    assert forall|m: int| 0 <= m < t.len() implies #[trigger] released_after(t, m) by {
        let m1 = if m < i { m } else { m + 1 };
        assert(t[m] == rest[m1]);
        assert(released_after(s, m1 + 1));
        if let TypingEvent::Hold(q) = t[m] {
            let j = choose|j: int|
                m1 + 1 < j < s.len() && s[j] == TypingEvent::Release(q) && forall|k: int|
                    m1 + 1 < k < j ==> s[k] != TypingEvent::Hold(q);
            if j - 1 == i {
                // The removed release belongs to the front hold: no hold of its key lies
                // between them.
                assert(q == pos);
                assert(s[m1 + 1] == TypingEvent::Hold(pos));
                assert(m1 + 1 < j0);
                assert(false);
            }
            let jt = if j - 1 < i { j - 1 } else { j - 2 };
            assert(t[jt] == TypingEvent::Release(q));
            assert forall|k: int| m < k < jt implies t[k] != TypingEvent::Hold(q) by {
                let k1 = if k < i { k } else { k + 1 };
                assert(t[k] == rest[k1]);
                assert(rest[k1] == s[k1 + 1]);
            }
        }
    }
}

/// Whether every hold of `events` is released.
pub fn all_holds_released(events: &[TypingEvent]) -> (r: bool)
    ensures
        r == holds_released(events@),
{
    let n = events.len();
    let mut i: usize = 0;
    while i < n
        invariant
            n == events@.len(),
            0 <= i <= n,
            forall|m: int| 0 <= m < i ==> #[trigger] released_after(events@, m),
        decreases n - i,
    {
        if let TypingEvent::Hold(p) = events[i] {
            let mut j: usize = i + 1;
            loop
                invariant
                    n == events@.len(),
                    0 <= i < n,
                    i + 1 <= j <= n,
                    events@[i as int] == TypingEvent::Hold(p),
                    forall|k: int| i < k < j ==> events@[k] != TypingEvent::Hold(p) && events@[k] != TypingEvent::Release(p),
                ensures
                    i < j < n,
                    events@[j as int] == TypingEvent::Release(p),
                    forall|k: int| i < k < j ==> events@[k] != TypingEvent::Hold(p),
                decreases n - j,
            {
                if j == n {
                    assert(!released_after(events@, i as int));
                    return false;
                }
                if events[j] == TypingEvent::Release(p) {
                    break;
                }
                if events[j] == TypingEvent::Hold(p) {
                    assert(!released_after(events@, i as int));
                    return false;
                }
                j += 1;
            }
            assert(released_after(events@, i as int)) by {
                assert(events@[j as int] == TypingEvent::Release(p));
            }
        }
        i += 1;
    }
    true
}

/// Lazily compresses a lookahead event stream.
pub struct Oneshot<I> {
    events: I,
}

impl<I: LookaheadIterator<TypingEvent>> Oneshot<I> {
    /// What is left to come.
    pub closed spec fn remaining(&self) -> Seq<TypingEvent> {
        compress(self.events.remaining())
    }

    pub closed spec fn inv(&self) -> bool {
        self.events.inv() && holds_released(self.events.remaining())
    }

    /// How many events of the underlying stream are left.
    pub closed spec fn source_len(&self) -> nat {
        self.events.remaining().len()
    }

    pub fn next(&mut self) -> (r: Option<TypingEvent>)
        requires
            old(self).inv(),
        ensures
            final(self).inv(),
            r is Some ==> final(self).source_len() < old(self).source_len(),
            match r {
                Some(e) => old(self).remaining() == seq![e] + final(self).remaining(),
                None => old(self).remaining().len() == 0 && final(self).remaining().len() == 0,
            },
    {
        let ghost target = compress(self.events.remaining());
        loop
            invariant
                self.events.inv(),
                holds_released(self.events.remaining()),
                compress(self.events.remaining()) == target,
                target == old(self).remaining(),
                self.events.remaining().len() <= old(self).events.remaining().len(),
            decreases self.events.remaining().len(),
        {
            let ghost s = self.events.remaining();
            match self.events.next() {
                Some(TypingEvent::Hold(pos)) => {
                    let ghost rest = self.events.remaining();
                    assert(s.drop_first() =~= rest);
                    let mut used = false;
                    let mut i: usize = 0;
                    loop
                        invariant_except_break
                            self.events.remaining() == rest,
                            scan_hold(rest, pos, 0, false) == scan_hold(rest, pos, i as int, used),
                        invariant
                            self.events.inv(),
                            holds_released(s),
                            forall|k: int| 0 <= k < i ==> rest[k] != TypingEvent::Release(pos),
                            target == old(self).remaining(),
                            s.len() > 0,
                            s[0] == TypingEvent::Hold(pos),
                            s.drop_first() == rest,
                            compress(s) == target,
                            s.len() <= old(self).events.remaining().len(),
                            i <= rest.len(),
                        ensures
                            compress(self.events.remaining()) == target,
                            holds_released(self.events.remaining()),
                            self.events.remaining().len() < s.len(),
                        decreases rest.len() - i,
                    {
                        let pk = self.events.peek_nth(i);
                        proof {
                            self.events.lemma_remaining_bounded();
                        }
                        match pk {
                            None => {
                                // Every hold is released, so its release lies ahead.
                                proof {
                                    assert(released_after(s, 0));
                                    let j = choose|j: int|
                                        0 < j < s.len() && s[j] == TypingEvent::Release(pos) && forall|k: int|
                                            0 < k < j ==> s[k] != TypingEvent::Hold(pos);
                                    assert(rest[j - 1] == TypingEvent::Release(pos));
                                }
                                return None;
                            },
                            Some(TypingEvent::Tap { .. }) | Some(TypingEvent::Unknown) => {
                                if used {
                                    // The hold is used for several keys, so stays a hold.
                                    assert(scan_hold(rest, pos, i as int, used) == HoldUse::Kept);
                                    assert(compress(s) == seq![TypingEvent::Hold(pos)] + compress(rest));
                                    proof {
                                        lemma_released_drop_first(s);
                                    }
                                    return Some(TypingEvent::Hold(pos));
                                }
                                used = true;
                            },
                            Some(TypingEvent::Release(released)) => {
                                if released == pos {
                                    proof {
                                        lemma_released_remove(s, pos, i as int);
                                    }
                                    self.events.remove_nth(i);
                                    if used {
                                        // The hold is used for one tap, so becomes a one-shot tap.
                                        assert(scan_hold(rest, pos, i as int, used) == HoldUse::OneShot(i as int));
                                        assert(compress(s) == seq![TypingEvent::Tap { pos, for_char: false }] + compress(rest.remove(i as int)));
                                        return Some(TypingEvent::Tap { pos, for_char: false });
                                    } else {
                                        // The hold does nothing, so goes with its release.
                                        assert(scan_hold(rest, pos, i as int, used) == HoldUse::Idle(i as int));
                                        assert(compress(s) == compress(rest.remove(i as int)));
                                        break;
                                    }
                                }
                            },
                            Some(TypingEvent::Hold(_)) => {},
                        }
                        i = i + 1;
                    }
                },
                e => {
                    proof {
                        if let Some(x) = e {
                            assert(s.drop_first() =~= self.events.remaining());
                            lemma_released_drop_first(s);
                        }
                    }
                    return e;
                },
            }
        }
    }

    /// Everything left, in order.
    pub fn collect(self) -> (r: Vec<TypingEvent>)
        requires
            self.inv(),
        ensures
            r@ == self.remaining(),
    {
        let ghost all = self.remaining();
        let mut it = self;
        let mut out: Vec<TypingEvent> = Vec::new();
        loop
            invariant
                it.inv(),
                all == self.remaining(),
                all == out@ + it.remaining(),
            decreases it.events.remaining().len(),
        {
            let ghost r0 = it.events.remaining();
            match it.next() {
                Some(e) => {
                    out.push(e);
                    assert(all =~= out@ + it.remaining());
                },
                None => {
                    assert(all =~= out@);
                    return out;
                },
            }
        }
    }
}

/// Compresses the holds of a lookahead event stream; a hold that is never released is a logic
/// error, so every hold must be released (`all_holds_released` tests it).
pub fn oneshot<I: LookaheadIterator<TypingEvent>>(events: I) -> (r: Oneshot<I>)
    requires
        events.inv(),
        holds_released(events.remaining()),
    ensures
        r.inv(),
        r.remaining() == compress(events.remaining()),
{
    Oneshot { events }
}

} // verus!
