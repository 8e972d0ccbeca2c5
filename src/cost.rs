use vstd::prelude::*;
use crate::layout::{Digit, Finger, Hand, NUM_KEYS, digit_for, finger_for_pos};
use crate::events::{TypingEvent, keys, oneshot, compress, keys_spec, lemma_keys_bound, lemma_compress_len, collect, lookahead, all_holds_released, holds_released};
use crate::layout::Win1252Char;
use crate::annotated::AnnotatedLayout;

verus! {

/// The integer base-2 logarithm, rounded down (0 for 0 and 1).
pub open spec fn ilog2(n: nat) -> nat
    decreases n,
{
    if n <= 1 {
        0
    } else {
        1 + ilog2(n / 2)
    }
}

/// `log2(x + 1)` rounded down, so that 0 and 1 are told apart.
pub open spec fn spec_log_norm(x: int) -> int {
    ilog2((x + 1) as nat) as int
}

pub proof fn lemma_ilog2_bound(n: nat)
    ensures
        n < 2 ==> ilog2(n) == 0,
        n < 4 ==> ilog2(n) <= 1,
        n < 8 ==> ilog2(n) <= 2,
        n < 16 ==> ilog2(n) <= 3,
        n < 32 ==> ilog2(n) <= 4,
        n < 64 ==> ilog2(n) <= 5,
        n < 128 ==> ilog2(n) <= 6,
        n < 256 ==> ilog2(n) <= 7,
        n < 512 ==> ilog2(n) <= 8,
    decreases n,
{
    if n > 1 {
        lemma_ilog2_bound(n / 2);
    }
}

pub fn log_norm(x: u8) -> (r: u8)
    ensures
        r == spec_log_norm(x as int),
{
    let mut v: u16 = x as u16 + 1;
    let mut r: u8 = 0;
    proof {
        lemma_ilog2_bound(v as nat);
    }
    while v > 1
        invariant
            1 <= v <= 256,
            r as nat + ilog2(v as nat) == ilog2(x as nat + 1),
            r as nat + ilog2(v as nat) <= 8,
        decreases v,
    {
        proof {
            lemma_ilog2_bound((v / 2) as nat);
        }
        v = v / 2;
        r = r + 1;
    }
    r
}

pub open spec fn spec_vert_penalty(f: Finger) -> int {
    match f {
        Finger::Middle => 2,
        Finger::Index => 3,
        Finger::Ring => 5,
        Finger::Pinky => 7,
        Finger::Thumb => 10,
    }
}

pub fn vert_penalty(f: Finger) -> (r: u8)
    ensures
        r == spec_vert_penalty(f),
{
    match f {
        Finger::Middle => 2,
        Finger::Index => 3,
        Finger::Ring => 5,
        Finger::Pinky => 7,
        Finger::Thumb => 10,
    }
}

pub open spec fn spec_horiz_penalty(f: Finger) -> int {
    match f {
        Finger::Middle => 6,
        Finger::Index => 5,
        Finger::Ring => 8,
        Finger::Pinky => 12,
        Finger::Thumb => 3,
    }
}

fn horiz_penalty(f: Finger) -> (r: u8)
    ensures
        r == spec_horiz_penalty(f),
{
    match f {
        Finger::Middle => 6,
        Finger::Index => 5,
        Finger::Ring => 8,
        Finger::Pinky => 12,
        Finger::Thumb => 3,
    }
}

/// Extra cost of pressing twice in a row with the same finger.
pub open spec fn spec_repeat_strength(f: Finger) -> int {
    match f {
        Finger::Index => 6,
        Finger::Middle => 7,
        Finger::Ring => 12,
        Finger::Pinky => 18,
        Finger::Thumb => 10,
    }
}

fn repeat_strength(f: Finger) -> (r: u8)
    ensures
        r == spec_repeat_strength(f),
{
    match f {
        Finger::Index => 6,
        Finger::Middle => 7,
        Finger::Ring => 12,
        Finger::Pinky => 18,
        Finger::Thumb => 10,
    }
}

/// Cost of pressing a key with one finger while another finger holds a key.
pub open spec fn spec_hold_strength(f: Finger) -> int {
    match f {
        Finger::Index => 6,
        Finger::Middle => 6,
        Finger::Ring => 8,
        Finger::Pinky => 10,
        Finger::Thumb => 6,
    }
}

fn hold_strength(f: Finger) -> (r: u8)
    ensures
        r == spec_hold_strength(f),
{
    match f {
        Finger::Index => 6,
        Finger::Middle => 6,
        Finger::Ring => 8,
        Finger::Pinky => 10,
        Finger::Thumb => 6,
    }
}

/// Awkwardness of moving between a thumb key in column `ct` and a finger key in column `cf`
/// and row `rf` of the same hand; `default` for the comfortable combinations.
pub open spec fn spec_thumb_combo(ct: int, cf: int, rf: int, default: int) -> int {
    let inner = ct == 1 || ct == 2;
    let outer = ct == 0 || ct == 3;
    let stretch = cf == 4 || cf == 5;
    let index = cf == 3 || cf == 6;
    if inner && stretch && (rf == 0 || rf == 1) {
        2
    } else if inner && stretch && rf == 2 {
        3
    } else if inner && index && rf == 2 {
        2
    } else if outer && stretch && (rf == 0 || rf == 1) {
        3
    } else if outer && stretch && rf == 2 {
        5
    } else if outer && index && rf == 2 {
        2
    } else {
        default
    }
}

fn thumb_combo(ct: u8, cf: u8, rf: u8, default: u8) -> (r: u8)
    ensures
        r == spec_thumb_combo(ct as int, cf as int, rf as int, default as int),
{
    let inner = ct == 1 || ct == 2;
    let outer = ct == 0 || ct == 3;
    let stretch = cf == 4 || cf == 5;
    let index = cf == 3 || cf == 6;
    if inner && stretch && (rf == 0 || rf == 1) {
        2
    } else if inner && stretch && rf == 2 {
        3
    } else if inner && index && rf == 2 {
        2
    } else if outer && stretch && (rf == 0 || rf == 1) {
        3
    } else if outer && stretch && rf == 2 {
        5
    } else if outer && index && rf == 2 {
        2
    } else {
        default
    }
}

pub const OUTWARD_PENALTY: u8 = 1;

pub open spec fn abs_diff(a: int, b: int) -> int {
    if a <= b {
        b - a
    } else {
        a - b
    }
}

/// Cost of the finger-to-finger part of a same-hand transition from (c0) to (r1, c1)...
pub open spec fn spec_finger_roll(h0: Hand, c0: int, c1: int, row_dist: int, f1: Finger) -> int {
    let outward = match h0 {
        Hand::Left => c1 < c0,
        Hand::Right => c1 > c0,
    };
    let stretch = c0 == 4 || c0 == 5 || c1 == 4 || c1 == 5;
    (if outward { OUTWARD_PENALTY as int } else { 0 }) + (if stretch { 2int } else { 0 })
        + spec_log_norm(row_dist * spec_vert_penalty(f1))
}

/// Cost of tapping key `j` right after tapping key `i`.
pub open spec fn spec_next_key_cost(i: int, j: int) -> int {
    let r0 = i / 10;
    let c0 = i % 10;
    let r1 = j / 10;
    let c1 = j % 10;
    let row_dist = abs_diff(r0, r1);
    let d0 = digit_for(r0 as u8, c0 as u8);
    let d1 = digit_for(r1 as u8, c1 as u8);
    if d0 == d1 {
        let col_dist = abs_diff(c0, c1);
        let f0 = d0.spec_finger();
        let sq_dist = spec_vert_penalty(f0) * row_dist * row_dist + spec_horiz_penalty(f0) * col_dist * col_dist;
        if sq_dist == 0 {
            spec_repeat_strength(f0)
        } else {
            spec_repeat_strength(f0) + spec_log_norm(sq_dist)
        }
    } else if d0.spec_hand() == d1.spec_hand() {
        if d0.spec_finger() == Finger::Thumb {
            spec_thumb_combo(c0, c1, r1, OUTWARD_PENALTY as int)
        } else if d1.spec_finger() == Finger::Thumb {
            spec_thumb_combo(c1, c0, r0, 0)
        } else {
            spec_finger_roll(d0.spec_hand(), c0, c1, row_dist, d1.spec_finger())
        }
    } else {
        2
    }
}

/// Cost of tapping key `j` while key `i` is held.
pub open spec fn spec_held_key_cost(i: int, j: int) -> int {
    let r0 = i / 10;
    let c0 = i % 10;
    let r1 = j / 10;
    let c1 = j % 10;
    let row_dist = abs_diff(r0, r1);
    let d0 = digit_for(r0 as u8, c0 as u8);
    let d1 = digit_for(r1 as u8, c1 as u8);
    let strength = spec_hold_strength(d0.spec_finger());
    if d0 == d1 {
        255
    } else if d0.spec_hand() == d1.spec_hand() {
        if d0.spec_finger() == Finger::Thumb {
            strength + spec_thumb_combo(c0, c1, r1, OUTWARD_PENALTY as int)
        } else if d1.spec_finger() == Finger::Thumb {
            strength + spec_thumb_combo(c1, c0, r0, 0)
        } else {
            spec_finger_roll(d0.spec_hand(), c0, c1, row_dist, d1.spec_finger()) + strength
        }
    } else {
        strength
    }
}

fn finger_roll(h0: Hand, c0: u8, c1: u8, row_dist: u8, f1: Finger) -> (r: u8)
    requires
        row_dist <= 3,
    ensures
        r == spec_finger_roll(h0, c0 as int, c1 as int, row_dist as int, f1),
        r <= 13,
{
    let outward = match h0 {
        Hand::Left => c1 < c0,
        Hand::Right => c1 > c0,
    };
    let stretch = c0 == 4 || c0 == 5 || c1 == 4 || c1 == 5;
    let vp = vert_penalty(f1);
    assert(row_dist * vp <= 30) by (nonlinear_arith)
        requires
            row_dist <= 3,
            vp <= 10,
    ;
    let dist = log_norm(row_dist * vp);
    proof {
        lemma_ilog2_bound((row_dist * vp + 1) as nat);
    }
    (if outward { OUTWARD_PENALTY } else { 0 }) + (if stretch { 2 } else { 0 }) + dist
}

fn pos_digit(p: u8) -> (r: Digit)
    requires
        p < NUM_KEYS,
    ensures
        r == digit_for(p / 10, p % 10),
{
    finger_for_pos(p / 10, p % 10)
}

pub fn next_key_cost(i: u8, j: u8) -> (r: u8)
    requires
        i < NUM_KEYS,
        j < NUM_KEYS,
    ensures
        r == spec_next_key_cost(i as int, j as int),
{
    let r0 = i / 10;
    let c0 = i % 10;
    let r1 = j / 10;
    let c1 = j % 10;
    let row_dist = if r0 <= r1 { r1 - r0 } else { r0 - r1 };
    let d0 = pos_digit(i);
    let d1 = pos_digit(j);
    if d0 == d1 {
        let col_dist = if c0 <= c1 { c1 - c0 } else { c0 - c1 };
        let f0 = d0.finger();
        // The same finger only spans adjacent columns and the three main rows.
        assert(col_dist <= 1 && row_dist <= 2);
        let vp = vert_penalty(f0);
        let hp = horiz_penalty(f0);
        assert(vp * row_dist <= 20 && hp * col_dist <= 12) by (nonlinear_arith)
            requires
                col_dist <= 1,
                row_dist <= 2,
                vp <= 10,
                hp <= 12,
        ;
        let a = vp * row_dist;
        let b = hp * col_dist;
        assert(a * row_dist <= 40 && b * col_dist <= 12) by (nonlinear_arith)
            requires
                col_dist <= 1,
                row_dist <= 2,
                a <= 20,
                b <= 12,
        ;
        let sq_dist = a * row_dist + b * col_dist;
        if sq_dist == 0 {
            repeat_strength(f0)
        } else {
            proof {
                lemma_ilog2_bound((sq_dist + 1) as nat);
            }
            repeat_strength(f0) + log_norm(sq_dist)
        }
    } else if d0.hand() == d1.hand() {
        if d0.finger() == Finger::Thumb {
            thumb_combo(c0, c1, r1, OUTWARD_PENALTY)
        } else if d1.finger() == Finger::Thumb {
            thumb_combo(c1, c0, r0, 0)
        } else {
            finger_roll(d0.hand(), c0, c1, row_dist, d1.finger())
        }
    } else {
        2
    }
}

pub fn held_key_cost(i: u8, j: u8) -> (r: u8)
    requires
        i < NUM_KEYS,
        j < NUM_KEYS,
    ensures
        r == spec_held_key_cost(i as int, j as int),
{
    let r0 = i / 10;
    let c0 = i % 10;
    let r1 = j / 10;
    let c1 = j % 10;
    let row_dist = if r0 <= r1 { r1 - r0 } else { r0 - r1 };
    let d0 = pos_digit(i);
    let d1 = pos_digit(j);
    let strength = hold_strength(d0.finger());
    if d0 == d1 {
        255
    } else if d0.hand() == d1.hand() {
        if d0.finger() == Finger::Thumb {
            strength + thumb_combo(c0, c1, r1, OUTWARD_PENALTY)
        } else if d1.finger() == Finger::Thumb {
            strength + thumb_combo(c1, c0, r0, 0)
        } else {
            finger_roll(d0.hand(), c0, c1, row_dist, d1.finger()) + strength
        }
    } else {
        strength
    }
}

/// Base cost of tapping each key.
pub open spec fn spec_key_cost(p: u8) -> int {
    match p {
        0 => 30,
        1 => 24,
        2 => 20,
        3 => 22,
        4 => 32,
        5 => 32,
        6 => 22,
        7 => 20,
        8 => 24,
        9 => 30,
        10 => 16,
        11 => 13,
        12 => 11,
        13 => 10,
        14 => 29,
        15 => 29,
        16 => 10,
        17 => 11,
        18 => 13,
        19 => 16,
        20 => 32,
        21 => 26,
        22 => 23,
        23 => 16,
        24 => 30,
        25 => 30,
        26 => 16,
        27 => 23,
        28 => 26,
        29 => 32,
        30 => 16,
        31 => 11,
        32 => 11,
        _ => 16,
    }
}

fn key_cost(p: u8) -> (r: u8)
    ensures
        r == spec_key_cost(p),
        r <= 32,
{
    match p {
        0 => 30,
        1 => 24,
        2 => 20,
        3 => 22,
        4 => 32,
        5 => 32,
        6 => 22,
        7 => 20,
        8 => 24,
        9 => 30,
        10 => 16,
        11 => 13,
        12 => 11,
        13 => 10,
        14 => 29,
        15 => 29,
        16 => 10,
        17 => 11,
        18 => 13,
        19 => 16,
        20 => 32,
        21 => 26,
        22 => 23,
        23 => 16,
        24 => 30,
        25 => 30,
        26 => 16,
        27 => 23,
        28 => 26,
        29 => 32,
        30 => 16,
        31 => 11,
        32 => 11,
        _ => 16,
    }
}

/// Surcharge for tapping `pos` while the keys of `held` are held.
pub open spec fn held_sum(held: Seq<u8>, pos: int) -> int
    decreases held.len(),
{
    if held.len() == 0 {
        0
    } else {
        held_sum(held.drop_last(), pos) + spec_held_key_cost(held.last() as int, pos)
    }
}

/// Running totals of the heuristic model over an event stream.
pub struct Tally {
    pub held: Seq<u8>,
    pub prev: Option<u8>,
    pub total: int,
    pub count: int,
}

/// The first index at which `x` occurs in `s`.
pub open spec fn first_index(s: Seq<u8>, x: u8) -> Option<int> {
    if exists|i: int| 0 <= i < s.len() && s[i] == x {
        Some(choose|i: int| 0 <= i < s.len() && s[i] == x && forall|j: int| 0 <= j < i ==> s[j] != x)
    } else {
        None
    }
}

/// The cost of one tap: its base cost, the surcharge of held keys, and the cost of moving on
/// from the previous tap.
pub open spec fn tap_cost(held: Seq<u8>, prev: Option<u8>, pos: u8) -> int {
    spec_key_cost(pos) + held_sum(held, pos as int) + match prev {
        Some(p) => spec_next_key_cost(p as int, pos as int),
        None => 0,
    }
}

/// One event of the heuristic model; `None` when it taps or holds a missing key or releases a
/// key that is not held.
pub open spec fn tally_step(t: Tally, e: TypingEvent) -> Option<Tally> {
    match e {
        TypingEvent::Tap { pos, for_char } => if pos >= NUM_KEYS {
            None
        } else {
            Some(
                Tally {
                    held: t.held,
                    prev: Some(pos),
                    total: t.total + tap_cost(t.held, t.prev, pos),
                    count: t.count + if for_char { 1int } else { 0int },
                },
            )
        },
        TypingEvent::Hold(pos) => if pos >= NUM_KEYS {
            None
        } else {
            Some(Tally { held: t.held.push(pos), prev: None, total: t.total, count: t.count })
        },
        TypingEvent::Release(pos) => match first_index(t.held, pos) {
            Some(i) => Some(Tally { held: t.held.remove(i), prev: t.prev, total: t.total, count: t.count }),
            None => None,
        },
        TypingEvent::Unknown => Some(Tally { held: t.held, prev: None, total: t.total, count: t.count }),
    }
}

pub open spec fn tally(t: Tally, events: Seq<TypingEvent>) -> Option<Tally>
    decreases events.len(),
{
    if events.len() == 0 {
        Some(t)
    } else {
        match tally_step(t, events[0]) {
            Some(t2) => tally(t2, events.drop_first()),
            None => None,
        }
    }
}

/// Nothing held, no previous tap, nothing counted.
pub open spec fn initial_tally() -> Tally {
    Tally { held: Seq::empty(), prev: None, total: 0, count: 0 }
}

/// The heuristic cost of an event stream and the number of characters it types.
pub open spec fn typing_cost(events: Seq<TypingEvent>) -> Option<(int, int)> {
    match tally(initial_tally(), events) {
        Some(t) => Some((t.total, t.count)),
        None => None,
    }
}

/// The longest event stream whose cost is computed.
pub const MAX_EVENTS: usize = 4_000_000_000;

/// The table-based heuristic cost model.
pub struct Model {
    next_key_cost: Vec<Vec<u8>>,
    held_key_cost: Vec<Vec<u8>>,
}

impl Model {
    pub closed spec fn wf(&self) -> bool {
        &&& self.next_key_cost@.len() == NUM_KEYS
        &&& self.held_key_cost@.len() == NUM_KEYS
        &&& forall|i: int| 0 <= i < NUM_KEYS ==> (#[trigger] self.next_key_cost@[i])@.len() == NUM_KEYS
        &&& forall|i: int| 0 <= i < NUM_KEYS ==> (#[trigger] self.held_key_cost@[i])@.len() == NUM_KEYS
        &&& forall|i: int, j: int| 0 <= i < NUM_KEYS && 0 <= j < NUM_KEYS ==> (#[trigger] self.next_key_cost@[i]@[j]) == spec_next_key_cost(i, j)
        &&& forall|i: int, j: int| 0 <= i < NUM_KEYS && 0 <= j < NUM_KEYS ==> (#[trigger] self.held_key_cost@[i]@[j]) == spec_held_key_cost(i, j)
    }

    /// Builds the transition tables once.
    pub fn new() -> (r: Model)
        ensures
            r.wf(),
    {
        let mut next: Vec<Vec<u8>> = Vec::new();
        let mut held: Vec<Vec<u8>> = Vec::new();
        let mut i: u8 = 0;
        while i < NUM_KEYS
            invariant
                0 <= i <= NUM_KEYS,
                next@.len() == i,
                held@.len() == i,
                forall|a: int| 0 <= a < i ==> (#[trigger] next@[a])@.len() == NUM_KEYS,
                forall|a: int| 0 <= a < i ==> (#[trigger] held@[a])@.len() == NUM_KEYS,
                forall|a: int, b: int| 0 <= a < i && 0 <= b < NUM_KEYS ==> (#[trigger] next@[a]@[b]) == spec_next_key_cost(a, b),
                forall|a: int, b: int| 0 <= a < i && 0 <= b < NUM_KEYS ==> (#[trigger] held@[a]@[b]) == spec_held_key_cost(a, b),
            decreases NUM_KEYS - i,
        {
            let mut nrow: Vec<u8> = Vec::new();
            let mut hrow: Vec<u8> = Vec::new();
            let mut j: u8 = 0;
            while j < NUM_KEYS
                invariant
                    0 <= i < NUM_KEYS,
                    0 <= j <= NUM_KEYS,
                    nrow@.len() == j,
                    hrow@.len() == j,
                    forall|b: int| 0 <= b < j ==> #[trigger] nrow@[b] == spec_next_key_cost(i as int, b),
                    forall|b: int| 0 <= b < j ==> #[trigger] hrow@[b] == spec_held_key_cost(i as int, b),
                decreases NUM_KEYS - j,
            {
                nrow.push(next_key_cost(i, j));
                hrow.push(held_key_cost(i, j));
                j += 1;
            }
            next.push(nrow);
            held.push(hrow);
            i += 1;
        }
        Model { next_key_cost: next, held_key_cost: held }
    }

    /// The cost of typing a valid event stream, and the number of characters it types. A
    /// stream that names a missing key or releases a key that is not held is a logic error.
    pub fn cost_of_typing(&self, events: &[TypingEvent]) -> (r: (u128, u64))
        requires
            self.wf(),
            events@.len() <= MAX_EVENTS,
            typing_cost(events@) is Some,
        ensures
            typing_cost(events@) == Some((r.0 as int, r.1 as int)),
    {
        match self.checked_cost_of_typing(events) {
            Some(r) => r,
            None => {
                assert(false);
                (0, 0)
            },
        }
    }

    /// As `cost_of_typing`, but says `None` for a stream that names a missing key or releases
    /// a key that is not held.
    pub fn checked_cost_of_typing(&self, events: &[TypingEvent]) -> (r: Option<(u128, u64)>)
        requires
            self.wf(),
            events@.len() <= MAX_EVENTS,
        ensures
            r == match typing_cost(events@) {
                Some((t, c)) => Some((t as u128, c as u64)),
                None => None::<(u128, u64)>,
            },
            r matches Some((t, c)) ==> typing_cost(events@) == Some((t as int, c as int)),
    {
        let mut held: Vec<u8> = Vec::new();
        let mut prev: Option<u8> = None;
        let mut total: u128 = 0;
        let mut count: u64 = 0;
        let mut i: usize = 0;
        assert(events@.skip(0) =~= events@);
        assert(held@ =~= Seq::<u8>::empty());
        while i < events.len()
            invariant
                self.wf(),
                events@.len() <= MAX_EVENTS,
                0 <= i <= events@.len(),
                tally(initial_tally(), events@) == tally(
                    Tally { held: held@, prev, total: total as int, count: count as int },
                    events@.skip(i as int),
                ),
                held@.len() <= i,
                count <= i,
                total <= 255 * i * (i + 2),
                forall|k: int| 0 <= k < held@.len() ==> #[trigger] held@[k] < NUM_KEYS,
                prev matches Some(p) ==> p < NUM_KEYS,
            decreases events@.len() - i,
        {
            let ghost t = Tally { held: held@, prev, total: total as int, count: count as int };
            let ghost rest = events@.skip(i as int);
            assert(rest[0] == events@[i as int]);
            assert(rest.drop_first() =~= events@.skip(i as int + 1));
            match events[i] {
                TypingEvent::Tap { pos, for_char } => {
                    if pos >= NUM_KEYS {
                        assert(tally(t, rest) is None);
                        return None;
                    }
                    let (c, _) = self.tap(&held, prev, pos, total, Ghost(i as int));
                    total = c;
                    if for_char {
                        count += 1;
                    }
                    prev = Some(pos);
                },
                TypingEvent::Hold(pos) => {
                    if pos >= NUM_KEYS {
                        assert(tally(t, rest) is None);
                        return None;
                    }
                    held.push(pos);
                    prev = None;
                },
                TypingEvent::Release(pos) => {
                    let mut k: usize = 0;
                    while k < held.len() && held[k] != pos
                        invariant
                            0 <= k <= held@.len(),
                            forall|j: int| 0 <= j < k ==> held@[j] != pos,
                        decreases held@.len() - k,
                    {
                        k += 1;
                    }
                    if k == held.len() {
                        assert(first_index(held@, pos) is None);
                        assert(tally(t, rest) is None);
                        return None;
                    }
                    proof {
                        let c = choose|j: int| 0 <= j < held@.len() && held@[j] == pos && forall|j2: int| 0 <= j2 < j ==> held@[j2] != pos;
                        assert(held@[k as int] == pos);
                        if c < k {
                        } else if c > k {
                        }
                        assert(first_index(held@, pos) == Some(k as int));
                    }
                    held.remove(k);
                },
                TypingEvent::Unknown => {
                    prev = None;
                },
            }
            proof {
                let t2 = Tally { held: held@, prev, total: total as int, count: count as int };
                assert(tally_step(t, events@[i as int]) == Some(t2));
                assert(total <= 255 * (i + 1) * (i + 3)) by (nonlinear_arith)
                    requires
                        total <= t.total + 255 * (2 + i),
                        t.total <= 255 * i * (i + 2),
                ;
            }
            i += 1;
        }
        assert(events@.skip(i as int) =~= Seq::<TypingEvent>::empty());
        Some((total, count))
    }

    /// Adds the cost of tapping `pos` to `total`.
    fn tap(&self, held: &Vec<u8>, prev: Option<u8>, pos: u8, total: u128, i: Ghost<int>) -> (r: (u128, ()))
        requires
            self.wf(),
            pos < NUM_KEYS,
            held@.len() <= i@,
            0 <= i@ < MAX_EVENTS,
            total <= 255 * i@ * (i@ + 2),
            forall|k: int| 0 <= k < held@.len() ==> #[trigger] held@[k] < NUM_KEYS,
            prev matches Some(p) ==> p < NUM_KEYS,
        ensures
            r.0 == total + tap_cost(held@, prev, pos),
            r.0 <= total + 255 * (2 + i@),
    {
        assert(255 * i@ * (i@ + 2) + 255 * (2 + i@) < 0x1_0000_0000_0000_0000_0000_0000_0000_0000) by (nonlinear_arith)
            requires
                0 <= i@ < MAX_EVENTS,
        ;
        let mut t = total + key_cost(pos) as u128;
        let mut k: usize = 0;
        while k < held.len()
            invariant
                self.wf(),
                pos < NUM_KEYS,
                0 <= k <= held@.len(),
                held@.len() <= i@,
                forall|m: int| 0 <= m < held@.len() ==> #[trigger] held@[m] < NUM_KEYS,
                t == total + spec_key_cost(pos) + held_sum(held@.take(k as int), pos as int),
                t <= total + 32 + 255 * k,
                255 * i@ * (i@ + 2) + 255 * (2 + i@) < 0x1_0000_0000_0000_0000_0000_0000_0000_0000,
                total <= 255 * i@ * (i@ + 2),
            decreases held@.len() - k,
        {
            let h = held[k];
            let row = &self.held_key_cost[h as usize];
            assert(row@[pos as int] == spec_held_key_cost(h as int, pos as int));
            proof {
                assert(held@.take(k as int + 1).drop_last() =~= held@.take(k as int));
            }
            t = t + row[pos as usize] as u128;
            k += 1;
        }
        assert(held@.take(k as int) =~= held@);
        if let Some(p) = prev {
            let row = &self.next_key_cost[p as usize];
            assert(row@[pos as int] == spec_next_key_cost(p as int, pos as int));
            t = t + row[pos as usize] as u128;
        }
        (t, ())
    }
}

/// The longest string whose cost is computed.
pub const MAX_STRING: usize = 600_000_000;

impl Model {
    /// The cost of typing `string` on `layout` through event synthesis and compression, and the
    /// number of characters typed; `None` if synthesis leaves a hold unreleased or the
    /// compressed stream is not valid.
    pub fn string_cost(&self, layout: &AnnotatedLayout, string: &[Win1252Char]) -> (r: Option<(u128, u64)>)
        requires
            self.wf(),
            layout.wf(),
            string@.len() <= MAX_STRING,
        ensures
            r == if holds_released(keys_spec(layout@, string@)) {
                match typing_cost(compress(keys_spec(layout@, string@))) {
                    Some((t, c)) => Some((t as u128, c as u64)),
                    None => None::<(u128, u64)>,
                }
            } else {
                None::<(u128, u64)>
            },
    {
        let mut chars: Vec<Win1252Char> = Vec::new();
        let mut i: usize = 0;
        while i < string.len()
            invariant
                0 <= i <= string@.len(),
                chars@ == string@.take(i as int),
            decreases string@.len() - i,
        {
            chars.push(string[i]);
            i += 1;
            assert(chars@ =~= string@.take(i as int));
        }
        assert(string@.take(i as int) =~= string@);
        let synthesised = collect(keys(layout, chars));
        proof {
            lemma_keys_bound(layout@, (0u8, false), string@);
            lemma_compress_len(keys_spec(layout@, string@));
        }
        if !all_holds_released(synthesised.as_slice()) {
            return None;
        }
        let events = oneshot(lookahead(synthesised)).collect();
        self.checked_cost_of_typing(events.as_slice())
    }
}

} // verus!
