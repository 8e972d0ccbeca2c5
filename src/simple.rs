use vstd::prelude::*;
use crate::layout::{Digit, NUM_KEYS, digit_for, finger_for_pos};
use crate::events::TypingEvent;
use crate::cost::{log_norm, spec_log_norm, abs_diff, held_sum, first_index, held_key_cost, spec_held_key_cost, MAX_EVENTS};

verus! {

/// Index of each digit in the recency table.
pub open spec fn digit_index(d: Digit) -> int {
    match d {
        Digit::LeftPinky => 0,
        Digit::LeftRing => 1,
        Digit::LeftMiddle => 2,
        Digit::LeftIndex => 3,
        Digit::LeftThumb => 4,
        Digit::RightPinky => 5,
        Digit::RightRing => 6,
        Digit::RightMiddle => 7,
        Digit::RightIndex => 8,
        Digit::RightThumb => 9,
    }
}

fn digit_slot(d: Digit) -> (r: usize)
    ensures
        r == digit_index(d),
        r < 10,
{
    match d {
        Digit::LeftPinky => 0,
        Digit::LeftRing => 1,
        Digit::LeftMiddle => 2,
        Digit::LeftIndex => 3,
        Digit::LeftThumb => 4,
        Digit::RightPinky => 5,
        Digit::RightRing => 6,
        Digit::RightMiddle => 7,
        Digit::RightIndex => 8,
        Digit::RightThumb => 9,
    }
}

/// Where each digit rests before it is first used: (row, column), in digit-index order.
pub open spec fn resting(i: int) -> (u8, u8) {
    if i == 0 {
        (1, 0)
    } else if i == 1 {
        (1, 1)
    } else if i == 2 {
        (1, 2)
    } else if i == 3 {
        (1, 3)
    } else if i == 4 {
        (3, 1)
    } else if i == 5 {
        (1, 9)
    } else if i == 6 {
        (1, 8)
    } else if i == 7 {
        (1, 7)
    } else if i == 8 {
        (1, 6)
    } else {
        (3, 2)
    }
}

/// What the recency model remembers of one digit: when it last pressed, and where.
#[derive(Debug, Clone, Copy, PartialEq, Eq, Structural)]
pub struct LastUsed {
    pub at: Option<u64>,
    pub row: u8,
    pub col: u8,
}

/// Running totals of the recency model.
pub struct SimpleTally {
    pub last: Seq<LastUsed>,
    pub held: Seq<u8>,
    pub total: int,
    pub count: int,
}

/// The cost of tapping (r, c) at time `i` with the digit whose memory is `lu`: the
/// log-normed weighted squared distance, divided by the time since that digit last pressed.
pub open spec fn recency_cost(lu: LastUsed, r: u8, c: u8, i: int) -> int {
    let dr = abs_diff(lu.row as int, r as int);
    let dc = abs_diff(lu.col as int, c as int);
    let w = dr * dr + (2 * dc) * (2 * dc);
    match lu.at {
        Some(at) => 10 * (1 + spec_log_norm(w)) / (i - at),
        None => 1 + spec_log_norm(w),
    }
}

/// One event at time `i`. A tap also pays, for each held key, the heuristic model's cost of
/// tapping while that key is held. `None` when an event names a missing key or releases a key
/// that is not held.
pub open spec fn simple_step(t: SimpleTally, i: int, e: TypingEvent) -> Option<SimpleTally> {
    match e {
        TypingEvent::Tap { pos, for_char } => if pos >= NUM_KEYS {
            None
        } else {
            let r = pos / 10;
            let c = pos % 10;
            let d = digit_index(digit_for(r, c));
            Some(
                SimpleTally {
                    last: t.last.update(d, LastUsed { at: Some(i as u64), row: r, col: c }),
                    held: t.held,
                    total: t.total + recency_cost(t.last[d], r, c, i) + held_sum(t.held, pos as int),
                    count: t.count + if for_char { 1int } else { 0int },
                },
            )
        },
        TypingEvent::Hold(pos) => if pos >= NUM_KEYS {
            None
        } else {
            Some(SimpleTally { last: t.last, held: t.held.push(pos), total: t.total, count: t.count })
        },
        TypingEvent::Release(pos) => match first_index(t.held, pos) {
            Some(k) => Some(SimpleTally { last: t.last, held: t.held.remove(k), total: t.total, count: t.count }),
            None => None,
        },
        TypingEvent::Unknown => Some(t),
    }
}

/// The tally after `events`, the first of which happens at time `i`.
pub open spec fn simple_fold(t: SimpleTally, i: int, events: Seq<TypingEvent>) -> Option<SimpleTally>
    decreases events.len(),
{
    if events.len() == 0 {
        Some(t)
    } else {
        match simple_step(t, i, events[0]) {
            Some(t2) => simple_fold(t2, i + 1, events.drop_first()),
            None => None,
        }
    }
}

pub open spec fn simple_start() -> SimpleTally {
    SimpleTally {
        last: Seq::new(10, |d: int| LastUsed { at: None, row: resting(d).0, col: resting(d).1 }),
        held: Seq::empty(),
        total: 0,
        count: 0,
    }
}

/// The recency model's cost of an event stream, and the number of characters it types.
pub open spec fn simple_cost(events: Seq<TypingEvent>) -> Option<(int, int)> {
    match simple_fold(simple_start(), 1, events) {
        Some(t) => Some((t.total, t.count)),
        None => None,
    }
}

/// Sum of the surcharges for tapping `pos` while the keys of `held` are held.
fn held_surcharge(held: &Vec<u8>, pos: u8, i: Ghost<int>) -> (r: u128)
    requires
        pos < NUM_KEYS,
        held@.len() <= i@,
        0 <= i@ < MAX_EVENTS,
        forall|k: int| 0 <= k < held@.len() ==> #[trigger] held@[k] < NUM_KEYS,
    ensures
        r == held_sum(held@, pos as int),
        r <= 255 * held@.len(),
{
    let mut t: u128 = 0;
    let mut k: usize = 0;
    while k < held.len()
        invariant
            pos < NUM_KEYS,
            0 <= k <= held@.len(),
            held@.len() <= i@,
            0 <= i@ < MAX_EVENTS,
            forall|m: int| 0 <= m < held@.len() ==> #[trigger] held@[m] < NUM_KEYS,
            t == held_sum(held@.take(k as int), pos as int),
            t <= 255 * k,
        decreases held@.len() - k,
    {
        proof {
            assert(held@.take(k as int + 1).drop_last() =~= held@.take(k as int));
        }
        t = t + held_key_cost(held[k], pos) as u128;
        k += 1;
    }
    assert(held@.take(k as int) =~= held@);
    t
}

/// The recency-weighted same-finger distance model; it has no layout-quality term.
pub struct Model;

impl Model {
    /// The cost of typing a valid event stream, and the number of characters it types. A
    /// stream that names a missing key or releases a key that is not held is a logic error.
    pub fn cost_of_typing(&self, events: &[TypingEvent]) -> (r: (u128, u64))
        requires
            events@.len() <= MAX_EVENTS,
            simple_cost(events@) is Some,
        ensures
            simple_cost(events@) == Some((r.0 as int, r.1 as int)),
    {
        match self.checked_cost_of_typing(events) {
            Some(r) => r,
            None => {
                assert(false);
                (0, 0)
            },
        }
    }

    /// As `cost_of_typing`, but says `None` for a stream that names a missing key or releases
    /// a key that is not held.
    pub fn checked_cost_of_typing(&self, events: &[TypingEvent]) -> (r: Option<(u128, u64)>)
        requires
            events@.len() <= MAX_EVENTS,
        ensures
            r == match simple_cost(events@) {
                Some((t, c)) => Some((t as u128, c as u64)),
                None => None::<(u128, u64)>,
            },
            r matches Some((t, c)) ==> simple_cost(events@) == Some((t as int, c as int)),
    {
        let mut last: Vec<LastUsed> = Vec::new();
        let mut d: usize = 0;
        while d < 10
            invariant
                0 <= d <= 10,
                last@.len() == d,
                forall|k: int| 0 <= k < d ==> #[trigger] last@[k] == simple_start().last[k],
            decreases 10 - d,
        {
            let (row, col) = if d == 0 {
                (1, 0)
            } else if d == 1 {
                (1, 1)
            } else if d == 2 {
                (1, 2)
            } else if d == 3 {
                (1, 3)
            } else if d == 4 {
                (3, 1)
            } else if d == 5 {
                (1, 9)
            } else if d == 6 {
                (1, 8)
            } else if d == 7 {
                (1, 7)
            } else if d == 8 {
                (1, 6)
            } else {
                (3, 2)
            };
            last.push(LastUsed { at: None, row, col });
            d += 1;
        }
        assert(last@ =~= simple_start().last);
        let mut total: u128 = 0;
        let mut count: u64 = 0;
        let mut held: Vec<u8> = Vec::new();
        let mut i: usize = 0;
        assert(events@.skip(0) =~= events@);
        assert(held@ =~= Seq::<u8>::empty());
        while i < events.len()
            invariant
                events@.len() <= MAX_EVENTS,
                0 <= i <= events@.len(),
                last@.len() == 10,
                held@.len() <= i,
                forall|k: int| 0 <= k < held@.len() ==> #[trigger] held@[k] < NUM_KEYS,
                simple_fold(simple_start(), 1, events@) == simple_fold(
                    SimpleTally { last: last@, held: held@, total: total as int, count: count as int },
                    i + 1,
                    events@.skip(i as int),
                ),
                forall|k: int| 0 <= k < 10 ==> digit_index(digit_for((#[trigger] last@[k]).row, last@[k].col)) == k
                    && (last@[k].row < 3 && last@[k].col < 10 || last@[k].row == 3 && last@[k].col < 4),
                forall|k: int| 0 <= k < 10 ==> ((#[trigger] last@[k]).at matches Some(at) ==> at <= i),
                total <= 255 * i * (i + 2),
                count <= i,
            decreases events@.len() - i,
        {
            let ghost t = SimpleTally { last: last@, held: held@, total: total as int, count: count as int };
            let ghost rest = events@.skip(i as int);
            assert(rest[0] == events@[i as int]);
            assert(rest.drop_first() =~= events@.skip(i as int + 1));
            let now = i as u64 + 1;
            match events[i] {
                TypingEvent::Tap { pos, for_char } => {
                    if pos >= NUM_KEYS {
                        assert(simple_fold(t, i + 1, rest) is None);
                        return None;
                    }
                    let r = pos / 10;
                    let c = pos % 10;
                    let slot = digit_slot(finger_for_pos(r, c));
                    let lu = last[slot];
                    let dr = if lu.row <= r { r - lu.row } else { lu.row - r };
                    let dc = if lu.col <= c { c - lu.col } else { lu.col - c };
                    // A digit only reaches neighbouring columns and rows of its own keys.
                    assert(dr <= 2 && dc <= 1);
                    assert(dr * dr <= 4 && (2 * dc) * (2 * dc) <= 4) by (nonlinear_arith)
                        requires
                            dr <= 2,
                            dc <= 1,
                    ;
                    let w = dr * dr + (2 * dc) * (2 * dc);
                    let ln = log_norm(w) as u64;
                    proof {
                        crate::cost::lemma_ilog2_bound((w + 1) as nat);
                    }
                    let x = match lu.at {
                        Some(at) => 10 * (1 + ln) / (now - at),
                        None => 1 + ln,
                    };
                    let surcharge = held_surcharge(&held, pos, Ghost(i as int));
                    assert(255 * i * (i + 2) + 255 * (2 + i) < 0x1_0000_0000_0000_0000_0000_0000_0000_0000) by (nonlinear_arith)
                        requires
                            0 <= i < MAX_EVENTS,
                    ;
                    assert(x <= 40);
                    total = total + x as u128 + surcharge;
                    if for_char {
                        count += 1;
                    }
                    last.set(slot, LastUsed { at: Some(now), row: r, col: c });
                },
                TypingEvent::Hold(pos) => {
                    if pos >= NUM_KEYS {
                        assert(simple_fold(t, i + 1, rest) is None);
                        return None;
                    }
                    held.push(pos);
                },
                TypingEvent::Release(pos) => {
                    let mut k: usize = 0;
                    while k < held.len() && held[k] != pos
                        invariant
                            0 <= k <= held@.len(),
                            forall|j: int| 0 <= j < k ==> held@[j] != pos,
                        decreases held@.len() - k,
                    {
                        k += 1;
                    }
                    if k == held.len() {
                        assert(first_index(held@, pos) is None);
                        assert(simple_fold(t, i + 1, rest) is None);
                        return None;
                    }
                    proof {
                        let c = choose|j: int| 0 <= j < held@.len() && held@[j] == pos && forall|j2: int| 0 <= j2 < j ==> held@[j2] != pos;
                        assert(held@[k as int] == pos);
                        if c < k {
                        } else if c > k {
                        }
                        assert(first_index(held@, pos) == Some(k as int));
                    }
                    held.remove(k);
                },
                TypingEvent::Unknown => {},
            }
            proof {
                let t2 = SimpleTally { last: last@, held: held@, total: total as int, count: count as int };
                assert(simple_step(t, i + 1, events@[i as int]) == Some(t2));
                assert(total <= 255 * (i + 1) * (i + 3)) by (nonlinear_arith)
                    requires
                        total <= t.total + 255 * (2 + i),
                        t.total <= 255 * i * (i + 2),
                ;
            }
            i += 1;
        }
        assert(events@.skip(i as int) =~= Seq::<TypingEvent>::empty());
        Some((total, count))
    }
}

} // verus!
