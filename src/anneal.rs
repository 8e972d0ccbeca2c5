use vstd::prelude::*;
use rand::rngs::ThreadRng;
use crate::layout::{Key, NUM_KEYS};
use crate::annotated::{
    AnnotatedLayout, AnnotatedView, CharIdxEntry, NUM_LAYOUTS, digit_char, digits_at, placement, slot_types,
    switch_steps, apply_swaps, switch_swaps, lemma_switch_undone, lemma_view_determined,
    swap_allowed, swapped, types_digit, lemma_swap_involution,
};

verus! {

#[verifier::external_type_specification]
#[verifier::external_body]
pub struct ExThreadRng(rand::rngs::ThreadRng);

/// Relies on `rand::Rng::gen_range` over `0..n`: a value below `n`. It panics on an empty
/// range, hence `n > 0`.
#[verifier::external_body]
fn random_below(rng: &mut ThreadRng, n: u8) -> (r: u8)
    requires
        n > 0,
    ensures
        r < n,
{
    rand::Rng::gen_range(rng, 0..n)
}

/// How far the optimiser may move a slot's key.
#[derive(Debug, Clone, Copy, PartialEq, Eq, Structural)]
pub enum PinnedTo {
    /// May only move within its layer.
    Layer,
    /// May only move to the same position of another layer.
    Key,
    /// May not move.
    Position,
}

/// The slot that is always pinned: (layer, position).
pub const PINNED_LAYER: u8 = 0;
pub const PINNED_POS: u8 = 31;

/// Whether byte `c` is an ASCII letter.
pub open spec fn is_alpha(c: u8) -> bool {
    (0x41 <= c <= 0x5A) || (0x61 <= c <= 0x7A)
}

/// The pin class of a slot. Letters are pinned to their exact position, so that each keeps
/// its shifted/unshifted pairing; modifiers are confined to their layer.
pub open spec fn spec_pinned(l: Seq<Seq<Key>>, layer: u8, pos: u8) -> Option<PinnedTo> {
    let k = l[layer as int][pos as int];
    let out = if layer == PINNED_LAYER && pos == PINNED_POS {
        Some(PinnedTo::Position)
    } else if k.is_modifier() {
        Some(PinnedTo::Layer)
    } else {
        match k.spec_typed_char(false) {
            Some(c) => if is_alpha(c.0) {
                Some(PinnedTo::Position)
            } else {
                None
            },
            None => None,
        }
    };
    if l.len() == 1 {
        if out == Some(PinnedTo::Layer) {
            None
        } else if out == Some(PinnedTo::Key) {
            Some(PinnedTo::Position)
        } else {
            out
        }
    } else {
        out
    }
}

pub fn pinned(layout: &AnnotatedLayout, layer: u8, pos: u8) -> (r: Option<PinnedTo>)
    requires
        layout.wf(),
        (layer as int) < layout@.layout.len(),
        pos < NUM_KEYS,
    ensures
        r == spec_pinned(layout@.layout, layer, pos),
{
    let k = layout.key_at(layer, pos);
    let out = if layer == PINNED_LAYER && pos == PINNED_POS {
        Some(PinnedTo::Position)
    } else if k.is_modifier_key() {
        Some(PinnedTo::Layer)
    } else {
        match k.typed_char(false) {
            Some(c) => if (0x41 <= c.0 && c.0 <= 0x5A) || (0x61 <= c.0 && c.0 <= 0x7A) {
                Some(PinnedTo::Position)
            } else {
                None
            },
            None => None,
        }
    };
    if layout.num_layers() == 1 {
        if out == Some(PinnedTo::Layer) {
            return None;
        }
        if out == Some(PinnedTo::Key) {
            return Some(PinnedTo::Position);
        }
    }
    out
}

fn is_digit_key(k: Key) -> (r: bool)
    ensures
        r == types_digit(k),
{
    match k.typed_char(false) {
        Some(c) => 0x30 <= c.0 && c.0 <= 0x39,
        None => false,
    }
}

/// Whether slot (layer, pos) may take part in a swap with a slot of pin class `a_pinned`:
/// a modifier's partner must not be pinned to its key or position, a key-pinned slot's partner
/// must not be pinned to its layer or position, and a free slot's partner must be free; digits
/// never take part.
pub open spec fn partner_ok(v: AnnotatedView, a_pinned: Option<PinnedTo>, layer: u8, pos: u8) -> bool {
    let p = spec_pinned(v.layout, layer, pos);
    !types_digit(v.layout[layer as int][pos as int]) && match a_pinned {
        Some(PinnedTo::Layer) => p != Some(PinnedTo::Key) && p != Some(PinnedTo::Position),
        Some(PinnedTo::Key) => p != Some(PinnedTo::Layer) && p != Some(PinnedTo::Position),
        _ => p is None,
    }
}

pub fn partner_allowed(layout: &AnnotatedLayout, a_pinned: Option<PinnedTo>, layer: u8, pos: u8) -> (r: bool)
    requires
        layout.wf(),
        (layer as int) < layout@.layout.len(),
        pos < NUM_KEYS,
    ensures
        r == partner_ok(layout@, a_pinned, layer, pos),
{
    if is_digit_key(layout.key_at(layer, pos)) {
        return false;
    }
    let p = pinned(layout, layer, pos);
    match a_pinned {
        Some(PinnedTo::Layer) => p != Some(PinnedTo::Key) && p != Some(PinnedTo::Position),
        Some(PinnedTo::Key) => p != Some(PinnedTo::Layer) && p != Some(PinnedTo::Position),
        _ => p.is_none(),
    }
}

/// A reversible change to a layout.
#[derive(Debug, Clone, Copy, PartialEq, Eq, Structural)]
pub enum Mutation {
    SwapKeys { layer_a: u8, layer_b: u8, pos_a: u8, pos_b: u8 },
    SwapNumLayout { layout_a: u8, layout_b: u8 },
}

/// The generator's retry budget ran out: the layout is too constrained.
#[derive(Debug, Clone, Copy, PartialEq, Eq, Structural)]
pub struct TooConstrained;

/// The most attempts at one random pick.
pub const MAX_TRIES: u32 = 1000;

/// Whether `m` respects the placement constraints of layout `v`.
pub open spec fn respects_pins(v: AnnotatedView, m: Mutation) -> bool {
    match m {
        Mutation::SwapKeys { layer_a, layer_b, pos_a, pos_b } => {
            &&& swap_allowed(v.layout, (layer_a, pos_a), (layer_b, pos_b))
            &&& !types_digit(v.layout[layer_a as int][pos_a as int])
            &&& !types_digit(v.layout[layer_b as int][pos_b as int])
            &&& spec_pinned(v.layout, layer_a, pos_a) != Some(PinnedTo::Position)
            &&& spec_pinned(v.layout, layer_b, pos_b) != Some(PinnedTo::Position)
        },
        Mutation::SwapNumLayout { layout_a, layout_b } => {
            &&& layout_a == v.num_layout
            &&& layout_b < NUM_LAYOUTS
            &&& (v.num_layer as int) < v.layout.len()
            &&& digits_at(v.layout, v.num_layer, layout_a as int)
        },
    }
}

/// Whether `m` changes layout `v` at all.
pub open spec fn changes(v: AnnotatedView, m: Mutation) -> bool {
    match m {
        Mutation::SwapKeys { layer_a, layer_b, pos_a, pos_b } => v.layout[layer_a as int][pos_a as int]
            != v.layout[layer_b as int][pos_b as int],
        Mutation::SwapNumLayout { layout_a, layout_b } => layout_a != layout_b,
    }
}

/// Whether `m` respects the placement constraints of layout `v` and actually changes it.
pub open spec fn allowed(v: AnnotatedView, m: Mutation) -> bool {
    respects_pins(v, m) && changes(v, m)
}

/// `y` is what applying `m` to `x` gives.
pub open spec fn applied(x: AnnotatedView, m: Mutation, y: AnnotatedView) -> bool {
    &&& y.num_layer == x.num_layer
    &&& match m {
        Mutation::SwapKeys { layer_a, layer_b, pos_a, pos_b } => {
            &&& y.layout == swapped(x.layout, (layer_a, pos_a), (layer_b, pos_b))
            &&& y.num_layout == x.num_layout
        },
        Mutation::SwapNumLayout { layout_a, layout_b } => {
            &&& y.num_layout == layout_b
            &&& y.layout.len() == x.layout.len()
            &&& digits_at(y.layout, y.num_layer, layout_b as int)
            &&& y.layout[x.num_layer as int] == switch_steps(
                x.layout[x.num_layer as int],
                placement(x.num_layout as int),
                layout_b as int,
                0,
            )
            &&& forall|i: int| 0 <= i < x.layout.len() && i != x.num_layer ==> #[trigger] y.layout[i] == x.layout[i]
        },
    }
}

/// `z` is what undoing `m` on `y` gives.
pub open spec fn undone(y: AnnotatedView, m: Mutation, z: AnnotatedView) -> bool {
    &&& z.num_layer == y.num_layer
    &&& match m {
        Mutation::SwapKeys { layer_a, layer_b, pos_a, pos_b } => {
            &&& z.layout == swapped(y.layout, (layer_a, pos_a), (layer_b, pos_b))
            &&& z.num_layout == y.num_layout
        },
        Mutation::SwapNumLayout { layout_a, layout_b } => {
            &&& z.num_layout == layout_a
            &&& z.layout.len() == y.layout.len()
            &&& z.layout[y.num_layer as int] == apply_swaps(
                y.layout[y.num_layer as int],
                switch_swaps(layout_a as int, y.num_layout as int).reverse(),
            )
            &&& forall|i: int| 0 <= i < y.layout.len() && i != y.num_layer ==> #[trigger] z.layout[i] == y.layout[i]
        },
    }
}

/// Undoing a key swap right after applying it restores the layout and every derived index.
pub proof fn lemma_swap_mutation_inverse(x: AnnotatedView, m: Mutation, y: AnnotatedView, z: AnnotatedView)
    requires
        x.wf(),
        y.wf(),
        z.wf(),
        m is SwapKeys,
        allowed(x, m),
        applied(x, m, y),
        undone(y, m, z),
    ensures
        z == x,
{
    if let Mutation::SwapKeys { layer_a, layer_b, pos_a, pos_b } = m {
        lemma_swap_involution(x, y, z, (layer_a, pos_a), (layer_b, pos_b));
    }
}

/// Undoing a digit-block switch right after applying it restores the layout and every
/// derived index.
pub proof fn lemma_num_mutation_inverse(x: AnnotatedView, m: Mutation, y: AnnotatedView, z: AnnotatedView)
    requires
        x.wf(),
        z.wf(),
        m is SwapNumLayout,
        allowed(x, m),
        applied(x, m, y),
        undone(y, m, z),
    ensures
        z == x,
{
    if let Mutation::SwapNumLayout { layout_a, layout_b } = m {
        let nl = x.num_layer as int;
        assert(x.layout[nl].len() == NUM_KEYS);
        lemma_switch_undone(x.layout[nl], layout_a as int, layout_b as int);
        assert forall|i: int| 0 <= i < x.layout.len() implies #[trigger] z.layout[i] == x.layout[i] by {
            if i != nl {
                assert(y.layout[i] == x.layout[i]);
            }
        }
        assert(z.layout =~= x.layout);
        lemma_view_determined(x, z);
    }
}

/// A digit key somewhere means the digits are placed canonically.
proof fn lemma_digit_present(v: AnnotatedView, layer: u8, pos: u8)
    requires
        v.wf(),
        v.digits_arranged(),
        (layer as int) < v.layout.len(),
        pos < NUM_KEYS,
        types_digit(v.layout[layer as int][pos as int]),
    ensures
        (v.num_layer as int) < v.layout.len(),
        digits_at(v.layout, v.num_layer, v.num_layout as int),
        v.num_layout < NUM_LAYOUTS,
{
    let k = v.layout[layer as int][pos as int];
    let c = k.spec_typed_char(false).unwrap();
    let d = c.0 - 0x30;
    let e = CharIdxEntry { layer, pos, shifted: false };
    assert(v.layout[layer as int].len() == NUM_KEYS);
    assert(slot_types(v.layout, e, digit_char(d as int)));
}

/// The random values drawn for one attempt at one stage of the generator: a layer, a
/// position and a digit placement, each below its bound.
#[derive(Debug, Clone, Copy, PartialEq, Eq, Structural)]
pub struct Draw {
    pub layer: u8,
    pub pos: u8,
    pub row: u8,
}

/// Whether `d` is within the bounds of layout `v`.
pub open spec fn draw_in_range(v: AnnotatedView, d: Draw) -> bool {
    (d.layer as int) < v.layout.len() && d.pos < NUM_KEYS && d.row < NUM_LAYOUTS
}

/// The index of the first `true` from `k` on, or the length when there is none.
pub open spec fn first_accepted(flags: Seq<bool>, k: int) -> int
    decreases flags.len() - k,
{
    if k < 0 || k >= flags.len() {
        flags.len() as int
    } else if flags[k] {
        k
    } else {
        first_accepted(flags, k + 1)
    }
}

/// A first slot is accepted unless it is pinned to its position.
pub open spec fn first_ok(v: AnnotatedView, d: Draw) -> bool {
    spec_pinned(v.layout, d.layer, d.pos) != Some(PinnedTo::Position)
}

/// The partner slot that draw `d` names for first slot `a` of pin class `ap`: the same layer
/// for a layer-pinned slot, the same position for a key-pinned one, anywhere otherwise.
pub open spec fn partner_slot(ap: Option<PinnedTo>, a: Draw, d: Draw) -> (u8, u8) {
    match ap {
        Some(PinnedTo::Layer) => (a.layer, d.pos),
        Some(PinnedTo::Key) => (d.layer, a.pos),
        _ => (d.layer, d.pos),
    }
}

/// A second draw is accepted when, for a digit, it names another placement, and otherwise
/// names a partner that the pin rules allow and that holds a different key.
pub open spec fn second_ok(v: AnnotatedView, a: Draw, d: Draw) -> bool {
    let ka = v.layout[a.layer as int][a.pos as int];
    if types_digit(ka) {
        d.row != v.num_layout
    } else {
        let ap = spec_pinned(v.layout, a.layer, a.pos);
        let b = partner_slot(ap, a, d);
        partner_ok(v, ap, b.0, b.1) && ka != v.layout[b.0 as int][b.1 as int]
    }
}

/// The mutation that the draws give: the first accepted draw of `first` picks the slot to
/// move, the first accepted draw of `second` its partner or new digit placement; `None` when
/// a stage accepts none of its draws.
pub open spec fn mutation_of_draws(v: AnnotatedView, first: Seq<Draw>, second: Seq<Draw>) -> Option<Mutation> {
    let i = first_accepted(first.map_values(|d: Draw| first_ok(v, d)), 0);
    if i >= first.len() {
        None
    } else {
        let a = first[i];
        let j = first_accepted(second.map_values(|d: Draw| second_ok(v, a, d)), 0);
        if j >= second.len() {
            None
        } else {
            let d = second[j];
            if types_digit(v.layout[a.layer as int][a.pos as int]) {
                Some(Mutation::SwapNumLayout { layout_a: v.num_layout, layout_b: d.row })
            } else {
                let b = partner_slot(spec_pinned(v.layout, a.layer, a.pos), a, d);
                Some(Mutation::SwapKeys { layer_a: a.layer, layer_b: b.0, pos_a: a.pos, pos_b: b.1 })
            }
        }
    }
}

fn second_accepts(layout: &AnnotatedLayout, a: Draw, a_pinned: Option<PinnedTo>, d: Draw) -> (r: bool)
    requires
        layout.wf(),
        draw_in_range(layout@, a),
        draw_in_range(layout@, d),
        a_pinned == spec_pinned(layout@.layout, a.layer, a.pos),
    ensures
        r == second_ok(layout@, a, d),
{
    let ka = layout.key_at(a.layer, a.pos);
    if is_digit_key(ka) {
        d.row != layout.num_layout()
    } else {
        let (lb, pb) = match a_pinned {
            Some(PinnedTo::Layer) => (a.layer, d.pos),
            Some(PinnedTo::Key) => (d.layer, a.pos),
            _ => (d.layer, d.pos),
        };
        partner_allowed(layout, a_pinned, lb, pb) && ka != layout.key_at(lb, pb)
    }
}

impl Mutation {
    /// Decides the change that the drawn values give: the first draw of `first` whose slot
    /// may move, then the first draw of `second` that gives, for a digit, another digit
    /// placement, and otherwise a partner slot allowed by the first slot's pin class and
    /// holding a different key. `TooConstrained` exactly when a stage accepts none of its
    /// draws.
    pub fn from_draws(layout: &AnnotatedLayout, first: &[Draw], second: &[Draw]) -> (r: Result<Mutation, TooConstrained>)
        requires
            layout.wf(),
            layout@.digits_arranged(),
            forall|k: int| 0 <= k < first@.len() ==> draw_in_range(layout@, #[trigger] first@[k]),
            forall|k: int| 0 <= k < second@.len() ==> draw_in_range(layout@, #[trigger] second@[k]),
        ensures
            r == match mutation_of_draws(layout@, first@, second@) {
                Some(m) => Ok::<Mutation, TooConstrained>(m),
                None => Err(TooConstrained),
            },
            r matches Ok(m) ==> allowed(layout@, m),
    {
        let ghost v = layout@;
        let ghost f1 = first@.map_values(|d: Draw| first_ok(v, d));
        let mut i: usize = 0;
        while i < first.len() && pinned(layout, first[i].layer, first[i].pos) == Some(PinnedTo::Position)
            invariant
                layout.wf(),
                v == layout@,
                f1 == first@.map_values(|d: Draw| first_ok(v, d)),
                forall|k: int| 0 <= k < first@.len() ==> draw_in_range(v, #[trigger] first@[k]),
                0 <= i <= first@.len(),
                first_accepted(f1, 0) == first_accepted(f1, i as int),
            decreases first@.len() - i,
        {
            assert(!f1[i as int]);
            i += 1;
        }
        if i == first.len() {
            return Err(TooConstrained);
        }
        assert(f1[i as int]);
        let a = first[i];
        let a_pinned = pinned(layout, a.layer, a.pos);
        let ghost f2 = second@.map_values(|d: Draw| second_ok(v, a, d));
        let mut j: usize = 0;
        while j < second.len() && !second_accepts(layout, a, a_pinned, second[j])
            invariant
                layout.wf(),
                v == layout@,
                draw_in_range(v, a),
                a_pinned == spec_pinned(v.layout, a.layer, a.pos),
                f2 == second@.map_values(|d: Draw| second_ok(v, a, d)),
                forall|k: int| 0 <= k < second@.len() ==> draw_in_range(v, #[trigger] second@[k]),
                0 <= j <= second@.len(),
                first_accepted(f2, 0) == first_accepted(f2, j as int),
            decreases second@.len() - j,
        {
            assert(!f2[j as int]);
            j += 1;
        }
        if j == second.len() {
            return Err(TooConstrained);
        }
        assert(f2[j as int]);
        let d = second[j];
        let ka = layout.key_at(a.layer, a.pos);
        proof {
            assert(v.layout[a.layer as int].len() == NUM_KEYS);
            if a.layer != 0 {
                assert(!v.layout[a.layer as int][a.pos as int].is_modifier());
            }
        }
        if is_digit_key(ka) {
            proof {
                lemma_digit_present(v, a.layer, a.pos);
            }
            return Ok(Mutation::SwapNumLayout { layout_a: layout.num_layout(), layout_b: d.row });
        }
        let (lb, pb) = match a_pinned {
            Some(PinnedTo::Layer) => (a.layer, d.pos),
            Some(PinnedTo::Key) => (d.layer, a.pos),
            _ => (d.layer, d.pos),
        };
        proof {
            let kb = v.layout[lb as int][pb as int];
            assert(v.layout[lb as int].len() == NUM_KEYS);
            if lb != 0 {
                assert(!kb.is_modifier());
            }
            if v.layout.len() > 1 {
                if ka.is_modifier() {
                    assert(spec_pinned(v.layout, a.layer, a.pos) is Some);
                }
                if kb.is_modifier() {
                    assert(spec_pinned(v.layout, lb, pb) is Some);
                }
            }
        }
        Ok(Mutation::SwapKeys { layer_a: a.layer, layer_b: lb, pos_a: a.pos, pos_b: pb })
    }

    /// Draws the values for `MAX_TRIES` attempts at each stage, then decides as `from_draws`.
    pub fn gen(rng: &mut ThreadRng, layout: &AnnotatedLayout) -> (r: Result<Mutation, TooConstrained>)
        requires
            layout.wf(),
            layout@.digits_arranged(),
        ensures
            r matches Ok(m) ==> allowed(layout@, m),
    {
        let first = draw_attempts(rng, layout);
        let second = draw_attempts(rng, layout);
        Mutation::from_draws(layout, first.as_slice(), second.as_slice())
    }
}

/// Draws the values for `MAX_TRIES` attempts, each within the layout's bounds.
fn draw_attempts(rng: &mut ThreadRng, layout: &AnnotatedLayout) -> (r: Vec<Draw>)
    requires
        layout.wf(),
    ensures
        r@.len() == MAX_TRIES,
        forall|k: int| 0 <= k < r@.len() ==> draw_in_range(layout@, #[trigger] r@[k]),
{
    let n = layout.num_layers();
    let mut out: Vec<Draw> = Vec::new();
    while out.len() < MAX_TRIES as usize
        invariant
            layout.wf(),
            n == layout@.layout.len(),
            out@.len() <= MAX_TRIES,
            forall|k: int| 0 <= k < out@.len() ==> draw_in_range(layout@, #[trigger] out@[k]),
        decreases MAX_TRIES - out@.len(),
    {
        let layer = random_below(rng, n);
        let pos = random_below(rng, NUM_KEYS);
        let row = random_below(rng, NUM_LAYOUTS);
        out.push(Draw { layer, pos, row });
    }
    out
}

impl Mutation {
    pub fn apply(self, layout: &mut AnnotatedLayout)
        requires
            old(layout).wf(),
            respects_pins(old(layout)@, self),
        ensures
            final(layout).wf(),
            applied(old(layout)@, self, final(layout)@),
    {
        match self {
            Mutation::SwapKeys { layer_a, pos_a, layer_b, pos_b } => {
                layout.swap((layer_a, pos_a), (layer_b, pos_b));
            },
            Mutation::SwapNumLayout { layout_a, layout_b } => {
                layout.switch_to_num_layout(layout_b);
            },
        }
    }

    pub fn undo(self, layout: &mut AnnotatedLayout)
        requires
            old(layout).wf(),
            self matches Mutation::SwapKeys { layer_a, layer_b, pos_a, pos_b } ==> swap_allowed(
                old(layout)@.layout,
                (layer_a, pos_a),
                (layer_b, pos_b),
            ),
            self matches Mutation::SwapNumLayout { layout_a, layout_b } ==> layout_a < NUM_LAYOUTS
                && old(layout)@.num_layout < NUM_LAYOUTS && (old(layout)@.num_layer as int)
                < old(layout)@.layout.len(),
        ensures
            final(layout).wf(),
            undone(old(layout)@, self, final(layout)@),
    {
        match self {
            Mutation::SwapKeys { layer_a, pos_a, layer_b, pos_b } => {
                layout.swap((layer_a, pos_a), (layer_b, pos_b));
            },
            Mutation::SwapNumLayout { layout_a, layout_b } => {
                layout.unswitch_num_layout(layout_a);
            },
        }
    }
}

/// How a candidate's energy compared with the current one; for a worse candidate, whether the
/// Metropolis draw accepted it anyway.
#[derive(Debug, Clone, Copy, PartialEq, Eq, Structural)]
pub enum Outcome {
    Better,
    Equal,
    Worse { accepted: bool },
}

/// What to do with the mutation just applied.
#[derive(Debug, Clone, Copy, PartialEq, Eq, Structural)]
pub enum Step {
    /// Keep it and go on.
    Keep,
    /// Undo it and go on.
    Undo,
    /// Undo it and stop: the run has stalled.
    UndoAndStop,
    /// Keep it and stop: the run has stalled.
    KeepAndStop,
}

/// Whether the candidate is kept: better or equal energy always, worse only when the draw
/// accepted it.
pub open spec fn keeps(o: Outcome) -> bool {
    match o {
        Outcome::Worse { accepted } => accepted,
        _ => true,
    }
}

/// The decision of a fixed-length run.
pub fn fixed_step(o: Outcome) -> (r: Step)
    ensures
        r == if keeps(o) {
            Step::Keep
        } else {
            Step::Undo
        },
{
    match o {
        Outcome::Worse { accepted: false } => Step::Undo,
        _ => Step::Keep,
    }
}

/// The state of a run that stops once `max_unchanged` steps in a row fail to improve
/// (equal, or worse and rejected).
#[derive(Debug, Clone, Copy, PartialEq, Eq, Structural)]
pub struct StableRun {
    pub unchanged: u32,
    pub max_unchanged: u32,
}

impl StableRun {
    pub fn new(max_unchanged: u32) -> (r: StableRun)
        ensures
            r.unchanged == 0,
            r.max_unchanged == max_unchanged,
    {
        StableRun { unchanged: 0, max_unchanged }
    }

    /// Records one comparison and decides what to do with the mutation.
    pub fn step(&mut self, o: Outcome) -> (r: Step)
        ensures
            final(self).max_unchanged == old(self).max_unchanged,
            r == match o {
                Outcome::Worse { accepted: false } => if old(self).unchanged as int + 1 >= old(self).max_unchanged {
                    Step::UndoAndStop
                } else {
                    Step::Undo
                },
                Outcome::Equal => if old(self).unchanged as int + 1 >= old(self).max_unchanged {
                    Step::KeepAndStop
                } else {
                    Step::Keep
                },
                _ => Step::Keep,
            },
            final(self).unchanged == match o {
                Outcome::Better => 0,
                Outcome::Worse { accepted: true } => 0,
                _ => if old(self).unchanged == u32::MAX {
                    u32::MAX
                } else {
                    (old(self).unchanged + 1) as u32
                },
            },
    {
        match o {
            Outcome::Better => {
                self.unchanged = 0;
                Step::Keep
            },
            Outcome::Equal => {
                let stop = self.unchanged as u64 + 1 >= self.max_unchanged as u64;
                self.unchanged = self.unchanged.saturating_add(1);
                if stop {
                    Step::KeepAndStop
                } else {
                    Step::Keep
                }
            },
            Outcome::Worse { accepted: true } => {
                self.unchanged = 0;
                Step::Keep
            },
            Outcome::Worse { accepted: false } => {
                let stop = self.unchanged as u64 + 1 >= self.max_unchanged as u64;
                self.unchanged = self.unchanged.saturating_add(1);
                if stop {
                    Step::UndoAndStop
                } else {
                    Step::Undo
                }
            },
        }
    }
}

/// The energy after a run from `e0` over candidates `cands` with comparison outcomes `outs`:
/// a kept candidate becomes the current energy.
pub open spec fn run_energy(e0: int, cands: Seq<int>, outs: Seq<Outcome>) -> int
    decreases cands.len(),
{
    if cands.len() == 0 || outs.len() == 0 {
        e0
    } else {
        let e1 = if keeps(outs[0]) { cands[0] } else { e0 };
        run_energy(e1, cands.drop_first(), outs.drop_first())
    }
}

/// Whether each comparison of the run saw a candidate no worse than the current energy.
pub open spec fn all_improving(e0: int, cands: Seq<int>, outs: Seq<Outcome>) -> bool
    decreases cands.len(),
{
    if cands.len() == 0 || outs.len() == 0 {
        true
    } else {
        let e1 = if keeps(outs[0]) { cands[0] } else { e0 };
        cands[0] <= e0 && all_improving(e1, cands.drop_first(), outs.drop_first())
    }
}

/// A run in which every comparison is improving ends with an energy no higher than it
/// started with, so its reported improvement is not negative.
pub proof fn lemma_improving_run(e0: int, cands: Seq<int>, outs: Seq<Outcome>)
    requires
        all_improving(e0, cands, outs),
    ensures
        run_energy(e0, cands, outs) <= e0,
    decreases cands.len(),
{
    if cands.len() > 0 && outs.len() > 0 {
        let e1 = if keeps(outs[0]) { cands[0] } else { e0 };
        lemma_improving_run(e1, cands.drop_first(), outs.drop_first());
    }
}

} // verus!
