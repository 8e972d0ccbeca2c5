use vstd::prelude::*;
use crate::layout::Win1252Char;
use crate::annotated::{AnnotatedLayout, AnnotatedView, CharIdxEntry, best};

verus! {

/// Placement penalty of an opening/closing pair such as `(` and `)`.
pub open spec fn spec_ordered_pair_penalty(l: CharIdxEntry, r: CharIdxEntry) -> int {
    if l.layer != r.layer || l.shifted != r.shifted {
        if l.pos != r.pos {
            6
        } else {
            2
        }
    } else {
        let l_row = l.pos / 10;
        let l_col = l.pos % 10;
        let r_row = r.pos / 10;
        let r_col = r.pos % 10;
        if l_row == r_row {
            if (l_row == 3 && l_col < 2 && r_col == 3 - l_col) || (l_col < 5 && r_col == 9 - l_col) || (r_col
                == l_col + 1) {
                0
            } else if l_col < r_col && (r_col < 5 || 5 <= l_col) {
                1
            } else {
                4
            }
        } else if l_col == r_col {
            1
        } else {
            4
        }
    }
}

pub fn ordered_pair_penalty(l: CharIdxEntry, r: CharIdxEntry) -> (p: u64)
    ensures
        p == spec_ordered_pair_penalty(l, r),
{
    if l.layer != r.layer || l.shifted != r.shifted {
        if l.pos != r.pos {
            // Different key and layer.
            6
        } else {
            // Same key, different layer or shiftedness.
            2
        }
    } else {
        let l_row = l.pos / 10;
        let l_col = l.pos % 10;
        let r_row = r.pos / 10;
        let r_col = r.pos % 10;
        if l_row == r_row {
            if (l_row == 3 && l_col < 2 && r_col == 3 - l_col) || (l_col < 5 && r_col == 9 - l_col) || (r_col
                as u16 == l_col as u16 + 1) {
                // Mirrored between sides or next to each other.
                0
            } else if l_col < r_col && (r_col < 5 || 5 <= l_col) {
                // In order on the same side.
                1
            } else {
                4
            }
        } else if l_col == r_col {
            1
        } else {
            4
        }
    }
}

/// Placement penalty of two related characters such as `+` and `-`.
pub open spec fn spec_similar_pair_penalty(a: CharIdxEntry, b: CharIdxEntry) -> int {
    if a.layer != b.layer || a.shifted != b.shifted {
        if a.pos != b.pos {
            4
        } else {
            1
        }
    } else {
        let a_row = a.pos / 10;
        let a_col = a.pos % 10;
        let b_row = b.pos / 10;
        let b_col = b.pos % 10;
        if a_row == b_row {
            if (a_row == 3 && b_col == 3 - a_col) || (b_col == 9 - a_col) || b_col == a_col + 1 || a_col
                == b_col + 1 {
                0
            } else {
                2
            }
        } else if a_col == b_col {
            0
        } else {
            2
        }
    }
}

pub fn similar_pair_penalty(a: CharIdxEntry, b: CharIdxEntry) -> (p: u64)
    ensures
        p == spec_similar_pair_penalty(a, b),
{
    if a.layer != b.layer || a.shifted != b.shifted {
        if a.pos != b.pos {
            4
        } else {
            1
        }
    } else {
        let a_row = a.pos / 10;
        let a_col = a.pos % 10;
        let b_row = b.pos / 10;
        let b_col = b.pos % 10;
        if a_row == b_row {
            if (a_row == 3 && b_col as i16 == 3 - a_col as i16) || (b_col as i16 == 9 - a_col as i16)
                || b_col as u16 == a_col as u16 + 1 || a_col as u16 == b_col as u16 + 1 {
                0
            } else {
                2
            }
        } else if a_col == b_col {
            0
        } else {
            2
        }
    }
}

/// Sum of `pen` over the pairs of `pairs` whose two characters are both typable.
pub open spec fn pairs_penalty(v: AnnotatedView, pairs: Seq<(u8, u8)>, ordered: bool) -> int
    decreases pairs.len(),
{
    if pairs.len() == 0 {
        0
    } else {
        let (a, b) = pairs.last();
        pairs_penalty(v, pairs.drop_last(), ordered) + match (best(v.char_idx[a as int]), best(v.char_idx[b as int])) {
            (Some(x), Some(y)) => if ordered {
                spec_ordered_pair_penalty(x, y)
            } else {
                spec_similar_pair_penalty(x, y)
            },
            _ => 0,
        }
    }
}

/// The (layer, shiftedness) of the preferred way of typing each typable character of `cs`.
pub open spec fn placements(v: AnnotatedView, cs: Seq<u8>) -> Seq<(u8, bool)>
    decreases cs.len(),
{
    if cs.len() == 0 {
        Seq::empty()
    } else {
        let rest = placements(v, cs.drop_last());
        match best(v.char_idx[cs.last() as int]) {
            Some(e) => rest.push((e.layer, e.shifted)),
            None => rest,
        }
    }
}

/// How many of `ls[j]`, for `j` from `j0` on, differ from `ls[k]`.
pub open spec fn diffs(ls: Seq<(u8, bool)>, k: int, j0: int) -> int
    decreases ls.len() - j0,
{
    if j0 >= ls.len() || j0 < 0 {
        0
    } else {
        (if ls[j0] != ls[k] { 1int } else { 0int }) + diffs(ls, k, j0 + 1)
    }
}

/// How many pairs `i < j`, with `i` from `k0` on, have `ls[i] != ls[j]`.
pub open spec fn pair_diffs(ls: Seq<(u8, bool)>, k0: int) -> int
    decreases ls.len() - k0,
{
    if k0 >= ls.len() || k0 < 0 {
        0
    } else {
        diffs(ls, k0, k0 + 1) + pair_diffs(ls, k0 + 1)
    }
}

proof fn lemma_diffs_bound(ls: Seq<(u8, bool)>, k: int, j0: int)
    requires
        0 <= j0,
    ensures
        0 <= diffs(ls, k, j0) <= if j0 <= ls.len() { ls.len() - j0 } else { 0 },
    decreases ls.len() - j0,
{
    if j0 < ls.len() {
        lemma_diffs_bound(ls, k, j0 + 1);
    }
}

/// Spread of a character class over layers: (number of differently placed pairs, number of
/// typable characters).
pub open spec fn spec_layer_variation(v: AnnotatedView, cs: Seq<u8>) -> (int, int) {
    let ls = placements(v, cs);
    (pair_diffs(ls, 0), ls.len() as int)
}

fn placements_of(layout: &AnnotatedLayout, cs: &[u8]) -> (r: Vec<(u8, bool)>)
    requires
        layout.wf(),
    ensures
        r@ == placements(layout@, cs@),
{
    let mut out: Vec<(u8, bool)> = Vec::new();
    let mut i: usize = 0;
    while i < cs.len()
        invariant
            layout.wf(),
            0 <= i <= cs@.len(),
            out@ == placements(layout@, cs@.take(i as int)),
        decreases cs@.len() - i,
    {
        assert(cs@.take(i as int + 1).drop_last() =~= cs@.take(i as int));
        match layout.char_idx().preferred(Win1252Char(cs[i])) {
            Some(e) => out.push((e.layer, e.shifted)),
            None => {},
        }
        i += 1;
    }
    assert(cs@.take(i as int) =~= cs@);
    out
}

/// How widely the characters `cs` are spread over layers and shift states.
pub fn layer_variation(layout: &AnnotatedLayout, cs: &[u8]) -> (r: (u64, u64))
    requires
        layout.wf(),
        cs@.len() <= 256,
    ensures
        r.0 == spec_layer_variation(layout@, cs@).0,
        r.1 == spec_layer_variation(layout@, cs@).1,
{
    let ls = placements_of(layout, cs);
    proof {
        lemma_placements_len(layout@, cs@);
    }
    let mut total: u64 = 0;
    let mut i: usize = 0;
    while i < ls.len()
        invariant
            ls@.len() <= 256,
            0 <= i <= ls@.len(),
            total + pair_diffs(ls@, i as int) == pair_diffs(ls@, 0),
            total <= i * 256,
        decreases ls@.len() - i,
    {
        let mut j: usize = i + 1;
        let mut inner: u64 = 0;
        while j < ls.len()
            invariant
                ls@.len() <= 256,
                0 <= i < ls@.len(),
                i + 1 <= j <= ls@.len(),
                inner + diffs(ls@, i as int, j as int) == diffs(ls@, i as int, i as int + 1),
                inner <= j - i - 1,
            decreases ls@.len() - j,
        {
            if ls[j].0 != ls[i].0 || ls[j].1 != ls[i].1 {
                inner += 1;
            }
            j += 1;
        }
        proof {
            lemma_diffs_bound(ls@, i as int, i as int + 1);
        }
        total += inner;
        i += 1;
    }
    (total, ls.len() as u64)
}

proof fn lemma_placements_len(v: AnnotatedView, cs: Seq<u8>)
    ensures
        placements(v, cs).len() <= cs.len(),
    decreases cs.len(),
{
    if cs.len() > 0 {
        lemma_placements_len(v, cs.drop_last());
    }
}

/// Opening and closing characters that belong side by side.
pub open spec fn ordered_pairs() -> Seq<(u8, u8)> {
    seq![(0x28u8, 0x29u8), (0x7Bu8, 0x7Du8), (0x5Bu8, 0x5Du8), (0x3Cu8, 0x3Eu8)]
}

/// Characters that are related and best placed near each other.
pub open spec fn similar_pairs() -> Seq<(u8, u8)> {
    seq![(0x2Bu8, 0x2Du8), (0x2Au8, 0x2Fu8), (0x2Bu8, 0x2Au8), (0x2Du8, 0x2Fu8), (0x2Fu8, 0x25u8), (0x5Cu8, 0x2Fu8), (0x5Cu8, 0x7Cu8), (0x2Fu8, 0x7Cu8), (0x22u8, 0x27u8), (0x2Au8, 0x26u8), (0x21u8, 0x3Fu8), (0x2Eu8, 0x2Cu8), (0x24u8, 0xA3u8), (0x2Du8, 0x5Fu8), (0x2Du8, 0x7Eu8), (0x27u8, 0x60u8), (0x3Bu8, 0x3Au8)]
}

fn ordered_pairs_vec() -> (r: Vec<(u8, u8)>)
    ensures
        r@ == ordered_pairs(),
{
    let r = vec![(0x28u8, 0x29u8), (0x7Bu8, 0x7Du8), (0x5Bu8, 0x5Du8), (0x3Cu8, 0x3Eu8)];
    assert(r@ =~= ordered_pairs());
    r
}

fn similar_pairs_vec() -> (r: Vec<(u8, u8)>)
    ensures
        r@ == similar_pairs(),
{
    let r = vec![(0x2Bu8, 0x2Du8), (0x2Au8, 0x2Fu8), (0x2Bu8, 0x2Au8), (0x2Du8, 0x2Fu8), (0x2Fu8, 0x25u8), (0x5Cu8, 0x2Fu8), (0x5Cu8, 0x7Cu8), (0x2Fu8, 0x7Cu8), (0x22u8, 0x27u8), (0x2Au8, 0x26u8), (0x21u8, 0x3Fu8), (0x2Eu8, 0x2Cu8), (0x24u8, 0xA3u8), (0x2Du8, 0x5Fu8), (0x2Du8, 0x7Eu8), (0x27u8, 0x60u8), (0x3Bu8, 0x3Au8)];
    assert(r@ =~= similar_pairs());
    r
}

pub open spec fn maths_chars() -> Seq<u8> {
    seq![0x2Bu8, 0x2Du8, 0x2Au8, 0x2Fu8, 0x25u8, 0x3Du8, 0x21u8, 0x40u8, 0x3Cu8, 0x3Eu8, 0x5Eu8, 0x26u8, 0x7Cu8]
}

fn maths_vec() -> (r: Vec<u8>)
    ensures
        r@ == maths_chars(),
{
    let r = vec![0x2Bu8, 0x2Du8, 0x2Au8, 0x2Fu8, 0x25u8, 0x3Du8, 0x21u8, 0x40u8, 0x3Cu8, 0x3Eu8, 0x5Eu8, 0x26u8, 0x7Cu8];
    assert(r@ =~= maths_chars());
    r
}

pub open spec fn brackets_chars() -> Seq<u8> {
    seq![0x28u8, 0x29u8, 0x7Bu8, 0x7Du8, 0x5Bu8, 0x5Du8, 0x3Cu8, 0x3Eu8]
}

fn brackets_vec() -> (r: Vec<u8>)
    ensures
        r@ == brackets_chars(),
{
    let r = vec![0x28u8, 0x29u8, 0x7Bu8, 0x7Du8, 0x5Bu8, 0x5Du8, 0x3Cu8, 0x3Eu8];
    assert(r@ =~= brackets_chars());
    r
}

pub open spec fn quotes_chars() -> Seq<u8> {
    seq![0x27u8, 0x22u8, 0x60u8]
}

fn quotes_vec() -> (r: Vec<u8>)
    ensures
        r@ == quotes_chars(),
{
    let r = vec![0x27u8, 0x22u8, 0x60u8];
    assert(r@ =~= quotes_chars());
    r
}

pub open spec fn punctuation_chars() -> Seq<u8> {
    seq![0x2Cu8, 0x2Eu8, 0x3Bu8, 0x3Au8, 0x21u8, 0x3Fu8, 0x22u8, 0x27u8, 0x2Du8]
}

fn punctuation_vec() -> (r: Vec<u8>)
    ensures
        r@ == punctuation_chars(),
{
    let r = vec![0x2Cu8, 0x2Eu8, 0x3Bu8, 0x3Au8, 0x21u8, 0x3Fu8, 0x22u8, 0x27u8, 0x2Du8];
    assert(r@ =~= punctuation_chars());
    r
}

pub open spec fn lines_chars() -> Seq<u8> {
    seq![0x2Du8, 0x5Fu8, 0x5Cu8, 0x7Cu8, 0x2Fu8, 0x7Eu8]
}

fn lines_vec() -> (r: Vec<u8>)
    ensures
        r@ == lines_chars(),
{
    let r = vec![0x2Du8, 0x5Fu8, 0x5Cu8, 0x7Cu8, 0x2Fu8, 0x7Eu8];
    assert(r@ =~= lines_chars());
    r
}

/// The letters `a` to `z` (or `A` to `Z` from `first`).
pub open spec fn alpha_chars(first: u8) -> Seq<u8> {
    Seq::new(26, |i: int| (first + i) as u8)
}

fn alpha_vec(first: u8) -> (r: Vec<u8>)
    requires
        first <= 0x61,
    ensures
        r@ == alpha_chars(first),
{
    let mut r: Vec<u8> = Vec::new();
    let mut i: u8 = 0;
    while i < 26
        invariant
            first <= 0x61,
            0 <= i <= 26,
            r@ =~= alpha_chars(first).take(i as int),
        decreases 26 - i,
    {
        r.push(first + i);
        i += 1;
    }
    assert(alpha_chars(first).take(26) =~= alpha_chars(first));
    r
}

/// Placement penalties of pairs of characters, summed.
fn pairs_penalty_of(layout: &AnnotatedLayout, pairs: &Vec<(u8, u8)>, ordered: bool) -> (r: u64)
    requires
        layout.wf(),
        pairs@.len() <= 64,
    ensures
        r == pairs_penalty(layout@, pairs@, ordered),
{
    let mut total: u64 = 0;
    let mut i: usize = 0;
    while i < pairs.len()
        invariant
            layout.wf(),
            pairs@.len() <= 64,
            0 <= i <= pairs@.len(),
            total == pairs_penalty(layout@, pairs@.take(i as int), ordered),
            total <= 6 * i,
        decreases pairs@.len() - i,
    {
        let (a, b) = pairs[i];
        assert(pairs@.take(i as int + 1).drop_last() =~= pairs@.take(i as int));
        let x = layout.char_idx().preferred(Win1252Char(a));
        let y = layout.char_idx().preferred(Win1252Char(b));
        match (x, y) {
            (Some(x), Some(y)) => {
                let p = if ordered {
                    ordered_pair_penalty(x, y)
                } else {
                    similar_pair_penalty(x, y)
                };
                total += p;
            },
            _ => {},
        }
        i += 1;
    }
    assert(pairs@.take(i as int) =~= pairs@);
    total
}

/// Whether a modifier at home-layer position `p` sits on a thumb key.
pub open spec fn on_thumb(p: u8) -> bool {
    30 <= p <= 33
}

/// Penalty for a shift key off the thumbs.
pub open spec fn spec_shift_penalty(v: AnnotatedView) -> int {
    match v.shift_idx {
        Some(p) => if on_thumb(p) { 0 } else { 2 },
        None => 0,
    }
}

/// Penalty for the layer keys, from layer `k` on, that are off the thumbs.
pub open spec fn layer_keys_penalty(idx: Seq<u8>, k: int) -> int
    decreases idx.len() - k,
{
    if k >= idx.len() || k < 0 {
        0
    } else {
        (if on_thumb(idx[k]) { 0int } else { 2int }) + layer_keys_penalty(idx, k + 1)
    }
}

/// The static layout-quality terms; the cost model weighs and adds them.
#[derive(Debug, Clone, Copy, PartialEq, Eq)]
pub struct LayoutPenalties {
    pub ordered_pairs: u64,
    pub similar_pairs: u64,
    /// Each spread is (differently placed pairs, typable characters).
    pub lower_alpha: (u64, u64),
    pub upper_alpha: (u64, u64),
    pub maths: (u64, u64),
    pub brackets: (u64, u64),
    pub quotes: (u64, u64),
    pub punctuation: (u64, u64),
    pub lines: (u64, u64),
    pub shift: u64,
    pub layers: u64,
}

/// Whether `p` holds the spread of class `cs` on layout `v`.
pub open spec fn is_variation(p: (u64, u64), v: AnnotatedView, cs: Seq<u8>) -> bool {
    p.0 == spec_layer_variation(v, cs).0 && p.1 == spec_layer_variation(v, cs).1
}

/// The layout-quality terms of a layout: placement of bracket and operator pairs, spread of
/// character classes over layers, and modifiers off the thumbs.
pub fn layout_penalties(layout: &AnnotatedLayout) -> (r: LayoutPenalties)
    requires
        layout.wf(),
    ensures
        r.ordered_pairs == pairs_penalty(layout@, ordered_pairs(), true),
        r.similar_pairs == pairs_penalty(layout@, similar_pairs(), false),
        is_variation(r.lower_alpha, layout@, alpha_chars(0x61)),
        is_variation(r.upper_alpha, layout@, alpha_chars(0x41)),
        is_variation(r.maths, layout@, maths_chars()),
        is_variation(r.brackets, layout@, brackets_chars()),
        is_variation(r.quotes, layout@, quotes_chars()),
        is_variation(r.punctuation, layout@, punctuation_chars()),
        is_variation(r.lines, layout@, lines_chars()),
        r.shift == spec_shift_penalty(layout@),
        r.layers == layer_keys_penalty(layout@.layer_idx, 1),
{
    let shift = match layout.shift_idx() {
        Some(p) => if 30 <= p && p <= 33 { 0 } else { 2 },
        None => 0,
    };
    let idx = layout.layer_idx();
    let mut layers: u64 = 0;
    let mut k: usize = idx.len();
    assert(idx@.len() <= 255);
    while k > 1
        invariant
            idx@ == layout@.layer_idx,
            idx@.len() <= 255,
            1 <= k <= idx@.len() || (k == idx@.len() && k <= 1),
            layers == layer_keys_penalty(idx@, k as int),
            layers <= 2 * (idx@.len() - k),
        decreases k,
    {
        k -= 1;
        if !(30 <= idx[k] && idx[k] <= 33) {
            layers += 2;
        }
    }
    proof {
        if idx@.len() == 0 {
            assert(layer_keys_penalty(idx@, 1) == 0);
        }
    }
    LayoutPenalties {
        ordered_pairs: pairs_penalty_of(layout, &ordered_pairs_vec(), true),
        similar_pairs: pairs_penalty_of(layout, &similar_pairs_vec(), false),
        lower_alpha: layer_variation(layout, alpha_vec(0x61).as_slice()),
        upper_alpha: layer_variation(layout, alpha_vec(0x41).as_slice()),
        maths: layer_variation(layout, maths_vec().as_slice()),
        brackets: layer_variation(layout, brackets_vec().as_slice()),
        quotes: layer_variation(layout, quotes_vec().as_slice()),
        punctuation: layer_variation(layout, punctuation_vec().as_slice()),
        lines: layer_variation(layout, lines_vec().as_slice()),
        shift,
        layers,
    }
}

} // verus!
