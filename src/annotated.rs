use vstd::prelude::*;
use crate::layout::{Key, Layout, Layer, Win1252Char, NUM_KEYS, layers_wf};

verus! {

/// One way of typing a character: the slot holding the key and whether shift is needed.
#[derive(Debug, Clone, Copy, PartialEq, Eq, Structural)]
pub struct CharIdxEntry {
    pub layer: u8,
    pub pos: u8,
    pub shifted: bool,
}

impl CharIdxEntry {
    /// Preference order: the home layer beats other layers, unshifted beats shifted,
    /// then smaller layers, then smaller positions. Distinct entries have distinct ranks.
    pub open spec fn rank(self) -> int {
        (if self.layer == 0 { 131072int } else { 0int })
            + (if self.shifted { 0int } else { 65536int })
            + (255 - self.layer) * 256
            + (255 - self.pos)
    }

    pub fn cmp(&self, other: &CharIdxEntry) -> (r: core::cmp::Ordering)
        ensures
            (r == core::cmp::Ordering::Less) == (self.rank() < other.rank()),
            (r == core::cmp::Ordering::Equal) == (self.rank() == other.rank()),
            (r == core::cmp::Ordering::Greater) == (self.rank() > other.rank()),
    {
        if (self.layer == 0) != (other.layer == 0) {
            if self.layer == 0 {
                core::cmp::Ordering::Greater
            } else {
                core::cmp::Ordering::Less
            }
        } else if self.shifted != other.shifted {
            if self.shifted {
                core::cmp::Ordering::Less
            } else {
                core::cmp::Ordering::Greater
            }
        } else if self.layer != other.layer {
            if self.layer < other.layer {
                core::cmp::Ordering::Greater
            } else {
                core::cmp::Ordering::Less
            }
        } else if self.pos != other.pos {
            if self.pos < other.pos {
                core::cmp::Ordering::Greater
            } else {
                core::cmp::Ordering::Less
            }
        } else {
            core::cmp::Ordering::Equal
        }
    }
}

/// `e` is a way of typing in `s` and no way in `s` is preferred to it.
pub open spec fn is_best(s: Set<CharIdxEntry>, e: CharIdxEntry) -> bool {
    s.contains(e) && forall|x: CharIdxEntry| #[trigger] s.contains(x) ==> x.rank() <= e.rank()
}

/// The preferred entry of a set, if the set is not empty.
pub open spec fn best(s: Set<CharIdxEntry>) -> Option<CharIdxEntry> {
    if exists|e: CharIdxEntry| is_best(s, e) {
        Some(choose|e: CharIdxEntry| is_best(s, e))
    } else {
        None
    }
}

/// For every byte, the set of ways to type it, held as a list without duplicates.
/// A `BTreeSet` ordered by preference would need an `Ord` for `CharIdxEntry`: a derived one
/// orders by fields rather than by preference, and the verifier reads neither a derived nor a
/// hand-written `Ord`, so the preferred entry could not be proved from it. The preferred entry
/// is found by a scan instead (`preferred`).
pub struct CharIdx {
    lists: Vec<Vec<CharIdxEntry>>,
}

impl View for CharIdx {
    type V = Seq<Set<CharIdxEntry>>;

    closed spec fn view(&self) -> Seq<Set<CharIdxEntry>> {
        self.lists@.map_values(|v: Vec<CharIdxEntry>| v@.to_set())
    }
}

impl CharIdx {
    pub closed spec fn wf(&self) -> bool {
        &&& self.lists@.len() == 256
        &&& forall|c: int| 0 <= c < 256 ==> (#[trigger] self.lists@[c])@.no_duplicates()
    }

    pub fn new() -> (r: CharIdx)
        ensures
            r.wf(),
            r@.len() == 256,
            forall|c: int| 0 <= c < 256 ==> (#[trigger] r@[c]) == Set::<CharIdxEntry>::empty(),
    {
        let mut lists: Vec<Vec<CharIdxEntry>> = Vec::new();
        while lists.len() < 256
            invariant
                lists@.len() <= 256,
                forall|c: int| 0 <= c < lists@.len() ==> (#[trigger] lists@[c])@.len() == 0,
            decreases 256 - lists@.len(),
        {
            lists.push(Vec::new());
        }
        let r = CharIdx { lists };
        assert forall|c: int| 0 <= c < 256 implies (#[trigger] r@[c]) == Set::<CharIdxEntry>::empty() by {
            assert(r.lists@[c]@ =~= Seq::<CharIdxEntry>::empty());
            assert(r@[c] =~= Set::<CharIdxEntry>::empty());
        }
        r
    }

    pub fn contains(&self, c: Win1252Char, e: CharIdxEntry) -> (r: bool)
        requires
            self.wf(),
        ensures
            r == self@[c.0 as int].contains(e),
    {
        let list = &self.lists[c.0 as usize];
        assert(self@[c.0 as int] == list@.to_set());
        let mut i: usize = 0;
        while i < list.len()
            invariant
                *list == self.lists@[c.0 as int],
                self@[c.0 as int] == list@.to_set(),
                0 <= i <= list@.len(),
                forall|j: int| 0 <= j < i ==> list@[j] != e,
            decreases list@.len() - i,
        {
            if list[i] == e {
                assert(list@.contains(e));
                return true;
            }
            i += 1;
        }
        assert(!list@.contains(e));
        false
    }

    /// Records `e` as a way of typing `c`.
    pub fn insert(&mut self, c: Win1252Char, e: CharIdxEntry)
        requires
            old(self).wf(),
        ensures
            final(self).wf(),
            final(self)@ == old(self)@.update(c.0 as int, old(self)@[c.0 as int].insert(e)),
    {
        if self.contains(c, e) {
            proof {
                assert(self@[c.0 as int].insert(e) =~= self@[c.0 as int]);
                assert(self@ =~= self@.update(c.0 as int, self@[c.0 as int]));
            }
            return;
        }
        let ghost old_lists = self.lists@;
        let mut list: Vec<CharIdxEntry> = Vec::new();
        self.lists.set_and_swap(c.0 as usize, &mut list);
        let ghost before = list@;
        list.push(e);
        proof {
            assert(list@.to_set() =~= before.to_set().insert(e)) by {
                assert forall|x: CharIdxEntry| list@.contains(x) <==> before.contains(x) || x == e by {
                    if list@.contains(x) {
                        let j = choose|j: int| 0 <= j < list@.len() && list@[j] == x;
                        if j < before.len() {
                            assert(before[j] == x);
                        }
                    }
                    if before.contains(x) {
                        let j = choose|j: int| 0 <= j < before.len() && before[j] == x;
                        assert(list@[j] == x);
                    }
                    if x == e {
                        assert(list@[before.len() as int] == x);
                    }
                }
            }
            assert(list@.no_duplicates()) by {
                assert forall|i: int, j: int| 0 <= i < list@.len() && 0 <= j < list@.len() && i != j
                    implies list@[i] != list@[j] by {
                    if i < before.len() && j < before.len() {
                        assert(before[i] != before[j]);
                    } else if i < before.len() {
                        assert(before.contains(before[i]));
                    } else if j < before.len() {
                        assert(before.contains(before[j]));
                    }
                }
            }
        }
        self.lists.set_and_swap(c.0 as usize, &mut list);
        proof {
            assert forall|d: int| 0 <= d < 256 implies (#[trigger] self.lists@[d])@.no_duplicates() by {
                if d != c.0 as int {
                    assert(self.lists@[d] == old_lists[d]);
                }
            }
            assert(self@ =~= old(self)@.update(c.0 as int, old(self)@[c.0 as int].insert(e)));
        }
    }

    /// Forgets `e` as a way of typing `c`.
    pub fn remove(&mut self, c: Win1252Char, e: CharIdxEntry)
        requires
            old(self).wf(),
        ensures
            final(self).wf(),
            final(self)@ == old(self)@.update(c.0 as int, old(self)@[c.0 as int].remove(e)),
    {
        let ghost old_lists = self.lists@;
        let mut list: Vec<CharIdxEntry> = Vec::new();
        self.lists.set_and_swap(c.0 as usize, &mut list);
        let ghost before = list@;
        let mut i: usize = 0;
        while i < list.len() && list[i] != e
            invariant
                list@ == before,
                0 <= i <= list@.len(),
                forall|j: int| 0 <= j < i ==> list@[j] != e,
            decreases list@.len() - i,
        {
            i += 1;
        }
        if i < list.len() {
            list.remove(i);
            proof {
                assert(before.no_duplicates());
                assert forall|x: CharIdxEntry| list@.contains(x) <==> before.contains(x) && x != e by {
                    if list@.contains(x) {
                        let j = choose|j: int| 0 <= j < list@.len() && list@[j] == x;
                        if j < i {
                            assert(before[j] == x);
                        } else {
                            assert(before[j + 1] == x);
                            assert(i != j + 1);
                        }
                    }
                    if before.contains(x) && x != e {
                        let j = choose|j: int| 0 <= j < before.len() && before[j] == x;
                        if j < i {
                            assert(list@[j] == x);
                        } else {
                            assert(j != i);
                            assert(list@[j - 1] == x);
                        }
                    }
                }
                assert(list@.to_set() =~= before.to_set().remove(e));
                assert(list@.no_duplicates()) by {
                    assert forall|a: int, b: int| 0 <= a < list@.len() && 0 <= b < list@.len() && a != b
                        implies list@[a] != list@[b] by {
                        let a2 = if a < i { a } else { a + 1 };
                        let b2 = if b < i { b } else { b + 1 };
                        assert(list@[a] == before[a2]);
                        assert(list@[b] == before[b2]);
                    }
                }
            }
        } else {
            proof {
                assert(!before.contains(e));
                assert(list@.to_set() =~= before.to_set().remove(e));
            }
        }
        self.lists.set_and_swap(c.0 as usize, &mut list);
        proof {
            assert forall|d: int| 0 <= d < 256 implies (#[trigger] self.lists@[d])@.no_duplicates() by {
                if d != c.0 as int {
                    assert(self.lists@[d] == old_lists[d]);
                }
            }
            assert(self@ =~= old(self)@.update(c.0 as int, old(self)@[c.0 as int].remove(e)));
        }
    }

    /// Whether `e` is the one and only way of typing `c`.
    pub fn is_only(&self, c: Win1252Char, e: CharIdxEntry) -> (r: bool)
        requires
            self.wf(),
        ensures
            r == (self@[c.0 as int] == Set::<CharIdxEntry>::empty().insert(e)),
    {
        let list = &self.lists[c.0 as usize];
        let ghost s = self@[c.0 as int];
        assert(s == list@.to_set());
        if list.len() == 1 && list[0] == e {
            assert(s =~= Set::<CharIdxEntry>::empty().insert(e));
            true
        } else {
            if list.len() == 0 {
                assert(!s.contains(e));
            } else if list[0] != e {
                assert(s.contains(list@[0]));
            } else {
                assert(list@[0] != list@[1]);
                assert(s.contains(list@[1]));
            }
            false
        }
    }

    /// Whether `c` cannot be typed at all.
    pub fn is_untypable(&self, c: Win1252Char) -> (r: bool)
        requires
            self.wf(),
        ensures
            r == (self@[c.0 as int] == Set::<CharIdxEntry>::empty()),
    {
        let list = &self.lists[c.0 as usize];
        let ghost s = self@[c.0 as int];
        assert(s == list@.to_set());
        if list.len() == 0 {
            assert(s =~= Set::<CharIdxEntry>::empty());
            true
        } else {
            assert(s.contains(list@[0]));
            false
        }
    }

    /// The preferred way of typing `c`: the entry of greatest rank, if any.
    pub fn preferred(&self, c: Win1252Char) -> (r: Option<CharIdxEntry>)
        requires
            self.wf(),
        ensures
            r == best(self@[c.0 as int]),
            r is None <==> self@[c.0 as int].is_empty(),
            r matches Some(e) ==> self@[c.0 as int].contains(e) && forall|x: CharIdxEntry|
                #[trigger] self@[c.0 as int].contains(x) ==> x.rank() <= e.rank(),
    {
        let list = &self.lists[c.0 as usize];
        let ghost s = self@[c.0 as int];
        assert(s == list@.to_set());
        if list.len() == 0 {
            assert(s =~= Set::<CharIdxEntry>::empty());
            return None;
        }
        let mut best = list[0];
        let mut i: usize = 1;
        while i < list.len()
            invariant
                *list == self.lists@[c.0 as int],
                1 <= i <= list@.len(),
                list@.contains(best),
                forall|j: int| 0 <= j < i ==> (#[trigger] list@[j]).rank() <= best.rank(),
            decreases list@.len() - i,
        {
            if let core::cmp::Ordering::Less = best.cmp(&list[i]) {
                best = list[i];
            }
            i += 1;
        }
        assert(s.contains(best));
        assert forall|x: CharIdxEntry| #[trigger] s.contains(x) implies x.rank() <= best.rank() by {
            assert(list@.contains(x));
        }
        assert(is_best(s, best));
        let ghost b = choose|e: CharIdxEntry| is_best(s, e);
        assert(b.rank() == best.rank());
        Some(best)
    }
}

/// The number of canonical digit-row placements.
pub const NUM_LAYOUTS: u8 = 22;

/// Position of digit `i` in canonical digit-row placement `row`.
pub open spec fn num_pos(row: int, i: int) -> u8 {
    if row == 0 {
        if i == 0 {
            10u8
        } else if i == 1 {
            11u8
        } else if i == 2 {
            12u8
        } else if i == 3 {
            13u8
        } else if i == 4 {
            21u8
        } else if i == 5 {
            22u8
        } else if i == 6 {
            23u8
        } else if i == 7 {
            1u8
        } else if i == 8 {
            2u8
        } else {
            3u8
        }
    } else if row == 1 {
        if i == 0 {
            14u8
        } else if i == 1 {
            11u8
        } else if i == 2 {
            12u8
        } else if i == 3 {
            13u8
        } else if i == 4 {
            21u8
        } else if i == 5 {
            22u8
        } else if i == 6 {
            23u8
        } else if i == 7 {
            1u8
        } else if i == 8 {
            2u8
        } else {
            3u8
        }
    } else if row == 2 {
        if i == 0 {
            19u8
        } else if i == 1 {
            16u8
        } else if i == 2 {
            17u8
        } else if i == 3 {
            18u8
        } else if i == 4 {
            26u8
        } else if i == 5 {
            27u8
        } else if i == 6 {
            28u8
        } else if i == 7 {
            6u8
        } else if i == 8 {
            7u8
        } else {
            8u8
        }
    } else if row == 3 {
        if i == 0 {
            15u8
        } else if i == 1 {
            16u8
        } else if i == 2 {
            17u8
        } else if i == 3 {
            18u8
        } else if i == 4 {
            26u8
        } else if i == 5 {
            27u8
        } else if i == 6 {
            28u8
        } else if i == 7 {
            6u8
        } else if i == 8 {
            7u8
        } else {
            8u8
        }
    } else if row == 4 {
        if i == 0 {
            20u8
        } else if i == 1 {
            21u8
        } else if i == 2 {
            22u8
        } else if i == 3 {
            23u8
        } else if i == 4 {
            11u8
        } else if i == 5 {
            12u8
        } else if i == 6 {
            13u8
        } else if i == 7 {
            1u8
        } else if i == 8 {
            2u8
        } else {
            3u8
        }
    } else if row == 5 {
        if i == 0 {
            10u8
        } else if i == 1 {
            21u8
        } else if i == 2 {
            22u8
        } else if i == 3 {
            23u8
        } else if i == 4 {
            11u8
        } else if i == 5 {
            12u8
        } else if i == 6 {
            13u8
        } else if i == 7 {
            1u8
        } else if i == 8 {
            2u8
        } else {
            3u8
        }
    } else if row == 6 {
        if i == 0 {
            14u8
        } else if i == 1 {
            21u8
        } else if i == 2 {
            22u8
        } else if i == 3 {
            23u8
        } else if i == 4 {
            11u8
        } else if i == 5 {
            12u8
        } else if i == 6 {
            13u8
        } else if i == 7 {
            1u8
        } else if i == 8 {
            2u8
        } else {
            3u8
        }
    } else if row == 7 {
        if i == 0 {
            29u8
        } else if i == 1 {
            26u8
        } else if i == 2 {
            27u8
        } else if i == 3 {
            28u8
        } else if i == 4 {
            16u8
        } else if i == 5 {
            17u8
        } else if i == 6 {
            18u8
        } else if i == 7 {
            6u8
        } else if i == 8 {
            7u8
        } else {
            8u8
        }
    } else if row == 8 {
        if i == 0 {
            19u8
        } else if i == 1 {
            26u8
        } else if i == 2 {
            27u8
        } else if i == 3 {
            28u8
        } else if i == 4 {
            16u8
        } else if i == 5 {
            17u8
        } else if i == 6 {
            18u8
        } else if i == 7 {
            6u8
        } else if i == 8 {
            7u8
        } else {
            8u8
        }
    } else if row == 9 {
        if i == 0 {
            15u8
        } else if i == 1 {
            26u8
        } else if i == 2 {
            27u8
        } else if i == 3 {
            28u8
        } else if i == 4 {
            16u8
        } else if i == 5 {
            17u8
        } else if i == 6 {
            18u8
        } else if i == 7 {
            6u8
        } else if i == 8 {
            7u8
        } else {
            8u8
        }
    } else if row == 10 {
        if i == 0 {
            0u8
        } else if i == 1 {
            1u8
        } else if i == 2 {
            2u8
        } else if i == 3 {
            3u8
        } else if i == 4 {
            4u8
        } else if i == 5 {
            5u8
        } else if i == 6 {
            6u8
        } else if i == 7 {
            7u8
        } else if i == 8 {
            8u8
        } else {
            9u8
        }
    } else if row == 11 {
        if i == 0 {
            9u8
        } else if i == 1 {
            0u8
        } else if i == 2 {
            1u8
        } else if i == 3 {
            2u8
        } else if i == 4 {
            3u8
        } else if i == 5 {
            4u8
        } else if i == 6 {
            5u8
        } else if i == 7 {
            6u8
        } else if i == 8 {
            7u8
        } else {
            8u8
        }
    } else if row == 12 {
        if i == 0 {
            10u8
        } else if i == 1 {
            11u8
        } else if i == 2 {
            12u8
        } else if i == 3 {
            13u8
        } else if i == 4 {
            14u8
        } else if i == 5 {
            15u8
        } else if i == 6 {
            16u8
        } else if i == 7 {
            17u8
        } else if i == 8 {
            18u8
        } else {
            19u8
        }
    } else if row == 13 {
        if i == 0 {
            19u8
        } else if i == 1 {
            10u8
        } else if i == 2 {
            11u8
        } else if i == 3 {
            12u8
        } else if i == 4 {
            13u8
        } else if i == 5 {
            14u8
        } else if i == 6 {
            15u8
        } else if i == 7 {
            16u8
        } else if i == 8 {
            17u8
        } else {
            18u8
        }
    } else if row == 14 {
        if i == 0 {
            20u8
        } else if i == 1 {
            21u8
        } else if i == 2 {
            22u8
        } else if i == 3 {
            23u8
        } else if i == 4 {
            24u8
        } else if i == 5 {
            25u8
        } else if i == 6 {
            26u8
        } else if i == 7 {
            27u8
        } else if i == 8 {
            28u8
        } else {
            29u8
        }
    } else if row == 15 {
        if i == 0 {
            29u8
        } else if i == 1 {
            20u8
        } else if i == 2 {
            21u8
        } else if i == 3 {
            22u8
        } else if i == 4 {
            23u8
        } else if i == 5 {
            24u8
        } else if i == 6 {
            25u8
        } else if i == 7 {
            26u8
        } else if i == 8 {
            27u8
        } else {
            28u8
        }
    } else if row == 16 {
        if i == 0 {
            10u8
        } else if i == 1 {
            11u8
        } else if i == 2 {
            12u8
        } else if i == 3 {
            13u8
        } else if i == 4 {
            23u8
        } else if i == 5 {
            26u8
        } else if i == 6 {
            16u8
        } else if i == 7 {
            17u8
        } else if i == 8 {
            18u8
        } else {
            19u8
        }
    } else if row == 17 {
        if i == 0 {
            10u8
        } else if i == 1 {
            11u8
        } else if i == 2 {
            12u8
        } else if i == 3 {
            13u8
        } else if i == 4 {
            3u8
        } else if i == 5 {
            6u8
        } else if i == 6 {
            16u8
        } else if i == 7 {
            17u8
        } else if i == 8 {
            18u8
        } else {
            19u8
        }
    } else if row == 18 {
        if i == 0 {
            0u8
        } else if i == 1 {
            1u8
        } else if i == 2 {
            2u8
        } else if i == 3 {
            3u8
        } else if i == 4 {
            4u8
        } else if i == 5 {
            10u8
        } else if i == 6 {
            11u8
        } else if i == 7 {
            12u8
        } else if i == 8 {
            13u8
        } else {
            14u8
        }
    } else if row == 19 {
        if i == 0 {
            10u8
        } else if i == 1 {
            11u8
        } else if i == 2 {
            12u8
        } else if i == 3 {
            13u8
        } else if i == 4 {
            14u8
        } else if i == 5 {
            20u8
        } else if i == 6 {
            21u8
        } else if i == 7 {
            22u8
        } else if i == 8 {
            23u8
        } else {
            24u8
        }
    } else if row == 20 {
        if i == 0 {
            5u8
        } else if i == 1 {
            6u8
        } else if i == 2 {
            7u8
        } else if i == 3 {
            8u8
        } else if i == 4 {
            9u8
        } else if i == 5 {
            15u8
        } else if i == 6 {
            16u8
        } else if i == 7 {
            17u8
        } else if i == 8 {
            18u8
        } else {
            19u8
        }
    } else {
        if i == 0 {
            15u8
        } else if i == 1 {
            16u8
        } else if i == 2 {
            17u8
        } else if i == 3 {
            18u8
        } else if i == 4 {
            19u8
        } else if i == 5 {
            25u8
        } else if i == 6 {
            26u8
        } else if i == 7 {
            27u8
        } else if i == 8 {
            28u8
        } else {
            29u8
        }
    }
}

/// Within one placement the ten digits sit on ten distinct positions of the three main rows.
pub proof fn lemma_num_pos_distinct(row: int, i: int, j: int)
    requires
        0 <= row < NUM_LAYOUTS,
        0 <= i < 10,
        0 <= j < 10,
        i != j,
    ensures
        num_pos(row, i) != num_pos(row, j),
        num_pos(row, i) < 30,
{
}

pub fn num_layout_pos(row: u8, i: u8) -> (r: u8)
    requires
        row < NUM_LAYOUTS,
        i < 10,
    ensures
        r == num_pos(row as int, i as int),
{
    if row == 0 {
        if i == 0 {
            10u8
        } else if i == 1 {
            11u8
        } else if i == 2 {
            12u8
        } else if i == 3 {
            13u8
        } else if i == 4 {
            21u8
        } else if i == 5 {
            22u8
        } else if i == 6 {
            23u8
        } else if i == 7 {
            1u8
        } else if i == 8 {
            2u8
        } else {
            3u8
        }
    } else if row == 1 {
        if i == 0 {
            14u8
        } else if i == 1 {
            11u8
        } else if i == 2 {
            12u8
        } else if i == 3 {
            13u8
        } else if i == 4 {
            21u8
        } else if i == 5 {
            22u8
        } else if i == 6 {
            23u8
        } else if i == 7 {
            1u8
        } else if i == 8 {
            2u8
        } else {
            3u8
        }
    } else if row == 2 {
        if i == 0 {
            19u8
        } else if i == 1 {
            16u8
        } else if i == 2 {
            17u8
        } else if i == 3 {
            18u8
        } else if i == 4 {
            26u8
        } else if i == 5 {
            27u8
        } else if i == 6 {
            28u8
        } else if i == 7 {
            6u8
        } else if i == 8 {
            7u8
        } else {
            8u8
        }
    } else if row == 3 {
        if i == 0 {
            15u8
        } else if i == 1 {
            16u8
        } else if i == 2 {
            17u8
        } else if i == 3 {
            18u8
        } else if i == 4 {
            26u8
        } else if i == 5 {
            27u8
        } else if i == 6 {
            28u8
        } else if i == 7 {
            6u8
        } else if i == 8 {
            7u8
        } else {
            8u8
        }
    } else if row == 4 {
        if i == 0 {
            20u8
        } else if i == 1 {
            21u8
        } else if i == 2 {
            22u8
        } else if i == 3 {
            23u8
        } else if i == 4 {
            11u8
        } else if i == 5 {
            12u8
        } else if i == 6 {
            13u8
        } else if i == 7 {
            1u8
        } else if i == 8 {
            2u8
        } else {
            3u8
        }
    } else if row == 5 {
        if i == 0 {
            10u8
        } else if i == 1 {
            21u8
        } else if i == 2 {
            22u8
        } else if i == 3 {
            23u8
        } else if i == 4 {
            11u8
        } else if i == 5 {
            12u8
        } else if i == 6 {
            13u8
        } else if i == 7 {
            1u8
        } else if i == 8 {
            2u8
        } else {
            3u8
        }
    } else if row == 6 {
        if i == 0 {
            14u8
        } else if i == 1 {
            21u8
        } else if i == 2 {
            22u8
        } else if i == 3 {
            23u8
        } else if i == 4 {
            11u8
        } else if i == 5 {
            12u8
        } else if i == 6 {
            13u8
        } else if i == 7 {
            1u8
        } else if i == 8 {
            2u8
        } else {
            3u8
        }
    } else if row == 7 {
        if i == 0 {
            29u8
        } else if i == 1 {
            26u8
        } else if i == 2 {
            27u8
        } else if i == 3 {
            28u8
        } else if i == 4 {
            16u8
        } else if i == 5 {
            17u8
        } else if i == 6 {
            18u8
        } else if i == 7 {
            6u8
        } else if i == 8 {
            7u8
        } else {
            8u8
        }
    } else if row == 8 {
        if i == 0 {
            19u8
        } else if i == 1 {
            26u8
        } else if i == 2 {
            27u8
        } else if i == 3 {
            28u8
        } else if i == 4 {
            16u8
        } else if i == 5 {
            17u8
        } else if i == 6 {
            18u8
        } else if i == 7 {
            6u8
        } else if i == 8 {
            7u8
        } else {
            8u8
        }
    } else if row == 9 {
        if i == 0 {
            15u8
        } else if i == 1 {
            26u8
        } else if i == 2 {
            27u8
        } else if i == 3 {
            28u8
        } else if i == 4 {
            16u8
        } else if i == 5 {
            17u8
        } else if i == 6 {
            18u8
        } else if i == 7 {
            6u8
        } else if i == 8 {
            7u8
        } else {
            8u8
        }
    } else if row == 10 {
        if i == 0 {
            0u8
        } else if i == 1 {
            1u8
        } else if i == 2 {
            2u8
        } else if i == 3 {
            3u8
        } else if i == 4 {
            4u8
        } else if i == 5 {
            5u8
        } else if i == 6 {
            6u8
        } else if i == 7 {
            7u8
        } else if i == 8 {
            8u8
        } else {
            9u8
        }
    } else if row == 11 {
        if i == 0 {
            9u8
        } else if i == 1 {
            0u8
        } else if i == 2 {
            1u8
        } else if i == 3 {
            2u8
        } else if i == 4 {
            3u8
        } else if i == 5 {
            4u8
        } else if i == 6 {
            5u8
        } else if i == 7 {
            6u8
        } else if i == 8 {
            7u8
        } else {
            8u8
        }
    } else if row == 12 {
        if i == 0 {
            10u8
        } else if i == 1 {
            11u8
        } else if i == 2 {
            12u8
        } else if i == 3 {
            13u8
        } else if i == 4 {
            14u8
        } else if i == 5 {
            15u8
        } else if i == 6 {
            16u8
        } else if i == 7 {
            17u8
        } else if i == 8 {
            18u8
        } else {
            19u8
        }
    } else if row == 13 {
        if i == 0 {
            19u8
        } else if i == 1 {
            10u8
        } else if i == 2 {
            11u8
        } else if i == 3 {
            12u8
        } else if i == 4 {
            13u8
        } else if i == 5 {
            14u8
        } else if i == 6 {
            15u8
        } else if i == 7 {
            16u8
        } else if i == 8 {
            17u8
        } else {
            18u8
        }
    } else if row == 14 {
        if i == 0 {
            20u8
        } else if i == 1 {
            21u8
        } else if i == 2 {
            22u8
        } else if i == 3 {
            23u8
        } else if i == 4 {
            24u8
        } else if i == 5 {
            25u8
        } else if i == 6 {
            26u8
        } else if i == 7 {
            27u8
        } else if i == 8 {
            28u8
        } else {
            29u8
        }
    } else if row == 15 {
        if i == 0 {
            29u8
        } else if i == 1 {
            20u8
        } else if i == 2 {
            21u8
        } else if i == 3 {
            22u8
        } else if i == 4 {
            23u8
        } else if i == 5 {
            24u8
        } else if i == 6 {
            25u8
        } else if i == 7 {
            26u8
        } else if i == 8 {
            27u8
        } else {
            28u8
        }
    } else if row == 16 {
        if i == 0 {
            10u8
        } else if i == 1 {
            11u8
        } else if i == 2 {
            12u8
        } else if i == 3 {
            13u8
        } else if i == 4 {
            23u8
        } else if i == 5 {
            26u8
        } else if i == 6 {
            16u8
        } else if i == 7 {
            17u8
        } else if i == 8 {
            18u8
        } else {
            19u8
        }
    } else if row == 17 {
        if i == 0 {
            10u8
        } else if i == 1 {
            11u8
        } else if i == 2 {
            12u8
        } else if i == 3 {
            13u8
        } else if i == 4 {
            3u8
        } else if i == 5 {
            6u8
        } else if i == 6 {
            16u8
        } else if i == 7 {
            17u8
        } else if i == 8 {
            18u8
        } else {
            19u8
        }
    } else if row == 18 {
        if i == 0 {
            0u8
        } else if i == 1 {
            1u8
        } else if i == 2 {
            2u8
        } else if i == 3 {
            3u8
        } else if i == 4 {
            4u8
        } else if i == 5 {
            10u8
        } else if i == 6 {
            11u8
        } else if i == 7 {
            12u8
        } else if i == 8 {
            13u8
        } else {
            14u8
        }
    } else if row == 19 {
        if i == 0 {
            10u8
        } else if i == 1 {
            11u8
        } else if i == 2 {
            12u8
        } else if i == 3 {
            13u8
        } else if i == 4 {
            14u8
        } else if i == 5 {
            20u8
        } else if i == 6 {
            21u8
        } else if i == 7 {
            22u8
        } else if i == 8 {
            23u8
        } else {
            24u8
        }
    } else if row == 20 {
        if i == 0 {
            5u8
        } else if i == 1 {
            6u8
        } else if i == 2 {
            7u8
        } else if i == 3 {
            8u8
        } else if i == 4 {
            9u8
        } else if i == 5 {
            15u8
        } else if i == 6 {
            16u8
        } else if i == 7 {
            17u8
        } else if i == 8 {
            18u8
        } else {
            19u8
        }
    } else {
        if i == 0 {
            15u8
        } else if i == 1 {
            16u8
        } else if i == 2 {
            17u8
        } else if i == 3 {
            18u8
        } else if i == 4 {
            19u8
        } else if i == 5 {
            25u8
        } else if i == 6 {
            26u8
        } else if i == 7 {
            27u8
        } else if i == 8 {
            28u8
        } else {
            29u8
        }
    }
}

/// Whether the entry `e` names a slot of `l` that types byte `c`.
pub open spec fn slot_types(l: Seq<Seq<Key>>, e: CharIdxEntry, c: int) -> bool {
    &&& (e.layer as int) < l.len()
    &&& (e.pos as int) < l[e.layer as int].len()
    &&& l[e.layer as int][e.pos as int].spec_typed_char(e.shifted) == Some(Win1252Char(c as u8))
}

/// `idx` lists, for each byte, exactly the slots that type it.
pub open spec fn index_matches(idx: Seq<Set<CharIdxEntry>>, l: Seq<Seq<Key>>) -> bool {
    &&& idx.len() == 256
    &&& forall|c: int, e: CharIdxEntry|
        #![trigger idx[c].contains(e)]
        #![trigger slot_types(l, e, c)]
        0 <= c < 256 ==> (idx[c].contains(e) <==> slot_types(l, e, c))
}

/// Layer-switch and shift keys live on the home layer only, each layer key names an existing
/// layer, and no modifier appears twice.
pub open spec fn modifiers_valid(l: Seq<Seq<Key>>) -> bool {
    &&& forall|i: int, p: int|
        1 <= i < l.len() && 0 <= p < l[i].len() ==> !(#[trigger] l[i][p]).is_modifier()
    &&& forall|p: int|
        0 <= p < l[0].len() ==> (#[trigger] l[0][p] matches Key::Layer(n) ==> (n as int) < l.len())
    &&& forall|p: int, q: int|
        0 <= p < l[0].len() && 0 <= q < l[0].len() && #[trigger] l[0][p] == #[trigger] l[0][q]
            && l[0][p].is_modifier() ==> p == q
}

/// `idx[n]` is the home-layer position of the switch key for layer `n`, or 0 if there is none.
pub open spec fn layer_idx_matches(idx: Seq<u8>, l: Seq<Seq<Key>>) -> bool {
    &&& idx.len() == l.len()
    &&& forall|n: int, p: int|
        #![trigger l[0][p], idx[n]]
        0 <= n < l.len() && 0 <= p < l[0].len() && l[0][p] == Key::Layer(n as u8) ==> idx[n] == p
    &&& forall|n: int|
        0 <= n < l.len() ==> (#[trigger] idx[n] as int) < l[0].len() && (l[0][idx[n] as int]
            == Key::Layer(n as u8) || (idx[n] == 0 && forall|p: int|
            0 <= p < l[0].len() ==> l[0][p] != Key::Layer(n as u8)))
}

/// `s` is the home-layer position of the shift key, if there is one.
pub open spec fn shift_idx_matches(s: Option<u8>, l: Seq<Seq<Key>>) -> bool {
    match s {
        Some(p) => (p as int) < l[0].len() && l[0][p as int] == Key::Shift,
        None => forall|p: int| 0 <= p < l[0].len() ==> l[0][p] != Key::Shift,
    }
}

/// The byte of decimal digit `i`.
pub open spec fn digit_char(i: int) -> int {
    0x30 + i
}

/// No slot types any decimal digit.
pub open spec fn digits_absent(l: Seq<Seq<Key>>) -> bool {
    forall|i: int, e: CharIdxEntry| 0 <= i < 10 ==> !#[trigger] slot_types(l, e, digit_char(i))
}

/// Each decimal digit is typed in exactly one way: unshifted, on layer `num_layer`, at its
/// position in placement `row`.
pub open spec fn digits_at(l: Seq<Seq<Key>>, num_layer: u8, row: int) -> bool {
    &&& 0 <= row < NUM_LAYOUTS
    &&& forall|i: int, e: CharIdxEntry|
        0 <= i < 10 ==> (#[trigger] slot_types(l, e, digit_char(i)) <==> e == CharIdxEntry {
            layer: num_layer,
            pos: num_pos(row, i),
            shifted: false,
        })
}

/// Whether a key types a decimal digit without shift.
pub open spec fn types_digit(k: Key) -> bool {
    match k.spec_typed_char(false) {
        Some(c) => 0x30 <= c.0 <= 0x39,
        None => false,
    }
}

/// The layout with the keys of slots `a` and `b` exchanged.
pub open spec fn swapped(l: Seq<Seq<Key>>, a: (u8, u8), b: (u8, u8)) -> Seq<Seq<Key>> {
    let ka = l[a.0 as int][a.1 as int];
    let kb = l[b.0 as int][b.1 as int];
    let l1 = l.update(a.0 as int, l[a.0 as int].update(a.1 as int, kb));
    l1.update(b.0 as int, l1[b.0 as int].update(b.1 as int, ka))
}

/// What an annotated layout holds: the layout and its derived indices.
pub struct AnnotatedView {
    pub layout: Seq<Seq<Key>>,
    pub char_idx: Seq<Set<CharIdxEntry>>,
    pub layer_idx: Seq<u8>,
    pub shift_idx: Option<u8>,
    pub num_layout: u8,
    pub num_layer: u8,
}

impl AnnotatedView {
    /// The derived indices are exactly those of the layout.
    pub open spec fn wf(self) -> bool {
        &&& layers_wf(self.layout)
        &&& modifiers_valid(self.layout)
        &&& index_matches(self.char_idx, self.layout)
        &&& layer_idx_matches(self.layer_idx, self.layout)
        &&& shift_idx_matches(self.shift_idx, self.layout)
    }

    /// The digit fields describe where the digits are.
    pub open spec fn digits_arranged(self) -> bool {
        ||| (digits_absent(self.layout) && self.num_layer == 0 && self.num_layout == 0)
        ||| ((self.num_layer as int) < self.layout.len() && digits_at(
            self.layout,
            self.num_layer,
            self.num_layout as int,
        ))
    }
}

/// The home-layer position that a modifier key of the swapped layout came from.
pub open spec fn home_src(a: (u8, u8), b: (u8, u8), p: int) -> int {
    if a.0 == 0 && p == a.1 {
        b.1 as int
    } else if b.0 == 0 && p == b.1 {
        a.1 as int
    } else {
        p
    }
}

pub open spec fn swap_allowed(l: Seq<Seq<Key>>, a: (u8, u8), b: (u8, u8)) -> bool {
    &&& (a.0 as int) < l.len()
    &&& (b.0 as int) < l.len()
    &&& a.1 < NUM_KEYS
    &&& b.1 < NUM_KEYS
    &&& l[a.0 as int][a.1 as int].is_modifier() ==> b.0 == 0
    &&& l[b.0 as int][b.1 as int].is_modifier() ==> a.0 == 0
}

proof fn lemma_home_src(l0: Seq<Seq<Key>>, a: (u8, u8), b: (u8, u8))
    requires
        layers_wf(l0),
        modifiers_valid(l0),
        swap_allowed(l0, a, b),
    ensures
        forall|p: int|
            0 <= p < NUM_KEYS ==> 0 <= #[trigger] home_src(a, b, p) < NUM_KEYS && (swapped(l0, a, b)[0][p].is_modifier()
                ==> swapped(l0, a, b)[0][p] == l0[0][home_src(a, b, p)]) && (l0[0][p].is_modifier()
                ==> l0[0][p] == swapped(l0, a, b)[0][home_src(a, b, p)]) && (!(a.0 == 0 && p == a.1) && !(b.0
                == 0 && p == b.1) ==> swapped(l0, a, b)[0][p] == l0[0][p]),
{
    let l1 = swapped(l0, a, b);
    if a.0 != 0 {
        assert(!l0[a.0 as int][a.1 as int].is_modifier());
    }
    if b.0 != 0 {
        assert(!l0[b.0 as int][b.1 as int].is_modifier());
    }
    assert(l0[0].len() == NUM_KEYS);
}

proof fn lemma_swap_modifiers(
    l0: Seq<Seq<Key>>,
    a: (u8, u8),
    b: (u8, u8),
    li0: Seq<u8>,
    li1: Seq<u8>,
    s0: Option<u8>,
    s1: Option<u8>,
)
    requires
        layers_wf(l0),
        modifiers_valid(l0),
        swap_allowed(l0, a, b),
        layer_idx_matches(li0, l0),
        shift_idx_matches(s0, l0),
        !(a.0 == b.0 && a.1 == b.1),
        li1 == ({
            let li = if let Key::Layer(n) = l0[a.0 as int][a.1 as int] {
                li0.update(n as int, b.1)
            } else {
                li0
            };
            if let Key::Layer(n) = l0[b.0 as int][b.1 as int] {
                li.update(n as int, a.1)
            } else {
                li
            }
        }),
        s1 == ({
            let s = if l0[a.0 as int][a.1 as int] == Key::Shift {
                Some(b.1)
            } else {
                s0
            };
            if l0[b.0 as int][b.1 as int] == Key::Shift {
                Some(a.1)
            } else {
                s
            }
        }),
    ensures
        modifiers_valid(swapped(l0, a, b)),
        layer_idx_matches(li1, swapped(l0, a, b)),
        shift_idx_matches(s1, swapped(l0, a, b)),
{
    let l1 = swapped(l0, a, b);
    let ka = l0[a.0 as int][a.1 as int];
    let kb = l0[b.0 as int][b.1 as int];
    lemma_home_src(l0, a, b);
    assert(l1.len() == l0.len());
    assert(l1[0].len() == NUM_KEYS);
    assert forall|i: int, p: int| 1 <= i < l1.len() && 0 <= p < l1[i].len()
        implies !(#[trigger] l1[i][p]).is_modifier() by {
        if !((i == a.0 && p == a.1) || (i == b.0 && p == b.1)) {
            assert(l1[i][p] == l0[i][p]);
        }
    }
    assert forall|p: int| 0 <= p < l1[0].len() implies
        (#[trigger] l1[0][p] matches Key::Layer(n) ==> (n as int) < l1.len()) by {
        if l1[0][p].is_modifier() {
            assert(l1[0][p] == l0[0][home_src(a, b, p)]);
        }
    }
    assert forall|p: int, q: int| 0 <= p < l1[0].len() && 0 <= q < l1[0].len()
        && #[trigger] l1[0][p] == #[trigger] l1[0][q] && l1[0][p].is_modifier() implies p == q by {
        assert(l1[0][p] == l0[0][home_src(a, b, p)]);
        assert(l1[0][q] == l0[0][home_src(a, b, q)]);
    }
    assert forall|n: int, p: int|
        #![trigger l1[0][p], li1[n]]
        0 <= n < l1.len() && 0 <= p < l1[0].len()
        && l1[0][p] == Key::Layer(n as u8) implies li1[n] == p by {
        assert(l1[0][p] == l0[0][home_src(a, b, p)]);
    }
    assert forall|n: int| 0 <= n < l1.len() implies
        (#[trigger] li1[n] as int) < l1[0].len() && (l1[0][li1[n] as int]
        == Key::Layer(n as u8) || (li1[n] == 0 && forall|p: int|
        0 <= p < l1[0].len() ==> l1[0][p] != Key::Layer(n as u8))) by {
        if ka == Key::Layer(n as u8) {
            assert(li1[n] == b.1);
        } else if kb == Key::Layer(n as u8) {
            assert(li1[n] == a.1);
        } else {
            assert(li1[n] == li0[n]);
            assert forall|p: int| 0 <= p < l1[0].len() implies
                (l1[0][p] == Key::Layer(n as u8) <==> l0[0][p] == Key::Layer(n as u8)) by {
                if l1[0][p] == Key::Layer(n as u8) {
                    assert(l1[0][p] == l0[0][home_src(a, b, p)]);
                }
                if l0[0][p] == Key::Layer(n as u8) {
                    assert(l0[0][p] == l1[0][home_src(a, b, p)]);
                }
            }
        }
    }
    if ka != Key::Shift && kb != Key::Shift {
        assert forall|p: int| 0 <= p < l1[0].len() implies
            (l1[0][p] == Key::Shift <==> l0[0][p] == Key::Shift) by {
            if l1[0][p] == Key::Shift {
                assert(l1[0][p] == l0[0][home_src(a, b, p)]);
            }
            if l0[0][p] == Key::Shift {
                assert(l0[0][p] == l1[0][home_src(a, b, p)]);
            }
        }
    }
}

/// The derived indices are determined by the layout: two well-formed views that agree on the
/// layout and the digit fields are equal.
pub proof fn lemma_view_determined(x: AnnotatedView, z: AnnotatedView)
    requires
        x.wf(),
        z.wf(),
        x.layout == z.layout,
        x.num_layout == z.num_layout,
        x.num_layer == z.num_layer,
    ensures
        x == z,
{
    let l = x.layout;
    assert(l[0].len() == NUM_KEYS);
    assert forall|c: int| 0 <= c < 256 implies #[trigger] x.char_idx[c] == z.char_idx[c] by {
        assert forall|e: CharIdxEntry| x.char_idx[c].contains(e) <==> z.char_idx[c].contains(e) by {
            assert(x.char_idx[c].contains(e) <==> slot_types(l, e, c));
            assert(z.char_idx[c].contains(e) <==> slot_types(l, e, c));
        }
        assert(x.char_idx[c] =~= z.char_idx[c]);
    }
    assert(x.char_idx =~= z.char_idx);
    assert forall|n: int| 0 <= n < l.len() implies #[trigger] x.layer_idx[n] == z.layer_idx[n] by {
        let px = x.layer_idx[n] as int;
        let pz = z.layer_idx[n] as int;
        if l[0][px] == Key::Layer(n as u8) {
            assert(z.layer_idx[n] == px);
        } else if l[0][pz] == Key::Layer(n as u8) {
            assert(x.layer_idx[n] == pz);
        }
    }
    assert(x.layer_idx =~= z.layer_idx);
    match (x.shift_idx, z.shift_idx) {
        (Some(p), Some(q)) => {
            assert(l[0][p as int] == l[0][q as int]);
        },
        (Some(p), None) => {
            assert(l[0][p as int] == Key::Shift);
        },
        (None, Some(q)) => {
            assert(l[0][q as int] == Key::Shift);
        },
        (None, None) => {},
    }
}

/// Swapping the same two slots twice restores the layout and every derived index.
pub proof fn lemma_swap_involution(x: AnnotatedView, y: AnnotatedView, z: AnnotatedView, a: (u8, u8), b: (u8, u8))
    requires
        x.wf(),
        swap_allowed(x.layout, a, b),
        y.wf(),
        y.layout == swapped(x.layout, a, b),
        y.num_layout == x.num_layout,
        y.num_layer == x.num_layer,
        z.wf(),
        z.layout == swapped(y.layout, a, b),
        z.num_layout == y.num_layout,
        z.num_layer == y.num_layer,
    ensures
        swap_allowed(y.layout, a, b),
        z == x,
{
    let l = x.layout;
    let l2 = swapped(swapped(l, a, b), a, b);
    assert forall|i: int| 0 <= i < l.len() implies #[trigger] l2[i] == l[i] by {
        assert(l2[i] =~= l[i]);
    }
    assert(l2 =~= l);
    lemma_view_determined(x, z);
}

/// Whether a layout can carry consistent indices: well-formed layers, valid modifiers, and
/// digits either absent or placed as one of the canonical placements.
pub open spec fn annotatable(l: Seq<Seq<Key>>) -> bool {
    &&& layers_wf(l)
    &&& modifiers_valid(l)
    &&& (digits_absent(l) || exists|nl: u8, row: int| (nl as int) < l.len() && #[trigger] digits_at(l, nl, row))
}

/// Whether every layer has `NUM_KEYS` keys and no modifier sits off the home layer.
fn check_shape(layout: &Layout) -> (r: bool)
    ensures
        r == (layers_wf(layout@) && forall|i: int, p: int|
            1 <= i < layout@.len() && 0 <= p < layout@[i].len() ==> !(#[trigger] layout@[i][p]).is_modifier()),
{
    let n = layout.num_layers();
    if n == 0 || n > 255 {
        return false;
    }
    let mut i: usize = 0;
    while i < n
        invariant
            n == layout@.len(),
            1 <= n <= 255,
            0 <= i <= n,
            forall|j: int| 0 <= j < i ==> #[trigger] layout@[j].len() == NUM_KEYS,
            forall|j: int, p: int|
                1 <= j < i && 0 <= p < layout@[j].len() ==> !(#[trigger] layout@[j][p]).is_modifier(),
        decreases n - i,
    {
        let layer = &layout.layers[i];
        assert(layer@ == layout@[i as int]);
        if layer.0.len() != NUM_KEYS as usize {
            return false;
        }
        if i > 0 {
            let mut p: usize = 0;
            while p < NUM_KEYS as usize
                invariant
                    layer@ == layout@[i as int],
                    layer@.len() == NUM_KEYS,
                    1 <= i < n,
                    n == layout@.len(),
                    0 <= p <= NUM_KEYS,
                    forall|q: int| 0 <= q < p ==> !(#[trigger] layer@[q]).is_modifier(),
                decreases NUM_KEYS - p,
            {
                if layer.0[p].is_modifier_key() {
                    assert(layout@[i as int][p as int].is_modifier());
                    return false;
                }
                p += 1;
            }
        }
        i += 1;
    }
    true
}

/// Locates the modifier keys of the home layer, failing if one is duplicated or names a
/// missing layer.
fn home_modifiers(layout: &Layout) -> (r: Option<(Vec<u8>, Option<u8>)>)
    requires
        layers_wf(layout@),
        forall|i: int, p: int|
            1 <= i < layout@.len() && 0 <= p < layout@[i].len() ==> !(#[trigger] layout@[i][p]).is_modifier(),
    ensures
        r is None <==> !modifiers_valid(layout@),
        r matches Some((li, s)) ==> layer_idx_matches(li@, layout@) && shift_idx_matches(s, layout@),
{
    let ghost l = layout@;
    let n = layout.num_layers();
    let home = &layout.layers[0];
    assert(home@ == l[0]);
    let mut layer_idx: Vec<u8> = vec![0u8; n];
    let mut seen: Vec<bool> = vec![false; n];
    let mut shift_idx: Option<u8> = None;
    let mut p: usize = 0;
    while p < NUM_KEYS as usize
        invariant
            l == layout@,
            home@ == l[0],
            layers_wf(l),
            n == l.len(),
            layer_idx@.len() == n,
            seen@.len() == n,
            0 <= p <= NUM_KEYS,
            forall|m: int| 0 <= m < n ==> (#[trigger] seen@[m] <==> exists|q: int| 0 <= q < p && #[trigger] l[0][q] == Key::Layer(m as u8)),
            forall|m: int| 0 <= m < n ==> (seen@[m] ==> (#[trigger] layer_idx@[m] as int) < p && l[0][layer_idx@[m] as int] == Key::Layer(m as u8)),
            forall|m: int| 0 <= m < n ==> (!seen@[m] ==> #[trigger] layer_idx@[m] == 0),
            forall|q: int| 0 <= q < p ==> (#[trigger] l[0][q] matches Key::Layer(m) ==> (m as int) < n),
            forall|q1: int, q2: int| 0 <= q1 < p && 0 <= q2 < p && #[trigger] l[0][q1] == #[trigger] l[0][q2] && l[0][q1].is_modifier() ==> q1 == q2,
            match shift_idx {
                Some(s) => (s as int) < p && l[0][s as int] == Key::Shift,
                None => forall|q: int| 0 <= q < p ==> l[0][q] != Key::Shift,
            },
        decreases NUM_KEYS - p,
    {
        let k = home.0[p];
        assert(k == l[0][p as int]);
        match k {
            Key::Layer(m) => {
                if m as usize >= n {
                    return None;
                }
                if seen[m as usize] {
                    proof {
                        let q = choose|q: int| 0 <= q < p && #[trigger] l[0][q] == Key::Layer(m);
                        assert(l[0][q] == l[0][p as int]);
                    }
                    return None;
                }
                seen.set(m as usize, true);
                layer_idx.set(m as usize, p as u8);
                proof {
                    assert forall|m2: int| 0 <= m2 < n implies (#[trigger] seen@[m2] <==> exists|q: int| 0 <= q < p + 1 && #[trigger] l[0][q] == Key::Layer(m2 as u8)) by {
                        if m2 == m as int {
                            assert(l[0][p as int] == Key::Layer(m2 as u8));
                        } else if seen@[m2] {
                            let q = choose|q: int| 0 <= q < p && #[trigger] l[0][q] == Key::Layer(m2 as u8);
                            assert(0 <= q < p + 1);
                        }
                    }
                }
            },
            Key::Shift => {
                if let Some(s) = shift_idx {
                    assert(l[0][s as int] == l[0][p as int]);
                    return None;
                }
                shift_idx = Some(p as u8);
                proof {
                    assert forall|m2: int| 0 <= m2 < n implies (#[trigger] seen@[m2] <==> exists|q: int| 0 <= q < p + 1 && #[trigger] l[0][q] == Key::Layer(m2 as u8)) by {
                        if seen@[m2] {
                            let q = choose|q: int| 0 <= q < p && #[trigger] l[0][q] == Key::Layer(m2 as u8);
                            assert(0 <= q < p + 1);
                        }
                    }
                }
            },
            _ => {
                proof {
                    assert forall|m2: int| 0 <= m2 < n implies (#[trigger] seen@[m2] <==> exists|q: int| 0 <= q < p + 1 && #[trigger] l[0][q] == Key::Layer(m2 as u8)) by {
                        if seen@[m2] {
                            let q = choose|q: int| 0 <= q < p && #[trigger] l[0][q] == Key::Layer(m2 as u8);
                            assert(0 <= q < p + 1);
                        }
                    }
                }
            },
        }
        p += 1;
    }
    proof {
        assert(l[0].len() == NUM_KEYS);
        assert forall|m: int, q: int|
            #![trigger l[0][q], layer_idx@[m]]
            0 <= m < l.len() && 0 <= q < l[0].len() && l[0][q] == Key::Layer(m as u8) implies layer_idx@[m] == q by {
            assert(seen@[m]);
            assert(l[0][layer_idx@[m] as int] == l[0][q]);
        }
        assert forall|m: int| 0 <= m < l.len() implies
            (#[trigger] layer_idx@[m] as int) < l[0].len() && (l[0][layer_idx@[m] as int]
            == Key::Layer(m as u8) || (layer_idx@[m] == 0 && forall|q: int|
            0 <= q < l[0].len() ==> l[0][q] != Key::Layer(m as u8))) by {
            if !seen@[m] {
                assert forall|q: int| 0 <= q < l[0].len() implies l[0][q] != Key::Layer(m as u8) by {
                    if l[0][q] == Key::Layer(m as u8) {
                        assert(exists|q2: int| 0 <= q2 < p && #[trigger] l[0][q2] == Key::Layer(m as u8));
                    }
                }
            }
        }
    }
    Some((layer_idx, shift_idx))
}

/// Builds the index of every way of typing every byte.
fn build_char_idx(layout: &Layout) -> (r: CharIdx)
    requires
        layers_wf(layout@),
    ensures
        r.wf(),
        index_matches(r@, layout@),
{
    let ghost l = layout@;
    let mut idx = CharIdx::new();
    let n = layout.num_layers();
    let mut i: usize = 0;
    while i < n
        invariant
            l == layout@,
            layers_wf(l),
            n == l.len(),
            0 <= i <= n,
            idx.wf(),
            idx@.len() == 256,
            forall|c: int, e: CharIdxEntry|
                #![trigger idx@[c].contains(e)]
                0 <= c < 256 ==> (idx@[c].contains(e) <==> slot_types(l, e, c) && (e.layer as int) < i),
        decreases n - i,
    {
        let layer = &layout.layers[i];
        assert(layer@ == l[i as int]);
        let mut p: usize = 0;
        while p < NUM_KEYS as usize
            invariant
                l == layout@,
                layers_wf(l),
                n == l.len(),
                0 <= i < n,
                layer@ == l[i as int],
                0 <= p <= NUM_KEYS,
                idx.wf(),
                idx@.len() == 256,
                forall|c: int, e: CharIdxEntry|
                    #![trigger idx@[c].contains(e)]
                    0 <= c < 256 ==> (idx@[c].contains(e) <==> slot_types(l, e, c) && ((e.layer as int) < i
                        || (e.layer as int == i && (e.pos as int) < p))),
            decreases NUM_KEYS - p,
        {
            let k = layer.0[p];
            let e0 = CharIdxEntry { layer: i as u8, pos: p as u8, shifted: false };
            let e1 = CharIdxEntry { layer: i as u8, pos: p as u8, shifted: true };
            if let Some(c) = k.typed_char(false) {
                idx.insert(c, e0);
            }
            if let Some(c) = k.typed_char(true) {
                idx.insert(c, e1);
            }
            p += 1;
        }
        i += 1;
    }
    idx
}

/// Finds the layer and placement of the digits, if they are placed canonically.
fn find_num_layout(idx: &CharIdx, l: Ghost<Seq<Seq<Key>>>) -> (r: Option<(u8, u8)>)
    requires
        idx.wf(),
        layers_wf(l@),
        index_matches(idx@, l@),
    ensures
        r is None <==> !(digits_absent(l@) || exists|nl: u8, row: int| (nl as int) < l@.len() && #[trigger] digits_at(l@, nl, row)),
        r matches Some((nl, row)) ==> (digits_absent(l@) && nl == 0 && row == 0) || ((nl as int) < l@.len() && digits_at(l@, nl, row as int)),
{
    let mut absent = true;
    let mut i: u8 = 0;
    while i < 10
        invariant
            idx.wf(),
            index_matches(idx@, l@),
            0 <= i <= 10,
            absent == forall|j: int| 0 <= j < i ==> idx@[digit_char(j)] == Set::<CharIdxEntry>::empty(),
        decreases 10 - i,
    {
        let u = idx.is_untypable(Win1252Char(0x30 + i));
        proof {
            if absent && u {
                assert forall|j: int| 0 <= j < i + 1 implies idx@[digit_char(j)] == Set::<CharIdxEntry>::empty() by {
                    if j == i as int {
                        assert(digit_char(j) == (0x30 + i) as u8 as int);
                    }
                }
            }
            if !u {
                assert(digit_char(i as int) == (0x30 + i) as u8 as int);
            }
        }
        if !u {
            absent = false;
        }
        i += 1;
    }
    if absent {
        assert forall|j: int, e: CharIdxEntry| 0 <= j < 10 implies !#[trigger] slot_types(l@, e, digit_char(j)) by {
            assert(idx@[digit_char(j)] == Set::<CharIdxEntry>::empty());
            assert(!idx@[digit_char(j)].contains(e));
        }
        return Some((0, 0));
    }
    let ghost some_j = choose|j: int| 0 <= j < 10 && idx@[digit_char(j)] != Set::<CharIdxEntry>::empty();
    proof {
        let e = idx@[digit_char(some_j)].choose();
        assert(idx@[digit_char(some_j)].contains(e)) by {
            let s = idx@[digit_char(some_j)];
            if !s.contains(s.choose()) {
                assert(s =~= Set::<CharIdxEntry>::empty());
            }
        }
        assert(slot_types(l@, e, digit_char(some_j)));
    }
    let zero = idx.preferred(Win1252Char(0x30));
    let e0 = match zero {
        Some(e) => e,
        None => {
            proof {
                assert forall|nl: u8, row: int| (nl as int) < l@.len() implies !#[trigger] digits_at(l@, nl, row) by {
                    if digits_at(l@, nl, row) {
                        let e = CharIdxEntry { layer: nl, pos: num_pos(row, 0), shifted: false };
                        assert(slot_types(l@, e, digit_char(0)));
                        assert(idx@[0x30].contains(e));
                    }
                }
            }
            return None;
        },
    };
    let num_layer = e0.layer;
    let mut row: u8 = 0;
    while row < NUM_LAYOUTS
        invariant
            idx.wf(),
            index_matches(idx@, l@),
            layers_wf(l@),
            idx@[0x30].contains(e0),
            num_layer == e0.layer,
            0 <= row <= NUM_LAYOUTS,
            forall|r2: int| 0 <= r2 < row ==> !#[trigger] digits_at(l@, num_layer, r2),
        decreases NUM_LAYOUTS - row,
    {
        let mut ok = true;
        let mut i: u8 = 0;
        while i < 10
            invariant
                idx.wf(),
                index_matches(idx@, l@),
                0 <= row < NUM_LAYOUTS,
                0 <= i <= 10,
                ok == forall|j: int| 0 <= j < i ==> #[trigger] idx@[digit_char(j)] == Set::<CharIdxEntry>::empty().insert(
                    CharIdxEntry { layer: num_layer, pos: num_pos(row as int, j), shifted: false }),
            decreases 10 - i,
        {
            let pos = num_layout_pos(row, i);
            let only = idx.is_only(Win1252Char(0x30 + i), CharIdxEntry { layer: num_layer, pos, shifted: false });
            proof {
                assert(digit_char(i as int) == (0x30 + i) as u8 as int);
                if ok && only {
                    assert forall|j: int| 0 <= j < i + 1 implies #[trigger] idx@[digit_char(j)] == Set::<CharIdxEntry>::empty().insert(
                        CharIdxEntry { layer: num_layer, pos: num_pos(row as int, j), shifted: false }) by {
                    }
                }
            }
            if !only {
                ok = false;
            }
            i += 1;
        }
        proof {
            let want = |j: int| CharIdxEntry { layer: num_layer, pos: num_pos(row as int, j), shifted: false };
            if ok {
                assert forall|j: int, e: CharIdxEntry| 0 <= j < 10 implies
                    (#[trigger] slot_types(l@, e, digit_char(j)) <==> e == want(j)) by {
                    assert(idx@[digit_char(j)] == Set::<CharIdxEntry>::empty().insert(want(j)));
                    assert(idx@[digit_char(j)].contains(e) <==> slot_types(l@, e, digit_char(j)));
                }
                assert(slot_types(l@, e0, digit_char(0)));
                assert((num_layer as int) < l@.len());
                assert(digits_at(l@, num_layer, row as int));
            } else {
                let j = choose|j: int| 0 <= j < 10 && !(#[trigger] idx@[digit_char(j)] == Set::<CharIdxEntry>::empty().insert(want(j)));
                if digits_at(l@, num_layer, row as int) {
                    assert(idx@[digit_char(j)] =~= Set::<CharIdxEntry>::empty().insert(want(j))) by {
                        assert forall|e: CharIdxEntry| idx@[digit_char(j)].contains(e) <==> e == want(j) by {
                            assert(idx@[digit_char(j)].contains(e) <==> slot_types(l@, e, digit_char(j)));
                        }
                    }
                }
            }
        }
        if ok {
            return Some((num_layer, row));
        }
        row += 1;
    }
    proof {
        assert forall|nl: u8, r2: int| (nl as int) < l@.len() implies !#[trigger] digits_at(l@, nl, r2) by {
            if digits_at(l@, nl, r2) {
                assert(slot_types(l@, e0, digit_char(0)));
                assert(e0.layer == nl);
            }
        }
        assert(!digits_absent(l@)) by {
            let e = idx@[digit_char(some_j)].choose();
            assert(slot_types(l@, e, digit_char(some_j)));
        }
    }
    None
}

impl AnnotatedLayout {
    /// Builds the indices of a layout. Returns `None` exactly when the layout cannot carry
    /// consistent indices.
    pub fn new(layout: Layout) -> (r: Option<AnnotatedLayout>)
        ensures
            r is None <==> !annotatable(layout@),
            r matches Some(a) ==> a.wf() && a@.layout == layout@ && a@.digits_arranged(),
    {
        if !check_shape(&layout) {
            return None;
        }
        let (layer_idx, shift_idx) = match home_modifiers(&layout) {
            Some(m) => m,
            None => {
                return None;
            },
        };
        let char_idx = build_char_idx(&layout);
        let (num_layer, num_layout) = match find_num_layout(&char_idx, Ghost(layout@)) {
            Some(d) => d,
            None => {
                return None;
            },
        };
        Some(AnnotatedLayout { layout, char_idx, layer_idx, shift_idx, num_layout, num_layer })
    }
}

/// A layout together with lookup indices kept consistent with it.
pub struct AnnotatedLayout {
    layout: Layout,
    char_idx: CharIdx,
    layer_idx: Vec<u8>,
    shift_idx: Option<u8>,
    num_layout: u8,
    num_layer: u8,
}

impl View for AnnotatedLayout {
    type V = AnnotatedView;

    closed spec fn view(&self) -> AnnotatedView {
        AnnotatedView {
            layout: self.layout@,
            char_idx: self.char_idx@,
            layer_idx: self.layer_idx@,
            shift_idx: self.shift_idx,
            num_layout: self.num_layout,
            num_layer: self.num_layer,
        }
    }
}

impl AnnotatedLayout {
    pub closed spec fn inner_wf(&self) -> bool {
        self.char_idx.wf()
    }

    pub open spec fn wf(&self) -> bool {
        self.inner_wf() && self@.wf()
    }

    pub fn layout(&self) -> (r: &Layout)
        ensures
            r@ == self@.layout,
    {
        &self.layout
    }

    pub fn char_idx(&self) -> (r: &CharIdx)
        requires
            self.wf(),
        ensures
            r@ == self@.char_idx,
            r.wf(),
    {
        &self.char_idx
    }

    pub fn layer_idx(&self) -> (r: &Vec<u8>)
        ensures
            r@ == self@.layer_idx,
    {
        &self.layer_idx
    }

    pub fn shift_idx(&self) -> (r: Option<u8>)
        ensures
            r == self@.shift_idx,
    {
        self.shift_idx
    }

    pub fn num_layout(&self) -> (r: u8)
        ensures
            r == self@.num_layout,
    {
        self.num_layout
    }

    pub fn num_layer(&self) -> (r: u8)
        ensures
            r == self@.num_layer,
    {
        self.num_layer
    }

    pub fn num_layers(&self) -> (r: u8)
        requires
            self.wf(),
        ensures
            r == self@.layout.len(),
    {
        self.layout.layers.len() as u8
    }

    pub fn key_at(&self, layer: u8, pos: u8) -> (r: Key)
        requires
            self.wf(),
            layer < self@.layout.len(),
            pos < NUM_KEYS,
        ensures
            r == self@.layout[layer as int][pos as int],
    {
        self.layout.key_at(layer, pos)
    }

    /// Gives back the plain layout.
    pub fn into_layout(self) -> (r: Layout)
        ensures
            r@ == self@.layout,
    {
        self.layout
    }

    /// Exchanges the keys of slots `a` and `b`, keeping every index consistent.
    /// A layer-switch or shift key may only be moved within the home layer.
    #[verifier::rlimit(50)]
    pub fn swap(&mut self, a: (u8, u8), b: (u8, u8))
        requires
            old(self).wf(),
            (a.0 as int) < old(self)@.layout.len(),
            (b.0 as int) < old(self)@.layout.len(),
            a.1 < NUM_KEYS,
            b.1 < NUM_KEYS,
            old(self)@.layout[a.0 as int][a.1 as int].is_modifier() ==> b.0 == 0,
            old(self)@.layout[b.0 as int][b.1 as int].is_modifier() ==> a.0 == 0,
        ensures
            swap_allowed(old(self)@.layout, a, b),
            final(self).wf(),
            final(self)@.layout == swapped(old(self)@.layout, a, b),
            final(self)@.num_layout == old(self)@.num_layout,
            final(self)@.num_layer == old(self)@.num_layer,
            old(self)@.digits_arranged() && !types_digit(old(self)@.layout[a.0 as int][a.1 as int])
                && !types_digit(old(self)@.layout[b.0 as int][b.1 as int])
                ==> final(self)@.digits_arranged(),
    {
        let ghost l0 = self@.layout;
        if a.0 == b.0 && a.1 == b.1 {
            assert(l0[a.0 as int].update(a.1 as int, l0[a.0 as int][a.1 as int]) =~= l0[a.0 as int]);
            assert(l0.update(a.0 as int, l0[a.0 as int]) =~= l0);
            assert(swapped(l0, a, b) =~= l0);
            return;
        }
        let (la, pa) = a;
        let (lb, pb) = b;
        let ka = self.layout.key_at(la, pa);
        let kb = self.layout.key_at(lb, pb);
        let ea0 = CharIdxEntry { layer: la, pos: pa, shifted: false };
        let ea1 = CharIdxEntry { layer: la, pos: pa, shifted: true };
        let eb0 = CharIdxEntry { layer: lb, pos: pb, shifted: false };
        let eb1 = CharIdxEntry { layer: lb, pos: pb, shifted: true };
        // All old entries of both slots go before any new one is recorded, so that
        // two slots typing the same character are handled correctly.
        if let Some(c) = ka.typed_char(false) {
            self.char_idx.remove(c, ea0);
        }
        if let Some(c) = ka.typed_char(true) {
            self.char_idx.remove(c, ea1);
        }
        if let Some(c) = kb.typed_char(false) {
            self.char_idx.remove(c, eb0);
        }
        if let Some(c) = kb.typed_char(true) {
            self.char_idx.remove(c, eb1);
        }
        let ghost removed = self.char_idx@;
        proof {
            assert forall|c: int, e: CharIdxEntry| 0 <= c < 256 implies
                (#[trigger] removed[c].contains(e) <==> slot_types(l0, e, c) && e != ea0 && e != ea1 && e != eb0 && e != eb1) by {
                assert(slot_types(l0, e, c) ==> old(self)@.char_idx[c].contains(e));
            }
        }
        if let Some(c) = ka.typed_char(false) {
            self.char_idx.insert(c, eb0);
        }
        if let Some(c) = ka.typed_char(true) {
            self.char_idx.insert(c, eb1);
        }
        if let Some(c) = kb.typed_char(false) {
            self.char_idx.insert(c, ea0);
        }
        if let Some(c) = kb.typed_char(true) {
            self.char_idx.insert(c, ea1);
        }
        if let Key::Layer(n) = ka {
            self.layer_idx.set(n as usize, pb);
        }
        if let Key::Layer(n) = kb {
            self.layer_idx.set(n as usize, pa);
        }
        if let Key::Shift = ka {
            self.shift_idx = Some(pb);
        }
        if let Key::Shift = kb {
            self.shift_idx = Some(pa);
        }
        self.layout.set_key(la, pa, kb);
        self.layout.set_key(lb, pb, ka);
        proof {
            let l1 = self@.layout;
            assert(l1 =~= swapped(l0, a, b));
            if la != 0 {
                assert(!l0[la as int][pa as int].is_modifier());
            }
            if lb != 0 {
                assert(!l0[lb as int][pb as int].is_modifier());
            }
            assert(layers_wf(l1)) by {
                assert forall|i: int| 0 <= i < l1.len() implies #[trigger] l1[i].len() == NUM_KEYS by {
                    assert(l0[i].len() == NUM_KEYS);
                }
            }
            assert(index_matches(self@.char_idx, l1)) by {
                assert forall|c: int, e: CharIdxEntry| 0 <= c < 256 implies
                    (#[trigger] self@.char_idx[c].contains(e) <==> slot_types(l1, e, c)) by {
                    if e != ea0 && e != ea1 && e != eb0 && e != eb1 {
                        assert(removed[c].contains(e) <==> slot_types(l0, e, c));
                        if (e.layer as int) < l0.len() && (e.pos as int) < l0[e.layer as int].len() {
                            assert(l1[e.layer as int][e.pos as int] == l0[e.layer as int][e.pos as int]);
                        }
                    }
                }
            }
            lemma_swap_modifiers(l0, a, b, old(self)@.layer_idx, self@.layer_idx, old(self)@.shift_idx, self@.shift_idx);
            if old(self)@.digits_arranged() && !types_digit(ka) && !types_digit(kb) {
                assert forall|i: int, e: CharIdxEntry| 0 <= i < 10 implies
                    (#[trigger] slot_types(l1, e, digit_char(i)) <==> slot_types(l0, e, digit_char(i))) by {
                    if (e.layer == la && e.pos == pa) || (e.layer == lb && e.pos == pb) {
                        if slot_types(l1, e, digit_char(i)) {
                            assert(self@.char_idx[digit_char(i)].contains(e));
                        }
                        if slot_types(l0, e, digit_char(i)) {
                            assert(old(self)@.char_idx[digit_char(i)].contains(e));
                        }
                    } else if (e.layer as int) < l0.len() && (e.pos as int) < l0[e.layer as int].len() {
                        assert(l1[e.layer as int][e.pos as int] == l0[e.layer as int][e.pos as int]);
                    }
                }
            }
        }
    }
}

/// Where the key now at entry `e`'s slot was before slots `a` and `b` were exchanged.
pub open spec fn moved(a: (u8, u8), b: (u8, u8), e: CharIdxEntry) -> CharIdxEntry {
    if e.layer == a.0 && e.pos == a.1 {
        CharIdxEntry { layer: b.0, pos: b.1, shifted: e.shifted }
    } else if e.layer == b.0 && e.pos == b.1 {
        CharIdxEntry { layer: a.0, pos: a.1, shifted: e.shifted }
    } else {
        e
    }
}

proof fn lemma_swapped_slot_types(l: Seq<Seq<Key>>, a: (u8, u8), b: (u8, u8))
    requires
        layers_wf(l),
        (a.0 as int) < l.len(),
        (b.0 as int) < l.len(),
        a.1 < NUM_KEYS,
        b.1 < NUM_KEYS,
    ensures
        forall|e: CharIdxEntry, c: int| #[trigger] slot_types(swapped(l, a, b), e, c) == slot_types(l, moved(a, b, e), c),
{
    let l1 = swapped(l, a, b);
    assert forall|e: CharIdxEntry, c: int| #[trigger] slot_types(l1, e, c) == slot_types(l, moved(a, b, e), c) by {
        assert(l1.len() == l.len());
        if (e.layer as int) < l.len() {
            assert(l1[e.layer as int].len() == l[e.layer as int].len());
            assert(l[e.layer as int].len() == NUM_KEYS);
        }
    }
}

/// Where a key at position `x` goes when positions `p` and `q` are exchanged.
pub open spec fn swap_pos(p: u8, q: u8, x: u8) -> u8 {
    if x == p {
        q
    } else if x == q {
        p
    } else {
        x
    }
}

/// One layer with the keys at positions `p` and `q` exchanged.
pub open spec fn swap_layer(layer: Seq<Key>, p: u8, q: u8) -> Seq<Key> {
    layer.update(p as int, layer[q as int]).update(q as int, layer[p as int])
}

/// The positions of the ten digits in placement `row`.
pub open spec fn placement(row: int) -> Seq<u8> {
    Seq::new(10, |j: int| num_pos(row, j))
}

/// The digit layer after moving digits `i` to 9, now at positions `cur`, to placement `row`:
/// one exchange per digit, in digit order.
pub open spec fn switch_steps(layer: Seq<Key>, cur: Seq<u8>, row: int, i: int) -> Seq<Key>
    decreases 10 - i,
{
    if i < 0 || i >= 10 {
        layer
    } else {
        let p = cur[i];
        let q = num_pos(row, i);
        switch_steps(swap_layer(layer, p, q), Seq::new(10, |j: int| swap_pos(p, q, cur[j])), row, i + 1)
    }
}

impl AnnotatedLayout {
    /// Moves the ten digits, as a block, to canonical placement `new_layout` on their layer;
    /// keys of other layers stay where they are.
    pub fn switch_to_num_layout(&mut self, new_layout: u8)
        requires
            old(self).wf(),
            new_layout < NUM_LAYOUTS,
            (old(self)@.num_layer as int) < old(self)@.layout.len(),
            digits_at(old(self)@.layout, old(self)@.num_layer, old(self)@.num_layout as int),
        ensures
            final(self).wf(),
            final(self)@.num_layout == new_layout,
            final(self)@.num_layer == old(self)@.num_layer,
            final(self)@.layout.len() == old(self)@.layout.len(),
            digits_at(final(self)@.layout, final(self)@.num_layer, new_layout as int),
            final(self)@.layout[old(self)@.num_layer as int] == switch_steps(
                old(self)@.layout[old(self)@.num_layer as int],
                placement(old(self)@.num_layout as int),
                new_layout as int,
                0,
            ),
            forall|i: int| 0 <= i < old(self)@.layout.len() && i != old(self)@.num_layer ==>
                #[trigger] final(self)@.layout[i] == old(self)@.layout[i],
    {
        let nl = self.num_layer;
        let ghost l0 = self@.layout;
        let ghost mut cur: Seq<u8> = placement(old(self)@.num_layout as int);
        let mut i: u8 = 0;
        while i < 10
            invariant
                self.wf(),
                new_layout < NUM_LAYOUTS,
                self@.num_layer == nl,
                self@.num_layout == old(self)@.num_layout,
                (nl as int) < self@.layout.len(),
                self@.layout.len() == l0.len(),
                forall|k: int| 0 <= k < l0.len() && k != nl ==> #[trigger] self@.layout[k] == l0[k],
                switch_steps(l0[nl as int], placement(old(self)@.num_layout as int), new_layout as int, 0)
                    == switch_steps(self@.layout[nl as int], cur, new_layout as int, i as int),
                nl == old(self)@.num_layer,
                l0 == old(self)@.layout,
                0 <= i <= 10,
                cur.len() == 10,
                forall|j: int| 0 <= j < 10 ==> #[trigger] cur[j] < NUM_KEYS,
                forall|j: int, e: CharIdxEntry| 0 <= j < 10 ==> (#[trigger] slot_types(self@.layout, e, digit_char(j))
                    <==> e == CharIdxEntry { layer: nl, pos: cur[j], shifted: false }),
                forall|j: int| 0 <= j < i ==> #[trigger] cur[j] == num_pos(new_layout as int, j),
            decreases 10 - i,
        {
            let c = Win1252Char(0x30 + i);
            let ghost ci = digit_char(i as int);
            assert(ci == c.0 as int);
            let ghost want = CharIdxEntry { layer: nl, pos: cur[i as int], shifted: false };
            assert(slot_types(self@.layout, want, ci));
            let e = match self.char_idx.preferred(c) {
                Some(e) => e,
                None => {
                    assert(self@.char_idx[ci].contains(want));
                    return;
                },
            };
            assert(slot_types(self@.layout, e, ci));
            assert(e == want);
            let old_pos = e.pos;
            let new_pos = num_layout_pos(new_layout, i);
            proof {
                lemma_num_pos_distinct(new_layout as int, 0, 1);
                let l = self@.layout;
                assert(l[nl as int].len() == NUM_KEYS);
                assert(!l[nl as int][old_pos as int].is_modifier());
                if l[nl as int][new_pos as int].is_modifier() && nl != 0 {
                    assert(!l[nl as int][new_pos as int].is_modifier());
                }
            }
            let ghost l_before = self@.layout;
            self.swap((nl, old_pos), (nl, new_pos));
            proof {
                let a = (nl, old_pos);
                let b = (nl, new_pos);
                let l1 = self@.layout;
                lemma_swapped_slot_types(l_before, a, b);
                let mp = |p: u8| if p == old_pos { new_pos } else if p == new_pos { old_pos } else { p };
                let cur2 = Seq::new(10, |j: int| mp(cur[j]));
                assert(cur2 =~= Seq::new(10, |j: int| swap_pos(old_pos, new_pos, cur[j])));
                assert(l1[nl as int] =~= swap_layer(l_before[nl as int], old_pos, new_pos));
                assert(switch_steps(l_before[nl as int], cur, new_layout as int, i as int) == switch_steps(
                    l1[nl as int], cur2, new_layout as int, i as int + 1));
                assert forall|j: int, e2: CharIdxEntry| 0 <= j < 10 implies (#[trigger] slot_types(l1, e2, digit_char(j))
                    <==> e2 == CharIdxEntry { layer: nl, pos: cur2[j], shifted: false }) by {
                    assert(slot_types(l1, e2, digit_char(j)) == slot_types(l_before, moved(a, b, e2), digit_char(j)));
                }
                assert forall|j: int| 0 <= j < i + 1 implies #[trigger] cur2[j] == num_pos(new_layout as int, j) by {
                    if j < i {
                        lemma_num_pos_distinct(new_layout as int, j, i as int);
                        if cur[j] == old_pos {
                            let ej = CharIdxEntry { layer: nl, pos: cur[j], shifted: false };
                            assert(slot_types(l_before, ej, digit_char(j)));
                            assert(slot_types(l_before, ej, digit_char(i as int)));
                        }
                    }
                }
                assert forall|k: int| 0 <= k < l0.len() && k != nl implies #[trigger] l1[k] == l0[k] by {
                    assert(l1[k] == l_before[k]);
                }
                assert forall|j: int| 0 <= j < 10 implies #[trigger] cur2[j] < NUM_KEYS by {
                    lemma_num_pos_distinct(new_layout as int, i as int, if i == 0 { 1 } else { 0 });
                }
                cur = cur2;
            }
            i += 1;
        }
        self.num_layout = new_layout;
        proof {
            assert forall|j: int, e: CharIdxEntry| 0 <= j < 10 implies (#[trigger] slot_types(self@.layout, e, digit_char(j))
                <==> e == CharIdxEntry { layer: nl, pos: num_pos(new_layout as int, j), shifted: false }) by {
                assert(cur[j] == num_pos(new_layout as int, j));
            }
        }
    }
}

/// The exchanges, in order, that move digits `i` to 9 from positions `cur` to placement `row`.
pub open spec fn switch_pairs(cur: Seq<u8>, row: int, i: int) -> Seq<(u8, u8)>
    decreases 10 - i,
{
    if i < 0 || i >= 10 {
        Seq::empty()
    } else {
        let p = cur[i];
        let q = num_pos(row, i);
        seq![(p, q)] + switch_pairs(Seq::new(10, |j: int| swap_pos(p, q, cur[j])), row, i + 1)
    }
}

/// A layer after the exchanges `ps`, in order.
pub open spec fn apply_swaps(layer: Seq<Key>, ps: Seq<(u8, u8)>) -> Seq<Key>
    decreases ps.len(),
{
    if ps.len() == 0 {
        layer
    } else {
        apply_swaps(swap_layer(layer, ps[0].0, ps[0].1), ps.drop_first())
    }
}

pub open spec fn pairs_in_layer(ps: Seq<(u8, u8)>) -> bool {
    forall|k: int| 0 <= k < ps.len() ==> (#[trigger] ps[k]).0 < NUM_KEYS && ps[k].1 < NUM_KEYS
}

proof fn lemma_switch_pairs(layer: Seq<Key>, cur: Seq<u8>, row: int, i: int)
    requires
        0 <= row < NUM_LAYOUTS,
        cur.len() == 10,
        forall|j: int| 0 <= j < 10 ==> #[trigger] cur[j] < 30,
    ensures
        switch_steps(layer, cur, row, i) == apply_swaps(layer, switch_pairs(cur, row, i)),
        pairs_in_layer(switch_pairs(cur, row, i)),
    decreases 10 - i,
{
    if 0 <= i < 10 {
        let p = cur[i];
        let q = num_pos(row, i);
        lemma_num_pos_distinct(row, i, if i == 0 { 1 } else { 0 });
        let cur2 = Seq::new(10, |j: int| swap_pos(p, q, cur[j]));
        lemma_switch_pairs(swap_layer(layer, p, q), cur2, row, i + 1);
        let ps = switch_pairs(cur, row, i);
        assert(ps == seq![(p, q)] + switch_pairs(cur2, row, i + 1));
        assert(ps.drop_first() =~= switch_pairs(cur2, row, i + 1));
        assert forall|k: int| 0 <= k < ps.len() implies (#[trigger] ps[k]).0 < NUM_KEYS && ps[k].1 < NUM_KEYS by {
            if k > 0 {
                assert(ps[k] == switch_pairs(cur2, row, i + 1)[k - 1]);
            }
        }
    }
}

proof fn lemma_apply_swaps_push(layer: Seq<Key>, ps: Seq<(u8, u8)>, a: (u8, u8))
    ensures
        apply_swaps(layer, ps.push(a)) == swap_layer(apply_swaps(layer, ps), a.0, a.1),
    decreases ps.len(),
{
    if ps.len() == 0 {
        reveal_with_fuel(apply_swaps, 2);
        assert(ps.push(a).drop_first() =~= Seq::<(u8, u8)>::empty());
    } else {
        assert(ps.push(a).drop_first() =~= ps.drop_first().push(a));
        lemma_apply_swaps_push(swap_layer(layer, ps[0].0, ps[0].1), ps.drop_first(), a);
    }
}

/// Undoing exchanges in reverse order restores the layer.
pub proof fn lemma_apply_swaps_reverse(layer: Seq<Key>, ps: Seq<(u8, u8)>)
    requires
        layer.len() == NUM_KEYS,
        pairs_in_layer(ps),
    ensures
        apply_swaps(apply_swaps(layer, ps), ps.reverse()) == layer,
    decreases ps.len(),
{
    if ps.len() > 0 {
        let a = ps[0];
        let rest = ps.drop_first();
        let l1 = swap_layer(layer, a.0, a.1);
        assert(pairs_in_layer(rest)) by {
            assert forall|k: int| 0 <= k < rest.len() implies (#[trigger] rest[k]).0 < NUM_KEYS && rest[k].1 < NUM_KEYS by {
                assert(rest[k] == ps[k + 1]);
            }
        }
        lemma_apply_swaps_reverse(l1, rest);
        assert(ps.reverse() =~= rest.reverse().push(a));
        lemma_apply_swaps_push(apply_swaps(layer, ps), rest.reverse(), a);
        assert(apply_swaps(layer, ps) == apply_swaps(l1, rest));
        assert(ps[0].0 < NUM_KEYS && ps[0].1 < NUM_KEYS);
        assert(swap_layer(l1, a.0, a.1) =~= layer);
    }
}

proof fn lemma_placement_small(row: int)
    requires
        0 <= row < NUM_LAYOUTS,
    ensures
        placement(row).len() == 10,
        forall|j: int| 0 <= j < 10 ==> #[trigger] placement(row)[j] < 30,
{
    assert forall|j: int| 0 <= j < 10 implies #[trigger] placement(row)[j] < 30 by {
        lemma_num_pos_distinct(row, j, if j == 0 { 1 } else { 0 });
    }
}

/// The exchanges of a switch from placement `from` to placement `to`.
pub open spec fn switch_swaps(from: int, to: int) -> Seq<(u8, u8)> {
    switch_pairs(placement(from), to, 0)
}

/// Switching from placement `from` to `to`, then replaying its exchanges backwards, restores
/// the digit layer.
pub proof fn lemma_switch_undone(layer: Seq<Key>, from: int, to: int)
    requires
        layer.len() == NUM_KEYS,
        0 <= from < NUM_LAYOUTS,
        0 <= to < NUM_LAYOUTS,
    ensures
        apply_swaps(switch_steps(layer, placement(from), to, 0), switch_swaps(from, to).reverse()) == layer,
        pairs_in_layer(switch_swaps(from, to)),
        switch_swaps(from, to).len() == 10,
{
    lemma_placement_small(from);
    lemma_switch_pairs(layer, placement(from), to, 0);
    lemma_apply_swaps_reverse(layer, switch_swaps(from, to));
    lemma_switch_pairs_len(placement(from), to, 0);
}

proof fn lemma_switch_pairs_len(cur: Seq<u8>, row: int, i: int)
    requires
        0 <= i <= 10,
    ensures
        switch_pairs(cur, row, i).len() == 10 - i,
    decreases 10 - i,
{
    if i < 10 {
        let p = cur[i];
        let q = num_pos(row, i);
        lemma_switch_pairs_len(Seq::new(10, |j: int| swap_pos(p, q, cur[j])), row, i + 1);
    }
}

/// The exchanges of a switch from placement `from` to placement `to`.
fn switch_exchanges(from: u8, to: u8) -> (r: Vec<(u8, u8)>)
    requires
        from < NUM_LAYOUTS,
        to < NUM_LAYOUTS,
    ensures
        r@ == switch_swaps(from as int, to as int),
{
    let mut cur: Vec<u8> = Vec::new();
    let mut j: u8 = 0;
    while j < 10
        invariant
            from < NUM_LAYOUTS,
            0 <= j <= 10,
            cur@ =~= placement(from as int).take(j as int),
        decreases 10 - j,
    {
        cur.push(num_layout_pos(from, j));
        j += 1;
    }
    assert(placement(from as int).take(10) =~= placement(from as int));
    let mut out: Vec<(u8, u8)> = Vec::new();
    let mut i: u8 = 0;
    assert(out@ + switch_pairs(cur@, to as int, 0) =~= switch_swaps(from as int, to as int));
    while i < 10
        invariant
            to < NUM_LAYOUTS,
            0 <= i <= 10,
            cur@.len() == 10,
            out@ + switch_pairs(cur@, to as int, i as int) == switch_swaps(from as int, to as int),
        decreases 10 - i,
    {
        let p = cur[i as usize];
        let q = num_layout_pos(to, i);
        let ghost old_cur = cur@;
        let ghost old_out = out@;
        let mut k: usize = 0;
        while k < 10
            invariant
                0 <= k <= 10,
                cur@.len() == 10,
                forall|m: int| 0 <= m < k ==> #[trigger] cur@[m] == swap_pos(p, q, old_cur[m]),
                forall|m: int| k <= m < 10 ==> #[trigger] cur@[m] == old_cur[m],
            decreases 10 - k,
        {
            let x = cur[k];
            let y = if x == p {
                q
            } else if x == q {
                p
            } else {
                x
            };
            cur.set(k, y);
            k += 1;
        }
        out.push((p, q));
        proof {
            assert(cur@ =~= Seq::new(10, |m: int| swap_pos(p, q, old_cur[m])));
            let rest = switch_pairs(cur@, to as int, i as int + 1);
            assert(switch_pairs(old_cur, to as int, i as int) == seq![(p, q)] + rest);
            assert(old_out + (seq![(p, q)] + rest) =~= out@ + rest);
        }
        i += 1;
    }
    assert(out@ + switch_pairs(cur@, to as int, 10) =~= out@);
    out
}

impl AnnotatedLayout {
    /// Undoes a switch of the digits from placement `from` to the current one, by replaying
    /// that switch's exchanges in reverse order.
    pub fn unswitch_num_layout(&mut self, from: u8)
        requires
            old(self).wf(),
            from < NUM_LAYOUTS,
            old(self)@.num_layout < NUM_LAYOUTS,
            (old(self)@.num_layer as int) < old(self)@.layout.len(),
        ensures
            final(self).wf(),
            final(self)@.num_layout == from,
            final(self)@.num_layer == old(self)@.num_layer,
            final(self)@.layout.len() == old(self)@.layout.len(),
            forall|i: int| 0 <= i < old(self)@.layout.len() && i != old(self)@.num_layer ==>
                #[trigger] final(self)@.layout[i] == old(self)@.layout[i],
            final(self)@.layout[old(self)@.num_layer as int] == apply_swaps(
                old(self)@.layout[old(self)@.num_layer as int],
                switch_swaps(from as int, old(self)@.num_layout as int).reverse(),
            ),
    {
        let nl = self.num_layer;
        let ghost l0 = self@.layout;
        let ghost y = l0[nl as int];
        let pairs = switch_exchanges(from, self.num_layout);
        let ghost rev = pairs@.reverse();
        proof {
            lemma_switch_undone(y, from as int, old(self)@.num_layout as int);
            assert(apply_swaps(y, rev.take(0)) == y) by {
                assert(rev.take(0) =~= Seq::<(u8, u8)>::empty());
            }
        }
        let mut k: usize = 10;
        while k > 0
            invariant
                self.wf(),
                pairs@.len() == 10,
                rev == pairs@.reverse(),
                pairs_in_layer(pairs@),
                0 <= k <= 10,
                self@.num_layer == nl,
                self@.num_layout == old(self)@.num_layout,
                (nl as int) < self@.layout.len(),
                self@.layout.len() == l0.len(),
                y == l0[nl as int],
                forall|m: int| 0 <= m < l0.len() && m != nl ==> #[trigger] self@.layout[m] == l0[m],
                self@.layout[nl as int] == apply_swaps(y, rev.take(10 - k)),
            decreases k,
        {
            let (p, q) = pairs[k - 1];
            assert(pairs@[k - 1] == (p, q));
            let ghost l = self@.layout;
            proof {
                assert(l[nl as int].len() == NUM_KEYS);
                if nl != 0 {
                    assert(!l[nl as int][p as int].is_modifier());
                    assert(!l[nl as int][q as int].is_modifier());
                }
            }
            self.swap((nl, p), (nl, q));
            proof {
                let m = 10 - k;
                assert(rev[m] == (p, q));
                assert(rev.take(m + 1) =~= rev.take(m).push((p, q)));
                lemma_apply_swaps_push(y, rev.take(m), (p, q));
                assert(self@.layout[nl as int] =~= swap_layer(l[nl as int], p, q));
                assert forall|i: int| 0 <= i < l0.len() && i != nl implies #[trigger] self@.layout[i] == l0[i] by {
                    assert(self@.layout[i] == l[i]);
                }
            }
            k -= 1;
        }
        self.num_layout = from;
        assert(rev.take(10) =~= rev);
    }
}

} // verus!
