//! A set of rows, kept in order.

use vstd::prelude::*;

use crate::patch::PatchFlip;

verus! {

/// Whether `a` comes before `b`: by layer, then by projection, then by row.
pub open spec fn row_before(a: PatchFlip, b: PatchFlip) -> bool {
    if a.layer != b.layer {
        a.layer < b.layer
    } else if a.proj != b.proj {
        a.proj.place() < b.proj.place()
    } else {
        a.row < b.row
    }
}

fn projection_place(flip: PatchFlip) -> (r: u8)
    ensures
        r == flip.proj.place(),
{
    match flip.proj {
        crate::architecture::Projection::Gate => 0,
        crate::architecture::Projection::Up => 1,
        crate::architecture::Projection::Down => 2,
    }
}

fn is_row_before(a: PatchFlip, b: PatchFlip) -> (r: bool)
    ensures
        r == row_before(a, b),
{
    if a.layer != b.layer {
        a.layer < b.layer
    } else if a.proj != b.proj {
        projection_place(a) < projection_place(b)
    } else {
        a.row < b.row
    }
}

/// The rows stand in order, each once.
pub open spec fn ascending(flips: Seq<PatchFlip>) -> bool {
    forall|i: int, j: int|
        0 <= i < j < flips.len() ==> row_before(#[trigger] flips[i], #[trigger] flips[j])
}

/// A set of rows.
#[derive(Debug, PartialEq, Eq)]
pub struct FlipSet {
    flips: Vec<PatchFlip>,
}

impl View for FlipSet {
    type V = Set<PatchFlip>;

    closed spec fn view(&self) -> Set<PatchFlip> {
        self.flips@.to_set()
    }
}

impl FlipSet {
    #[verifier::type_invariant]
    spec fn kept_in_order(self) -> bool {
        ascending(self.flips@)
    }

    pub fn new() -> (r: FlipSet)
        ensures
            r@ == Set::<PatchFlip>::empty(),
    {
        let r = FlipSet { flips: Vec::new() };
        assert(r@ =~= Set::<PatchFlip>::empty());
        r
    }

    /// How many rows come before `flip`.
    fn rank(&self, flip: PatchFlip) -> (r: usize)
        requires
            self.kept_in_order(),
        ensures
            r <= self.flips@.len(),
            forall|i: int| 0 <= i < r ==> row_before(#[trigger] self.flips@[i], flip),
            forall|i: int|
                r <= i < self.flips@.len() ==> !row_before(#[trigger] self.flips@[i], flip),
    {
        let mut low: usize = 0;
        let mut high: usize = self.flips.len();
        while low < high
            invariant
                low <= high <= self.flips@.len(),
                self.kept_in_order(),
                forall|i: int| 0 <= i < low ==> row_before(#[trigger] self.flips@[i], flip),
                forall|i: int|
                    high <= i < self.flips@.len() ==> !row_before(
                        #[trigger] self.flips@[i],
                        flip,
                    ),
            decreases high - low,
        {
            let middle: usize = low + (high - low) / 2;
            if is_row_before(self.flips[middle], flip) {
                assert forall|i: int| 0 <= i < middle + 1 implies row_before(
                    #[trigger] self.flips@[i],
                    flip,
                ) by {
                    if i < middle {
                        assert(row_before(self.flips@[i], self.flips@[middle as int]));
                    }
                }
                low = middle + 1;
            } else {
                assert forall|i: int| middle <= i < self.flips@.len() implies !row_before(
                    #[trigger] self.flips@[i],
                    flip,
                ) by {
                    if i > middle {
                        assert(row_before(self.flips@[middle as int], self.flips@[i]));
                    }
                }
                high = middle;
            }
        }
        low
    }

    pub fn contains(&self, flip: PatchFlip) -> (r: bool)
        ensures
            r == self@.contains(flip),
    {
        proof {
            use_type_invariant(self);
        }
        let at: usize = self.rank(flip);
        if at < self.flips.len() && self.flips[at] == flip {
            assert(self.flips@.contains(flip));
            true
        } else {
            proof {
                if self.flips@.contains(flip) {
                    let i = choose|i: int| 0 <= i < self.flips@.len() && self.flips@[i] == flip;
                    if i > at {
                        assert(row_before(self.flips@[at as int], self.flips@[i]));
                    }
                }
            }
            false
        }
    }

    /// Takes a row into the set.
    pub fn insert(&mut self, flip: PatchFlip)
        ensures
            final(self)@ == old(self)@.insert(flip),
    {
        proof {
            use_type_invariant(&*self);
        }
        let at: usize = self.rank(flip);
        let ghost before = self.flips@;
        if at < self.flips.len() && self.flips[at] == flip {
            assert(before.contains(flip));
            assert(self@ =~= old(self)@.insert(flip));
            return;
        }
        let mut flips: Vec<PatchFlip> = Vec::new();
        std::mem::swap(&mut flips, &mut self.flips);
        flips.insert(at, flip);
        let ghost after = flips@;
        proof {
            assert(after == before.insert(at as int, flip));
            assert forall|i: int, j: int| 0 <= i < j < after.len() implies row_before(
                #[trigger] after[i],
                #[trigger] after[j],
            ) by {
                let a = if i < at {
                    i
                } else {
                    i - 1
                };
                let b = if j < at {
                    j
                } else {
                    j - 1
                };
                if i != at && j != at {
                    assert(after[i] == before[a] && after[j] == before[b]);
                    assert(row_before(before[a], before[b]));
                } else if i == at {
                    assert(after[j] == before[b]);
                    assert(!row_before(before[b], flip));
                    if b > at {
                        assert(row_before(before[at as int], before[b]));
                    }
                } else {
                    assert(after[i] == before[a]);
                }
            }
            assert forall|x: PatchFlip| #[trigger] after.contains(x) == old(self)@.insert(
                flip,
            ).contains(x) by {
                if before.contains(x) {
                    let i = choose|i: int| 0 <= i < before.len() && before[i] == x;
                    if i < at {
                        assert(after[i] == x);
                    } else {
                        assert(after[i + 1] == x);
                    }
                }
                if x == flip {
                    assert(after[at as int] == x);
                }
                if after.contains(x) {
                    let i = choose|i: int| 0 <= i < after.len() && after[i] == x;
                    if i < at {
                        assert(before[i] == x);
                    } else if i > at {
                        assert(before[i - 1] == x);
                    }
                }
            }
            assert(after.to_set() =~= old(self)@.insert(flip));
        }
        self.flips = flips;
    }

    /// Flips a row: it leaves the set, or joins it.
    pub fn toggle(&mut self, flip: PatchFlip)
        ensures
            final(self)@ == crate::patch::toggled(old(self)@, flip),
    {
        if !self.contains(flip) {
            self.insert(flip);
            return;
        }
        proof {
            use_type_invariant(&*self);
        }
        let at: usize = self.rank(flip);
        let ghost before = self.flips@;
        let ghost found = choose|i: int| 0 <= i < before.len() && before[i] == flip;
        proof {
            if found > at {
                assert(row_before(before[at as int], before[found]));
            }
            assert(found == at);
        }
        let mut flips: Vec<PatchFlip> = Vec::new();
        std::mem::swap(&mut flips, &mut self.flips);
        flips.remove(at);
        let ghost after = flips@;
        proof {
            assert(after == before.remove(at as int));
            assert forall|i: int, j: int| 0 <= i < j < after.len() implies row_before(
                #[trigger] after[i],
                #[trigger] after[j],
            ) by {
                let a = if i < at {
                    i
                } else {
                    i + 1
                };
                let b = if j < at {
                    j
                } else {
                    j + 1
                };
                assert(row_before(before[a], before[b]));
            }
            assert forall|x: PatchFlip| #[trigger] after.contains(x) == old(self)@.remove(
                flip,
            ).contains(x) by {
                if before.contains(x) && x != flip {
                    let i = choose|i: int| 0 <= i < before.len() && before[i] == x;
                    if i < at {
                        assert(after[i] == x);
                    } else {
                        assert(after[i - 1] == x);
                    }
                }
                if after.contains(x) {
                    let i = choose|i: int| 0 <= i < after.len() && after[i] == x;
                    if i < at {
                        assert(before[i] == x);
                        assert(row_before(before[i], before[at as int]));
                    } else {
                        assert(before[i + 1] == x);
                        assert(row_before(before[at as int], before[i + 1]));
                    }
                }
            }
            assert(after.to_set() =~= old(self)@.remove(flip));
        }
        self.flips = flips;
    }

    /// The set of the rows of a list.
    pub fn of(flips: &[PatchFlip]) -> (r: FlipSet)
        ensures
            r@ == flips@.to_set(),
    {
        let mut out: FlipSet = FlipSet::new();
        let mut next: usize = 0;
        assert(flips@.take(0).to_set() =~= Set::<PatchFlip>::empty());
        while next < flips.len()
            invariant
                next <= flips@.len(),
                out@ == flips@.take(next as int).to_set(),
            decreases flips@.len() - next,
        {
            out.insert(flips[next]);
            proof {
                let less = flips@.take(next as int);
                let more = flips@.take(next + 1);
                assert forall|x: PatchFlip| more.contains(x) == (less.contains(x) || x
                    == flips@[next as int]) by {
                    if less.contains(x) {
                        let i = choose|i: int| 0 <= i < less.len() && less[i] == x;
                        assert(more[i] == x);
                    }
                    if x == flips@[next as int] {
                        assert(more[next as int] == x);
                    }
                    if more.contains(x) {
                        let i = choose|i: int| 0 <= i < more.len() && more[i] == x;
                        if i < next {
                            assert(less[i] == x);
                        }
                    }
                }
                assert(more.to_set() =~= less.to_set().insert(flips@[next as int]));
            }
            next = next + 1;
        }
        assert(flips@.take(next as int) =~= flips@);
        out
    }

    /// The number of rows in the set.
    pub fn len(&self) -> (r: usize)
        ensures
            r == self@.len(),
            self@.finite(),
    {
        proof {
            use_type_invariant(self);
            self.lemma_unique();
        }
        self.flips.len()
    }

    /// The rows of the set, in order.
    pub fn as_slice(&self) -> (r: &[PatchFlip])
        ensures
            r@.to_set() == self@,
            ascending(r@),
    {
        proof {
            use_type_invariant(self);
        }
        self.flips.as_slice()
    }

    proof fn lemma_unique(&self)
        requires
            self.kept_in_order(),
        ensures
            self@.len() == self.flips@.len(),
            self@.finite(),
    {
        assert forall|i: int, j: int|
            0 <= i < self.flips@.len() && 0 <= j < self.flips@.len() && i
                != j implies self.flips@[i] != self.flips@[j] by {
            if i < j {
                assert(row_before(self.flips@[i], self.flips@[j]));
            } else {
                assert(row_before(self.flips@[j], self.flips@[i]));
            }
        }
        assert(self.flips@.no_duplicates());
        self.flips@.unique_seq_to_set();
    }
}

impl Clone for FlipSet {
    fn clone(&self) -> (r: FlipSet)
        ensures
            r@ == self@,
    {
        proof {
            use_type_invariant(self);
        }
        let mut flips: Vec<PatchFlip> = Vec::new();
        let mut next: usize = 0;
        while next < self.flips.len()
            invariant
                next <= self.flips@.len(),
                flips@ == self.flips@.take(next as int),
            decreases self.flips@.len() - next,
        {
            flips.push(self.flips[next]);
            next = next + 1;
            assert(flips@ =~= self.flips@.take(next as int));
        }
        assert(flips@ =~= self.flips@);
        FlipSet { flips }
    }
}

} // verus!
