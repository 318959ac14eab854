//! The live-cell set: every currently alive cell, unique by value.

use vstd::prelude::*;
use crate::grid::GridPosition;
use crate::grid::in_bounds;

verus! {

/// The set of lattice points that a sequence of positions covers.
pub open spec fn pts_of(s: Seq<GridPosition>) -> Set<(int, int)> {
    Set::new(|c: (int, int)| exists|i: int| 0 <= i < s.len() && (#[trigger] s[i])@ == c)
}

/// Pushing one more position covers exactly one more lattice point.
pub proof fn lemma_pts_push(s: Seq<GridPosition>, p: GridPosition)
    ensures
        pts_of(s.push(p)) == pts_of(s).insert(p@),
{
    assert forall|c: (int, int)| pts_of(s.push(p)).contains(c) implies pts_of(s).insert(
        p@,
    ).contains(c) by {
        let i = choose|i: int| 0 <= i < s.push(p).len() && (#[trigger] s.push(p)[i])@ == c;
        if i < s.len() {
            assert(s[i]@ == c);
        }
    }
    assert forall|c: (int, int)| pts_of(s).insert(p@).contains(c) implies pts_of(
        s.push(p),
    ).contains(c) by {
        if c == p@ {
            assert(s.push(p)[s.len() as int]@ == c);
        } else {
            let i = choose|i: int| 0 <= i < s.len() && (#[trigger] s[i])@ == c;
            assert(s.push(p)[i]@ == c);
        }
    }
    assert(pts_of(s.push(p)) =~= pts_of(s).insert(p@));
}

/// Taking one more element of the sequence covers exactly one more point.
pub proof fn lemma_pts_take_step(s: Seq<GridPosition>, i: int)
    requires
        0 <= i < s.len(),
    ensures
        pts_of(s.take(i + 1)) == pts_of(s.take(i)).insert(s[i]@),
{
    assert(s.take(i + 1) =~= s.take(i).push(s[i]));
    lemma_pts_push(s.take(i), s[i]);
}

/// Every currently alive cell, unique by value; insertion order carries no
/// meaning. The view is the set of covered lattice points.
#[derive(Debug)]
pub struct LiveSet {
    cells: Vec<GridPosition>,
}

impl View for LiveSet {
    type V = Set<(int, int)>;

    open spec fn view(&self) -> Set<(int, int)> {
        pts_of(self.cells_seq())
    }
}

impl LiveSet {
    /// The stored positions, in insertion order.
    pub closed spec fn cells_seq(&self) -> Seq<GridPosition> {
        self.cells@
    }

    /// No two stored positions name the same cell.
    pub open spec fn wf(&self) -> bool {
        forall|i: int, j: int|
            0 <= i < j < self.cells_seq().len() ==> (#[trigger] self.cells_seq()[i])@ != (
            #[trigger] self.cells_seq()[j])@
    }

    /// Every live cell leaves room for one more step in each direction.
    pub open spec fn all_in_bounds(&self) -> bool {
        forall|c: (int, int)| #[trigger] self@.contains(c) ==> in_bounds(c)
    }

    /// An empty live set.
    pub fn new() -> (r: LiveSet)
        ensures
            r.wf(),
            r@ == Set::<(int, int)>::empty(),
            r.cells_seq().len() == 0,
    {
        let r = LiveSet { cells: Vec::new() };
        proof {
            assert(r@ =~= Set::<(int, int)>::empty());
        }
        r
    }

    /// How many cells are alive.
    pub fn len(&self) -> (r: usize)
        ensures
            r == self.cells_seq().len(),
    {
        self.cells.len()
    }

    /// The stored position at the given index.
    pub fn index(&self, i: usize) -> (r: GridPosition)
        requires
            i < self.cells_seq().len(),
        ensures
            r == self.cells_seq()[i as int],
            self@.contains(r@),
    {
        self.cells[i]
    }

    /// Whether the cell at `p` is alive.
    pub fn contains(&self, p: &GridPosition) -> (r: bool)
        ensures
            r == self@.contains(p@),
    {
        let mut i: usize = 0;
        while i < self.cells.len()
            invariant
                i <= self.cells@.len(),
                forall|j: int| 0 <= j < i ==> (#[trigger] self.cells@[j])@ != p@,
            decreases self.cells@.len() - i,
        {
            if self.cells[i].x == p.x && self.cells[i].y == p.y {
                return true;
            }
            i += 1;
        }
        false
    }

    /// Add a cell known to be absent.
    pub fn push_new(&mut self, p: GridPosition)
        requires
            old(self).wf(),
            !old(self)@.contains(p@),
        ensures
            final(self).wf(),
            final(self)@ == old(self)@.insert(p@),
            final(self).cells_seq() == old(self).cells_seq().push(p),
    {
        proof {
            lemma_pts_push(self.cells@, p);
        }
        self.cells.push(p);
    }

    /// Add a cell, leaving the set unchanged when it is already alive.
    pub fn insert(&mut self, p: GridPosition)
        requires
            old(self).wf(),
        ensures
            final(self).wf(),
            final(self)@ == old(self)@.insert(p@),
            old(self).all_in_bounds() && in_bounds(p@) ==> final(self).all_in_bounds(),
    {
        if !self.contains(&p) {
            self.push_new(p);
        } else {
            proof {
                assert(self@ =~= self@.insert(p@));
            }
        }
    }

    /// Whether every live cell is strictly inside the coordinate range.
    pub fn check_in_bounds(&self) -> (r: bool)
        ensures
            r == self.all_in_bounds(),
    {
        let mut i: usize = 0;
        while i < self.cells.len()
            invariant
                i <= self.cells@.len(),
                forall|j: int| 0 <= j < i ==> in_bounds((#[trigger] self.cells@[j])@),
            decreases self.cells@.len() - i,
        {
            let c = self.cells[i];
            if !(i16::MIN < c.x && c.x < i16::MAX && i16::MIN < c.y && c.y < i16::MAX) {
                assert(self@.contains(c@));
                return false;
            }
            i += 1;
        }
        true
    }
}

} // verus!
