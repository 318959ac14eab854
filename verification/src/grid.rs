//! Positions on the integer lattice, the eight compass directions, and the
//! mathematical model of live-neighbor counting.

use vstd::prelude::*;

verus! {

/// Distance between adjacent cells on the lattice.
pub const CELL_SIZE: i16 = 1;

/// A cell of the unbounded integer grid, identified by its coordinates alone.
#[derive(Clone, Copy, PartialEq, Eq, Structural, Hash, Debug)]
pub struct GridPosition {
    pub x: i16,
    pub y: i16,
}

/// One of the eight compass offsets a cell can be shifted by.
#[derive(Clone, Copy, Debug)]
pub enum Direction {
    NorthWest,
    North,
    NorthEast,
    East,
    SouthEast,
    South,
    SouthWest,
    West,
}

impl View for GridPosition {
    type V = (int, int);

    open spec fn view(&self) -> (int, int) {
        (self.x as int, self.y as int)
    }
}

/// The lattice point one step from `c` in direction `d`.
pub open spec fn offset_pt(c: (int, int), d: Direction) -> (int, int) {
    match d {
        Direction::NorthWest => (c.0 - 1, c.1 + 1),
        Direction::North => (c.0, c.1 + 1),
        Direction::NorthEast => (c.0 + 1, c.1 + 1),
        Direction::East => (c.0 + 1, c.1),
        Direction::SouthEast => (c.0 + 1, c.1 - 1),
        Direction::South => (c.0, c.1 - 1),
        Direction::SouthWest => (c.0 - 1, c.1 - 1),
        Direction::West => (c.0 - 1, c.1),
    }
}

/// Both coordinates leave room for one more step in every direction, so the
/// eight offsets of the cell are all representable.
pub open spec fn in_bounds(c: (int, int)) -> bool {
    &&& i16::MIN < c.0 < i16::MAX
    &&& i16::MIN < c.1 < i16::MAX
}

/// `p` is one of the eight cells bordering `q`.
pub open spec fn is_neighbor(p: (int, int), q: (int, int)) -> bool {
    &&& p != q
    &&& -1 <= p.0 - q.0 <= 1
    &&& -1 <= p.1 - q.1 <= 1
}

/// 1 when the cell `(x, y)` is live in `s`, else 0.
pub open spec fn occ(s: Set<(int, int)>, x: int, y: int) -> nat {
    if s.contains((x, y)) {
        1
    } else {
        0
    }
}

/// How many of the eight cells bordering `c` are live in `s`.
pub open spec fn neighbor_count(s: Set<(int, int)>, c: (int, int)) -> nat {
    occ(s, c.0 - 1, c.1 + 1) + occ(s, c.0, c.1 + 1) + occ(s, c.0 + 1, c.1 + 1) + occ(
        s,
        c.0 - 1,
        c.1,
    ) + occ(s, c.0 + 1, c.1) + occ(s, c.0 - 1, c.1 - 1) + occ(s, c.0, c.1 - 1) + occ(
        s,
        c.0 + 1,
        c.1 - 1,
    )
}

/// The eight directions in a fixed order, for walking all offsets of a cell.
pub open spec fn direction_index(j: int) -> Direction {
    if j == 0 {
        Direction::NorthWest
    } else if j == 1 {
        Direction::North
    } else if j == 2 {
        Direction::NorthEast
    } else if j == 3 {
        Direction::East
    } else if j == 4 {
        Direction::SouthEast
    } else if j == 5 {
        Direction::South
    } else if j == 6 {
        Direction::SouthWest
    } else {
        Direction::West
    }
}

/// The direction at the given place in the fixed order.
pub fn direction_of(j: usize) -> (d: Direction)
    requires
        j < 8,
    ensures
        d == direction_index(j as int),
{
    if j == 0 {
        Direction::NorthWest
    } else if j == 1 {
        Direction::North
    } else if j == 2 {
        Direction::NorthEast
    } else if j == 3 {
        Direction::East
    } else if j == 4 {
        Direction::SouthEast
    } else if j == 5 {
        Direction::South
    } else if j == 6 {
        Direction::SouthWest
    } else {
        Direction::West
    }
}

/// `c` is one of the first `t` offsets of `p` in the fixed direction order.
pub open spec fn key_slot(p: (int, int), c: (int, int), t: int) -> bool {
    exists|j: int| 0 <= j < t && c == offset_pt(p, #[trigger] direction_index(j))
}

/// Different directions shift a cell to different neighbors.
pub proof fn lemma_offsets_distinct(p: (int, int), j1: int, j2: int)
    requires
        0 <= j1 < 8,
        0 <= j2 < 8,
        j1 != j2,
    ensures
        offset_pt(p, direction_index(j1)) != offset_pt(p, direction_index(j2)),
{
}

/// The neighbors of `p` are exactly its eight offsets.
pub proof fn lemma_neighbor_iff_offset(p: (int, int), c: (int, int))
    ensures
        is_neighbor(c, p) <==> key_slot(p, c, 8),
        is_neighbor(p, c) <==> key_slot(p, c, 8),
{
    if is_neighbor(c, p) || is_neighbor(p, c) {
        let dx = c.0 - p.0;
        let dy = c.1 - p.1;
        if dx == -1 && dy == 1 {
            assert(c == offset_pt(p, direction_index(0)));
        } else if dx == 0 && dy == 1 {
            assert(c == offset_pt(p, direction_index(1)));
        } else if dx == 1 && dy == 1 {
            assert(c == offset_pt(p, direction_index(2)));
        } else if dx == 1 && dy == 0 {
            assert(c == offset_pt(p, direction_index(3)));
        } else if dx == 1 && dy == -1 {
            assert(c == offset_pt(p, direction_index(4)));
        } else if dx == 0 && dy == -1 {
            assert(c == offset_pt(p, direction_index(5)));
        } else if dx == -1 && dy == -1 {
            assert(c == offset_pt(p, direction_index(6)));
        } else {
            assert(c == offset_pt(p, direction_index(7)));
        }
    }
    if key_slot(p, c, 8) {
        let j = choose|j: int| 0 <= j < 8 && c == offset_pt(p, #[trigger] direction_index(j));
    }
}

/// Walking one more direction covers exactly one more offset.
pub proof fn lemma_key_slot_step(p: (int, int), c: (int, int), t: int)
    requires
        0 <= t,
    ensures
        key_slot(p, c, t + 1) <==> (key_slot(p, c, t) || c == offset_pt(p, direction_index(t))),
{
    if key_slot(p, c, t + 1) {
        let j = choose|j: int| 0 <= j < t + 1 && c == offset_pt(p, #[trigger] direction_index(j));
        if j < t {
            assert(key_slot(p, c, t));
        }
    }
    if key_slot(p, c, t) {
        let j = choose|j: int| 0 <= j < t && c == offset_pt(p, #[trigger] direction_index(j));
        assert(0 <= j < t + 1 && c == offset_pt(p, direction_index(j)));
    }
    if c == offset_pt(p, direction_index(t)) {
        assert(0 <= t < t + 1 && c == offset_pt(p, direction_index(t)));
    }
}

/// A cell has at most eight live neighbors, whatever the live set.
pub proof fn lemma_count_bound(s: Set<(int, int)>, c: (int, int))
    ensures
        neighbor_count(s, c) <= 8,
{
}

/// Adding a fresh live cell raises the count of exactly its eight neighbors,
/// each by one.
pub proof fn lemma_count_insert(s: Set<(int, int)>, p: (int, int), c: (int, int))
    requires
        !s.contains(p),
    ensures
        neighbor_count(s.insert(p), c) == neighbor_count(s, c) + (if is_neighbor(p, c) {
            1int
        } else {
            0int
        }),
{
}

/// Removing a live cell lowers the count of exactly its eight neighbors,
/// each by one.
pub proof fn lemma_count_remove(s: Set<(int, int)>, p: (int, int), c: (int, int))
    requires
        s.contains(p),
    ensures
        neighbor_count(s, c) == neighbor_count(s.remove(p), c) + (if is_neighbor(p, c) {
            1int
        } else {
            0int
        }),
{
    assert(s =~= s.remove(p).insert(p));
    lemma_count_insert(s.remove(p), p, c);
}

/// Neighbor symmetry: adjacency is mutual, and when two adjacent cells are
/// both live, each contributes exactly one to the other's neighbor count.
pub proof fn lemma_neighbor_symmetry(s: Set<(int, int)>, p: (int, int), q: (int, int))
    requires
        is_neighbor(p, q),
        s.contains(p),
        s.contains(q),
    ensures
        is_neighbor(q, p),
        neighbor_count(s, q) == neighbor_count(s.remove(p), q) + 1,
        neighbor_count(s, p) == neighbor_count(s.remove(q), p) + 1,
{
    lemma_count_remove(s, p, q);
    lemma_count_remove(s, q, p);
}

impl GridPosition {
    /// The neighboring cell one step away in the given direction.
    pub fn offset(&self, direction: &Direction) -> (r: GridPosition)
        requires
            in_bounds(self@),
        ensures
            r@ == offset_pt(self@, *direction),
    {
        match direction {
            Direction::NorthWest => GridPosition { x: self.x - CELL_SIZE, y: self.y + CELL_SIZE },
            Direction::North => GridPosition { x: self.x, y: self.y + CELL_SIZE },
            Direction::NorthEast => GridPosition { x: self.x + CELL_SIZE, y: self.y + CELL_SIZE },
            Direction::East => GridPosition { x: self.x + CELL_SIZE, y: self.y },
            Direction::SouthEast => GridPosition { x: self.x + CELL_SIZE, y: self.y - CELL_SIZE },
            Direction::South => GridPosition { x: self.x, y: self.y - CELL_SIZE },
            Direction::SouthWest => GridPosition { x: self.x - CELL_SIZE, y: self.y - CELL_SIZE },
            Direction::West => GridPosition { x: self.x - CELL_SIZE, y: self.y },
        }
    }
}

} // verus!
