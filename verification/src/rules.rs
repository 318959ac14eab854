//! The fixed rule of the automaton and the world bound that caps growth.

use vstd::prelude::*;
use crate::counts::NeighborCounts;
use crate::grid::GridPosition;

verus! {

/// Distance from the origin beyond which cells are unconditionally removed,
/// whatever their neighbor count. A safety valve against unbounded growth,
/// not part of the rule itself.
pub const WORLD_RADIUS: u32 = 1_000_000;

/// The survival band: a live cell survives exactly when its neighbor count
/// lies in `lower ..= upper`, and a dead cell is born exactly when its count
/// equals `upper`.
pub struct GameRules {
    pub lower: u8,
    pub upper: u8,
}

impl GameRules {
    /// The band is ordered and fits the eight-neighbor grid.
    pub open spec fn wf(&self) -> bool {
        self.lower <= self.upper <= 8
    }
}

/// Maximum allowed distance from the origin.
pub struct WorldBound {
    pub radius: u32,
}

/// The cell lies at Euclidean distance strictly greater than `radius` from
/// the origin.
pub open spec fn beyond_bound(c: (int, int), radius: int) -> bool {
    c.0 * c.0 + c.1 * c.1 > radius * radius
}

impl WorldBound {
    /// Whether the cell lies outside the bound.
    pub fn exceeded_by(&self, pos: &GridPosition) -> (r: bool)
        ensures
            r == beyond_bound(pos@, self.radius as int),
    {
        let x: i64 = pos.x as i64;
        let y: i64 = pos.y as i64;
        proof {
            assert(0 <= x * x <= 0x4000_0000 && 0 <= y * y <= 0x4000_0000) by (nonlinear_arith)
                requires
                    -0x8000 <= x <= 0x8000,
                    -0x8000 <= y <= 0x8000,
            ;
        }
        let dist2: i64 = x * x + y * y;
        let r64: u64 = self.radius as u64;
        proof {
            assert(r64 * r64 <= u64::MAX) by (nonlinear_arith)
                requires
                    0 <= r64 <= 0xffff_ffffu64,
            ;
        }
        (dist2 as u64) > r64 * r64
    }
}

/// The cell at `c` fails the survival band of the counts table `m`: it has
/// no entry (meaning zero live neighbors), or its count lies outside
/// `lower ..= upper`.
pub open spec fn dead_spec(c: (int, int), m: Map<(int, int), u8>, lower: u8, upper: u8) -> bool {
    ||| !m.contains_key(c)
    ||| m[c] < lower
    ||| m[c] > upper
}

/// Whether the rule denies survival to the cell at `pos`: no recorded
/// neighbor count, or one outside the survival band.
pub fn dead(pos: &GridPosition, neighbors: &NeighborCounts, lower: u8, upper: u8) -> (r: bool)
    requires
        neighbors.wf(),
    ensures
        r == dead_spec(pos@, neighbors@, lower, upper),
{
    match neighbors.get(pos) {
        Some(count) => count < lower || count > upper,
        None => true,
    }
}

} // verus!
