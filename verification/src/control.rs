//! The run-state machine that gates the pipeline, and the random seeding of
//! the initial population.

use vstd::prelude::*;
use crate::grid::GridPosition;
use crate::live::LiveSet;

verus! {

/// Side of the initial square of cells that seeding fills.
pub const INITIAL_GRID_DIM: i16 = 512;

/// Run state of the simulation: freshly reset, stepping, or frozen.
#[derive(Clone, Debug, PartialEq, Eq, Structural)]
pub enum AppState {
    Init,
    Running,
    Paused,
}

/// The pause toggle: flips between running and paused, and does nothing
/// before the first seeding.
pub fn toggle_pause(state: &AppState) -> (r: AppState)
    ensures
        *state == AppState::Running ==> r == AppState::Paused,
        *state == AppState::Paused ==> r == AppState::Running,
        *state == AppState::Init ==> r == AppState::Init,
{
    match state {
        AppState::Running => AppState::Paused,
        AppState::Paused => AppState::Running,
        AppState::Init => AppState::Init,
    }
}

/// The reset request: returns to the initial state from anywhere, so that
/// the next tick reseeds the grid.
pub fn reset(state: &AppState) -> (r: AppState)
    ensures
        r == AppState::Init,
{
    let _ = state;
    AppState::Init
}

/// The pipeline runs only while the simulation is in the running state;
/// while paused or unseeded it stays frozen.
pub fn should_step(state: &AppState) -> (r: bool)
    ensures
        r <==> *state == AppState::Running,
{
    match state {
        AppState::Running => true,
        _ => false,
    }
}

/// Relies on rand::random: draws one value of the given type from the
/// thread-local generator; nothing can be promised of the outcome.
pub assume_specification<T>[ rand::random::<T> ]() -> (r: T)
    where
        rand::distributions::Standard: rand::distributions::Distribution<T>,
;

/// The cell lies in the `dim`-wide square of lattice points centred on the
/// origin that seeding draws from.
pub open spec fn within_square(c: (int, int), dim: int) -> bool {
    &&& -(dim / 2) <= c.0 < dim - dim / 2
    &&& -(dim / 2) <= c.1 < dim - dim / 2
}

/// Seed the initial population: every cell of the `dim`-wide square centred
/// on the origin is independently alive or dead as a random draw falls.
pub fn seed_grid(dim: i16) -> (r: LiveSet)
    requires
        0 <= dim,
    ensures
        r.wf(),
        r.all_in_bounds(),
        forall|c: (int, int)| #[trigger] r@.contains(c) ==> within_square(c, dim as int),
{
    let half: i16 = dim / 2;
    let mut r = LiveSet::new();
    let mut i: i16 = 0;
    while i < dim
        invariant
            0 <= i <= dim,
            half == dim as int / 2,
            r.wf(),
            r.all_in_bounds(),
            forall|c: (int, int)| #[trigger] r@.contains(c) ==> within_square(c, dim as int),
        decreases dim - i,
    {
        let mut j: i16 = 0;
        while j < dim
            invariant
                0 <= i < dim,
                0 <= j <= dim,
                half == dim as int / 2,
                r.wf(),
                r.all_in_bounds(),
                forall|c: (int, int)| #[trigger] r@.contains(c) ==> within_square(c, dim as int),
            decreases dim - j,
        {
            if !rand::random::<bool>() {
                let pos = GridPosition { x: i - half, y: j - half };
                r.insert(pos);
            }
            j += 1;
        }
        i += 1;
    }
    r
}

/// The first seeding (and every reseeding after a reset): fill the initial
/// square at random and start the simulation running.
pub fn init_grid(dim: i16) -> (r: (LiveSet, AppState))
    requires
        0 <= dim,
    ensures
        r.0.wf(),
        r.0.all_in_bounds(),
        forall|c: (int, int)| #[trigger] r.0@.contains(c) ==> within_square(c, dim as int),
        r.1 == AppState::Running,
{
    (seed_grid(dim), AppState::Running)
}

} // verus!
