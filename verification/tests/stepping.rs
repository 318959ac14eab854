use sparse_life::control::AppState;
use sparse_life::control::INITIAL_GRID_DIM;
use sparse_life::control::init_grid;
use sparse_life::control::reset;
use sparse_life::control::seed_grid;
use sparse_life::control::should_step;
use sparse_life::control::toggle_pause;
use sparse_life::engine::step;
use sparse_life::grid::GridPosition;
use sparse_life::live::LiveSet;
use sparse_life::rules::GameRules;
use sparse_life::rules::WORLD_RADIUS;
use sparse_life::rules::WorldBound;

fn pos(x: i16, y: i16) -> GridPosition {
    GridPosition { x, y }
}

fn live_set(cells: &[(i16, i16)]) -> LiveSet {
    let mut live = LiveSet::new();
    for &(x, y) in cells {
        live.insert(pos(x, y));
    }
    live
}

fn conway() -> GameRules {
    GameRules { lower: 2, upper: 3 }
}

fn wide_bound() -> WorldBound {
    WorldBound { radius: WORLD_RADIUS }
}

#[test]
fn block_of_four_is_stable() {
    let live = live_set(&[(0, 0), (1, 0), (0, 1), (1, 1)]);
    let outcome = step(&live, &conway(), &wide_bound());
    assert_eq!(outcome.births.len(), 0);
    assert_eq!(outcome.deaths.len(), 0);
    assert_eq!(outcome.next.len(), 4);
    assert!(outcome.next.contains(&pos(0, 0)));
    assert!(outcome.next.contains(&pos(1, 0)));
    assert!(outcome.next.contains(&pos(0, 1)));
    assert!(outcome.next.contains(&pos(1, 1)));
}

#[test]
fn isolated_cell_dies() {
    let live = live_set(&[(5, 5)]);
    let outcome = step(&live, &conway(), &wide_bound());
    assert!(outcome.deaths.contains(&pos(5, 5)));
    assert_eq!(outcome.deaths.len(), 1);
    assert_eq!(outcome.births.len(), 0);
    assert_eq!(outcome.next.len(), 0);
}

#[test]
fn cell_beyond_radius_dies_despite_good_count() {
    // A stable block, but placed beyond a tight world bound.
    let live = live_set(&[(100, 100), (101, 100), (100, 101), (101, 101)]);
    let outcome = step(&live, &conway(), &WorldBound { radius: 10 });
    assert_eq!(outcome.deaths.len(), 4);
    assert!(outcome.deaths.contains(&pos(100, 100)));
    assert!(outcome.deaths.contains(&pos(101, 100)));
    assert!(outcome.deaths.contains(&pos(100, 101)));
    assert!(outcome.deaths.contains(&pos(101, 101)));
    assert_eq!(outcome.next.len(), 0);
}

#[test]
fn birth_needs_exactly_the_upper_bound() {
    // (1, 1) borders three live cells: born.
    // (1, -1) borders two and (-1, 2) borders one: not born.
    let live = live_set(&[(0, 0), (1, 0), (0, 1)]);
    let outcome = step(&live, &conway(), &wide_bound());
    assert!(outcome.births.contains(&pos(1, 1)));
    assert_eq!(outcome.births.len(), 1);
    assert!(!outcome.births.contains(&pos(1, -1)));
    assert!(!outcome.births.contains(&pos(-1, 2)));
}

#[test]
fn four_neighbors_is_one_too_many_for_birth() {
    // (1, 1) borders all four live cells of the diamond: not born.
    let live = live_set(&[(0, 1), (1, 0), (1, 2), (2, 1)]);
    let outcome = step(&live, &conway(), &wide_bound());
    assert!(!outcome.births.contains(&pos(1, 1)));
}

#[test]
fn no_live_cell_is_born_and_no_dead_cell_is_killed() {
    let live = live_set(&[(0, 0), (1, 0), (0, 1), (4, 4)]);
    let outcome = step(&live, &conway(), &wide_bound());
    for i in 0..4i16 {
        for j in 0..4i16 {
            let p = pos(i - 2, j - 2);
            if live.contains(&p) {
                assert!(!outcome.births.contains(&p));
            } else {
                assert!(!outcome.deaths.contains(&p));
            }
            assert!(!(outcome.births.contains(&p) && outcome.deaths.contains(&p)));
        }
    }
}

#[test]
fn blinker_turns_over() {
    let live = live_set(&[(-1, 0), (0, 0), (1, 0)]);
    let outcome = step(&live, &conway(), &wide_bound());
    assert!(outcome.deaths.contains(&pos(-1, 0)));
    assert!(outcome.deaths.contains(&pos(1, 0)));
    assert_eq!(outcome.deaths.len(), 2);
    assert!(outcome.births.contains(&pos(0, 1)));
    assert!(outcome.births.contains(&pos(0, -1)));
    assert_eq!(outcome.births.len(), 2);
    assert_eq!(outcome.next.len(), 3);
    assert!(outcome.next.contains(&pos(0, 0)));
    assert!(outcome.next.contains(&pos(0, 1)));
    assert!(outcome.next.contains(&pos(0, -1)));
}

#[test]
fn pause_toggles_between_running_and_paused() {
    assert_eq!(toggle_pause(&AppState::Running), AppState::Paused);
    assert_eq!(toggle_pause(&AppState::Paused), AppState::Running);
    assert_eq!(toggle_pause(&AppState::Init), AppState::Init);
}

#[test]
fn reset_returns_to_init_from_anywhere() {
    assert_eq!(reset(&AppState::Running), AppState::Init);
    assert_eq!(reset(&AppState::Paused), AppState::Init);
    assert_eq!(reset(&AppState::Init), AppState::Init);
}

#[test]
fn only_the_running_state_steps() {
    assert!(should_step(&AppState::Running));
    assert!(!should_step(&AppState::Paused));
    assert!(!should_step(&AppState::Init));
}

#[test]
fn seeding_stays_inside_the_initial_square() {
    let live = seed_grid(8);
    for x in -4i16..4 {
        for y in -4i16..4 {
            // Inside the square membership is up to the random draw; the
            // point is that nothing outside it is ever alive.
            let _ = live.contains(&pos(x, y));
        }
    }
    for i in 0..live.len() {
        let p = live.index(i);
        assert!(-4 <= p.x && p.x < 4);
        assert!(-4 <= p.y && p.y < 4);
    }
    assert!(seed_grid(0).len() == 0);
}

#[test]
fn init_seeds_and_starts_running() {
    let (live, state) = init_grid(16);
    assert_eq!(state, AppState::Running);
    for i in 0..live.len() {
        let p = live.index(i);
        assert!(-8 <= p.x && p.x < 8);
        assert!(-8 <= p.y && p.y < 8);
    }
    assert!(INITIAL_GRID_DIM > 0);
}
