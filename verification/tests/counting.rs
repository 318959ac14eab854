use sparse_life::counts::NeighborCounts;
use sparse_life::counts::count_neighbors;
use sparse_life::counts::increment_neighbor_count;
use sparse_life::grid::Direction;
use sparse_life::grid::GridPosition;
use sparse_life::live::LiveSet;
use sparse_life::rules::WorldBound;
use sparse_life::rules::dead;

fn pos(x: i16, y: i16) -> GridPosition {
    GridPosition { x, y }
}

fn live_set(cells: &[(i16, i16)]) -> LiveSet {
    let mut live = LiveSet::new();
    for &(x, y) in cells {
        live.insert(pos(x, y));
    }
    live
}

#[test]
fn offset_reaches_all_eight_neighbors() {
    let p = pos(0, 0);
    assert_eq!(p.offset(&Direction::NorthWest), pos(-1, 1));
    assert_eq!(p.offset(&Direction::North), pos(0, 1));
    assert_eq!(p.offset(&Direction::NorthEast), pos(1, 1));
    assert_eq!(p.offset(&Direction::East), pos(1, 0));
    assert_eq!(p.offset(&Direction::SouthEast), pos(1, -1));
    assert_eq!(p.offset(&Direction::South), pos(0, -1));
    assert_eq!(p.offset(&Direction::SouthWest), pos(-1, -1));
    assert_eq!(p.offset(&Direction::West), pos(-1, 0));
}

#[test]
fn increment_enters_then_raises_a_count() {
    let mut counts = NeighborCounts::new();
    let origin = pos(0, 0);
    increment_neighbor_count(&mut counts, &origin, Direction::North);
    assert_eq!(counts.get(&pos(0, 1)), Some(1));
    increment_neighbor_count(&mut counts, &origin, Direction::North);
    assert_eq!(counts.get(&pos(0, 1)), Some(2));
    assert_eq!(counts.get(&pos(0, -1)), None);
}

#[test]
fn two_adjacent_cells_count_each_other_once() {
    let live = live_set(&[(0, 0), (1, 0)]);
    let counts = count_neighbors(&live);
    assert_eq!(counts.get(&pos(0, 0)), Some(1));
    assert_eq!(counts.get(&pos(1, 0)), Some(1));
    assert_eq!(counts.get(&pos(0, 1)), Some(2));
    assert_eq!(counts.get(&pos(1, 1)), Some(2));
    assert_eq!(counts.get(&pos(-1, 0)), Some(1));
    assert_eq!(counts.get(&pos(5, 5)), None);
}

#[test]
fn full_ring_gives_count_eight() {
    let live = live_set(&[
        (-1, -1),
        (-1, 0),
        (-1, 1),
        (0, -1),
        (0, 1),
        (1, -1),
        (1, 0),
        (1, 1),
    ]);
    let counts = count_neighbors(&live);
    assert_eq!(counts.get(&pos(0, 0)), Some(8));
}

#[test]
fn every_recorded_count_is_between_one_and_eight() {
    let live = live_set(&[
        (-1, -1),
        (-1, 0),
        (-1, 1),
        (0, -1),
        (0, 0),
        (0, 1),
        (1, -1),
        (1, 0),
        (1, 1),
    ]);
    let counts = count_neighbors(&live);
    assert!(counts.len() > 0);
    for i in 0..counts.len() {
        let (_, count) = counts.entry(i);
        assert!(1 <= count && count <= 8);
    }
}

#[test]
fn counting_twice_yields_identical_tables() {
    let live = live_set(&[(0, 0), (1, 0), (0, 1), (3, -2), (-4, 7)]);
    let first = count_neighbors(&live);
    let second = count_neighbors(&live);
    assert_eq!(first, second);
}

#[test]
fn absence_means_dead_and_band_is_inclusive() {
    let live = live_set(&[(0, 0), (1, 0), (0, 1)]);
    let counts = count_neighbors(&live);
    // (0, 0) has two live neighbors: inside the 2..=3 band.
    assert!(!dead(&pos(0, 0), &counts, 2, 3));
    // A cell with no entry is dead however lax the band.
    assert!(dead(&pos(9, 9), &counts, 0, 8));
    // (2, 2) has no live neighbor and no entry.
    assert!(dead(&pos(2, 2), &counts, 2, 3));
    // (1, 1) has three live neighbors: above a 1..=2 band, below a 4..=8 band.
    assert!(dead(&pos(1, 1), &counts, 1, 2));
    assert!(dead(&pos(1, 1), &counts, 4, 8));
    assert!(!dead(&pos(1, 1), &counts, 3, 3));
}

#[test]
fn world_bound_compares_squared_distance_exactly() {
    let bound = WorldBound { radius: 100 };
    assert!(!bound.exceeded_by(&pos(100, 0)));
    assert!(bound.exceeded_by(&pos(101, 0)));
    assert!(!bound.exceeded_by(&pos(60, 80)));
    assert!(bound.exceeded_by(&pos(60, 81)));
    let tight = WorldBound { radius: 0 };
    assert!(!tight.exceeded_by(&pos(0, 0)));
    assert!(tight.exceeded_by(&pos(0, 1)));
}

#[test]
fn live_set_deduplicates_and_answers_membership() {
    let mut live = LiveSet::new();
    live.insert(pos(2, 3));
    live.insert(pos(2, 3));
    live.insert(pos(-2, -3));
    assert_eq!(live.len(), 2);
    assert!(live.contains(&pos(2, 3)));
    assert!(live.contains(&pos(-2, -3)));
    assert!(!live.contains(&pos(3, 2)));
}
