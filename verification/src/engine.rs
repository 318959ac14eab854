//! The rule evaluator and the per-step transition: which cells are born,
//! which are killed, and the live set that results.

use vstd::prelude::*;
use crate::counts::NeighborCounts;
use crate::counts::counts_for;
use crate::counts::count_neighbors;
use crate::counts::lemma_entries_map_at;
use crate::counts::lemma_entries_map_dom;
use crate::grid::neighbor_count;
use crate::live::LiveSet;
use crate::rules::GameRules;
use crate::rules::WorldBound;
use crate::rules::beyond_bound;
use crate::rules::dead;

verus! {

/// The cells that a step births: dead cells whose live-neighbor count is
/// positive and exactly the upper bound of the rule.
pub open spec fn birth_spec(live: Set<(int, int)>, rules: GameRules) -> Set<(int, int)> {
    Set::new(
        |c: (int, int)|
            neighbor_count(live, c) > 0 && neighbor_count(live, c) == rules.upper
                && !live.contains(c),
    )
}

/// A live cell dies when it lies beyond the world bound, or its neighbor
/// count is zero (no entry in the table) or outside the survival band.
pub open spec fn should_die(
    c: (int, int),
    live: Set<(int, int)>,
    rules: GameRules,
    bound: WorldBound,
) -> bool {
    ||| beyond_bound(c, bound.radius as int)
    ||| neighbor_count(live, c) == 0
    ||| neighbor_count(live, c) < rules.lower
    ||| neighbor_count(live, c) > rules.upper
}

/// The cells that a step kills: live cells that fail the survival test.
pub open spec fn kill_spec(
    live: Set<(int, int)>,
    rules: GameRules,
    bound: WorldBound,
) -> Set<(int, int)> {
    Set::new(|c: (int, int)| live.contains(c) && should_die(c, live, rules, bound))
}

/// Birth/death disjointness: no cell is both born and killed in one step,
/// no live cell is born, and only live cells are killed.
pub proof fn lemma_birth_kill_disjoint(live: Set<(int, int)>, rules: GameRules, bound: WorldBound)
    ensures
        birth_spec(live, rules).disjoint(kill_spec(live, rules, bound)),
        birth_spec(live, rules).disjoint(live),
        kill_spec(live, rules, bound).subset_of(live),
{
}

/// Isolated-cell death: a live cell with no live neighbor is killed,
/// wherever it lies and whatever the rule.
pub proof fn lemma_isolated_cell_dies(
    live: Set<(int, int)>,
    rules: GameRules,
    bound: WorldBound,
    c: (int, int),
)
    requires
        live.contains(c),
        neighbor_count(live, c) == 0,
    ensures
        kill_spec(live, rules, bound).contains(c),
{
}

/// Radius cutoff: a live cell beyond the world bound is killed, whatever
/// its neighbor count.
pub proof fn lemma_radius_cutoff(
    live: Set<(int, int)>,
    rules: GameRules,
    bound: WorldBound,
    c: (int, int),
)
    requires
        live.contains(c),
        beyond_bound(c, bound.radius as int),
    ensures
        kill_spec(live, rules, bound).contains(c),
{
}

/// Birth exactness: a dead cell is born exactly when its live-neighbor
/// count equals the rule's upper bound; any other count, one below or one
/// above included, leaves it dead.
pub proof fn lemma_birth_exactness(live: Set<(int, int)>, rules: GameRules, c: (int, int))
    requires
        !live.contains(c),
        rules.upper >= 1,
    ensures
        neighbor_count(live, c) == rules.upper ==> birth_spec(live, rules).contains(c),
        neighbor_count(live, c) != rules.upper ==> !birth_spec(live, rules).contains(c),
{
}

/// The birth decision: every cell of the counts table whose count equals
/// the rule's upper bound and which is not already alive.
pub fn birth_set(counts: &NeighborCounts, live: &LiveSet, rules: &GameRules) -> (r: LiveSet)
    requires
        counts.wf(),
        live.wf(),
        counts_for(counts@, live@),
    ensures
        r.wf(),
        r@ == birth_spec(live@, *rules),
{
    let mut r = LiveSet::new();
    let n = counts.len();
    let mut i: usize = 0;
    while i < n
        invariant
            n == counts.entries_seq().len(),
            i <= n,
            counts.wf(),
            live.wf(),
            counts_for(counts@, live@),
            r.wf(),
            forall|c: (int, int)| #[trigger]
                r@.contains(c) ==> counts@.contains_key(c) && counts@[c] == rules.upper
                    && !live@.contains(c),
            forall|c: (int, int)| #[trigger]
                r@.contains(c) ==> exists|j: int|
                    0 <= j < i && (#[trigger] counts.entries_seq()[j]).0@ == c,
            forall|j: int|
                0 <= j < i && (#[trigger] counts.entries_seq()[j]).1 == rules.upper
                    && !live@.contains(counts.entries_seq()[j].0@) ==> r@.contains(
                    counts.entries_seq()[j].0@,
                ),
        decreases n - i,
    {
        let e = counts.entry(i);
        if e.1 == rules.upper && !live.contains(&e.0) {
            proof {
                if r@.contains(e.0@) {
                    let j = choose|j: int|
                        0 <= j < i && (#[trigger] counts.entries_seq()[j]).0@ == e.0@;
                    assert(false);
                }
            }
            r.push_new(e.0);
        }
        i += 1;
    }
    proof {
        assert forall|c: (int, int)| birth_spec(live@, *rules).contains(c) implies r@.contains(
            c,
        ) by {
            lemma_entries_map_dom(counts.entries_seq(), c);
            let j = choose|j: int|
                0 <= j < counts.entries_seq().len() && (#[trigger] counts.entries_seq()[j]).0@
                    == c;
            lemma_entries_map_at(counts.entries_seq(), j);
        }
        assert(r@ =~= birth_spec(live@, *rules));
    }
    r
}

/// The death decision: every live cell that lies beyond the world bound or
/// whose neighbor count falls outside the survival band.
pub fn kill_set(
    live: &LiveSet,
    counts: &NeighborCounts,
    rules: &GameRules,
    bound: &WorldBound,
) -> (r: LiveSet)
    requires
        live.wf(),
        counts.wf(),
        counts_for(counts@, live@),
    ensures
        r.wf(),
        r@ == kill_spec(live@, *rules, *bound),
{
    let mut r = LiveSet::new();
    let n = live.len();
    let mut i: usize = 0;
    while i < n
        invariant
            n == live.cells_seq().len(),
            i <= n,
            live.wf(),
            counts.wf(),
            counts_for(counts@, live@),
            r.wf(),
            forall|c: (int, int)| #[trigger]
                r@.contains(c) ==> live@.contains(c) && should_die(c, live@, *rules, *bound),
            forall|c: (int, int)| #[trigger]
                r@.contains(c) ==> exists|j: int|
                    0 <= j < i && (#[trigger] live.cells_seq()[j])@ == c,
            forall|j: int|
                0 <= j < i && should_die((#[trigger] live.cells_seq()[j])@, live@, *rules, *bound)
                    ==> r@.contains(live.cells_seq()[j]@),
        decreases n - i,
    {
        let p = live.index(i);
        let doomed = bound.exceeded_by(&p) || dead(&p, counts, rules.lower, rules.upper);
        proof {
            assert(doomed == should_die(p@, live@, *rules, *bound));
        }
        if doomed {
            proof {
                if r@.contains(p@) {
                    let j = choose|j: int|
                        0 <= j < i && (#[trigger] live.cells_seq()[j])@ == p@;
                    assert(false);
                }
            }
            r.push_new(p);
        }
        i += 1;
    }
    proof {
        assert forall|c: (int, int)|
            kill_spec(live@, *rules, *bound).contains(c) implies r@.contains(c) by {
            let j = choose|j: int|
                0 <= j < live.cells_seq().len() && (#[trigger] live.cells_seq()[j])@ == c;
        }
        assert(r@ =~= kill_spec(live@, *rules, *bound));
    }
    r
}

/// Replace the dying cells by the newborn ones: the next live set is the
/// old one less the deaths, plus the births.
pub fn apply_step(live: &LiveSet, births: &LiveSet, deaths: &LiveSet) -> (r: LiveSet)
    requires
        live.wf(),
        births.wf(),
        deaths.wf(),
        births@.disjoint(live@),
    ensures
        r.wf(),
        r@ == live@.difference(deaths@).union(births@),
{
    let mut r = LiveSet::new();
    let n = live.len();
    let mut i: usize = 0;
    while i < n
        invariant
            n == live.cells_seq().len(),
            i <= n,
            live.wf(),
            deaths.wf(),
            r.wf(),
            forall|c: (int, int)| #[trigger]
                r@.contains(c) ==> live@.contains(c) && !deaths@.contains(c),
            forall|c: (int, int)| #[trigger]
                r@.contains(c) ==> exists|j: int|
                    0 <= j < i && (#[trigger] live.cells_seq()[j])@ == c,
            forall|j: int|
                0 <= j < i && !deaths@.contains((#[trigger] live.cells_seq()[j])@)
                    ==> r@.contains(live.cells_seq()[j]@),
        decreases n - i,
    {
        let p = live.index(i);
        if !deaths.contains(&p) {
            proof {
                if r@.contains(p@) {
                    let j = choose|j: int|
                        0 <= j < i && (#[trigger] live.cells_seq()[j])@ == p@;
                    assert(false);
                }
            }
            r.push_new(p);
        }
        i += 1;
    }
    proof {
        assert forall|c: (int, int)|
            live@.difference(deaths@).contains(c) implies r@.contains(c) by {
            let j = choose|j: int|
                0 <= j < live.cells_seq().len() && (#[trigger] live.cells_seq()[j])@ == c;
        }
        assert(r@ =~= live@.difference(deaths@));
    }
    let m = births.len();
    let mut i2: usize = 0;
    while i2 < m
        invariant
            m == births.cells_seq().len(),
            i2 <= m,
            live.wf(),
            births.wf(),
            births@.disjoint(live@),
            r.wf(),
            forall|c: (int, int)| #[trigger]
                r@.contains(c) ==> live@.difference(deaths@).contains(c) || exists|j: int|
                    0 <= j < i2 && (#[trigger] births.cells_seq()[j])@ == c,
            forall|c: (int, int)| #[trigger]
                live@.difference(deaths@).contains(c) ==> r@.contains(c),
            forall|j: int| 0 <= j < i2 ==> r@.contains((#[trigger] births.cells_seq()[j])@),
        decreases m - i2,
    {
        let p = births.index(i2);
        proof {
            if r@.contains(p@) {
                if live@.difference(deaths@).contains(p@) {
                    assert(births@.contains(p@) && live@.contains(p@));
                    assert(false);
                } else {
                    let j = choose|j: int|
                        0 <= j < i2 && (#[trigger] births.cells_seq()[j])@ == p@;
                    assert(false);
                }
            }
        }
        r.push_new(p);
        i2 += 1;
    }
    proof {
        assert forall|c: (int, int)|
            live@.difference(deaths@).union(births@).contains(c) implies r@.contains(c) by {
            if births@.contains(c) {
                let j = choose|j: int|
                    0 <= j < births.cells_seq().len() && (#[trigger] births.cells_seq()[j])@ == c;
            }
        }
        assert(r@ =~= live@.difference(deaths@).union(births@));
    }
    r
}

/// What one step yields: the birth set, the kill set, and the live set
/// after applying both.
pub struct StepResult {
    pub births: LiveSet,
    pub deaths: LiveSet,
    pub next: LiveSet,
}

/// One full simulation step: count neighbors over the live set, evaluate
/// the birth and death decisions against that one snapshot, and apply both.
pub fn step(live: &LiveSet, rules: &GameRules, bound: &WorldBound) -> (r: StepResult)
    requires
        live.wf(),
        live.all_in_bounds(),
    ensures
        r.births.wf(),
        r.deaths.wf(),
        r.next.wf(),
        r.births@ == birth_spec(live@, *rules),
        r.deaths@ == kill_spec(live@, *rules, *bound),
        r.next@ == live@.difference(r.deaths@).union(r.births@),
        r.births@.disjoint(r.deaths@),
        r.births@.disjoint(live@),
        r.deaths@.subset_of(live@),
{
    let counts = count_neighbors(live);
    let births = birth_set(&counts, live, rules);
    let deaths = kill_set(live, &counts, rules, bound);
    proof {
        lemma_birth_kill_disjoint(live@, *rules, *bound);
    }
    let next = apply_step(live, &births, &deaths);
    StepResult { births, deaths, next }
}

} // verus!
