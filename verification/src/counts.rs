//! The sparse neighbor-count table: a map from every cell that borders at
//! least one live cell to its live-neighbor count.

use vstd::prelude::*;
use crate::grid::Direction;
use crate::grid::GridPosition;
use crate::grid::direction_index;
use crate::grid::direction_of;
use crate::grid::in_bounds;
use crate::grid::is_neighbor;
use crate::grid::key_slot;
use crate::grid::lemma_count_insert;
use crate::grid::lemma_key_slot_step;
use crate::grid::lemma_neighbor_iff_offset;
use crate::grid::lemma_offsets_distinct;
use crate::grid::neighbor_count;
use crate::grid::offset_pt;
use crate::live::LiveSet;
use crate::live::lemma_pts_take_step;
use crate::live::pts_of;

verus! {

/// The map that a sequence of key/count entries denotes; a later entry for
/// the same key would win.
pub open spec fn entries_map(s: Seq<(GridPosition, u8)>) -> Map<(int, int), u8>
    decreases s.len(),
{
    if s.len() == 0 {
        Map::empty()
    } else {
        entries_map(s.drop_last()).insert(s.last().0@, s.last().1)
    }
}

/// No two entries name the same cell.
pub open spec fn keys_distinct(s: Seq<(GridPosition, u8)>) -> bool {
    forall|i: int, j: int|
        0 <= i < j < s.len() ==> (#[trigger] s[i]).0@ != (#[trigger] s[j]).0@
}

/// A cell is a key of the denoted map exactly when some entry names it.
pub proof fn lemma_entries_map_dom(s: Seq<(GridPosition, u8)>, c: (int, int))
    ensures
        entries_map(s).contains_key(c) <==> exists|i: int|
            0 <= i < s.len() && (#[trigger] s[i]).0@ == c,
    decreases s.len(),
{
    if s.len() > 0 {
        lemma_entries_map_dom(s.drop_last(), c);
        if entries_map(s).contains_key(c) {
            if c == s.last().0@ {
                assert(s[s.len() - 1].0@ == c);
            } else {
                let i = choose|i: int|
                    0 <= i < s.drop_last().len() && (#[trigger] s.drop_last()[i]).0@ == c;
                assert(s[i].0@ == c);
            }
        }
        if exists|i: int| 0 <= i < s.len() && (#[trigger] s[i]).0@ == c {
            let i = choose|i: int| 0 <= i < s.len() && (#[trigger] s[i]).0@ == c;
            if i < s.len() - 1 {
                assert(s.drop_last()[i].0@ == c);
            }
        }
    }
}

/// With distinct keys, the denoted map sends each entry's key to its count.
pub proof fn lemma_entries_map_at(s: Seq<(GridPosition, u8)>, i: int)
    requires
        keys_distinct(s),
        0 <= i < s.len(),
    ensures
        entries_map(s).contains_key(s[i].0@),
        entries_map(s)[s[i].0@] == s[i].1,
    decreases s.len(),
{
    if i < s.len() - 1 {
        assert(keys_distinct(s.drop_last())) by {
            assert(forall|a: int, b: int|
                0 <= a < b < s.drop_last().len() ==> (#[trigger] s.drop_last()[a]).0@ != (
                #[trigger] s.drop_last()[b]).0@) by {
                assert(forall|a: int|
                    0 <= a < s.drop_last().len() ==> #[trigger] s.drop_last()[a] == s[a]);
            }
        }
        lemma_entries_map_at(s.drop_last(), i);
        assert(s[i].0@ != s.last().0@);
    }
}

/// Removing an entry removes exactly its key from the denoted map.
pub proof fn lemma_entries_map_remove(s: Seq<(GridPosition, u8)>, j: int)
    requires
        keys_distinct(s),
        0 <= j < s.len(),
    ensures
        entries_map(s.remove(j)) == entries_map(s).remove(s[j].0@),
    decreases s.len(),
{
    if j == s.len() - 1 {
        assert(s.remove(j) =~= s.drop_last());
        assert forall|c: (int, int)|
            entries_map(s.drop_last()).contains_key(c) implies c != s.last().0@ by {
            lemma_entries_map_dom(s.drop_last(), c);
            let i = choose|i: int|
                0 <= i < s.drop_last().len() && (#[trigger] s.drop_last()[i]).0@ == c;
            assert(s[i].0@ == c);
        }
        assert(entries_map(s.drop_last()) =~= entries_map(s).remove(s.last().0@));
    } else {
        assert(keys_distinct(s.drop_last())) by {
            assert(forall|a: int|
                0 <= a < s.drop_last().len() ==> #[trigger] s.drop_last()[a] == s[a]);
        }
        lemma_entries_map_remove(s.drop_last(), j);
        assert(s.remove(j).drop_last() =~= s.drop_last().remove(j));
        assert(s.remove(j).last() == s.last());
        assert(s[j].0@ != s.last().0@);
        assert(entries_map(s.remove(j)) == entries_map(s.drop_last().remove(j)).insert(
            s.last().0@,
            s.last().1,
        ));
        assert(entries_map(s.drop_last()).remove(s[j].0@).insert(s.last().0@, s.last().1)
            =~= entries_map(s.drop_last()).insert(s.last().0@, s.last().1).remove(s[j].0@));
    }
}

/// Appending an entry adds exactly its key to the denoted map.
pub proof fn lemma_entries_map_push(s: Seq<(GridPosition, u8)>, e: (GridPosition, u8))
    ensures
        entries_map(s.push(e)) == entries_map(s).insert(e.0@, e.1),
{
    assert(s.push(e).drop_last() =~= s);
}

/// The counts table `m` is exactly the one that the live set `s` induces:
/// its keys are the cells with at least one live neighbor, and each key is
/// sent to its live-neighbor count.
pub open spec fn counts_for(m: Map<(int, int), u8>, s: Set<(int, int)>) -> bool {
    &&& forall|c: (int, int)| #[trigger]
        m.contains_key(c) ==> neighbor_count(s, c) > 0 && m[c] == neighbor_count(s, c)
    &&& forall|c: (int, int)| #[trigger] neighbor_count(s, c) > 0 ==> m.contains_key(c)
}

/// Idempotence of counting: the counts table is a function of the live set
/// alone, so two tables induced by the same live set are equal.
pub proof fn lemma_counting_deterministic(
    m1: Map<(int, int), u8>,
    m2: Map<(int, int), u8>,
    live: Set<(int, int)>,
)
    requires
        counts_for(m1, live),
        counts_for(m2, live),
    ensures
        m1 == m2,
{
    assert forall|c: (int, int)| #[trigger]
        m1.contains_key(c) implies m2.contains_key(c) && m1[c] == m2[c] by {}
    assert forall|c: (int, int)| #[trigger] m2.contains_key(c) implies m1.contains_key(c) by {}
    assert(m1 =~= m2);
}

/// Sparse table of live-neighbor counts, keyed by cell. A cell with no live
/// neighbor never appears as a key: absence means a count of zero.
#[derive(Debug, PartialEq)]
pub struct NeighborCounts {
    entries: Vec<(GridPosition, u8)>,
}

impl View for NeighborCounts {
    type V = Map<(int, int), u8>;

    open spec fn view(&self) -> Map<(int, int), u8> {
        entries_map(self.entries_seq())
    }
}

impl NeighborCounts {
    /// The stored entries, in insertion order.
    pub closed spec fn entries_seq(&self) -> Seq<(GridPosition, u8)> {
        self.entries@
    }

    /// Keys are unique and every stored count is between one and eight.
    pub open spec fn wf(&self) -> bool {
        &&& keys_distinct(self.entries_seq())
        &&& forall|i: int|
            0 <= i < self.entries_seq().len() ==> 1 <= (#[trigger] self.entries_seq()[i]).1 <= 8
    }

    /// An empty table.
    pub fn new() -> (r: NeighborCounts)
        ensures
            r.wf(),
            r@ == Map::<(int, int), u8>::empty(),
            r.entries_seq().len() == 0,
    {
        NeighborCounts { entries: Vec::new() }
    }

    /// How many cells have at least one live neighbor.
    pub fn len(&self) -> (r: usize)
        ensures
            r == self.entries_seq().len(),
    {
        self.entries.len()
    }

    /// The entry at the given index.
    pub fn entry(&self, i: usize) -> (r: (GridPosition, u8))
        requires
            self.wf(),
            i < self.entries_seq().len(),
        ensures
            r == self.entries_seq()[i as int],
            self@.contains_key(r.0@),
            self@[r.0@] == r.1,
    {
        proof {
            lemma_entries_map_at(self.entries_seq(), i as int);
        }
        self.entries[i]
    }

    /// The count stored for `pos`, or nothing when no live cell borders it.
    pub fn get(&self, pos: &GridPosition) -> (r: Option<u8>)
        requires
            self.wf(),
        ensures
            match r {
                Some(v) => self@.contains_key(pos@) && self@[pos@] == v,
                None => !self@.contains_key(pos@),
            },
    {
        let mut i: usize = 0;
        while i < self.entries.len()
            invariant
                i <= self.entries@.len(),
                self.wf(),
                forall|j: int| 0 <= j < i ==> (#[trigger] self.entries@[j]).0@ != pos@,
            decreases self.entries@.len() - i,
        {
            let e = self.entries[i];
            if e.0.x == pos.x && e.0.y == pos.y {
                proof {
                    lemma_entries_map_at(self.entries_seq(), i as int);
                }
                return Some(e.1);
            }
            i += 1;
        }
        proof {
            lemma_entries_map_dom(self.entries_seq(), pos@);
        }
        None
    }
}

/// Raise by one the count recorded for the cell one step from `pos` in
/// direction `dir`, entering it at one when it was absent.
pub fn increment_neighbor_count(counts: &mut NeighborCounts, pos: &GridPosition, dir: Direction)
    requires
        old(counts).wf(),
        in_bounds(pos@),
        old(counts)@.contains_key(offset_pt(pos@, dir)) ==> old(counts)@[offset_pt(pos@, dir)] < 8,
    ensures
        final(counts).wf(),
        old(counts)@.contains_key(offset_pt(pos@, dir)) ==> final(counts)@ == old(counts)@.insert(
            offset_pt(pos@, dir),
            ((old(counts)@[offset_pt(pos@, dir)] + 1) as u8),
        ),
        !old(counts)@.contains_key(offset_pt(pos@, dir)) ==> final(counts)@ == old(
            counts,
        )@.insert(offset_pt(pos@, dir), 1u8),
{
    let key = pos.offset(&dir);
    let ghost s0 = counts.entries_seq();
    let mut i: usize = 0;
    while i < counts.entries.len()
        invariant
            i <= counts.entries@.len(),
            counts.wf(),
            counts.entries_seq() == s0,
            s0 == old(counts).entries_seq(),
            key@ == offset_pt(pos@, dir),
            old(counts)@.contains_key(key@) ==> old(counts)@[key@] < 8,
            forall|j: int| 0 <= j < i ==> (#[trigger] counts.entries@[j]).0@ != key@,
        decreases counts.entries@.len() - i,
    {
        let e = counts.entries[i];
        if e.0.x == key.x && e.0.y == key.y {
            proof {
                lemma_entries_map_at(s0, i as int);
            }
            let bumped: u8 = e.1 + 1;
            counts.entries.remove(i);
            counts.entries.push((key, bumped));
            proof {
                let t = s0.remove(i as int);
                assert(forall|j: int|
                    0 <= j < t.len() ==> #[trigger] t[j] == (if j < i as int {
                        s0[j]
                    } else {
                        s0[j + 1]
                    }));
                assert(counts.entries_seq() == t.push((key, bumped)));
                assert forall|a: int, b: int|
                    0 <= a < b < counts.entries_seq().len() implies (
                #[trigger] counts.entries_seq()[a]).0@ != (#[trigger] counts.entries_seq()[b]).0@ by {
                    if b < t.len() {
                        assert(keys_distinct(s0));
                    } else {
                        assert(counts.entries_seq()[b] == (key, bumped));
                        assert(t[a].0@ != s0[i as int].0@);
                    }
                }
                lemma_entries_map_remove(s0, i as int);
                lemma_entries_map_push(t, (key, bumped));
                assert(counts@ == entries_map(t).insert(key@, bumped));
                assert(counts@ =~= old(counts)@.insert(key@, bumped));
                assert(old(counts)@[key@] == e.1);
            }
            return ;
        }
        i += 1;
    }
    proof {
        lemma_entries_map_dom(s0, key@);
        lemma_entries_map_push(s0, (key, 1u8));
    }
    counts.entries.push((key, 1));
}

/// A cell bordered by a cell outside the live set has at most seven live
/// neighbors in it.
pub proof fn lemma_count_missing_neighbor(s: Set<(int, int)>, p: (int, int), c: (int, int))
    requires
        is_neighbor(p, c),
        !s.contains(p),
    ensures
        neighbor_count(s, c) <= 7,
{
    assert(s.contains((p.0, p.1)) == s.contains(p));
}

/// The table holds, for every cell, the count that `s` induces plus one for
/// each of the first `t` offsets of `p` that name it.
pub open spec fn counts_partway(
    m: Map<(int, int), u8>,
    s: Set<(int, int)>,
    p: (int, int),
    t: int,
) -> bool {
    &&& forall|c: (int, int)| #[trigger]
        m.contains_key(c) ==> neighbor_count(s, c) > 0 || key_slot(p, c, t)
    &&& forall|c: (int, int)| #[trigger] neighbor_count(s, c) > 0 ==> m.contains_key(c)
    &&& forall|c: (int, int)| #[trigger] key_slot(p, c, t) ==> m.contains_key(c)
    &&& forall|c: (int, int)| #[trigger]
        m.contains_key(c) ==> m[c] == neighbor_count(s, c) + (if key_slot(p, c, t) {
            1int
        } else {
            0int
        })
}

/// Record one more live cell: raise the count of each of its eight
/// neighbors by one.
fn add_cell(counts: &mut NeighborCounts, pos: &GridPosition, s: Ghost<Set<(int, int)>>)
    requires
        old(counts).wf(),
        in_bounds(pos@),
        counts_for(old(counts)@, s@),
        !s@.contains(pos@),
    ensures
        final(counts).wf(),
        counts_for(final(counts)@, s@.insert(pos@)),
{
    proof {
        assert forall|c: (int, int)| !key_slot(pos@, c, 0) by {
            if key_slot(pos@, c, 0) {
                let j = choose|j: int|
                    0 <= j < 0 && c == offset_pt(pos@, #[trigger] direction_index(j));
            }
        }
    }
    let mut t: usize = 0;
    while t < 8
        invariant
            t <= 8,
            counts.wf(),
            in_bounds(pos@),
            !s@.contains(pos@),
            counts_partway(counts@, s@, pos@, t as int),
        decreases 8 - t,
    {
        let d = direction_of(t);
        let ghost k = offset_pt(pos@, d);
        proof {
            assert(is_neighbor(pos@, k));
            if key_slot(pos@, k, t as int) {
                let j = choose|j: int|
                    0 <= j < t && k == offset_pt(pos@, #[trigger] direction_index(j));
                lemma_offsets_distinct(pos@, j, t as int);
            }
            if counts@.contains_key(k) {
                lemma_count_missing_neighbor(s@, pos@, k);
            }
        }
        let ghost before = counts@;
        increment_neighbor_count(counts, pos, d);
        proof {
            assert forall|c: (int, int)| #[trigger]
                counts@.contains_key(c) implies neighbor_count(s@, c) > 0 || key_slot(
                pos@,
                c,
                t + 1,
            ) by {
                lemma_key_slot_step(pos@, c, t as int);
            }
            assert forall|c: (int, int)| #[trigger]
                neighbor_count(s@, c) > 0 implies counts@.contains_key(c) by {}
            assert forall|c: (int, int)| #[trigger]
                key_slot(pos@, c, t + 1) implies counts@.contains_key(c) by {
                lemma_key_slot_step(pos@, c, t as int);
            }
            assert forall|c: (int, int)| #[trigger]
                counts@.contains_key(c) implies counts@[c] == neighbor_count(s@, c) + (if key_slot(
                pos@,
                c,
                t + 1,
            ) {
                1int
            } else {
                0int
            }) by {
                lemma_key_slot_step(pos@, c, t as int);
                if c == k {
                    lemma_count_missing_neighbor(s@, pos@, k);
                } else {
                    assert(counts@[c] == before[c]);
                }
            }
        }
        t += 1;
    }
    proof {
        let m = counts@;
        let grown = s@.insert(pos@);
        assert forall|c: (int, int)| #[trigger]
            m.contains_key(c) implies neighbor_count(grown, c) > 0 && m[c] == neighbor_count(
            grown,
            c,
        ) by {
            lemma_count_insert(s@, pos@, c);
            lemma_neighbor_iff_offset(pos@, c);
        }
        assert forall|c: (int, int)| #[trigger]
            neighbor_count(grown, c) > 0 implies m.contains_key(c) by {
            lemma_count_insert(s@, pos@, c);
            lemma_neighbor_iff_offset(pos@, c);
        }
    }
}

/// The neighbor counter: scan the live set and produce, for every cell with
/// at least one live neighbor, its live-neighbor count.
pub fn count_neighbors(live: &LiveSet) -> (r: NeighborCounts)
    requires
        live.wf(),
        live.all_in_bounds(),
    ensures
        r.wf(),
        counts_for(r@, live@),
{
    let mut counts = NeighborCounts::new();
    let n = live.len();
    let mut idx: usize = 0;
    proof {
        assert(live.cells_seq().take(0) =~= Seq::<GridPosition>::empty());
    }
    while idx < n
        invariant
            n == live.cells_seq().len(),
            idx <= n,
            live.wf(),
            live.all_in_bounds(),
            counts.wf(),
            counts_for(counts@, pts_of(live.cells_seq().take(idx as int))),
        decreases n - idx,
    {
        let p = live.index(idx);
        proof {
            let pre = live.cells_seq().take(idx as int);
            if pts_of(pre).contains(p@) {
                let j = choose|j: int| 0 <= j < pre.len() && (#[trigger] pre[j])@ == p@;
                assert(live.cells_seq()[j]@ != live.cells_seq()[idx as int]@);
                assert(false);
            }
        }
        add_cell(&mut counts, &p, Ghost(pts_of(live.cells_seq().take(idx as int))));
        proof {
            lemma_pts_take_step(live.cells_seq(), idx as int);
        }
        idx += 1;
    }
    proof {
        assert(live.cells_seq().take(n as int) =~= live.cells_seq());
    }
    counts
}

} // verus!
