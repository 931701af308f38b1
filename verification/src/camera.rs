//! Floor-clamped reference counting of camera device opens.
//!
//! Every observed open of a device path raises its count, every close
//! lowers it, and `floor` tracks the running minimum the count has ever
//! reached.  A close with no matching open (one that predates the
//! watcher, or a missed event) drives the count negative; the floor
//! follows it down and absorbs that debt, so the path's contribution to
//! the activity sum, `count - floor`, never goes negative.

use vstd::prelude::*;
use crate::text::starts_with;
use crate::text::str_eq;
use crate::text::is_camera_path;

verus! {

/// One tracked camera device: its path, the running open/close count,
/// and the lowest value that count has ever reached.
#[derive(Debug, Clone)]
pub struct CamEntry {
    pub path: String,
    pub count: i64,
    pub floor: i64,
}

/// A `(count, floor)` pair after one more observed open.  The count
/// saturates at the machine limit instead of wrapping.
pub open spec fn opened_pair(c: (int, int)) -> (int, int) {
    if c.0 == i64::MAX {
        c
    } else {
        (c.0 + 1, c.1)
    }
}

/// A `(count, floor)` pair after one more observed close: the count
/// drops (saturating at the machine limit) and the floor follows it
/// down if the count falls below it.
pub open spec fn closed_pair(c: (int, int)) -> (int, int) {
    let n = if c.0 == i64::MIN {
        c.0
    } else {
        c.0 - 1
    };
    (n, if c.1 <= n {
        c.1
    } else {
        n
    })
}

/// The pair recorded for `path`, counting an untracked path as (0, 0).
pub open spec fn pair_or_zero(m: Map<Seq<char>, (int, int)>, path: Seq<char>) -> (int, int) {
    if m.dom().contains(path) {
        m[path]
    } else {
        (0, 0)
    }
}

/// The ref-count map after an open event for `path`.
pub open spec fn spec_open(m: Map<Seq<char>, (int, int)>, path: Seq<char>) -> Map<
    Seq<char>,
    (int, int),
> {
    m.insert(path, opened_pair(pair_or_zero(m, path)))
}

/// The ref-count map after a close event for `path`.
pub open spec fn spec_close(m: Map<Seq<char>, (int, int)>, path: Seq<char>) -> Map<
    Seq<char>,
    (int, int),
> {
    m.insert(path, closed_pair(pair_or_zero(m, path)))
}

/// The map that a sequence of entries stands for: each entry keyed by
/// its path.
pub open spec fn map_of(s: Seq<CamEntry>) -> Map<Seq<char>, (int, int)>
    decreases s.len(),
{
    if s.len() == 0 {
        Map::empty()
    } else {
        map_of(s.drop_last()).insert(
            s.last().path@,
            (s.last().count as int, s.last().floor as int),
        )
    }
}

/// Entries are well formed: no path occurs twice, and no count is below
/// its floor.
pub open spec fn entries_wf(s: Seq<CamEntry>) -> bool {
    (forall|i: int| 0 <= i < s.len() ==> s[i].floor <= s[i].count) && (forall|i: int, j: int|
        0 <= i < j < s.len() ==> s[i].path@ != s[j].path@)
}

/// The activity sum: `count - floor` added up over all entries.
pub open spec fn entries_sum(s: Seq<CamEntry>) -> int
    decreases s.len(),
{
    if s.len() == 0 {
        0
    } else {
        entries_sum(s.drop_last()) + (s.last().count - s.last().floor)
    }
}

/// Some tracked path has a count strictly above its floor.
pub open spec fn any_pending(m: Map<Seq<char>, (int, int)>) -> bool {
    exists|p: Seq<char>| m.dom().contains(p) && m[p].0 > m[p].1
}

/// A path is in the map of a sequence of entries exactly when some
/// entry carries it.
proof fn lemma_map_of_contains(s: Seq<CamEntry>, p: Seq<char>)
    ensures
        map_of(s).dom().contains(p) <==> exists|i: int| 0 <= i < s.len() && s[i].path@ == p,
    decreases s.len(),
{
    if s.len() > 0 {
        lemma_map_of_contains(s.drop_last(), p);
        if s.last().path@ == p {
            assert(s[s.len() - 1].path@ == p);
        } else {
            if exists|i: int| 0 <= i < s.len() && s[i].path@ == p {
                let i = choose|i: int| 0 <= i < s.len() && s[i].path@ == p;
                assert(s.drop_last()[i] == s[i]);
            }
        }
    }
}

/// With no duplicate paths, the map reads back each entry's pair.
proof fn lemma_map_of_at(s: Seq<CamEntry>, i: int)
    requires
        forall|a: int, b: int| 0 <= a < b < s.len() ==> s[a].path@ != s[b].path@,
        0 <= i < s.len(),
    ensures
        map_of(s).dom().contains(s[i].path@),
        map_of(s)[s[i].path@] == (s[i].count as int, s[i].floor as int),
    decreases s.len(),
{
    if i == s.len() - 1 {
    } else {
        lemma_map_of_at(s.drop_last(), i);
        assert(s.drop_last()[i] == s[i]);
        assert(s[i].path@ != s.last().path@);
    }
}

/// Updating the entry for a path updates the map at that path alone.
proof fn lemma_map_of_update(s: Seq<CamEntry>, i: int, e: CamEntry)
    requires
        forall|a: int, b: int| 0 <= a < b < s.len() ==> s[a].path@ != s[b].path@,
        0 <= i < s.len(),
        e.path@ == s[i].path@,
    ensures
        map_of(s.update(i, e)) == map_of(s).insert(e.path@, (e.count as int, e.floor as int)),
    decreases s.len(),
{
    let s2 = s.update(i, e);
    if i == s.len() - 1 {
        assert(s2.drop_last() =~= s.drop_last());
        assert(s2.last() == e);
        assert(map_of(s2) =~= map_of(s).insert(e.path@, (e.count as int, e.floor as int)));
    } else {
        assert(s2.drop_last() =~= s.drop_last().update(i, e));
        assert(s.drop_last()[i] == s[i]);
        lemma_map_of_update(s.drop_last(), i, e);
        assert(s2.last() == s.last());
        assert(e.path@ != s.last().path@);
        assert(map_of(s2) =~= map_of(s).insert(e.path@, (e.count as int, e.floor as int)));
    }
}

/// Removing the entry for a path removes that path from the map.
proof fn lemma_map_of_remove(s: Seq<CamEntry>, i: int)
    requires
        forall|a: int, b: int| 0 <= a < b < s.len() ==> s[a].path@ != s[b].path@,
        0 <= i < s.len(),
    ensures
        map_of(s.remove(i)) == map_of(s).remove(s[i].path@),
    decreases s.len(),
{
    let s2 = s.remove(i);
    if i == s.len() - 1 {
        assert(s2 =~= s.drop_last());
        lemma_map_of_contains(s.drop_last(), s[i].path@);
        assert(forall|a: int| 0 <= a < s.drop_last().len() ==> s.drop_last()[a].path@ != s[i].path@);
        assert(map_of(s2) =~= map_of(s).remove(s[i].path@));
    } else {
        assert(s2.drop_last() =~= s.drop_last().remove(i));
        assert(s.drop_last()[i] == s[i]);
        lemma_map_of_remove(s.drop_last(), i);
        assert(s2.last() == s.last());
        assert(s[i].path@ != s.last().path@);
        assert(map_of(s2) =~= map_of(s).remove(s[i].path@));
    }
}

/// In the map of a well-formed table no count is below its floor.
pub proof fn lemma_wf_map(s: Seq<CamEntry>)
    requires
        entries_wf(s),
    ensures
        forall|p: Seq<char>| #[trigger] map_of(s).dom().contains(p) ==> map_of(s)[p].1 <= map_of(
            s,
        )[p].0,
{
    assert forall|p: Seq<char>| #[trigger] map_of(s).dom().contains(p) implies map_of(s)[p].1
        <= map_of(s)[p].0 by {
        lemma_map_of_contains(s, p);
        let i = choose|i: int| 0 <= i < s.len() && s[i].path@ == p;
        lemma_map_of_at(s, i);
    }
}

/// With every count at or above its floor the activity sum is never
/// negative.
proof fn lemma_sum_nonneg(s: Seq<CamEntry>)
    requires
        forall|i: int| 0 <= i < s.len() ==> s[i].floor <= s[i].count,
    ensures
        entries_sum(s) >= 0,
    decreases s.len(),
{
    if s.len() > 0 {
        assert(forall|i: int| 0 <= i < s.drop_last().len() ==> s.drop_last()[i] == s[i]);
        lemma_sum_nonneg(s.drop_last());
    }
}

/// The activity sum is positive exactly when some entry has a count
/// strictly above its floor.
proof fn lemma_sum_pos_iff(s: Seq<CamEntry>)
    requires
        forall|i: int| 0 <= i < s.len() ==> s[i].floor <= s[i].count,
    ensures
        (entries_sum(s) > 0) <==> exists|i: int| 0 <= i < s.len() && s[i].count > s[i].floor,
    decreases s.len(),
{
    if s.len() > 0 {
        assert(forall|i: int| 0 <= i < s.drop_last().len() ==> s.drop_last()[i] == s[i]);
        lemma_sum_nonneg(s.drop_last());
        lemma_sum_pos_iff(s.drop_last());
        if entries_sum(s) > 0 {
            if s.last().count > s.last().floor {
                assert(s[s.len() - 1].count > s[s.len() - 1].floor);
            } else {
                let i = choose|i: int|
                    0 <= i < s.drop_last().len() && s.drop_last()[i].count > s.drop_last()[i].floor;
                assert(s[i].count > s[i].floor);
            }
        } else {
            if exists|i: int| 0 <= i < s.len() && s[i].count > s[i].floor {
                let i = choose|i: int| 0 <= i < s.len() && s[i].count > s[i].floor;
                if i < s.len() - 1 {
                    assert(s.drop_last()[i].count > s.drop_last()[i].floor);
                }
                assert(false);
            }
        }
    }
}

/// Under well-formedness, "some count above its floor" reads the same
/// on the entries and on the map they stand for.
proof fn lemma_any_pending_iff(s: Seq<CamEntry>)
    requires
        entries_wf(s),
    ensures
        any_pending(map_of(s)) <==> exists|i: int| 0 <= i < s.len() && s[i].count > s[i].floor,
{
    if any_pending(map_of(s)) {
        let p = choose|p: Seq<char>| map_of(s).dom().contains(p) && map_of(s)[p].0 > map_of(s)[p].1;
        lemma_map_of_contains(s, p);
        let i = choose|i: int| 0 <= i < s.len() && s[i].path@ == p;
        lemma_map_of_at(s, i);
        assert(s[i].count > s[i].floor);
    }
    if exists|i: int| 0 <= i < s.len() && s[i].count > s[i].floor {
        let i = choose|i: int| 0 <= i < s.len() && s[i].count > s[i].floor;
        lemma_map_of_at(s, i);
        assert(map_of(s).dom().contains(s[i].path@) && map_of(s)[s[i].path@].0 > map_of(
            s,
        )[s[i].path@].1);
    }
}

/// The ref-count table of the activity aggregator: one entry per
/// tracked camera device path.
#[derive(Debug, Clone)]
pub struct CameraRefCounts {
    pub entries: Vec<CamEntry>,
}

impl CameraRefCounts {
    /// The map this table stands for.
    pub open spec fn as_map(&self) -> Map<Seq<char>, (int, int)> {
        map_of(self.entries@)
    }

    /// No duplicate paths; no count below its floor.
    pub open spec fn wf(&self) -> bool {
        entries_wf(self.entries@)
    }

    /// The activity sum over all entries.
    pub open spec fn sum(&self) -> int {
        entries_sum(self.entries@)
    }

    /// An empty table: no path is tracked.
    pub fn new() -> (r: Self)
        ensures
            r.wf(),
            r.as_map() == Map::<Seq<char>, (int, int)>::empty(),
            r.entries@.len() == 0,
    {
        CameraRefCounts { entries: Vec::new() }
    }

    /// The index of the entry for `path`, if the path is tracked.
    fn find(&self, path: &str) -> (r: Option<usize>)
        ensures
            match r {
                Some(i) => i < self.entries@.len() && self.entries@[i as int].path@ == path@,
                None => forall|i: int|
                    0 <= i < self.entries@.len() ==> self.entries@[i].path@ != path@,
            },
    {
        let n = self.entries.len();
        let mut i: usize = 0;
        while i < n
            invariant
                n == self.entries@.len(),
                i <= n,
                forall|j: int| 0 <= j < i ==> self.entries@[j].path@ != path@,
            decreases n - i,
        {
            if str_eq(self.entries[i].path.as_str(), path) {
                return Some(i);
            }
            i = i + 1;
        }
        None
    }

    /// Replaces the counts of entry `i`, leaving its path in place.
    fn set_counts(&mut self, i: usize, count: i64, floor: i64)
        requires
            i < old(self).entries@.len(),
        ensures
            final(self).entries@ =~= old(self).entries@.update(
                i as int,
                CamEntry { path: old(self).entries@[i as int].path, count, floor },
            ),
    {
        let e = self.entries.remove(i);
        self.entries.insert(i, CamEntry { path: e.path, count, floor });
    }

    /// One observed open of `path`: an untracked path starts at (1, 0),
    /// a tracked one has its count raised.
    pub fn record_open(&mut self, path: String)
        requires
            old(self).wf(),
        ensures
            final(self).wf(),
            final(self).as_map() == spec_open(old(self).as_map(), path@),
    {
        match self.find(path.as_str()) {
            Some(i) => {
                let c = self.entries[i].count;
                let f = self.entries[i].floor;
                let nc = if c == i64::MAX {
                    c
                } else {
                    c + 1
                };
                self.set_counts(i, nc, f);
                proof {
                    lemma_map_of_at(old(self).entries@, i as int);
                    lemma_map_of_update(
                        old(self).entries@,
                        i as int,
                        CamEntry { path: old(self).entries@[i as int].path, count: nc, floor: f },
                    );
                }
            },
            None => {
                proof {
                    lemma_map_of_contains(old(self).entries@, path@);
                }
                self.entries.push(CamEntry { path, count: 1, floor: 0 });
                proof {
                    assert(self.entries@.drop_last() =~= old(self).entries@);
                }
            },
        }
    }

    /// One observed close of `path`: an untracked path is treated as
    /// starting at count 0, the count drops, and the floor follows it.
    pub fn record_close(&mut self, path: String)
        requires
            old(self).wf(),
        ensures
            final(self).wf(),
            final(self).as_map() == spec_close(old(self).as_map(), path@),
    {
        match self.find(path.as_str()) {
            Some(i) => {
                let c = self.entries[i].count;
                let f = self.entries[i].floor;
                let nc = if c == i64::MIN {
                    c
                } else {
                    c - 1
                };
                let nf = if f <= nc {
                    f
                } else {
                    nc
                };
                self.set_counts(i, nc, nf);
                proof {
                    lemma_map_of_at(old(self).entries@, i as int);
                    lemma_map_of_update(
                        old(self).entries@,
                        i as int,
                        CamEntry { path: old(self).entries@[i as int].path, count: nc, floor: nf },
                    );
                }
            },
            None => {
                proof {
                    lemma_map_of_contains(old(self).entries@, path@);
                }
                self.entries.push(CamEntry { path, count: -1, floor: -1 });
                proof {
                    assert(self.entries@.drop_last() =~= old(self).entries@);
                }
            },
        }
    }

    /// Forgets all history for `path`; untracked paths are left alone.
    pub fn reset(&mut self, path: &str)
        requires
            old(self).wf(),
        ensures
            final(self).wf(),
            final(self).as_map() == old(self).as_map().remove(path@),
    {
        match self.find(path) {
            Some(i) => {
                self.entries.remove(i);
                proof {
                    lemma_map_of_remove(old(self).entries@, i as int);
                    assert(forall|a: int, b: int|
                        0 <= a < b < self.entries@.len() ==> self.entries@[a].path@
                            != self.entries@[b].path@);
                }
            },
            None => {
                proof {
                    lemma_map_of_contains(self.entries@, path@);
                    assert(self.as_map() =~= self.as_map().remove(path@));
                }
            },
        }
    }

    /// Whether any tracked path contributes to the activity sum; the
    /// sum is positive exactly when some count sits above its floor.
    pub fn camera_active(&self) -> (b: bool)
        requires
            self.wf(),
        ensures
            b == (self.sum() > 0),
            b == any_pending(self.as_map()),
    {
        let n = self.entries.len();
        let mut i: usize = 0;
        let mut found = false;
        while i < n
            invariant
                n == self.entries@.len(),
                i <= n,
                found <==> exists|j: int| 0 <= j < i && self.entries@[j].count > self.entries@[j].floor,
            decreases n - i,
        {
            if self.entries[i].count > self.entries[i].floor {
                found = true;
            }
            i = i + 1;
        }
        proof {
            lemma_sum_pos_iff(self.entries@);
            lemma_any_pending_iff(self.entries@);
        }
        found
    }
}

/// The baseline map for a list of descriptor link targets: each target
/// that names a camera device counts as one open of that path.
pub open spec fn baseline_map(links: Seq<String>) -> Map<Seq<char>, (int, int)>
    decreases links.len(),
{
    if links.len() == 0 {
        Map::empty()
    } else {
        let m = baseline_map(links.drop_last());
        if starts_with(links.last()@, "/dev/video"@) {
            spec_open(m, links.last()@)
        } else {
            m
        }
    }
}

/// Folds the resolved descriptor link targets of a baseline scan into a
/// seed ref-count table: pre-existing opens become debt-free state with
/// a floor of zero.
pub fn baseline_from_links(links: &Vec<String>) -> (r: CameraRefCounts)
    ensures
        r.wf(),
        r.as_map() == baseline_map(links@),
{
    let mut r = CameraRefCounts::new();
    let n = links.len();
    let mut i: usize = 0;
    while i < n
        invariant
            n == links@.len(),
            i <= n,
            r.wf(),
            r.as_map() == baseline_map(links@.take(i as int)),
        decreases n - i,
    {
        if is_camera_path(links[i].as_str()) {
            r.record_open(links[i].clone());
        }
        proof {
            assert(links@.take(i + 1 as int).drop_last() =~= links@.take(i as int));
            assert(links@.take(i + 1 as int).last() == links@[i as int]);
        }
        i = i + 1;
    }
    proof {
        assert(links@.take(n as int) =~= links@);
    }
    r
}

} // verus!
