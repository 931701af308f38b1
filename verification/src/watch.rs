//! The camera device watch table and the watcher's decisions.
//!
//! The watcher owns a bidirectional map between camera device paths and
//! kernel watch-descriptor handles: handle to path to resolve an
//! incoming notification, path set to diff the watched inventory when
//! `/dev` changes.  The map itself is `bimap::BiHashMap`; its behaviour
//! is stated here as trusted contracts over the pairs it holds, and the
//! decisions taken over it are verified against those contracts.

use vstd::prelude::*;
use crate::text::starts_with;

verus! {

#[verifier::external_type_specification]
#[verifier::external_body]
#[verifier::reject_recursive_types(L)]
#[verifier::reject_recursive_types(R)]
#[verifier::reject_recursive_types(LS)]
#[verifier::reject_recursive_types(RS)]
pub struct ExBiHashMap<L, R, LS, RS>(bimap::BiHashMap<L, R, LS, RS>);

/// The pairs a watch table holds, keyed by device path; the value is
/// the kernel watch-descriptor handle watching that path.
pub uninterp spec fn watch_pairs(t: bimap::BiHashMap<String, i32>) -> Map<Seq<char>, int>;

/// A pair map after `bimap::BiHashMap::insert`: any pair that collides
/// with the new one on either side is removed, then the pair is added.
pub open spec fn insert_pair(m: Map<Seq<char>, int>, path: Seq<char>, wd: int) -> Map<
    Seq<char>,
    int,
> {
    Map::<Seq<char>, int>::new(
        |k: Seq<char>| m.dom().contains(k) && m[k] != wd,
        |k: Seq<char>| m[k],
    ).insert(path, wd)
}

/// Relies on bimap::BiHashMap::new: the new bimap holds no pairs.
#[verifier::external_body]
fn table_new() -> (out: bimap::BiHashMap<String, i32>)
    ensures
        watch_pairs(out).dom() =~= Set::<Seq<char>>::empty(),
{
    bimap::BiHashMap::new()
}

/// Relies on bimap::BiHashMap::insert: pairs colliding with the given
/// one on either side are removed, then the given pair is added.
#[verifier::external_body]
fn table_insert(t: &mut bimap::BiHashMap<String, i32>, path: String, wd: i32)
    ensures
        watch_pairs(*final(t)) == insert_pair(watch_pairs(*old(t)), path@, wd as int),
{
    let _ = t.insert(path, wd);
}

/// Relies on bimap::BiHashMap::get_by_right: returns the left value of
/// the pair holding the given right value, if there is one.
#[verifier::external_body]
fn table_path_of(t: &bimap::BiHashMap<String, i32>, wd: i32) -> (r: Option<String>)
    ensures
        match r {
            Some(p) => watch_pairs(*t).dom().contains(p@) && watch_pairs(*t)[p@] == wd as int,
            None => forall|k: Seq<char>|
                watch_pairs(*t).dom().contains(k) ==> watch_pairs(*t)[k] != wd as int,
        },
{
    t.get_by_right(&wd).cloned()
}

/// Relies on bimap::BiHashMap::contains_left: whether some pair holds
/// the given left value.
#[verifier::external_body]
fn table_contains_path(t: &bimap::BiHashMap<String, i32>, path: &String) -> (r: bool)
    ensures
        r == watch_pairs(*t).dom().contains(path@),
{
    t.contains_left(path)
}

/// Relies on bimap::BiHashMap::left_values: the left value of every
/// pair, each exactly once, in arbitrary order.
#[verifier::external_body]
fn table_paths(t: &bimap::BiHashMap<String, i32>) -> (v: Vec<String>)
    ensures
        forall|i: int| 0 <= i < v@.len() ==> watch_pairs(*t).dom().contains(v@[i]@),
        forall|k: Seq<char>|
            watch_pairs(*t).dom().contains(k) ==> exists|i: int|
                0 <= i < v@.len() && v@[i]@ == k,
        forall|i: int, j: int| 0 <= i < j < v@.len() ==> v@[i]@ != v@[j]@,
{
    t.left_values().cloned().collect()
}

/// The pair map a list of (path, handle) pairs builds up, inserted in
/// order with the collision rule of `insert_pair`.
pub open spec fn table_model(pairs: Seq<(String, i32)>) -> Map<Seq<char>, int>
    decreases pairs.len(),
{
    if pairs.len() == 0 {
        Map::empty()
    } else {
        insert_pair(table_model(pairs.drop_last()), pairs.last().0@, pairs.last().1 as int)
    }
}

/// Builds a fresh watch table from the discovered (path, handle) pairs.
pub fn build_watch_table(pairs: &Vec<(String, i32)>) -> (t: bimap::BiHashMap<String, i32>)
    ensures
        watch_pairs(t) == table_model(pairs@),
{
    let mut t = table_new();
    proof {
        assert(watch_pairs(t) =~= table_model(pairs@.take(0)));
    }
    let n = pairs.len();
    let mut i: usize = 0;
    while i < n
        invariant
            n == pairs@.len(),
            i <= n,
            watch_pairs(t) == table_model(pairs@.take(i as int)),
        decreases n - i,
    {
        table_insert(&mut t, pairs[i].0.clone(), pairs[i].1);
        proof {
            assert(pairs@.take(i + 1 as int).drop_last() =~= pairs@.take(i as int));
            assert(pairs@.take(i + 1 as int).last() == pairs@[i as int]);
        }
        i = i + 1;
    }
    proof {
        assert(pairs@.take(n as int) =~= pairs@);
    }
    t
}

/// The paths watched before a rebuild but not after: exactly those get
/// one reset event each, and no path watched after gets any.
pub fn rebuild_resets(
    before: &bimap::BiHashMap<String, i32>,
    after: &bimap::BiHashMap<String, i32>,
) -> (resets: Vec<String>)
    ensures
        forall|i: int|
            0 <= i < resets@.len() ==> watch_pairs(*before).dom().contains(resets@[i]@)
                && !watch_pairs(*after).dom().contains(resets@[i]@),
        forall|k: Seq<char>|
            watch_pairs(*before).dom().contains(k) && !watch_pairs(*after).dom().contains(k)
                ==> exists|i: int| 0 <= i < resets@.len() && resets@[i]@ == k,
        forall|i: int, j: int| 0 <= i < j < resets@.len() ==> resets@[i]@ != resets@[j]@,
{
    let ps = table_paths(before);
    let mut resets: Vec<String> = Vec::new();
    let n = ps.len();
    let mut j: usize = 0;
    while j < n
        invariant
            n == ps@.len(),
            j <= n,
            forall|i: int| 0 <= i < ps@.len() ==> watch_pairs(*before).dom().contains(ps@[i]@),
            forall|a: int, b: int| 0 <= a < b < ps@.len() ==> ps@[a]@ != ps@[b]@,
            forall|i: int|
                0 <= i < resets@.len() ==> watch_pairs(*before).dom().contains(resets@[i]@)
                    && !watch_pairs(*after).dom().contains(resets@[i]@),
            forall|i: int|
                0 <= i < resets@.len() ==> exists|idx: int|
                    0 <= idx < j && ps@[idx]@ == #[trigger] resets@[i]@,
            forall|idx: int|
                0 <= idx < j && !watch_pairs(*after).dom().contains(ps@[idx]@) ==> exists|i: int|
                    0 <= i < resets@.len() && resets@[i]@ == ps@[idx]@,
            forall|i: int, k: int| 0 <= i < k < resets@.len() ==> resets@[i]@ != resets@[k]@,
        decreases n - j,
    {
        let ghost resets0 = resets@;
        let p = &ps[j];
        let keep = table_contains_path(after, p);
        if !keep {
            resets.push(p.clone());
        }
        proof {
            assert forall|idx: int|
                0 <= idx < j + 1 && !watch_pairs(*after).dom().contains(
                    ps@[idx]@,
                ) implies exists|i: int| 0 <= i < resets@.len() && resets@[i]@ == ps@[idx]@ by {
                if idx == j {
                    assert(!keep);
                    assert(resets@[resets@.len() - 1]@ == ps@[j as int]@);
                } else {
                    let i = choose|i: int| 0 <= i < resets0.len() && resets0[i]@ == ps@[idx]@;
                    assert(resets@[i]@ == ps@[idx]@);
                }
            }
        }
        j = j + 1;
    }
    resets
}

/// A raw notification's kind, as the watcher reads it: creation or
/// attribute change of a `/dev` entry, a watched node's removal, and
/// open or close activity on a watched node.
#[derive(Debug, Clone, Copy)]
pub enum NotifyKind {
    Create,
    Attrib,
    DeleteSelf,
    Open,
    CloseWrite,
    CloseNoWrite,
    Other,
}

/// What the watcher does with one notification.
#[derive(Debug, Clone)]
pub enum WatchDecision {
    /// Discard the watch table, re-scan `/dev`, and build a new one.
    Rebuild,
    /// Emit an open event for this device path.
    EmitOpen(String),
    /// Emit a close event for this device path.
    EmitClose(String),
    /// Nothing to do.
    Ignore,
}

/// A `/dev`-level creation or attribute change of a camera-named entry
/// forces a watch-set rebuild.
pub open spec fn rebuild_on_dir(kind: NotifyKind, name: Option<&str>) -> bool {
    (kind is Create || kind is Attrib) && match name {
        Some(n) => starts_with(n@, "video"@),
        None => false,
    }
}

/// Some watched path is mapped to this watch-descriptor handle.
pub open spec fn wd_tracked(pairs: Map<Seq<char>, int>, wd: int) -> bool {
    exists|k: Seq<char>| pairs.dom().contains(k) && pairs[k] == wd
}

/// Decides what one raw notification means for the watcher: a rebuild
/// of the watch set, an open or close event on a watched device, or
/// nothing.
pub fn handle_notification(
    table: &bimap::BiHashMap<String, i32>,
    kind: NotifyKind,
    wd: i32,
    name: Option<&str>,
) -> (d: WatchDecision)
    ensures
        ({
            let pairs = watch_pairs(*table);
            match d {
                WatchDecision::Rebuild => rebuild_on_dir(kind, name) || (kind is DeleteSelf
                    && wd_tracked(pairs, wd as int)),
                WatchDecision::EmitOpen(p) => kind is Open && pairs.dom().contains(p@)
                    && pairs[p@] == wd as int,
                WatchDecision::EmitClose(p) => (kind is CloseWrite || kind is CloseNoWrite)
                    && pairs.dom().contains(p@) && pairs[p@] == wd as int,
                WatchDecision::Ignore => !rebuild_on_dir(kind, name) && !((kind is DeleteSelf
                    || kind is Open || kind is CloseWrite || kind is CloseNoWrite) && wd_tracked(
                    pairs,
                    wd as int,
                )),
            }
        }),
{
    match kind {
        NotifyKind::Create | NotifyKind::Attrib => {
            match name {
                Some(n) => {
                    if crate::text::is_camera_name(n) {
                        WatchDecision::Rebuild
                    } else {
                        WatchDecision::Ignore
                    }
                },
                None => WatchDecision::Ignore,
            }
        },
        NotifyKind::DeleteSelf => {
            match table_path_of(table, wd) {
                Some(_) => WatchDecision::Rebuild,
                None => WatchDecision::Ignore,
            }
        },
        NotifyKind::Open => {
            match table_path_of(table, wd) {
                Some(p) => WatchDecision::EmitOpen(p),
                None => WatchDecision::Ignore,
            }
        },
        NotifyKind::CloseWrite | NotifyKind::CloseNoWrite => {
            match table_path_of(table, wd) {
                Some(p) => WatchDecision::EmitClose(p),
                None => WatchDecision::Ignore,
            }
        },
        NotifyKind::Other => WatchDecision::Ignore,
    }
}

} // verus!
