//! The published snapshot cache: one complete aggregate value behind a
//! reader-writer lock. A rebuild replaces the whole value at once, so a
//! reader only ever observes one published snapshot in full — either the one
//! from before a concurrent rebuild or the one after it, never a mixture.

use vstd::prelude::*;
use vstd::rwlock::{RwLock, RwLockPredicate};
use crate::data::{Data, MatchColor, MatchData};

verus! {

/// Well-formedness of a published snapshot: per-tier entries are keyed in
/// strictly increasing tier order.
pub open spec fn snapshot_wf(d: Data) -> bool {
    forall|k1: int, k2: int|
        0 <= k1 < k2 < d.matches@.len() ==> (#[trigger] d.matches@[k1]).0 < (#[trigger] d.matches@[
            k2
        ]).0
}

/// The lock invariant of the cache: only well-formed snapshots are published.
pub struct SnapshotPred;

impl RwLockPredicate<Data> for SnapshotPred {
    open spec fn inv(self, v: Data) -> bool {
        snapshot_wf(v)
    }
}

fn clone_names(v: &Vec<String>) -> (r: Vec<String>)
    ensures
        r@ == v@,
{
    let n = v.len();
    let mut r: Vec<String> = Vec::new();
    let mut i: usize = 0;
    while i < n
        invariant
            i <= n,
            n == v@.len(),
            r@ == v@.take(i as int),
        decreases n - i,
    {
        r.push(v[i].clone());
        assert(r@ =~= v@.take(i + 1));
        i = i + 1;
    }
    proof {
        assert(v@.take(n as int) =~= v@);
    }
    r
}

/// Bucket lists with the same keys and the same names.
pub open spec fn buckets_eq(a: Seq<(char, Vec<String>)>, b: Seq<(char, Vec<String>)>) -> bool {
    &&& a.len() == b.len()
    &&& forall|i: int|
        0 <= i < a.len() ==> (#[trigger] a[i]).0 == (#[trigger] b[i]).0 && a[i].1@ == b[i].1@
}

/// Color slices with the same content.
pub open spec fn color_eq(a: MatchColor, b: MatchColor) -> bool {
    &&& a.team_name@ == b.team_name@
    &&& a.victory_points@ == b.victory_points@
    &&& buckets_eq(a.guilds@, b.guilds@)
}

/// Match views with the same content.
pub open spec fn match_data_eq(a: MatchData, b: MatchData) -> bool {
    &&& color_eq(a.red, b.red)
    &&& color_eq(a.green, b.green)
    &&& color_eq(a.blue, b.blue)
}

/// Snapshots with the same content.
pub open spec fn data_eq(a: Data, b: Data) -> bool {
    &&& a.matches@.len() == b.matches@.len()
    &&& forall|k: int|
        0 <= k < a.matches@.len() ==> (#[trigger] a.matches@[k]).0 == (#[trigger] b.matches@[k]).0
            && match_data_eq(a.matches@[k].1, b.matches@[k].1)
    &&& a.important_guilds@ == b.important_guilds@
    &&& a.our_team@ == b.our_team@
}

fn clone_buckets(v: &Vec<(char, Vec<String>)>) -> (r: Vec<(char, Vec<String>)>)
    ensures
        buckets_eq(r@, v@),
{
    let n = v.len();
    let mut r: Vec<(char, Vec<String>)> = Vec::new();
    let mut i: usize = 0;
    while i < n
        invariant
            i <= n,
            n == v@.len(),
            buckets_eq(r@, v@.take(i as int)),
        decreases n - i,
    {
        let names = clone_names(&v[i].1);
        r.push((v[i].0, names));
        i = i + 1;
    }
    proof {
        assert(v@.take(n as int) =~= v@);
    }
    r
}

fn clone_color(c: &MatchColor) -> (r: MatchColor)
    ensures
        color_eq(r, *c),
{
    MatchColor {
        team_name: c.team_name.clone(),
        victory_points: c.victory_points.clone(),
        guilds: clone_buckets(&c.guilds),
    }
}

fn clone_match_data(m: &MatchData) -> (r: MatchData)
    ensures
        match_data_eq(r, *m),
{
    MatchData { red: clone_color(&m.red), green: clone_color(&m.green), blue: clone_color(&m.blue) }
}

/// Duplicate a snapshot value, content for content.
pub fn clone_data(d: &Data) -> (r: Data)
    ensures
        data_eq(r, *d),
{
    let n = d.matches.len();
    let mut matches: Vec<(usize, MatchData)> = Vec::new();
    let mut i: usize = 0;
    while i < n
        invariant
            i <= n,
            n == d.matches@.len(),
            matches@.len() == i,
            forall|k: int|
                0 <= k < i ==> (#[trigger] matches@[k]).0 == (#[trigger] d.matches@[k]).0
                    && match_data_eq(matches@[k].1, d.matches@[k].1),
        decreases n - i,
    {
        let md = clone_match_data(&d.matches[i].1);
        matches.push((d.matches[i].0, md));
        i = i + 1;
    }
    Data {
        matches,
        important_guilds: clone_names(&d.important_guilds),
        our_team: d.our_team.clone(),
    }
}

/// The published snapshot, replaced wholesale by the rebuild loop and read
/// concurrently. Writers hold the lock only for the instant of replacement;
/// a read hands back one complete published value.
pub struct SnapshotCache {
    lock: RwLock<Data, SnapshotPred>,
}

impl SnapshotCache {
    /// A cache holding the given initial snapshot.
    pub fn new(initial: Data) -> (c: SnapshotCache)
        requires
            snapshot_wf(initial),
    {
        SnapshotCache { lock: RwLock::new(initial, Ghost(SnapshotPred)) }
    }

    /// Atomically replace the published snapshot with a freshly built one.
    /// The previous value is discarded whole; no reader can observe a partial
    /// update.
    pub fn publish(&self, d: Data)
        requires
            snapshot_wf(d),
    {
        let (replaced, handle) = self.lock.acquire_write();
        let _ = replaced;
        handle.release_write(d);
    }

    /// Read the published snapshot: the content of one complete, well-formed
    /// published value.
    pub fn read(&self) -> (d: Data)
        ensures
            snapshot_wf(d),
    {
        let handle = self.lock.acquire_read();
        let borrowed = handle.borrow();
        let ghost v = *borrowed;
        let d = clone_data(borrowed);
        handle.release_read();
        proof {
            assert forall|k1: int, k2: int|
                0 <= k1 < k2 < d.matches@.len() implies (#[trigger] d.matches@[k1]).0 < (
            #[trigger] d.matches@[k2]).0 by {
                assert(d.matches@[k1].0 == v.matches@[k1].0);
                assert(d.matches@[k2].0 == v.matches@[k2].0);
            }
        }
        d
    }
}

} // verus!

verus! {

/// An empty snapshot: no tiers, no highlighted guilds, no team name.
pub fn empty_snapshot() -> (d: Data)
    ensures
        snapshot_wf(d),
        d.matches@.len() == 0,
        d.important_guilds@.len() == 0,
        d.our_team@ == Seq::<char>::empty(),
{
    Data { matches: Vec::new(), important_guilds: Vec::new(), our_team: String::new() }
}

/// One snapshot rebuild cycle: assemble the aggregate from what storage held
/// and atomically replace the published value with it. The builder's contract
/// is what discharges the cache invariant: a freshly built aggregate keys its
/// per-tier entries in strictly increasing order, so it may be published.
pub fn rebuild_and_publish(
    cache: &SnapshotCache,
    rows: &Vec<Option<crate::snapshot::TierRow>>,
    our_team_id: Option<String>,
    important_guilds: Vec<String>,
)
{
    let d = crate::snapshot::build_data(rows, our_team_id, important_guilds);
    cache.publish(d);
}

} // verus!
