//! Pure reconciliation logic for guild/team state: refreshing the membership
//! table from a fresh remote listing, ordering per-guild detail fetches, and
//! selecting stale guilds for refresh.

use vstd::prelude::*;

verus! {

/// String equality by characters.
pub fn str_eq(a: &str, b: &str) -> (r: bool)
    ensures
        r == (a@ == b@),
{
    let sa = a.to_owned();
    let sb = b.to_owned();
    sa == sb
}

/// The team of the first listing entry for the given guild id, as a value.
pub open spec fn lookup_team_val(s: Seq<(String, String)>, id: Seq<char>) -> Option<String>
    decreases s.len(),
{
    if s.len() == 0 {
        None
    } else if s.first().0@ == id {
        Some(s.first().1)
    } else {
        lookup_team_val(s.drop_first(), id)
    }
}

/// A lookup skips a prefix without the key.
proof fn lemma_lookup_team_skip(s: Seq<(String, String)>, id: Seq<char>, i: int)
    requires
        0 <= i <= s.len(),
        forall|k: int| 0 <= k < i ==> (#[trigger] s[k].0@) != id,
    ensures
        lookup_team_val(s, id) == lookup_team_val(s.skip(i), id),
    decreases i,
{
    if i == 0 {
        assert(s.skip(0) =~= s);
    } else {
        lemma_lookup_team_skip(s.drop_first(), id, i - 1);
        assert(s.drop_first().skip(i - 1) =~= s.skip(i));
    }
}

/// Find the team recorded in the listing for a guild id (first match).
pub fn find_team(listing: &Vec<(String, String)>, id: &str) -> (r: Option<String>)
    ensures
        r == lookup_team_val(listing@, id@),
{
    let n = listing.len();
    let mut i: usize = 0;
    loop
        invariant
            i <= n,
            n == listing@.len(),
            forall|k: int| 0 <= k < i ==> (#[trigger] listing@[k].0@) != id@,
        ensures
            i <= n,
            forall|k: int| 0 <= k < i ==> (#[trigger] listing@[k].0@) != id@,
            i == n || listing@[i as int].0@ == id@,
        decreases n - i,
    {
        if i < n {
            if str_eq(listing[i].0.as_str(), id) {
                break ;
            } else {
                i = i + 1;
            }
        } else {
            break ;
        }
    }
    proof {
        lemma_lookup_team_skip(listing@, id@, i as int);
    }
    if i == n {
        proof {
            assert(listing@.skip(n as int) =~= Seq::<(String, String)>::empty());
        }
        None
    } else {
        proof {
            assert(listing@.skip(i as int).first() == listing@[i as int]);
        }
        Some(listing[i].1.clone())
    }
}

/// Whether the previous membership table has a row for the guild id.
pub open spec fn membership_has(s: Seq<(String, Option<String>)>, id: Seq<char>) -> bool {
    exists|i: int| 0 <= i < s.len() && (#[trigger] s[i].0@) == id
}

fn membership_contains(prev: &Vec<(String, Option<String>)>, id: &str) -> (r: bool)
    ensures
        r == membership_has(prev@, id@),
{
    let n = prev.len();
    let mut i: usize = 0;
    while i < n
        invariant
            i <= n,
            n == prev@.len(),
            forall|k: int| 0 <= k < i ==> (#[trigger] prev@[k].0@) != id@,
        decreases n - i,
    {
        if str_eq(prev[i].0.as_str(), id) {
            proof {
                assert(prev@[i as int].0@ == id@);
            }
            return true;
        }
        i = i + 1;
    }
    false
}

/// Every previously known row, its team refreshed from the listing: the
/// listing's team where the guild is listed, and null where it is not.
pub open spec fn refreshed_rows(
    prev: Seq<(String, Option<String>)>,
    listing: Seq<(String, String)>,
) -> Seq<(String, Option<String>)> {
    prev.map_values(|p: (String, Option<String>)| (p.0, lookup_team_val(listing, p.0@)))
}

/// The listing entries for guilds with no previous row, as new rows.
pub open spec fn added_rows(
    prev: Seq<(String, Option<String>)>,
    listing: Seq<(String, String)>,
) -> Seq<(String, Option<String>)> {
    listing.filter(|q: (String, String)| !membership_has(prev, q.0@)).map_values(
        |q: (String, String)| (q.0, Some(q.1)),
    )
}

/// One reconciliation pass over the membership table, given the previous rows
/// and a fresh full listing. Every previously known guild keeps its row: its
/// team is set from the listing when listed, and to null (never deleted) when
/// absent from the listing. Guilds new to the listing gain a row with their
/// team, in listing order.
#[verifier::rlimit(30)]
pub fn reconcile_memberships(
    prev: &Vec<(String, Option<String>)>,
    listing: &Vec<(String, String)>,
) -> (r: Vec<(String, Option<String>)>)
    ensures
        r@ == refreshed_rows(prev@, listing@) + added_rows(prev@, listing@),
{
    let n = prev.len();
    let mut out: Vec<(String, Option<String>)> = Vec::new();
    let mut i: usize = 0;
    while i < n
        invariant
            i <= n,
            n == prev@.len(),
            out@ == refreshed_rows(prev@.take(i as int), listing@),
        decreases n - i,
    {
        let id = prev[i].0.clone();
        let team = find_team(listing, id.as_str());
        out.push((id, team));
        proof {
            assert(out@ =~= refreshed_rows(prev@.take(i + 1), listing@)) by {
                assert(prev@.take(i + 1) =~= prev@.take(i as int).push(prev@[i as int]));
                assert(refreshed_rows(prev@.take(i + 1), listing@) =~= refreshed_rows(
                    prev@.take(i as int),
                    listing@,
                ).push((prev@[i as int].0, lookup_team_val(listing@, prev@[i as int].0@))));
            }
        }
        i = i + 1;
    }
    proof {
        assert(prev@.take(n as int) =~= prev@);
    }
    let m = listing.len();
    let mut added: Vec<(String, Option<String>)> = Vec::new();
    let mut j: usize = 0;
    while j < m
        invariant
            j <= m,
            m == listing@.len(),
            added@ == added_rows_upto(prev@, listing@, j as int),
        decreases m - j,
    {
        let known = membership_contains(prev, listing[j].0.as_str());
        proof {
            let pred = |q: (String, String)| !membership_has(prev@, q.0@);
            let before = listing@.take(j as int);
            let cur = listing@.take(j + 1);
            assert(cur.drop_last() =~= before);
            assert(cur.last() == listing@[j as int]);
            reveal_with_fuel(Seq::filter, 2);
            if pred(listing@[j as int]) {
                assert(cur.filter(pred) == before.filter(pred).push(listing@[j as int]));
                assert(cur.filter(pred).map_values(
                    |q: (String, String)| (q.0, Some(q.1)),
                ) =~= before.filter(pred).map_values(|q: (String, String)| (q.0, Some(q.1))).push(
                    (listing@[j as int].0, Some(listing@[j as int].1)),
                ));
            } else {
                assert(cur.filter(pred) == before.filter(pred));
            }
        }
        if !known {
            added.push((listing[j].0.clone(), Some(listing[j].1.clone())));
        }
        j = j + 1;
    }
    proof {
        assert(listing@.take(m as int) =~= listing@);
    }
    let mut r = out;
    r.append(&mut added);
    r
}

/// The added rows drawn from the first `j` listing entries.
pub open spec fn added_rows_upto(
    prev: Seq<(String, Option<String>)>,
    listing: Seq<(String, String)>,
    j: int,
) -> Seq<(String, Option<String>)> {
    listing.take(j).filter(|q: (String, String)| !membership_has(prev, q.0@)).map_values(
        |q: (String, String)| (q.0, Some(q.1)),
    )
}

} // verus!

verus! {

/// The listing partitioned for detail-fetch ordering: our own guild first,
/// the rest of our team next, everyone else last, each group in listing
/// order.
pub open spec fn partitioned_guilds(
    s: Seq<(String, String)>,
    my_id: Seq<char>,
    my_team: Seq<char>,
) -> Seq<(String, String)> {
    s.filter(|p: (String, String)| p.0@ == my_id) + s.filter(
        |p: (String, String)| p.0@ != my_id && p.1@ == my_team,
    ) + s.filter(|p: (String, String)| p.0@ != my_id && p.1@ != my_team)
}

/// Order the fresh listing for per-guild detail fetches: our own guild's
/// entries first, then entries of our team, then the rest, each in listing
/// order. When the listing has no entry for our guild id the listing is
/// returned unchanged.
#[verifier::rlimit(30)]
pub fn sort_guilds(unsorted_guilds: Vec<(String, String)>, my_guild_id: &str) -> (r: Vec<
    (String, String),
>)
    ensures
        lookup_team_val(unsorted_guilds@, my_guild_id@) is None ==> r@ == unsorted_guilds@,
        lookup_team_val(unsorted_guilds@, my_guild_id@) matches Some(t) ==> r@
            == partitioned_guilds(unsorted_guilds@, my_guild_id@, t@),
{
    let my_team_opt = find_team(&unsorted_guilds, my_guild_id);
    let my_team = match my_team_opt {
        None => {
            return unsorted_guilds;
        },
        Some(t) => t,
    };
    let n = unsorted_guilds.len();
    let mut my_guild_group: Vec<(String, String)> = Vec::new();
    let mut my_team_group: Vec<(String, String)> = Vec::new();
    let mut other_guilds: Vec<(String, String)> = Vec::new();
    let mut i: usize = 0;
    while i < n
        invariant
            i <= n,
            n == unsorted_guilds@.len(),
            my_guild_group@ == unsorted_guilds@.take(i as int).filter(
                |p: (String, String)| p.0@ == my_guild_id@,
            ),
            my_team_group@ == unsorted_guilds@.take(i as int).filter(
                |p: (String, String)| p.0@ != my_guild_id@ && p.1@ == my_team@,
            ),
            other_guilds@ == unsorted_guilds@.take(i as int).filter(
                |p: (String, String)| p.0@ != my_guild_id@ && p.1@ != my_team@,
            ),
        decreases n - i,
    {
        let guild_id = unsorted_guilds[i].0.clone();
        let team_id = unsorted_guilds[i].1.clone();
        let is_mine = str_eq(guild_id.as_str(), my_guild_id);
        let is_my_team = str_eq(team_id.as_str(), my_team.as_str());
        proof {
            let own = |p: (String, String)| p.0@ == my_guild_id@;
            let mate = |p: (String, String)| p.0@ != my_guild_id@ && p.1@ == my_team@;
            let rest = |p: (String, String)| p.0@ != my_guild_id@ && p.1@ != my_team@;
            let before = unsorted_guilds@.take(i as int);
            let cur = unsorted_guilds@.take(i + 1);
            assert(cur.drop_last() =~= before);
            assert(cur.last() == unsorted_guilds@[i as int]);
            reveal_with_fuel(Seq::filter, 2);
            if own(unsorted_guilds@[i as int]) {
                assert(cur.filter(own) == before.filter(own).push(unsorted_guilds@[i as int]));
            } else {
                assert(cur.filter(own) == before.filter(own));
            }
            if mate(unsorted_guilds@[i as int]) {
                assert(cur.filter(mate) == before.filter(mate).push(unsorted_guilds@[i as int]));
            } else {
                assert(cur.filter(mate) == before.filter(mate));
            }
            if rest(unsorted_guilds@[i as int]) {
                assert(cur.filter(rest) == before.filter(rest).push(unsorted_guilds@[i as int]));
            } else {
                assert(cur.filter(rest) == before.filter(rest));
            }
        }
        if is_mine {
            my_guild_group.push((guild_id, team_id));
        } else if is_my_team {
            my_team_group.push((guild_id, team_id));
        } else {
            other_guilds.push((guild_id, team_id));
        }
        i = i + 1;
    }
    proof {
        assert(unsorted_guilds@.take(n as int) =~= unsorted_guilds@);
    }
    my_guild_group.append(&mut my_team_group);
    my_guild_group.append(&mut other_guilds);
    my_guild_group
}

/// How old a guild's last-updated marker may grow before a detail refresh is
/// due: twenty-four hours, in milliseconds.
pub const REFRESH_AGE_MS: u64 = 86400000;

/// A marker is stale when it is older than the refresh age.
pub open spec fn due_for_refresh(ts_ms: u64, now_ms: u64) -> bool {
    now_ms >= REFRESH_AGE_MS && ts_ms < now_ms - REFRESH_AGE_MS
}

/// The ids of guilds whose last-updated marker is older than twenty-four
/// hours, in marker order.
pub fn guilds_to_update(entries: &Vec<(String, u64)>, now_ms: u64) -> (r: Vec<String>)
    ensures
        r@ == entries@.filter(|e: (String, u64)| due_for_refresh(e.1, now_ms)).map_values(
            |e: (String, u64)| e.0,
        ),
{
    let n = entries.len();
    let mut r: Vec<String> = Vec::new();
    let mut i: usize = 0;
    while i < n
        invariant
            i <= n,
            n == entries@.len(),
            r@ == entries@.take(i as int).filter(
                |e: (String, u64)| due_for_refresh(e.1, now_ms),
            ).map_values(|e: (String, u64)| e.0),
        decreases n - i,
    {
        let due = now_ms >= REFRESH_AGE_MS && entries[i].1 < now_ms - REFRESH_AGE_MS;
        proof {
            let pred = |e: (String, u64)| due_for_refresh(e.1, now_ms);
            let before = entries@.take(i as int);
            let cur = entries@.take(i + 1);
            assert(cur.drop_last() =~= before);
            assert(cur.last() == entries@[i as int]);
            reveal_with_fuel(Seq::filter, 2);
            if pred(entries@[i as int]) {
                assert(cur.filter(pred) == before.filter(pred).push(entries@[i as int]));
                assert(cur.filter(pred).map_values(|e: (String, u64)| e.0) =~= before.filter(
                    pred,
                ).map_values(|e: (String, u64)| e.0).push(entries@[i as int].0));
            } else {
                assert(cur.filter(pred) == before.filter(pred));
            }
        }
        if due {
            r.push(entries[i].0.clone());
        }
        i = i + 1;
    }
    proof {
        assert(entries@.take(n as int) =~= entries@);
    }
    r
}

} // verus!
