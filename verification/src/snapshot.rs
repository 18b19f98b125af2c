//! The snapshot builder: assembles the complete published aggregate from the
//! stored matches and per-team guild listings, resolving world ids to team
//! display names and grouping guild names alphabetically.

use vstd::prelude::*;
use crate::data::{Data, Match, MatchColor, MatchData, spec_dec, u32_to_string};
use crate::normalize::{group_guilds, is_grouping_of};
use crate::teams::str_eq;

verus! {

/// The raw world id brought to canonical form: a shortened four-digit id is
/// zero-padded with a leading `1`, and the one known-bad id `12101` (a
/// documented data-source quirk) is remapped to `12015`.
pub open spec fn spec_fix_team_ids(s: Seq<char>) -> Seq<char> {
    let a = if s.len() == 4 {
        "1"@ + s
    } else {
        s
    };
    if a == "12101"@ {
        "12015"@
    } else {
        a
    }
}

pub fn fix_team_ids(s: &str) -> (r: String)
    ensures
        r@ == spec_fix_team_ids(s@),
{
    let a: String = if s.unicode_len() == 4 {
        String::from_str("1").concat(s)
    } else {
        s.to_owned()
    };
    if str_eq(a.as_str(), "12101") {
        String::from_str("12015")
    } else {
        a
    }
}

/// The display name assigned to a canonical team id, if it is a known team.
pub open spec fn spec_team_name(id: Seq<char>) -> Option<Seq<char>> {
    if id == "11001"@ {
        Some("Moogooloo"@)
    } else if id == "11002"@ {
        Some("Rall's Rest"@)
    } else if id == "11003"@ {
        Some("Domain of Torment"@)
    } else if id == "11004"@ {
        Some("Yohlon Haven"@)
    } else if id == "11005"@ {
        Some("Tombs of Drascir"@)
    } else if id == "11006"@ {
        Some("Hall of Judgment"@)
    } else if id == "11007"@ {
        Some("Throne of Balthazar"@)
    } else if id == "11008"@ {
        Some("Dwayna's Temple"@)
    } else if id == "11009"@ {
        Some("Abaddon's Prison"@)
    } else if id == "11010"@ {
        Some("Cathedral of Blood"@)
    } else if id == "11011"@ {
        Some("Lutgardis Conservatory"@)
    } else if id == "11012"@ {
        Some("Mosswood"@)
    } else if id == "12001"@ {
        Some("Skrittsburgh"@)
    } else if id == "12002"@ {
        Some("Fortune's Vale"@)
    } else if id == "12003"@ {
        Some("Silent Woods"@)
    } else if id == "12004"@ {
        Some("Ettin's Back"@)
    } else if id == "12005"@ {
        Some("Domain of Anguish"@)
    } else if id == "12006"@ {
        Some("Palawadan"@)
    } else if id == "12007"@ {
        Some("Bloodstone Gulch"@)
    } else if id == "12008"@ {
        Some("Frost Citadel"@)
    } else if id == "12009"@ {
        Some("Dragrimmar"@)
    } else if id == "12010"@ {
        Some("Grenth's Door"@)
    } else if id == "12011"@ {
        Some("Mirror of Lyssa"@)
    } else if id == "12012"@ {
        Some("Melandru's Dome"@)
    } else if id == "12013"@ {
        Some("Kormir's Library"@)
    } else if id == "12014"@ {
        Some("Great House Aviary"@)
    } else if id == "12015"@ {
        Some("Bava Nisos"@)
    } else {
        None
    }
}

/// Look a canonical team id up in the fixed display-name table.
#[verifier::rlimit(30)]
pub fn team_name_of(id: &str) -> (r: Option<String>)
    ensures
        r is Some <==> spec_team_name(id@) is Some,
        r matches Some(n) ==> spec_team_name(id@) == Some(n@),
{
    if str_eq(id, "11001") {
        Some(String::from_str("Moogooloo"))
    } else if str_eq(id, "11002") {
        Some(String::from_str("Rall's Rest"))
    } else if str_eq(id, "11003") {
        Some(String::from_str("Domain of Torment"))
    } else if str_eq(id, "11004") {
        Some(String::from_str("Yohlon Haven"))
    } else if str_eq(id, "11005") {
        Some(String::from_str("Tombs of Drascir"))
    } else if str_eq(id, "11006") {
        Some(String::from_str("Hall of Judgment"))
    } else if str_eq(id, "11007") {
        Some(String::from_str("Throne of Balthazar"))
    } else if str_eq(id, "11008") {
        Some(String::from_str("Dwayna's Temple"))
    } else if str_eq(id, "11009") {
        Some(String::from_str("Abaddon's Prison"))
    } else if str_eq(id, "11010") {
        Some(String::from_str("Cathedral of Blood"))
    } else if str_eq(id, "11011") {
        Some(String::from_str("Lutgardis Conservatory"))
    } else if str_eq(id, "11012") {
        Some(String::from_str("Mosswood"))
    } else if str_eq(id, "12001") {
        Some(String::from_str("Skrittsburgh"))
    } else if str_eq(id, "12002") {
        Some(String::from_str("Fortune's Vale"))
    } else if str_eq(id, "12003") {
        Some(String::from_str("Silent Woods"))
    } else if str_eq(id, "12004") {
        Some(String::from_str("Ettin's Back"))
    } else if str_eq(id, "12005") {
        Some(String::from_str("Domain of Anguish"))
    } else if str_eq(id, "12006") {
        Some(String::from_str("Palawadan"))
    } else if str_eq(id, "12007") {
        Some(String::from_str("Bloodstone Gulch"))
    } else if str_eq(id, "12008") {
        Some(String::from_str("Frost Citadel"))
    } else if str_eq(id, "12009") {
        Some(String::from_str("Dragrimmar"))
    } else if str_eq(id, "12010") {
        Some(String::from_str("Grenth's Door"))
    } else if str_eq(id, "12011") {
        Some(String::from_str("Mirror of Lyssa"))
    } else if str_eq(id, "12012") {
        Some(String::from_str("Melandru's Dome"))
    } else if str_eq(id, "12013") {
        Some(String::from_str("Kormir's Library"))
    } else if str_eq(id, "12014") {
        Some(String::from_str("Great House Aviary"))
    } else if str_eq(id, "12015") {
        Some(String::from_str("Bava Nisos"))
    } else {
        None
    }
}

/// The display name rendered for a raw world id: the table entry for its
/// canonical form, or the placeholder for unknown ids.
pub open spec fn display_team_name(world: u32) -> Seq<char> {
    match spec_team_name(spec_fix_team_ids(spec_dec(world as int))) {
        Some(n) => n,
        None => "Unknown"@,
    }
}

fn team_display(world: u32) -> (r: String)
    ensures
        r@ == display_team_name(world),
{
    let id = fix_team_ids(u32_to_string(world).as_str());
    match team_name_of(id.as_str()) {
        Some(n) => n,
        None => String::from_str("Unknown"),
    }
}

/// One color's slice of the published view is correctly built from a world
/// id, a victory-point count and the color's member guild names.
pub open spec fn color_ok(c: MatchColor, world: u32, vp: u32, names: Seq<String>) -> bool {
    &&& c.team_name@ == display_team_name(world)
    &&& c.victory_points@ == spec_dec(vp as int)
    &&& is_grouping_of(c.guilds@, names)
}

/// Build one color's slice of the published view.
pub fn build_match_color(world: u32, vp: u32, names: Vec<String>) -> (c: MatchColor)
    ensures
        color_ok(c, world, vp, names@),
{
    MatchColor {
        team_name: team_display(world),
        victory_points: u32_to_string(vp),
        guilds: group_guilds(names),
    }
}

/// What the snapshot builder reads from storage for one tier: the match row
/// and, per color, the guild names of the world's team.
pub struct TierRow {
    pub m: Match,
    pub red_guilds: Vec<String>,
    pub green_guilds: Vec<String>,
    pub blue_guilds: Vec<String>,
}

/// A published match view is correctly built from one tier's stored state.
pub open spec fn match_data_ok(md: MatchData, row: TierRow) -> bool {
    &&& color_ok(md.red, row.m.worlds.red, row.m.victory_points.red, row.red_guilds@)
    &&& color_ok(md.green, row.m.worlds.green, row.m.victory_points.green, row.green_guilds@)
    &&& color_ok(md.blue, row.m.worlds.blue, row.m.victory_points.blue, row.blue_guilds@)
}

/// The names of a list, cloned.
fn clone_names(v: &Vec<String>) -> (r: Vec<String>)
    ensures
        r@ == v@,
{
    let n = v.len();
    let mut r: Vec<String> = Vec::new();
    let mut i: usize = 0;
    while i < n
        invariant
            i <= n,
            n == v@.len(),
            r@ == v@.take(i as int),
        decreases n - i,
    {
        r.push(v[i].clone());
        assert(r@ =~= v@.take(i + 1));
        i = i + 1;
    }
    proof {
        assert(v@.take(n as int) =~= v@);
    }
    r
}

/// Build the published view of one match: exactly three colors, each with its
/// team name, victory points, and grouped guild names.
pub fn build_match_data(row: &TierRow) -> (md: MatchData)
    ensures
        match_data_ok(md, *row),
{
    MatchData {
        red: build_match_color(
            row.m.worlds.red,
            row.m.victory_points.red,
            clone_names(&row.red_guilds),
        ),
        green: build_match_color(
            row.m.worlds.green,
            row.m.victory_points.green,
            clone_names(&row.green_guilds),
        ),
        blue: build_match_color(
            row.m.worlds.blue,
            row.m.victory_points.blue,
            clone_names(&row.blue_guilds),
        ),
    }
}

/// The per-tier views are exactly the populated tiers: an entry appears for a
/// tier index if and only if that tier has a match row, entries are keyed in
/// strictly increasing tier order, and each is correctly built from its row.
pub open spec fn matches_ok(r: Seq<(usize, MatchData)>, rows: Seq<Option<TierRow>>) -> bool {
    &&& forall|k: int|
        0 <= k < r.len() ==> (#[trigger] r[k]).0 < rows.len() && rows[r[k].0 as int] is Some
    &&& forall|k: int|
        0 <= k < r.len() ==> match rows[(#[trigger] r[k]).0 as int] {
            Some(row) => match_data_ok(r[k].1, row),
            None => false,
        }
    &&& forall|k1: int, k2: int|
        0 <= k1 < k2 < r.len() ==> (#[trigger] r[k1]).0 < (#[trigger] r[k2]).0
    &&& forall|t: int|
        0 <= t < rows.len() && rows[t] is Some ==> exists|k: int|
            0 <= k < r.len() && (#[trigger] r[k]).0 == t
}

/// Build the per-tier views from what storage held for each tier: a tier with
/// no match row produces no entry; a populated tier produces one entry with
/// exactly three colors.
pub fn build_all_matches(rows: &Vec<Option<TierRow>>) -> (r: Vec<(usize, MatchData)>)
    ensures
        matches_ok(r@, rows@),
{
    let n = rows.len();
    let mut r: Vec<(usize, MatchData)> = Vec::new();
    let mut i: usize = 0;
    while i < n
        invariant
            i <= n,
            n == rows@.len(),
            forall|k: int|
                0 <= k < r@.len() ==> (#[trigger] r@[k]).0 < i && rows@[r@[k].0 as int] is Some,
            forall|k: int|
                0 <= k < r@.len() ==> match rows@[(#[trigger] r@[k]).0 as int] {
                    Some(row) => match_data_ok(r@[k].1, row),
                    None => false,
                },
            forall|k1: int, k2: int|
                0 <= k1 < k2 < r@.len() ==> (#[trigger] r@[k1]).0 < (#[trigger] r@[k2]).0,
            forall|t: int|
                0 <= t < i && rows@[t] is Some ==> exists|k: int|
                    0 <= k < r@.len() && (#[trigger] r@[k]).0 == t,
        decreases n - i,
    {
        match &rows[i] {
            None => {},
            Some(row) => {
                let md = build_match_data(row);
                let ghost r_prev = r@;
                r.push((i, md));
                proof {
                    assert(r@[r@.len() - 1].0 == i);
                    assert forall|t: int| 0 <= t < i + 1 && rows@[t] is Some implies exists|k: int|
                        0 <= k < r@.len() && (#[trigger] r@[k]).0 == t by {
                        if t == i {
                            assert(r@[r@.len() - 1].0 == t);
                        } else {
                            let k0 = choose|k: int|
                                0 <= k < r_prev.len() && (#[trigger] r_prev[k]).0 == t;
                            assert(r@[k0].0 == t);
                        }
                    }
                }
            },
        }
        i = i + 1;
    }
    r
}

/// The viewer's own team name: the table entry for the stored team id, empty
/// when the id is unknown or no team id is stored.
pub open spec fn spec_our_team(team_id: Option<String>) -> Seq<char> {
    match team_id {
        Some(id) => match spec_team_name(id@) {
            Some(n) => n,
            None => Seq::<char>::empty(),
        },
        None => Seq::<char>::empty(),
    }
}

/// Assemble the complete published aggregate: the per-tier match views, the
/// highlighted guild names as given, and the viewer's own team name resolved
/// from its stored team id.
pub fn build_data(
    rows: &Vec<Option<TierRow>>,
    our_team_id: Option<String>,
    important_guilds: Vec<String>,
) -> (d: Data)
    ensures
        matches_ok(d.matches@, rows@),
        d.important_guilds == important_guilds,
        d.our_team@ == spec_our_team(our_team_id),
{
    let our_team: String = match our_team_id {
        Some(id) => match team_name_of(id.as_str()) {
            Some(n) => n,
            None => String::new(),
        },
        None => String::new(),
    };
    Data { matches: build_all_matches(rows), important_guilds, our_team }
}

} // verus!
