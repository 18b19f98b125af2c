use wvw_overview::cache::{clone_data, empty_snapshot, rebuild_and_publish, SnapshotCache};
use wvw_overview::data::{u32_to_string, APIEndpoint, Guild, Match, Tier, VictoryPoints, Worlds};
use wvw_overview::snapshot::{
    build_all_matches, build_data, build_match_data, fix_team_ids, team_name_of, TierRow,
};

fn names(v: &[&str]) -> Vec<String> {
    v.iter().map(|s| s.to_string()).collect()
}

fn sample_match() -> Match {
    Match {
        id: "2-1".to_string(),
        start_time: "2024-01-05T18:00:00Z".to_string(),
        end_time: "2024-01-12T18:00:00Z".to_string(),
        worlds: Worlds { red: 12001, green: 2101, blue: 1005 },
        victory_points: VictoryPoints { red: 120, green: 95, blue: 101 },
    }
}

fn sample_row() -> TierRow {
    TierRow {
        m: sample_match(),
        red_guilds: names(&["Skritt Collectors", "aardvarks"]),
        green_guilds: names(&["Bava Regulars"]),
        blue_guilds: Vec::new(),
    }
}

#[test]
fn fix_team_ids_pads_short_ids() {
    assert_eq!(fix_team_ids("1234"), "11234");
}

#[test]
fn fix_team_ids_remaps_the_known_bad_id() {
    assert_eq!(fix_team_ids("12101"), "12015");
    assert_eq!(fix_team_ids("2101"), "12015");
}

#[test]
fn fix_team_ids_keeps_canonical_ids() {
    assert_eq!(fix_team_ids("12001"), "12001");
    assert_eq!(fix_team_ids("11005"), "11005");
}

#[test]
fn team_names_resolve_known_ids() {
    assert_eq!(team_name_of("11001"), Some("Moogooloo".to_string()));
    assert_eq!(team_name_of("12015"), Some("Bava Nisos".to_string()));
    assert_eq!(team_name_of("12014"), Some("Great House Aviary".to_string()));
    assert_eq!(team_name_of("99999"), None);
    assert_eq!(team_name_of(""), None);
}

#[test]
fn u32_renders_in_decimal() {
    assert_eq!(u32_to_string(0), "0");
    assert_eq!(u32_to_string(7), "7");
    assert_eq!(u32_to_string(12345), "12345");
    assert_eq!(u32_to_string(u32::MAX), "4294967295");
}

#[test]
fn tier_identifiers_render() {
    assert_eq!(Tier::One.as_id(), "2-1");
    assert_eq!(Tier::Five.as_id(), "2-5");
    assert_eq!(Tier::Three.as_str(), "3");
    assert_eq!(Tier::all().len(), 5);
}

#[test]
fn endpoint_urls_render_in_full() {
    assert_eq!(
        APIEndpoint::Match(Tier::Two).url(),
        "https://api.guildwars2.com/v2/wvw/matches/2-2"
    );
    assert_eq!(
        APIEndpoint::Guild("abc-def".to_string()).url(),
        "https://api.guildwars2.com/v2/guild/abc-def"
    );
    assert_eq!(
        APIEndpoint::GuildIDfromName("Bob".to_string()).url(),
        "https://api.guildwars2.com/v2/guild/search?name=Bob"
    );
}

#[test]
fn guild_display_shows_name_and_tag() {
    let g = Guild { id: "x".to_string(), name: "Mosswood".to_string(), tag: "MW".to_string() };
    assert_eq!(g.display_string(), "Mosswood [MW]");
}

#[test]
fn match_view_resolves_names_points_and_groupings() {
    let md = build_match_data(&sample_row());
    assert_eq!(md.red.team_name, "Skrittsburgh");
    // 2101 is padded to 12101 and remapped to 12015.
    assert_eq!(md.green.team_name, "Bava Nisos");
    assert_eq!(md.blue.team_name, "Tombs of Drascir");
    assert_eq!(md.red.victory_points, "120");
    assert_eq!(md.green.victory_points, "95");
    assert_eq!(md.blue.victory_points, "101");
    let red_keys: Vec<char> = md.red.guilds.iter().map(|b| b.0).collect();
    assert_eq!(red_keys, vec!['A', 'S']);
    assert_eq!(md.red.guilds[0].1, names(&["aardvarks"]));
    assert_eq!(md.red.guilds[1].1, names(&["Skritt Collectors"]));
    assert!(md.blue.guilds.is_empty());
}

#[test]
fn unknown_world_renders_the_placeholder() {
    let mut row = sample_row();
    row.m.worlds.red = 99999;
    let md = build_match_data(&row);
    assert_eq!(md.red.team_name, "Unknown");
}

#[test]
fn empty_tiers_produce_no_entries() {
    // A tier with no match row yields no entry for that tier index; a
    // populated tier yields one entry with exactly three colors, each
    // grouping covering every guild of its team.
    let rows = vec![None, Some(sample_row()), None, None, None];
    let built = build_all_matches(&rows);
    assert_eq!(built.len(), 1);
    assert_eq!(built[0].0, 1);
    let md = &built[0].1;
    let red_members: Vec<String> = md.red.guilds.iter().flat_map(|b| b.1.clone()).collect();
    assert_eq!(red_members.len(), 2);
    let green_members: Vec<String> = md.green.guilds.iter().flat_map(|b| b.1.clone()).collect();
    assert_eq!(green_members, names(&["Bava Regulars"]));
}

#[test]
fn all_empty_tiers_produce_an_empty_view() {
    let rows: Vec<Option<TierRow>> = vec![None, None, None, None, None];
    assert!(build_all_matches(&rows).is_empty());
}

#[test]
fn build_data_resolves_our_team() {
    let rows = vec![None, None, None, None, None];
    let d = build_data(&rows, Some("11012".to_string()), names(&["Friends"]));
    assert_eq!(d.our_team, "Mosswood");
    assert_eq!(d.important_guilds, names(&["Friends"]));
    let d2 = build_data(&rows, Some("0".to_string()), Vec::new());
    assert_eq!(d2.our_team, "");
    let d3 = build_data(&rows, None, Vec::new());
    assert_eq!(d3.our_team, "");
}

#[test]
fn cache_hands_back_the_published_snapshot_in_full() {
    // A reader observes one whole published value: after a rebuild replaces
    // the snapshot, a fresh read sees the new value in its entirety.
    let cache = SnapshotCache::new(empty_snapshot());
    let before = cache.read();
    assert!(before.matches.is_empty());
    assert_eq!(before.our_team, "");
    let rows = vec![None, Some(sample_row()), None, None, None];
    rebuild_and_publish(&cache, &rows, Some("12001".to_string()), names(&["Friends"]));
    let after = cache.read();
    assert_eq!(after.our_team, "Skrittsburgh");
    assert_eq!(after.important_guilds, names(&["Friends"]));
    assert_eq!(after.matches.len(), 1);
    assert_eq!(after.matches[0].0, 1);
    assert_eq!(after.matches[0].1.green.team_name, "Bava Nisos");
}

#[test]
fn clone_data_copies_content() {
    let rows = vec![Some(sample_row()), None, None, None, None];
    let d = build_data(&rows, Some("11001".to_string()), names(&["A", "B"]));
    let c = clone_data(&d);
    assert_eq!(c.our_team, d.our_team);
    assert_eq!(c.important_guilds, d.important_guilds);
    assert_eq!(c.matches.len(), d.matches.len());
    assert_eq!(c.matches[0].0, d.matches[0].0);
    assert_eq!(c.matches[0].1.red.team_name, d.matches[0].1.red.team_name);
    assert_eq!(c.matches[0].1.red.guilds, d.matches[0].1.red.guilds);
}
