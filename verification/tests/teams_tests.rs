use wvw_overview::teams::{
    find_team, guilds_to_update, reconcile_memberships, sort_guilds, str_eq, REFRESH_AGE_MS,
};

fn pairs(v: &[(&str, &str)]) -> Vec<(String, String)> {
    v.iter().map(|(a, b)| (a.to_string(), b.to_string())).collect()
}

#[test]
fn str_eq_compares_by_characters() {
    assert!(str_eq("abc", "abc"));
    assert!(!str_eq("abc", "abd"));
    assert!(!str_eq("abc", "ab"));
    assert!(str_eq("", ""));
}

#[test]
fn find_team_returns_the_first_match() {
    let listing = pairs(&[("g1", "t1"), ("g2", "t2")]);
    assert_eq!(find_team(&listing, "g2"), Some("t2".to_string()));
    assert_eq!(find_team(&listing, "g9"), None);
}

#[test]
fn reconcile_nulls_absent_rows_and_keeps_them() {
    // A previous row for g3 survives one pass with its team forced to null;
    // the listed guilds g1 and g2 end up with their fresh teams.
    let prev = vec![("g3".to_string(), Some("t3".to_string()))];
    let listing = pairs(&[("g1", "t1"), ("g2", "t2")]);
    let rows = reconcile_memberships(&prev, &listing);
    assert_eq!(
        rows,
        vec![
            ("g3".to_string(), None),
            ("g1".to_string(), Some("t1".to_string())),
            ("g2".to_string(), Some("t2".to_string())),
        ]
    );
}

#[test]
fn reconcile_refreshes_known_rows_in_place() {
    let prev = vec![
        ("g1".to_string(), Some("old".to_string())),
        ("g2".to_string(), None),
    ];
    let listing = pairs(&[("g1", "t1"), ("g2", "t2")]);
    let rows = reconcile_memberships(&prev, &listing);
    assert_eq!(
        rows,
        vec![
            ("g1".to_string(), Some("t1".to_string())),
            ("g2".to_string(), Some("t2".to_string())),
        ]
    );
}

#[test]
fn reconcile_of_empty_listing_nulls_everything() {
    let prev = vec![
        ("g1".to_string(), Some("t1".to_string())),
        ("g2".to_string(), Some("t2".to_string())),
    ];
    let rows = reconcile_memberships(&prev, &Vec::new());
    assert_eq!(
        rows,
        vec![("g1".to_string(), None), ("g2".to_string(), None)]
    );
}

#[test]
fn sort_guilds_partitions_own_guild_then_team_then_rest() {
    let listing = pairs(&[
        ("stranger1", "t9"),
        ("mate1", "t1"),
        ("me", "t1"),
        ("stranger2", "t8"),
        ("mate2", "t1"),
    ]);
    let ordered = sort_guilds(listing, "me");
    let ids: Vec<&str> = ordered.iter().map(|p| p.0.as_str()).collect();
    assert_eq!(ids, vec!["me", "mate1", "mate2", "stranger1", "stranger2"]);
}

#[test]
fn sort_guilds_without_own_entry_keeps_the_listing() {
    let listing = pairs(&[("g1", "t1"), ("g2", "t2")]);
    let ordered = sort_guilds(listing.clone(), "absent");
    assert_eq!(ordered, listing);
}

#[test]
fn guilds_to_update_selects_only_stale_markers() {
    let now: u64 = 10 * REFRESH_AGE_MS;
    let entries = vec![
        ("fresh".to_string(), now - 1),
        ("stale".to_string(), now - REFRESH_AGE_MS - 1),
        ("edge".to_string(), now - REFRESH_AGE_MS),
        ("ancient".to_string(), 0),
    ];
    let due = guilds_to_update(&entries, now);
    assert_eq!(due, vec!["stale".to_string(), "ancient".to_string()]);
}

#[test]
fn guilds_to_update_near_epoch_selects_nothing() {
    let entries = vec![("g".to_string(), 0)];
    assert!(guilds_to_update(&entries, REFRESH_AGE_MS - 1).is_empty());
}
