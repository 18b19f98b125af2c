use wvw_overview::normalize::{group_guilds, normalize_name, str_chars, trim_chars};

fn names(v: &[&str]) -> Vec<String> {
    v.iter().map(|s| s.to_string()).collect()
}

#[test]
fn normalize_strips_diacritics_and_lowercases() {
    assert_eq!(normalize_name("Ärnö"), "arno");
    assert_eq!(normalize_name("Arno"), "arno");
}

#[test]
fn normalize_trims_whitespace() {
    assert_eq!(normalize_name("  Bob  "), "bob");
    assert_eq!(normalize_name("\tThe Mossy Ones \n"), "the mossy ones");
}

#[test]
fn normalize_of_empty_is_empty() {
    assert_eq!(normalize_name(""), "");
    assert_eq!(normalize_name("   "), "");
}

#[test]
fn trim_chars_removes_only_outer_whitespace() {
    let cs = str_chars("  a b  ");
    let t = trim_chars(&cs);
    let s: String = t.iter().collect();
    assert_eq!(s, "a b");
}

#[test]
fn accented_and_plain_names_share_a_bucket() {
    // normalize("Ärnö") buckets under 'A' identically to normalize("Arno").
    let grouped = group_guilds(names(&["Ärnö", "Arno"]));
    assert_eq!(grouped.len(), 1);
    assert_eq!(grouped[0].0, 'A');
    assert_eq!(grouped[0].1.len(), 2);
    assert!(grouped[0].1.contains(&"Ärnö".to_string()));
    assert!(grouped[0].1.contains(&"Arno".to_string()));
}

#[test]
fn grouping_of_no_names_is_empty() {
    let grouped = group_guilds(Vec::new());
    assert!(grouped.is_empty());
}

#[test]
fn grouping_keys_ascend_and_members_sort_by_normalized_form() {
    let grouped = group_guilds(names(&["Zeta", "alpha", "Écho", "zeal", "Anchor"]));
    let keys: Vec<char> = grouped.iter().map(|b| b.0).collect();
    assert_eq!(keys, vec!['A', 'E', 'Z']);
    assert_eq!(grouped[0].1, names(&["alpha", "Anchor"]));
    assert_eq!(grouped[1].1, names(&["Écho"]));
    assert_eq!(grouped[2].1, names(&["zeal", "Zeta"]));
}

#[test]
fn non_letter_leads_fall_back_to_the_hash_bucket() {
    let grouped = group_guilds(names(&["42nd Legion", "", "!bang"]));
    assert_eq!(grouped.len(), 1);
    assert_eq!(grouped[0].0, '#');
    assert_eq!(grouped[0].1.len(), 3);
}

#[test]
fn grouping_keeps_every_name() {
    let input = names(&["Mosswood", "mirror", "Frost", "frost", "Frost"]);
    let grouped = group_guilds(input.clone());
    let mut collected: Vec<String> = grouped.iter().flat_map(|b| b.1.clone()).collect();
    let mut expected = input;
    collected.sort();
    expected.sort();
    assert_eq!(collected, expected);
}
