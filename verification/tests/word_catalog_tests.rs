use glogger::word_catalog::{lookup, UNKNOWN_CATEGORY};

#[test]
fn known_name_resolves_category_and_level() {
    assert_eq!(lookup("Unnatural Gravity"), ("Debuffs", Some(3)));
    assert_eq!(lookup("  super jumping  "), ("Utility", Some(3)));
}

#[test]
fn unknown_name_returns_unknown_category() {
    assert_eq!(lookup("Totally Made Up Power"), (UNKNOWN_CATEGORY, None));
}

#[test]
fn levels_are_tiers_and_unknown_has_none() {
    let tiers = [0u32, 3, 5, 7, 9, 19];
    for name in ["Teleport to Crypt", "Leprosy", "Flight", "Epic Loot", "Rakshasa Illusion", "Inner Flame"] {
        let (category, level) = lookup(name);
        assert_ne!(category, UNKNOWN_CATEGORY);
        assert!(tiers.contains(&level.unwrap()));
    }
    assert_eq!(lookup("Not A Word"), (UNKNOWN_CATEGORY, None));
    assert_eq!(lookup("  FLIGHT "), lookup("flight"));
}
