use std::collections::HashMap;

use glogger::food_sources::{
    classify, is_event_food, skill_display_names, ItemInfo, RecipeInfo, SkillInfo, SourceEntry,
    SourceInfo,
};

fn item(internal: &str, keywords: &[&str]) -> ItemInfo {
    ItemInfo {
        id: 1,
        name: internal.to_string(),
        internal_name: Some(internal.to_string()),
        keywords: keywords.iter().map(|k| k.to_string()).collect(),
    }
}

fn entry(source_type: &str, recipe_id: Option<u32>) -> SourceEntry {
    SourceEntry { source_type: source_type.to_string(), recipe_id }
}

fn recipe(id: u32, skill: &str) -> RecipeInfo {
    RecipeInfo { id, skill: Some(skill.to_string()) }
}

fn no_names() -> Vec<(String, String)> {
    Vec::new()
}

#[test]
fn crafted_food_reports_its_craft_skill() {
    let recipes = HashMap::from([(7, recipe(7, "SushiPreparation"))]);
    let names = vec![("SushiPreparation".to_string(), "Sushi Preparation".to_string())];
    let sources = SourceInfo { entries: vec![entry("Recipe", Some(7))] };

    let out = classify(&item("SalmonNigiri", &[]), Some(&sources), &recipes, &names);

    assert_eq!(out.kinds, vec!["crafted"]);
    assert_eq!(out.craft_skills, vec!["Sushi Preparation"]);
}

#[test]
fn skill_without_a_display_name_falls_back_to_its_key() {
    let recipes = HashMap::from([(1, recipe(1, "Cooking"))]);
    let sources = SourceInfo { entries: vec![entry("Recipe", Some(1))] };

    let out = classify(&item("Bread", &[]), Some(&sources), &recipes, &no_names());

    assert_eq!(out.craft_skills, vec!["Cooking"]);
}

#[test]
fn multiple_sources_are_all_recorded_in_priority_order() {
    let recipes = HashMap::from([(1, recipe(1, "Cooking"))]);
    let sources = SourceInfo {
        entries: vec![entry("Vendor", None), entry("NpcGift", None), entry("Recipe", Some(1))],
    };

    let out = classify(&item("Cheese", &[]), Some(&sources), &recipes, &no_names());

    assert_eq!(out.kinds, vec!["crafted", "vendor", "npc-gift"]);
}

#[test]
fn halloween_candy_is_an_event_food_via_keyword() {
    let out = classify(
        &item("HalloweenCandy0", &["HalloweenCandy"]),
        None,
        &HashMap::new(),
        &no_names(),
    );

    assert_eq!(out.kinds, vec!["event"]);
}

#[test]
fn quest_given_halloween_candy_is_both_quest_and_event() {
    let sources = SourceInfo { entries: vec![entry("Quest", None)] };

    let out = classify(
        &item("HalloweenCandy9", &["HalloweenCandy"]),
        Some(&sources),
        &HashMap::new(),
        &no_names(),
    );

    assert_eq!(out.kinds, vec!["event", "quest"]);
}

#[test]
fn candy_canes_and_steam_cakes_match_by_name_pattern() {
    for internal in ["MintCandyCane", "GrapeCandyCane", "SteamCake8"] {
        let out = classify(&item(internal, &[]), None, &HashMap::new(), &no_names());
        assert_eq!(out.kinds, vec!["event"], "{internal}");
    }
}

#[test]
fn unobtainable_outranks_everything_else() {
    let out = classify(
        &item("ApologyCake", &["Lint_NotObtainable"]),
        None,
        &HashMap::new(),
        &no_names(),
    );

    assert_eq!(out.kinds, vec!["unobtainable", "event"]);
}

#[test]
fn seasonally_themed_cooking_recipes_are_not_event_foods() {
    let recipes = HashMap::from([(1, recipe(1, "Cooking"))]);
    let sources = SourceInfo { entries: vec![entry("Recipe", Some(1))] };

    let out = classify(&item("FancyPumpkinPie", &[]), Some(&sources), &recipes, &no_names());

    assert_eq!(out.kinds, vec!["crafted"]);
}

#[test]
fn a_food_with_no_known_source_falls_back_to_other() {
    let out = classify(&item("Honey", &[]), None, &HashMap::new(), &no_names());

    assert_eq!(out.kinds, vec!["other"]);
    assert!(out.craft_skills.is_empty());
}

#[test]
fn every_source_type_maps_to_its_kind() {
    let sources = SourceInfo {
        entries: vec![
            entry("Item", None),
            entry("Barter", None),
            entry("HangOut", None),
            entry("NpcGift", None),
            entry("Quest", None),
            entry("Vendor", None),
        ],
    };
    let out = classify(&item("Plain", &[]), Some(&sources), &HashMap::new(), &no_names());
    assert_eq!(out.kinds, vec!["vendor", "quest", "npc-gift", "hangout", "barter", "container"]);
}

#[test]
fn craft_skills_are_sorted_and_deduplicated() {
    let recipes = HashMap::from([
        (1, recipe(1, "Cooking")),
        (2, recipe(2, "Baking")),
        (3, recipe(3, "Cooking")),
    ]);
    let sources = SourceInfo {
        entries: vec![entry("Recipe", Some(1)), entry("Recipe", Some(2)), entry("Recipe", Some(3))],
    };
    let out = classify(&item("Pie", &[]), Some(&sources), &recipes, &no_names());
    assert_eq!(out.craft_skills, vec!["Baking", "Cooking"]);
    assert_eq!(out.kinds, vec!["crafted"]);
}

#[test]
fn recipe_entry_without_a_known_recipe_adds_no_skill() {
    let sources = SourceInfo { entries: vec![entry("Recipe", Some(99)), entry("Recipe", None)] };
    let out = classify(&item("Stew", &[]), Some(&sources), &HashMap::new(), &no_names());
    assert_eq!(out.kinds, vec!["crafted"]);
    assert!(out.craft_skills.is_empty());
}

#[test]
fn curated_event_items_and_plain_foods() {
    assert!(is_event_food(&item("SugarStick", &[])));
    assert!(is_event_food(&item("ThankYouCake", &[])));
    assert!(!is_event_food(&item("PumpkinPie", &[])));
    let nameless = ItemInfo { id: 2, name: "x".into(), internal_name: None, keywords: vec![] };
    assert!(!is_event_food(&nameless));
}

#[test]
fn skill_display_names_keeps_order() {
    let skills = vec![
        SkillInfo { id: 1, internal_name: "SushiPreparation".into(), name: "Sushi Preparation".into() },
        SkillInfo { id: 2, internal_name: "Cooking".into(), name: "Cooking".into() },
    ];
    let pairs = skill_display_names(&skills);
    assert_eq!(
        pairs,
        vec![
            ("SushiPreparation".to_string(), "Sushi Preparation".to_string()),
            ("Cooking".to_string(), "Cooking".to_string()),
        ]
    );
}
