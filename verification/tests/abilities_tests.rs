use glogger::abilities::{
    ability_id_from_key, ability_name, bucket_members, damage_type_named, dot_tokens,
    indirect_tokens, is_indirect_damage, special_value_tokens, AbilityFamily, DotTokens,
    SpecialValueTokens,
};

fn strings(v: &[&str]) -> Vec<String> {
    v.iter().map(|s| s.to_string()).collect()
}

fn sv(label: Option<&str>, suffix: Option<&str>, delta: &[&str], mods: &[&str]) -> SpecialValueTokens {
    SpecialValueTokens {
        label: label.map(|s| s.to_string()),
        suffix: suffix.map(|s| s.to_string()),
        attributes_that_delta_base: vec![],
        attributes_that_delta: strings(delta),
        attributes_that_mod: strings(mods),
    }
}

#[test]
fn ability_keys_name_their_id() {
    assert_eq!(ability_id_from_key("ability_1234"), Some(1234));
    assert_eq!(ability_id_from_key("some_long_key_77"), Some(77));
    assert_eq!(ability_id_from_key("42"), Some(42));
    assert_eq!(ability_id_from_key("ability_x"), None);
    assert_eq!(ability_id_from_key("ability_"), None);
    assert_eq!(ability_id_from_key("ability_99999999999"), None);
    assert_eq!(ability_name(None, 17), "Unknown Ability 17");
    assert_eq!(ability_name(Some("Punch".into()), 17), "Punch");
}

#[test]
fn indirect_tokens_are_universal_then_typed() {
    assert_eq!(
        indirect_tokens("BOOST", Some("Psychic")),
        vec!["BOOST_UNIVERSAL_INDIRECT", "BOOST_PSYCHIC_INDIRECT"]
    );
    assert_eq!(indirect_tokens("MOD", None), vec!["MOD_UNIVERSAL_INDIRECT"]);
}

#[test]
fn dot_ticks_take_only_their_own_and_indirect_tokens() {
    let dot = DotTokens {
        damage_type: Some("Psychic".into()),
        attributes_that_delta: strings(&["BOOST_ABILITYDOT_MINDWORM"]),
        attributes_that_mod: vec![],
    };
    let (flat, pct) = dot_tokens(&dot);
    assert_eq!(
        flat,
        vec!["BOOST_ABILITYDOT_MINDWORM", "BOOST_UNIVERSAL_INDIRECT", "BOOST_PSYCHIC_INDIRECT"]
    );
    assert_eq!(pct, vec!["MOD_UNIVERSAL_INDIRECT", "MOD_PSYCHIC_INDIRECT"]);

    // Direct and base-skill mods never select a tick bucket.
    let mods = strings(&[
        "MOD_SKILL_MENTALISM",
        "BOOST_ABILITY_MINDWORM",
        "MOD_ABILITY_MINDWORM",
        "BOOST_ABILITYDOT_MINDWORM",
        "MOD_PSYCHIC_INDIRECT",
        "MOD_UNIVERSAL_INDIRECT",
    ]);
    assert_eq!(bucket_members(&mods, &flat), vec![3]);
    assert_eq!(bucket_members(&mods, &pct), vec![4, 5]);
}

#[test]
fn reflect_damage_values_take_indirect_tokens_of_their_type() {
    let v = sv(
        Some("For 8 seconds, each time target attacks you, they suffer"),
        Some("Trauma damage"),
        &["BOOST_ABILITYDOT_TOUGHHOOF"],
        &[],
    );
    assert!(is_indirect_damage(&v));
    assert_eq!(damage_type_named(&v), Some("Trauma".to_string()));
    let (delta, mods) = special_value_tokens(&v);
    assert_eq!(
        delta,
        vec!["BOOST_ABILITYDOT_TOUGHHOOF", "BOOST_UNIVERSAL_INDIRECT", "BOOST_TRAUMA_INDIRECT"]
    );
    assert_eq!(mods, vec!["MOD_UNIVERSAL_INDIRECT", "MOD_TRAUMA_INDIRECT"]);
    let all = strings(&["BOOST_ABILITYDOT_TOUGHHOOF", "MOD_TRAUMA_INDIRECT", "MOD_SKILL_UNARMED"]);
    assert_eq!(bucket_members(&all, &delta), vec![0]);
    assert_eq!(bucket_members(&all, &mods), vec![1]);
}

#[test]
fn heals_keep_their_own_tokens() {
    let v = sv(Some("Restore"), Some("Health to You and Nearby Allies"), &["BOOST_MAJORHEAL_SENDER"], &[]);
    assert!(!is_indirect_damage(&v));
    let (delta, mods) = special_value_tokens(&v);
    assert_eq!(delta, vec!["BOOST_MAJORHEAL_SENDER"]);
    assert!(mods.is_empty());
    assert_eq!(damage_type_named(&sv(None, None, &[], &[])), None);
    // The first type in list order wins; case is ignored.
    assert_eq!(damage_type_named(&sv(Some("FIRE and acid"), None, &[], &[])), Some("Acid".to_string()));
}

#[test]
fn buckets_keep_mod_order_and_repeats() {
    let mods = strings(&["A", "B", "A", "C"]);
    assert_eq!(bucket_members(&mods, &strings(&["A"])), vec![0, 2]);
    assert_eq!(bucket_members(&mods, &[]), Vec::<usize>::new());
    assert_eq!(bucket_members(&[], &strings(&["A"])), Vec::<usize>::new());
}

#[test]
fn ability_family_holds_its_tiers() {
    let f = AbilityFamily {
        base_internal_name: "Punch1".into(),
        base_name: "Punch".into(),
        icon_id: Some(3),
        skill: Some("Unarmed".into()),
        damage_type: Some("Crushing".into()),
        is_monster_ability: false,
        tier_ids: vec![1, 2, 3],
    };
    assert_eq!(f.tier_ids.len(), 3);
}

#[test]
fn direct_only_mods_never_reach_dots() {
    let dot = DotTokens {
        damage_type: Some("Psychic".into()),
        attributes_that_delta: strings(&["BOOST_ABILITY_MINDWORM_DOT"]),
        attributes_that_mod: strings(&["MOD_ABILITY_MINDWORM_DOT"]),
    };
    let (flat, pct) = dot_tokens(&dot);
    let mods = strings(&[
        "MOD_SKILL_MENTALISM",
        "BOOST_ABILITY_MINDWORM",
        "MOD_ABILITY_MINDWORM",
        "BOOST_PSYCHIC_INDIRECT",
        "BOOST_ABILITY_MINDWORM_DOT",
        "MOD_UNIVERSAL_INDIRECT",
    ]);
    assert_eq!(bucket_members(&mods, &flat), vec![3, 4]);
    assert_eq!(bucket_members(&mods, &pct), vec![5]);
}
