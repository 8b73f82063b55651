use glogger::csv_import::{ExportedEnemy, ExportedLoot};
use glogger::kill_tracking::order_loot_rows;
use glogger::kill_tracking::{import_summary, source_label};
use glogger::drop_search::{
    drop_source_tallies, name_passes, scope_reads_imported, scope_reads_mine, scope_total_kills,
    search_enemies, search_harvested, search_items, search_needle, EnemyKillRow, EnemyLootItemRow,
    ItemSourceRow, SourceDropRow,
};
use glogger::kill_tracking::{
    combine_loot_rows, drop_binds, harvest_stats, is_sqlite_path, EnemyHarvestStat,
    HarvestSearchResult, LoadoutFilter, ZoneFilter,
};

fn kill(name: &str, zone: Option<&str>, kills: i64) -> EnemyKillRow {
    EnemyKillRow { enemy_name: name.into(), zone: zone.map(|z| z.to_string()), kills }
}

fn drop(name: &str, zone: Option<&str>, item: &str) -> EnemyLootItemRow {
    EnemyLootItemRow { enemy_name: name.into(), zone: zone.map(|z| z.to_string()), item_name: item.into() }
}

#[test]
fn zone_filters_build_sql_and_binds() {
    assert!(matches!(ZoneFilter::from_opt(None), ZoneFilter::All));
    assert!(matches!(ZoneFilter::from_opt(Some("")), ZoneFilter::Unknown));
    let z = ZoneFilter::from_opt(Some("AreaCave"));
    assert_eq!(z.sql("k.zone"), " AND k.zone IS ?");
    assert_eq!(z.bind(), Some("AreaCave".to_string()));
    assert_eq!(ZoneFilter::Unknown.sql("k.zone"), " AND k.zone IS NULL");
    assert_eq!(ZoneFilter::All.sql("k.zone"), "");
    assert!(matches!(ZoneFilter::from_stored(None), ZoneFilter::Unknown));

    let l = LoadoutFilter::from_opt(Some("  Sword, Shield "));
    assert_eq!(l.bind(), Some("Sword, Shield".to_string()));
    assert_eq!(l.sql("k.combat_skills"), " AND (k.combat_skills = ? OR k.combat_skills IS NULL)");
    assert_eq!(l.where_clause("c"), " WHERE (c = ? OR c IS NULL)");
    assert!(matches!(LoadoutFilter::from_opt(Some("   ")), LoadoutFilter::All));
    assert_eq!(LoadoutFilter::All.where_clause("c"), "");

    assert_eq!(drop_binds("Goblin", &z, &l), vec!["Goblin", "AreaCave", "Sword, Shield"]);
    assert_eq!(drop_binds("Goblin", &ZoneFilter::Unknown, &LoadoutFilter::All), vec!["Goblin"]);
}

#[test]
fn combined_scope_sums_rows_per_item() {
    let mine = vec![("Gold".to_string(), 5, 2), ("Hide".to_string(), 1, 1)];
    let imported = vec![("Gold".to_string(), 10, 4), ("Fang".to_string(), 3, 3)];
    let r = combine_loot_rows(mine, imported);
    assert_eq!(
        r,
        vec![("Gold".to_string(), 15, 6), ("Hide".to_string(), 1, 1), ("Fang".to_string(), 3, 3)]
    );
}

#[test]
fn sqlite_paths_by_extension() {
    assert!(is_sqlite_path("/tmp/export.db"));
    assert!(is_sqlite_path("C:/x/y.SQLite3"));
    assert!(is_sqlite_path("a.Sqlite"));
    assert!(!is_sqlite_path("drops.csv"));
    assert!(!is_sqlite_path("noext"));
    assert!(!is_sqlite_path(".db"));
}

#[test]
fn harvest_totals_sum_pulls() {
    let h = vec![
        EnemyHarvestStat { item_name: "Hide".into(), skill: "Skinning".into(), total_quantity: 4, times: 3 },
        EnemyHarvestStat { item_name: "Meat".into(), skill: "Butchering".into(), total_quantity: 9, times: 5 },
    ];
    let s = harvest_stats("Boar".into(), h);
    assert_eq!(s.corpse_name, "Boar");
    assert_eq!(s.total_extracts, 8);
    assert_eq!(s.harvests.len(), 2);
}

#[test]
fn search_text_is_trimmed_lowercase_containment() {
    let needle = search_needle("  GoB ");
    assert_eq!(needle, vec!['g', 'o', 'b']);
    assert!(name_passes(&needle, "Goblin Shaman"));
    assert!(!name_passes(&needle, "Orc"));
    assert!(name_passes(&search_needle("   "), "anything"));
}

#[test]
fn enemy_search_orders_by_kills_name_zone_and_limits() {
    let kills = vec![
        kill("orc", Some("B"), 5),
        kill("Goblin", Some("A"), 10),
        kill("Orc", Some("A"), 5),
        kill("Troll", None, 1),
    ];
    let loot = vec![
        drop("Goblin", Some("A"), "Gold"),
        drop("Goblin", Some("A"), "Gold"),
        drop("Goblin", Some("A"), "Dagger"),
        drop("Wisp", Some("C"), "Essence"),
    ];
    let all = search_enemies(&kills, &loot, "", None);
    let names: Vec<(&str, Option<&str>, i64, i64)> = all
        .iter()
        .map(|e| (e.enemy_name.as_str(), e.zone.as_deref(), e.total_kills, e.distinct_loot_items))
        .collect();
    assert_eq!(
        names,
        vec![
            ("Goblin", Some("A"), 10, 2),
            ("Orc", Some("A"), 5, 0),
            ("orc", Some("B"), 5, 0),
            ("Troll", None, 1, 0),
            ("Wisp", Some("C"), 0, 1),
        ]
    );
    let orcs = search_enemies(&kills, &loot, "ORC", Some(1));
    assert_eq!(orcs.len(), 1);
    assert_eq!(orcs[0].zone.as_deref(), Some("A"));
}

#[test]
fn item_search_sums_and_counts_sources() {
    let rows = vec![
        ItemSourceRow { item_name: "Gold".into(), quantity: 5, enemy_name: "Goblin".into(), zone: Some("A".into()) },
        ItemSourceRow { item_name: "Gold".into(), quantity: 7, enemy_name: "Goblin".into(), zone: Some("B".into()) },
        ItemSourceRow { item_name: "Hide".into(), quantity: 12, enemy_name: "Boar".into(), zone: None },
        ItemSourceRow { item_name: "bone".into(), quantity: 12, enemy_name: "Boar".into(), zone: None },
    ];
    let r = search_items(&rows, "", None);
    let v: Vec<(&str, i64, i64)> =
        r.iter().map(|i| (i.item_name.as_str(), i.total_quantity, i.distinct_enemies)).collect();
    assert_eq!(v, vec![("bone", 12, 1), ("Gold", 12, 2), ("Hide", 12, 1)]);
    let gold = search_items(&rows, "gol", Some(5));
    assert_eq!(gold.len(), 1);
    assert_eq!(gold[0].total_quantity, 12);
}

#[test]
fn harvest_search_filters_sorts_and_limits() {
    let rows = vec![
        HarvestSearchResult { item_name: "Hide".into(), total_quantity: 3, distinct_corpses: 1, total_extracts: 2 },
        HarvestSearchResult { item_name: "Meat".into(), total_quantity: 9, distinct_corpses: 2, total_extracts: 4 },
        HarvestSearchResult { item_name: "Bear Hide".into(), total_quantity: 9, distinct_corpses: 1, total_extracts: 1 },
    ];
    let r = search_harvested(rows, "", Some(2));
    let names: Vec<&str> = r.iter().map(|h| h.item_name.as_str()).collect();
    assert_eq!(names, vec!["Bear Hide", "Meat"]);
}

#[test]
fn drop_sources_group_and_sort_by_drops_then_quantity() {
    let rows = vec![
        SourceDropRow { enemy_name: "Goblin".into(), zone: Some("A".into()), times_dropped: 2, quantity: 4 },
        SourceDropRow { enemy_name: "Orc".into(), zone: None, times_dropped: 3, quantity: 3 },
        SourceDropRow { enemy_name: "Goblin".into(), zone: Some("A".into()), times_dropped: 1, quantity: 1 },
        SourceDropRow { enemy_name: "Goblin".into(), zone: Some("B".into()), times_dropped: 3, quantity: 9 },
    ];
    let t = drop_source_tallies(&rows);
    let v: Vec<(&str, Option<&str>, i64, i64)> = t
        .iter()
        .map(|s| (s.enemy_name.as_str(), s.zone.as_deref(), s.times_dropped, s.total_quantity))
        .collect();
    assert_eq!(
        v,
        vec![("Goblin", Some("B"), 3, 9), ("Goblin", Some("A"), 3, 5), ("Orc", None, 3, 3)]
    );
}

#[test]
fn scopes_choose_which_data_is_read() {
    assert!(scope_reads_mine("mine") && !scope_reads_imported("mine"));
    assert!(scope_reads_imported("imported") && !scope_reads_mine("imported"));
    assert!(scope_reads_mine("combined") && scope_reads_imported("combined"));
    assert_eq!(scope_total_kills("mine", 10, 5), 10);
    assert_eq!(scope_total_kills("imported", 10, 5), 5);
    assert_eq!(scope_total_kills("combined", 10, 5), 15);
}

#[test]
fn loot_rows_most_dropped_first() {
    let rows = vec![
        ("A".to_string(), 1, 1),
        ("B".to_string(), 9, 3),
        ("C".to_string(), 5, 3),
        ("D".to_string(), 9, 3),
    ];
    let r = order_loot_rows(rows);
    let names: Vec<&str> = r.iter().map(|x| x.0.as_str()).collect();
    assert_eq!(names, vec!["B", "D", "C", "A"]);
}

#[test]
fn import_labels_and_summary() {
    assert_eq!(source_label("/home/x/drops.csv"), "drops.csv");
    assert_eq!(source_label("C:/x/export.db"), "export.db");
    assert_eq!(source_label("/"), "imported");
    let enemies = vec![
        ExportedEnemy {
            enemy_name: "Goblin".into(),
            zone: None,
            total_kills: 3,
            loot: vec![
                ExportedLoot { item_name: "Gold".into(), total_quantity: 2, times_dropped: 1 },
                ExportedLoot { item_name: "Dagger".into(), total_quantity: 1, times_dropped: 1 },
            ],
        },
        ExportedEnemy { enemy_name: "Wisp".into(), zone: Some("A".into()), total_kills: 1, loot: vec![] },
    ];
    let s = import_summary("drops.csv".into(), &enemies);
    assert_eq!((s.source_label.as_str(), s.enemies_imported, s.loot_rows_imported), ("drops.csv", 2, 2));
}
