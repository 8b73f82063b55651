use glogger::csv_import::drop_data_csv;
use glogger::csv_import::{attach_table_loot, has_sqlite_magic, ExportedLoot};
use glogger::csv_import::{csv_export_rows, export_header_fields};
use glogger::csv_import::{
    drop_file_format, parse_csv_drop_data, ExportedEnemy, MISSING_ENEMY_COLUMN, NO_DATA_ROWS,
    NO_LOOT_ROWS,
};

/// Reads a CSV drop-data file the way the import command does: the byte
/// order mark goes, legacy JSON is not expected here, and no cell needs a
/// float reading.
fn parse_drop_data(content: &str) -> Result<Vec<ExportedEnemy>, String> {
    let (body, json) = drop_file_format(content);
    assert!(!json, "not a CSV");
    parse_csv_drop_data(&body, &[]).expect("totals fit in i64")
}

#[test]
fn parse_csv_groups_sums_and_keeps_lootless_enemy() {
    let csv = "enemy_name,total_kills,item_name,total_quantity,times_dropped,drop_rate\n\
               Sand Dog,26,Gold Nugget,4,4,0.1538\n\
               Sand Dog,26,Watercress,2,2,0.0769\n\
               Sand Dog,26,Gold Nugget,1,1,0.0385\n\
               \"Late, Great Beast\",10,,,,\n";
    let enemies = parse_drop_data(csv).expect("parse csv");
    assert_eq!(enemies.len(), 2);

    let sd = &enemies[0];
    assert_eq!(sd.enemy_name, "Sand Dog");
    assert_eq!(sd.total_kills, 26);
    let gold = sd.loot.iter().find(|l| l.item_name == "Gold Nugget").unwrap();
    assert_eq!(gold.total_quantity, 5, "duplicate item rows summed");
    assert_eq!(gold.times_dropped, 5);

    let beast = &enemies[1];
    assert_eq!(beast.enemy_name, "Late, Great Beast", "quoted comma name preserved");
    assert_eq!(beast.total_kills, 10);
    assert!(beast.loot.is_empty(), "lootless enemy retained for its kill count");
}

#[test]
fn parse_csv_accepts_header_aliases_any_order() {
    let csv = "kills,monster,drops,item,qty\n5,Goblin,3,Gold Coin,9\n";
    let enemies = parse_drop_data(csv).expect("parse aliased csv");
    assert_eq!(enemies.len(), 1);
    let g = &enemies[0];
    assert_eq!(g.enemy_name, "Goblin");
    assert_eq!(g.total_kills, 5);
    assert_eq!(g.loot.len(), 1);
    assert_eq!(g.loot[0].item_name, "Gold Coin");
    assert_eq!(g.loot[0].total_quantity, 9);
    assert_eq!(g.loot[0].times_dropped, 3);
}

#[test]
fn parse_csv_missing_enemy_column_errors() {
    let csv = "item,qty\nGold Coin,5\n";
    assert!(parse_drop_data(csv).is_err());
    assert_eq!(parse_drop_data(csv).err().unwrap(), MISSING_ENEMY_COLUMN);
}

#[test]
fn parse_csv_tolerates_utf8_bom() {
    let csv = "\u{feff}enemy_name,total_kills,item_name,total_quantity,times_dropped\nGoblin,5,Gold Coin,9,3\n";
    let enemies = parse_drop_data(csv).expect("parse bom csv");
    assert_eq!(enemies.len(), 1);
    assert_eq!(enemies[0].enemy_name, "Goblin");
    assert_eq!(enemies[0].loot[0].item_name, "Gold Coin");
}

#[test]
fn parse_raw_event_log_aggregates_by_corpse() {
    let csv = "Item_Name,Item_Amount,log_event_description,item_name,enemy_id,enemy_name\n\
        Transport Security Card,1,Corpse loot,TransportSecurityCard,100, Elite Troll Trooper\n\
        Transport Security Card,1,Corpse loot,TransportSecurityCard,101, Elite Troll Trooper\n\
        Winter Court Greaves,1,Corpse loot,WinterCourtGreaves,101, Elite Troll Trooper\n\
        Cargo Deck Key,1,Corpse loot,CargoDeckKey,200,Troll Trooper\n\
        Troll Flesh,1,Harvest,TrollFlesh,200,Troll Trooper\n";
    let mut enemies = parse_drop_data(csv).expect("parse raw event log");
    enemies.sort_by(|a, b| a.enemy_name.cmp(&b.enemy_name));

    let elite = &enemies[0];
    assert_eq!(elite.enemy_name, "Elite Troll Trooper");
    assert_eq!(elite.total_kills, 2);
    let tsc = elite
        .loot
        .iter()
        .find(|l| l.item_name == "Transport Security Card")
        .expect("Transport Security Card");
    assert_eq!(tsc.times_dropped, 2);
    assert_eq!(tsc.total_quantity, 2);
    let greaves = elite.loot.iter().find(|l| l.item_name == "Winter Court Greaves").unwrap();
    assert_eq!(greaves.times_dropped, 1);

    let troll = &enemies[1];
    assert_eq!(troll.enemy_name, "Troll Trooper");
    assert_eq!(troll.total_kills, 1);
    assert_eq!(troll.loot.len(), 1);
    assert_eq!(troll.loot[0].item_name, "Cargo Deck Key");
}

#[test]
fn parse_raw_event_log_splits_by_zone() {
    let csv = "Item_Name,Item_Amount,log_event_description,enemy_id,enemy_name,Zone\n\
        Cargo Deck Key,1,Corpse loot,200,Troll Trooper,AreaFaeRealm1\n\
        Cargo Deck Key,1,Corpse loot,201,Troll Trooper,AreaFaeRealm1\n\
        Troll Flesh,1,Corpse loot,300,Troll Trooper,AreaFaeRealm1Caves\n";
    let enemies = parse_drop_data(csv).expect("parse zoned raw log");
    assert_eq!(enemies.len(), 2, "same monster, two zones = two entries");

    let realm = enemies
        .iter()
        .find(|e| e.zone.as_deref() == Some("AreaFaeRealm1"))
        .expect("AreaFaeRealm1 entry");
    assert_eq!(realm.total_kills, 2);
    assert_eq!(realm.loot[0].item_name, "Cargo Deck Key");
    assert_eq!(realm.loot[0].times_dropped, 2);

    let caves = enemies
        .iter()
        .find(|e| e.zone.as_deref() == Some("AreaFaeRealm1Caves"))
        .expect("AreaFaeRealm1Caves entry");
    assert_eq!(caves.total_kills, 1);
    assert_eq!(caves.loot[0].item_name, "Troll Flesh");
}

#[test]
fn parse_csv_aggregated_round_trips_zone() {
    let csv = "enemy_name,zone,total_kills,item_name,total_quantity,times_dropped\n\
        Goblin,AreaCave,10,Gold Coin,5,3\n\
        Goblin,,4,Rusty Sword,1,1\n";
    let enemies = parse_drop_data(csv).expect("parse zoned aggregated csv");
    assert_eq!(enemies.len(), 2, "same monster, two zones (one unknown) = two entries");

    let cave = enemies
        .iter()
        .find(|e| e.zone.as_deref() == Some("AreaCave"))
        .expect("AreaCave entry");
    assert_eq!(cave.total_kills, 10);
    assert_eq!(cave.loot[0].item_name, "Gold Coin");

    let unknown = enemies.iter().find(|e| e.zone.is_none()).expect("unknown-zone entry");
    assert_eq!(unknown.total_kills, 4);
    assert_eq!(unknown.loot[0].item_name, "Rusty Sword");
}

#[test]
fn legacy_json_is_recognised_and_not_read_as_csv() {
    let json = "\u{feff}  {\"format_version\":1,\"enemies\":[]}";
    let (body, is_json) = drop_file_format(json);
    assert!(is_json);
    assert_eq!(body, "  {\"format_version\":1,\"enemies\":[]}");
    let (body2, is_json2) = drop_file_format("enemy_name\nGoblin\n");
    assert!(!is_json2);
    assert_eq!(body2, "enemy_name\nGoblin\n");
}

#[test]
fn header_only_file_has_no_data_rows() {
    let csv = "enemy_name,total_kills\n";
    assert_eq!(parse_drop_data(csv).err().unwrap(), NO_DATA_ROWS);
}

#[test]
fn raw_log_without_loot_rows_is_refused() {
    let csv = "Item_Name,Item_Amount,log_event_description,enemy_id,enemy_name\n\
        Troll Flesh,1,Harvest,200,Troll Trooper\n";
    assert_eq!(parse_drop_data(csv).err().unwrap(), NO_LOOT_ROWS);
}

#[test]
fn thousands_separators_and_blank_counts() {
    let csv = "enemy_name,total_kills,item_name,total_quantity,times_dropped\n\
        Goblin,\"1,200\",Gold Coin,\"2,500\",7\n";
    let enemies = parse_drop_data(csv).expect("parse");
    assert_eq!(enemies[0].total_kills, 1200);
    assert_eq!(enemies[0].loot[0].total_quantity, 2500);
    assert_eq!(enemies[0].loot[0].times_dropped, 7);
}

#[test]
fn float_readings_are_used_for_decimal_cells() {
    let csv = "enemy_name,total_kills,item_name,total_quantity,times_dropped\nGoblin,5.0,Gold Coin,9,3\n";
    let (body, _) = drop_file_format(csv);
    let floats = vec![vec![None, Some(5), None, None, None]];
    let enemies = parse_csv_drop_data(&body, &floats).unwrap().unwrap();
    assert_eq!(enemies[0].total_kills, 5);
}

fn enemy(name: &str, zone: Option<&str>, kills: i64, loot: &[(&str, i64, i64)]) -> ExportedEnemy {
    ExportedEnemy {
        enemy_name: name.into(),
        zone: zone.map(|z| z.to_string()),
        total_kills: kills,
        loot: loot
            .iter()
            .map(|(n, q, t)| glogger::csv_import::ExportedLoot {
                item_name: n.to_string(),
                total_quantity: *q,
                times_dropped: *t,
            })
            .collect(),
    }
}

#[test]
fn export_rows_keep_lootless_enemies() {
    assert_eq!(
        export_header_fields(),
        vec!["enemy_name", "zone", "total_kills", "item_name", "total_quantity", "times_dropped", "drop_rate"]
    );
    let es = vec![
        enemy("Goblin", Some("AreaCave"), 10, &[("Gold Coin", 5, 3), ("Rusty Sword", 1, 1)]),
        enemy("Late, Great Beast", None, 4, &[]),
    ];
    let rows = csv_export_rows(&es);
    assert_eq!(rows.len(), 3);
    assert_eq!(rows[0].0, vec!["Goblin", "AreaCave", "10", "Gold Coin", "5", "3"]);
    assert_eq!(rows[0].1, Some((3, 10)));
    assert_eq!(rows[1].0, vec!["Goblin", "AreaCave", "10", "Rusty Sword", "1", "1"]);
    assert_eq!(rows[2].0, vec!["Late, Great Beast", "", "4", "", "", ""]);
    assert_eq!(rows[2].1, None);
}

#[test]
fn sqlite_exports_are_recognised_and_merged() {
    assert!(has_sqlite_magic(b"SQLite format 3\0"));
    assert!(!has_sqlite_magic(b"SQLite format 3"));
    assert!(!has_sqlite_magic(b"enemy_name,zone,t"));
    let enemies = vec![
        ("Goblin".to_string(), Some("A".to_string()), 10),
        ("Goblin".to_string(), None, 4),
        ("Orc".to_string(), None, 2),
    ];
    let l = |n: &str, q: i64, t: i64| ExportedLoot { item_name: n.into(), total_quantity: q, times_dropped: t };
    let loot = vec![
        ("Goblin".to_string(), Some("A".to_string()), l("Gold", 5, 3)),
        ("Goblin".to_string(), None, l("Sword", 1, 1)),
        ("Goblin".to_string(), Some("A".to_string()), l("Hat", 1, 1)),
    ];
    let out = attach_table_loot(&enemies, &loot);
    assert_eq!(out.len(), 3);
    let names: Vec<&str> = out[0].loot.iter().map(|x| x.item_name.as_str()).collect();
    assert_eq!(names, vec!["Gold", "Hat"]);
    assert_eq!(out[1].loot[0].item_name, "Sword");
    assert!(out[2].loot.is_empty());
    assert_eq!(out[2].total_kills, 2);
}

#[test]
fn csv_export_writes_and_reimports() {
    let es = vec![
        enemy("Goblin", Some("AreaCave"), 10, &[("Gold Coin", 5, 3)]),
        enemy("Late, Great Beast", None, 4, &[]),
    ];
    let rates = vec!["0.3000".to_string(), String::new()];
    let bytes = drop_data_csv(&es, &rates).unwrap();
    let text = String::from_utf8(bytes).unwrap();
    assert_eq!(
        text,
        "enemy_name,zone,total_kills,item_name,total_quantity,times_dropped,drop_rate\n\
         Goblin,AreaCave,10,Gold Coin,5,3,0.3000\n\
         \"Late, Great Beast\",,4,,,,\n"
    );
    let back = parse_drop_data(&text).unwrap();
    assert_eq!(back.len(), 2);
    assert_eq!(back[0].enemy_name, "Goblin");
    assert_eq!(back[0].zone.as_deref(), Some("AreaCave"));
    assert_eq!(back[0].total_kills, 10);
    assert_eq!(back[0].loot[0].item_name, "Gold Coin");
    assert_eq!((back[0].loot[0].total_quantity, back[0].loot[0].times_dropped), (5, 3));
    assert_eq!(back[1].enemy_name, "Late, Great Beast");
    assert_eq!(back[1].zone, None);
    assert_eq!(back[1].total_kills, 4);
    assert!(back[1].loot.is_empty());
}

#[test]
fn skipped_raw_rows_change_nothing() {
    let with_skipped = "Item_Name,Item_Amount,log_event_description,enemy_id,enemy_name\n\
        Cargo Deck Key,1,Corpse loot,200,Troll Trooper\n\
        Troll Flesh,1,Harvest,200,Troll Trooper\n\
        Old Boot,1,Corpse loot,,Troll Trooper\n\
        Rusty Nail,1,Corpse loot,300,\n\
        Cargo Deck Key,2,Corpse loot,201,Troll Trooper\n";
    let without = "Item_Name,Item_Amount,log_event_description,enemy_id,enemy_name\n\
        Cargo Deck Key,1,Corpse loot,200,Troll Trooper\n\
        Cargo Deck Key,2,Corpse loot,201,Troll Trooper\n";
    let a = parse_drop_data(with_skipped).unwrap();
    let b = parse_drop_data(without).unwrap();
    let summary = |v: &Vec<ExportedEnemy>| {
        v.iter()
            .map(|e| {
                let loot: Vec<(String, i64, i64)> =
                    e.loot.iter().map(|l| (l.item_name.clone(), l.total_quantity, l.times_dropped)).collect();
                (e.enemy_name.clone(), e.zone.clone(), e.total_kills, loot)
            })
            .collect::<Vec<_>>()
    };
    assert_eq!(summary(&a), summary(&b));
    assert_eq!(a.len(), 1);
    assert_eq!(a[0].total_kills, 2);
    assert_eq!(a[0].loot.len(), 1);
    assert_eq!(a[0].loot[0].total_quantity, 3);
}
