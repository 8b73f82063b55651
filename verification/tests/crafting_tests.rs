use glogger::crafting::work_orders_from_snapshot;
use glogger::crafting::{
    check_project_version, copy_name, ids_from_json, ids_to_json, material_availability,
    project_code, project_json, sort_assignments, AddProjectEntryInput, CreateProjectInput,
    ExportedProject, ExportedProjectEntry, InventoryRow, StorageRow, DEFAULT_FEE_CONFIG,
    EMPTY_CUSTOMER_PROVIDES, PROJECT_VERSION,
};

const SAMPLE_JSON: &str = r#"{"version":1,"name":"Brew Batch","notes":"for the guild","group_name":"Orders","fee_config":"{\"per_craft_fee\":5,\"material_pct\":10,\"material_pct_basis\":\"total\",\"flat_fee\":0}","customer_provides":"{\"item:123\":4}","entries":[{"recipe_id":7001,"recipe_name":"Orcish Bock","quantity":3,"sort_order":0,"expanded_ingredient_ids":[55,66],"target_stock":12,"slot_item_ids":[901,902]},{"recipe_id":7002,"recipe_name":"Oat Bread","quantity":10,"sort_order":1,"expanded_ingredient_ids":[],"target_stock":null,"slot_item_ids":[]}]}"#;

fn sample_project() -> ExportedProject {
    ExportedProject {
        version: 1,
        name: "Brew Batch".into(),
        notes: "for the guild".into(),
        group_name: Some("Orders".into()),
        fee_config: Some(
            "{\"per_craft_fee\":5,\"material_pct\":10,\"material_pct_basis\":\"total\",\"flat_fee\":0}"
                .into(),
        ),
        customer_provides: Some("{\"item:123\":4}".into()),
        entries: vec![
            ExportedProjectEntry {
                recipe_id: 7001,
                recipe_name: "Orcish Bock".into(),
                quantity: 3,
                sort_order: 0,
                expanded_ingredient_ids: vec![55, 66],
                target_stock: Some(12),
                slot_item_ids: vec![901, 902],
            },
            ExportedProjectEntry {
                recipe_id: 7002,
                recipe_name: "Oat Bread".into(),
                quantity: 10,
                sort_order: 1,
                expanded_ingredient_ids: vec![],
                target_stock: None,
                slot_item_ids: vec![],
            },
        ],
    }
}

#[test]
fn export_import_round_trips_all_fields() {
    let code = project_code(SAMPLE_JSON);
    let back = project_json(&code).expect("a code of ours reads back");
    assert_eq!(back, SAMPLE_JSON);
    // Re-exporting the same payload produces an identical code.
    assert_eq!(project_code(&back), code);

    let p = sample_project();
    let (name, notes, group_name, fee_config, customer_provides) = p.row_values();
    assert_eq!(name, "Brew Batch");
    assert_eq!(notes, "for the guild");
    assert_eq!(group_name.as_deref(), Some("Orders"));
    assert!(fee_config.contains("\"per_craft_fee\":5"));
    assert_eq!(customer_provides, "{\"item:123\":4}");

    let e0 = &p.entries[0];
    assert_eq!(ids_to_json(&e0.expanded_ingredient_ids), "[55,66]");
    assert_eq!(ids_to_json(&e0.slot_item_ids), "[901,902]");
    assert_eq!(e0.target_stock, Some(12));
    let e1 = &p.entries[1];
    assert_eq!(ids_to_json(&e1.expanded_ingredient_ids), "[]");
    assert_eq!(e1.target_stock, None);
    assert_eq!(ids_to_json(&e1.slot_item_ids), "[]");
    assert_eq!(ids_from_json("[55,66]"), vec![55, 66]);
    assert_eq!(ids_from_json("[901,902]"), vec![901, 902]);
}

#[test]
fn import_rejects_garbage_and_future_versions() {
    assert!(project_json("not base64!!!").is_err());
    assert!(project_json("not base64!!!").unwrap_err().starts_with("Invalid project code: "));

    // A valid code whose payload is no JSON still decodes; the JSON reading
    // that follows refuses it.
    let not_json = project_code("not json");
    assert_eq!(project_json(&not_json).unwrap(), "not json");

    let future = r#"{"version":99,"name":"x","notes":"","group_name":null,"fee_config":null,"customer_provides":null,"entries":[]}"#;
    assert_eq!(project_json(&project_code(future)).unwrap(), future);
    let err = check_project_version(99).unwrap_err();
    assert!(err.contains("Unsupported project version 99"), "got: {err}");
    assert!(check_project_version(PROJECT_VERSION).is_ok());
}

#[test]
fn import_defaults_missing_optional_fields() {
    let minimal = ExportedProject {
        version: 1,
        name: "Bare".into(),
        notes: "".into(),
        group_name: None,
        fee_config: None,
        customer_provides: None,
        entries: vec![ExportedProjectEntry {
            recipe_id: 1,
            recipe_name: "Pine Board".into(),
            quantity: 2,
            sort_order: 0,
            expanded_ingredient_ids: vec![],
            target_stock: None,
            slot_item_ids: vec![],
        }],
    };
    let (_, _, _, fee_config, customer_provides) = minimal.row_values();
    assert!(fee_config.contains("per_craft_fee"));
    assert_eq!(fee_config, DEFAULT_FEE_CONFIG);
    assert_eq!(customer_provides, "{}");
    assert_eq!(customer_provides, EMPTY_CUSTOMER_PROVIDES);

    let e = &minimal.entries[0];
    assert_eq!(ids_to_json(&e.expanded_ingredient_ids), "[]");
    assert_eq!(e.target_stock, None);
    assert_eq!(ids_to_json(&e.slot_item_ids), "[]");
}

#[test]
fn codes_ignore_surrounding_whitespace_and_reject_bad_utf8() {
    let code = project_code("{\"a\":1}");
    let padded = format!("  {code}\n");
    assert_eq!(project_json(&padded).unwrap(), "{\"a\":1}");
    // "/w==" decodes to the single byte 0xFF, which is no UTF-8.
    let err = project_json("/w==").unwrap_err();
    assert!(err.starts_with("Invalid UTF-8: "), "got: {err}");
    assert_eq!(project_code(""), "");
    assert_eq!(project_code("hi"), "aGk=");
}

#[test]
fn id_lists_as_json() {
    assert_eq!(ids_to_json(&[-3, 0, 1234567890123]), "[-3,0,1234567890123]");
    assert_eq!(ids_from_json("not a list"), Vec::<i64>::new());
    assert_eq!(ids_from_json(" [ 1 , 2 ] "), vec![1, 2]);
    for ids in [vec![], vec![0], vec![i64::MIN, -1, 7, i64::MAX]] {
        assert_eq!(ids_from_json(&ids_to_json(&ids)), ids);
    }
    let input = AddProjectEntryInput {
        project_id: 1,
        recipe_id: 2,
        recipe_name: "x".into(),
        quantity: 1,
        target_stock: None,
        slot_item_ids: Some(vec![7, 8]),
    };
    assert_eq!(input.slot_ids_json(), "[7,8]");
    let none = AddProjectEntryInput { slot_item_ids: None, ..input };
    assert_eq!(none.slot_ids_json(), "[]");
}

#[test]
fn project_rows_and_names() {
    let input = CreateProjectInput {
        name: "Stew".into(),
        notes: None,
        group_name: Some("Food".into()),
        fee_config: None,
    };
    let (name, notes, group, fee) = input.row_values();
    assert_eq!((name.as_str(), notes.as_str(), group.as_deref()), ("Stew", "", Some("Food")));
    assert_eq!(fee, DEFAULT_FEE_CONFIG);
    assert_eq!(copy_name("Stew"), "Stew (copy)");
    assert_eq!(sort_assignments(&[40, 10, 30]), vec![(0, 40), (1, 10), (2, 30)]);
}

#[test]
fn material_availability_merges_inventory_storage_and_names() {
    let inventory = vec![InventoryRow { type_id: 1, item_name: "Salt".into(), quantity: 3 }];
    let storage = vec![
        StorageRow { type_id: 1, item_name: "Salt".into(), vault: "Serbule".into(), quantity: 10 },
        StorageRow { type_id: 2, item_name: "Pepper".into(), vault: "".into(), quantity: 4 },
        StorageRow { type_id: 1, item_name: "Salt".into(), vault: "Eltibule".into(), quantity: 5 },
    ];
    let catalog = vec![(3, "Flour".to_string())];
    let r = material_availability(&[1, 2, 3, 4, 1], &inventory, &storage, &catalog);
    assert_eq!(r.len(), 4, "an item asked twice is listed once");

    assert_eq!(r[0].item_name, "Salt");
    assert_eq!((r[0].inventory_quantity, r[0].storage_quantity, r[0].total_available), (3, 15, 18));
    let vaults: Vec<(&str, i64)> =
        r[0].vault_breakdown.iter().map(|v| (v.vault_name.as_str(), v.quantity)).collect();
    assert_eq!(vaults, vec![("Serbule", 10), ("Eltibule", 5)]);

    assert_eq!(r[1].item_name, "Pepper");
    assert_eq!(r[1].vault_breakdown[0].vault_name, "Unknown");
    assert_eq!(r[1].total_available, 4);

    assert_eq!(r[2].item_name, "Flour");
    assert_eq!(r[2].total_available, 0);
    assert_eq!(r[3].item_name, "Item #4");
    assert_eq!(r[3].item_type_id, 4);
}

#[test]
fn work_orders_come_from_the_snapshot() {
    let raw = r#"{"ActiveWorkOrders":["WO_A", 3, "WO_B"],"CompletedWorkOrders":["WO_C"]}"#;
    let w = work_orders_from_snapshot(Some(raw), vec![7, 8]).unwrap();
    assert_eq!(w.active, vec!["WO_A", "WO_B"]);
    assert_eq!(w.completed, vec!["WO_C"]);
    assert_eq!(w.inventory_item_ids, vec![7, 8]);
    let none = work_orders_from_snapshot(None, vec![]).unwrap();
    assert!(none.active.is_empty() && none.completed.is_empty());
    let missing = work_orders_from_snapshot(Some("{}"), vec![]).unwrap();
    assert!(missing.active.is_empty());
    let err = work_orders_from_snapshot(Some("not json"), vec![]).err().unwrap();
    assert!(err.starts_with("Failed to parse snapshot JSON: "));
}
