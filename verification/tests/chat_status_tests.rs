use glogger::chat::{ChatMessage, LogDateTime};
use glogger::chat_status::{parse_status_message, status_message_parses, ChatStatusEvent};

/// The message a `[Status]` chat line "26-03-26 15:12:48\t[Status] <text>" carries.
fn status_msg(text: &str) -> ChatMessage {
    ChatMessage {
        timestamp: LogDateTime { year: 2026, month: 3, day: 26, hour: 15, minute: 12, second: 48 },
        channel: Some("Status".to_string()),
        sender: None,
        message: text.to_string(),
    }
}

#[test]
fn test_item_gained_no_quantity() {
    let msg = status_msg("Tundra Rye Seeds added to inventory.");
    let event = parse_status_message(&msg).unwrap();
    if let ChatStatusEvent::ItemGained {
        item_name,
        quantity,
        ..
    } = event
    {
        assert_eq!(item_name, "Tundra Rye Seeds");
        assert_eq!(quantity, 1);
    } else {
        panic!("Expected ItemGained, got {:?}", event);
    }
}

#[test]
fn test_item_gained_with_quantity() {
    let msg = status_msg("Astounding Metal Slab x26 added to inventory.");
    let event = parse_status_message(&msg).unwrap();
    if let ChatStatusEvent::ItemGained {
        item_name,
        quantity,
        ..
    } = event
    {
        assert_eq!(item_name, "Astounding Metal Slab");
        assert_eq!(quantity, 26);
    } else {
        panic!("Expected ItemGained, got {:?}", event);
    }
}

#[test]
fn test_item_gained_gypsum() {
    let msg = status_msg("Gypsum x9 added to inventory.");
    let event = parse_status_message(&msg).unwrap();
    if let ChatStatusEvent::ItemGained {
        item_name,
        quantity,
        ..
    } = event
    {
        assert_eq!(item_name, "Gypsum");
        assert_eq!(quantity, 9);
    } else {
        panic!("Expected ItemGained, got {:?}", event);
    }
}

#[test]
fn test_xp_gained() {
    let msg = status_msg("You earned 62 XP in Endurance.");
    let event = parse_status_message(&msg).unwrap();
    if let ChatStatusEvent::XpGained { skill, amount, .. } = event {
        assert_eq!(skill, "Endurance");
        assert_eq!(amount, 62);
    } else {
        panic!("Expected XpGained, got {:?}", event);
    }
}

#[test]
fn test_prodigy_xp_gained() {
    let msg = status_msg("You earned 45 Prodigy XP in Pig.");
    let event = parse_status_message(&msg).unwrap();
    if let ChatStatusEvent::ProdigyXpGained { skill, amount, .. } = event {
        assert_eq!(skill, "Pig");
        assert_eq!(amount, 45);
    } else {
        panic!("Expected ProdigyXpGained, got {:?}", event);
    }
}

#[test]
fn test_normal_xp_not_parsed_as_prodigy() {
    // A normal combat XP line must not be swallowed by the prodigy parser.
    let msg = status_msg("You earned 45 XP in Battle Chemistry.");
    let event = parse_status_message(&msg).unwrap();
    assert!(
        matches!(event, ChatStatusEvent::XpGained { .. }),
        "Expected XpGained, got {:?}",
        event
    );
}

#[test]
fn test_xp_gained_multi_word_skill() {
    let msg = status_msg("You earned 67 XP in Canine Anatomy.");
    let event = parse_status_message(&msg).unwrap();
    if let ChatStatusEvent::XpGained { skill, amount, .. } = event {
        assert_eq!(skill, "Canine Anatomy");
        assert_eq!(amount, 67);
    } else {
        panic!("Expected XpGained, got {:?}", event);
    }
}

#[test]
fn test_combat_wisdom_killed_the() {
    let msg = status_msg("You earned 64 Combat Wisdom: Killed the Aktaari Queen");
    let event = parse_status_message(&msg).unwrap();
    if let ChatStatusEvent::CombatWisdomEarned {
        amount,
        source_name,
        verb,
        zone,
        ..
    } = event
    {
        assert_eq!(amount, 64);
        assert_eq!(source_name.as_deref(), Some("the Aktaari Queen"));
        assert_eq!(verb, "Killed");
        assert_eq!(zone, None);
    } else {
        panic!("Expected CombatWisdomEarned, got {:?}", event);
    }
}

#[test]
fn test_combat_wisdom_defeated() {
    let msg = status_msg("You earned 73 Combat Wisdom: Defeated Elite Tactician");
    let event = parse_status_message(&msg).unwrap();
    if let ChatStatusEvent::CombatWisdomEarned {
        amount,
        source_name,
        verb,
        ..
    } = event
    {
        assert_eq!(amount, 73);
        assert_eq!(source_name.as_deref(), Some("Elite Tactician"));
        assert_eq!(verb, "Defeated");
    } else {
        panic!("Expected CombatWisdomEarned, got {:?}", event);
    }
}

#[test]
fn test_combat_wisdom_with_zone() {
    let msg = status_msg("You earned 5 Combat Wisdom: Killed The Productivity Expert (Gazluk)");
    let event = parse_status_message(&msg).unwrap();
    if let ChatStatusEvent::CombatWisdomEarned {
        amount,
        source_name,
        zone,
        ..
    } = event
    {
        assert_eq!(amount, 5);
        assert_eq!(source_name.as_deref(), Some("The Productivity Expert"));
        assert_eq!(zone.as_deref(), Some("Gazluk"));
    } else {
        panic!("Expected CombatWisdomEarned, got {:?}", event);
    }
}

#[test]
fn test_combat_wisdom_prodigy_level() {
    let msg = status_msg("You earned 1000 Combat Wisdom: Earned a Prodigy Level");
    let event = parse_status_message(&msg).unwrap();
    if let ChatStatusEvent::CombatWisdomEarned {
        amount,
        source_name,
        verb,
        ..
    } = event
    {
        assert_eq!(amount, 1000);
        assert_eq!(source_name, None);
        assert_eq!(verb, "Earned");
    } else {
        panic!("Expected CombatWisdomEarned, got {:?}", event);
    }
}

#[test]
fn test_normal_xp_not_parsed_as_combat_wisdom() {
    // A normal combat XP line must not be swallowed by the wisdom parser.
    let msg = status_msg("You earned 62 XP in Endurance.");
    let event = parse_status_message(&msg).unwrap();
    assert!(
        matches!(event, ChatStatusEvent::XpGained { .. }),
        "Expected XpGained, got {:?}",
        event
    );
}

#[test]
fn test_level_up() {
    let msg = status_msg("You earned 192 XP and reached level 87 in Cartography!");
    let event = parse_status_message(&msg).unwrap();
    if let ChatStatusEvent::LevelUp {
        skill, level, xp, ..
    } = event
    {
        assert_eq!(skill, "Cartography");
        assert_eq!(level, 87);
        assert_eq!(xp, 192);
    } else {
        panic!("Expected LevelUp, got {:?}", event);
    }
}

#[test]
fn test_treasure_distance() {
    let msg = status_msg("The treasure is 3215 meters from here.");
    let event = parse_status_message(&msg).unwrap();
    if let ChatStatusEvent::TreasureDistance { meters, .. } = event {
        assert_eq!(meters, 3215);
    } else {
        panic!("Expected TreasureDistance, got {:?}", event);
    }
}

#[test]
fn test_anatomy_success() {
    let msg = status_msg("You bury the corpse.");
    let event = parse_status_message(&msg).unwrap();
    if let ChatStatusEvent::AnatomyResult { success, .. } = event {
        assert!(success);
    } else {
        panic!("Expected AnatomyResult, got {:?}", event);
    }
}

#[test]
fn test_anatomy_failure() {
    let msg = status_msg("You botch the autopsy!");
    let event = parse_status_message(&msg).unwrap();
    if let ChatStatusEvent::AnatomyResult { success, .. } = event {
        assert!(!success);
    } else {
        panic!("Expected AnatomyResult, got {:?}", event);
    }
}

#[test]
fn test_summoned() {
    let msg = status_msg("Summoned Nice Phlogiston x5");
    let event = parse_status_message(&msg).unwrap();
    if let ChatStatusEvent::Summoned {
        item_name,
        quantity,
        ..
    } = event
    {
        assert_eq!(item_name, "Nice Phlogiston");
        assert_eq!(quantity, 5);
    } else {
        panic!("Expected Summoned, got {:?}", event);
    }
}

#[test]
fn test_councils_received() {
    let msg = status_msg("You received 500 Councils.");
    let event = parse_status_message(&msg).unwrap();
    if let ChatStatusEvent::CouncilsChanged { amount, .. } = event {
        assert_eq!(amount, 500);
    } else {
        panic!("Expected CouncilsChanged, got {:?}", event);
    }
}

#[test]
fn test_councils_used() {
    let msg = status_msg("You used 200 councils.");
    let event = parse_status_message(&msg).unwrap();
    if let ChatStatusEvent::CouncilsChanged { amount, .. } = event {
        assert_eq!(amount, -200);
    } else {
        panic!("Expected CouncilsChanged, got {:?}", event);
    }
}

#[test]
fn test_misc_receive_coins() {
    // "You receive N coins." (autoloot / coin-sack open) — a gain, and must
    // NOT be swallowed by "received N Councils" or the corpse-search parser.
    let msg = status_msg("You receive 288 coins.");
    match parse_status_message(&msg).unwrap() {
        ChatStatusEvent::CouncilsChanged { amount, .. } => assert_eq!(amount, 288),
        other => panic!("Expected CouncilsChanged(+288), got {:?}", other),
    }
}

#[test]
fn test_misc_recovered_stolen_councils() {
    let msg = status_msg("You recovered 1,250 Councils stolen by Ratkin Mugger.");
    match parse_status_message(&msg).unwrap() {
        ChatStatusEvent::CouncilsChanged { amount, .. } => assert_eq!(amount, 1250),
        other => panic!("Expected CouncilsChanged(+1250), got {:?}", other),
    }
}

#[test]
fn test_misc_retrieve_stolen_coins() {
    let msg = status_msg("You retrieve 73 stolen coins.");
    match parse_status_message(&msg).unwrap() {
        ChatStatusEvent::CouncilsChanged { amount, .. } => assert_eq!(amount, 73),
        other => panic!("Expected CouncilsChanged(+73), got {:?}", other),
    }
}

#[test]
fn test_misc_given_coins_by_player() {
    let msg = status_msg("You were given 500 coins by Lenia!");
    match parse_status_message(&msg).unwrap() {
        ChatStatusEvent::CouncilsChanged { amount, .. } => assert_eq!(amount, 500),
        other => panic!("Expected CouncilsChanged(+500), got {:?}", other),
    }
}

#[test]
fn test_misc_mugger_stole_councils() {
    // The only visible wallet *loss* in chat — must be negative.
    let msg = status_msg("Ratkin Mugger stole 320 Councils!");
    match parse_status_message(&msg).unwrap() {
        ChatStatusEvent::CouncilsChanged { amount, .. } => assert_eq!(amount, -320),
        other => panic!("Expected CouncilsChanged(-320), got {:?}", other),
    }
}

#[test]
fn test_coins_looted() {
    let msg = status_msg("You searched the corpse and found 42 coins.");
    let event = parse_status_message(&msg).unwrap();
    if let ChatStatusEvent::CoinsLooted { amount, .. } = event {
        assert_eq!(amount, 42);
    } else {
        panic!("Expected CoinsLooted, got {:?}", event);
    }
}

#[test]
fn test_item_studied() {
    let msg = status_msg("Moldy Ancient Shoes carefully studied!");
    let event = parse_status_message(&msg).unwrap();
    if let ChatStatusEvent::ItemStudied { item_name, .. } = event {
        assert_eq!(item_name, "Moldy Ancient Shoes");
    } else {
        panic!("Expected ItemStudied, got {:?}", event);
    }
}

#[test]
fn test_item_studied_long_name() {
    let msg = status_msg("CrudBurst's Hammer of Thumping of Hammering carefully studied!");
    let event = parse_status_message(&msg).unwrap();
    if let ChatStatusEvent::ItemStudied { item_name, .. } = event {
        assert_eq!(item_name, "CrudBurst's Hammer of Thumping of Hammering");
    } else {
        panic!("Expected ItemStudied, got {:?}", event);
    }
}

#[test]
fn test_report_saved_character() {
    let msg = status_msg("Saved report to C:/Users/TestUser/AppData/LocalLow/Elder Game/Project Gorgon/Reports/Character_TestPlayer_Dreva.json");
    let event = parse_status_message(&msg).unwrap();
    if let ChatStatusEvent::ReportSaved { file_path, .. } = event {
        assert_eq!(file_path, "C:/Users/TestUser/AppData/LocalLow/Elder Game/Project Gorgon/Reports/Character_TestPlayer_Dreva.json");
    } else {
        panic!("Expected ReportSaved, got {:?}", event);
    }
}

#[test]
fn test_report_saved_inventory() {
    let msg = status_msg("Saved report to C:/Users/TestUser/AppData/LocalLow/Elder Game/Project Gorgon/Reports/TestPlayer_Dreva_items_2026-04-20-01-53-45Z.json");
    let event = parse_status_message(&msg).unwrap();
    if let ChatStatusEvent::ReportSaved { file_path, .. } = event {
        assert!(file_path.contains("items_"));
    } else {
        panic!("Expected ReportSaved, got {:?}", event);
    }
}

#[test]
fn test_book_saved_not_report() {
    // "Saved book to ..." should NOT match ReportSaved
    let msg = status_msg("Saved book to C:/Users/TestUser/AppData/LocalLow/Elder Game/Project Gorgon/Books/HelpScreen_260419_185352.txt");
    assert!(parse_status_message(&msg).is_none());
}

#[test]
fn test_roulette_result() {
    let msg = status_msg("Roulette ball ended on 25!");
    match parse_status_message(&msg).unwrap() {
        ChatStatusEvent::RouletteResult { number, .. } => assert_eq!(number, 25),
        other => panic!("Expected RouletteResult(25), got {:?}", other),
    }
}

#[test]
fn test_roulette_result_zero() {
    let msg = status_msg("Roulette ball ended on 0!");
    match parse_status_message(&msg).unwrap() {
        ChatStatusEvent::RouletteResult { number, .. } => assert_eq!(number, 0),
        other => panic!("Expected RouletteResult(0), got {:?}", other),
    }
}

#[test]
fn roulette_numbers_stay_on_the_wheel() {
    let top = status_msg("Roulette ball ended on 36!");
    match parse_status_message(&top).unwrap() {
        ChatStatusEvent::RouletteResult { number, .. } => assert_eq!(number, 36),
        other => panic!("Expected RouletteResult(36), got {:?}", other),
    }
    assert!(parse_status_message(&status_msg("Roulette ball ended on 37!")).is_none());
    assert!(parse_status_message(&status_msg("Roulette ball ended on 100!")).is_none());
}

#[test]
fn test_non_status_ignored() {
    // "26-03-09 05:01:46\t[Global] Player: hello"
    let msg = ChatMessage {
        timestamp: LogDateTime { year: 2026, month: 3, day: 9, hour: 5, minute: 1, second: 46 },
        channel: Some("Global".to_string()),
        sender: Some("Player".to_string()),
        message: "hello".to_string(),
    };
    assert!(parse_status_message(&msg).is_none());
}

#[test]
fn test_unrecognized_status_returns_none() {
    let msg = status_msg("You have 3 friends online.");
    assert!(parse_status_message(&msg).is_none());
}

#[test]
fn test_joined_chat_room_returns_none() {
    let msg = status_msg("Joined chat room \"Trade\". There are 280 other users here.");
    assert!(parse_status_message(&msg).is_none());
}

#[test]
fn status_message_parses_tells_unreadable_lines() {
    assert!(status_message_parses(&status_msg("You used 1,200 councils.")));
    assert!(status_message_parses(&status_msg("Roulette ball ended on 7!")));
    assert!(!status_message_parses(&status_msg("You used councils.")));
    assert!(!status_message_parses(&status_msg("The treasure is meters from here.")));
    assert!(!status_message_parses(&status_msg("Goblin stole -9223372036854775808 Councils!")));
}
