use glogger::arena::{contains_word, parse_confirm_bet, ArenaBetTracker, ArenaMatch, ArenaTracker};

const CH: Option<&str> = Some("NPC Chatter");
const KZ: Option<&str> = Some("Kuzavek");
const TS: &str = "2026-07-20 20:52:59";

/// Drive a full match through the tracker: intro A, intro B, result.
fn run(intro_a: &str, intro_b: &str, result: &str) -> Option<ArenaMatch> {
    let mut t = ArenaTracker::new();
    assert!(t.observe(CH, KZ, intro_a, TS).is_none());
    assert!(t.observe(CH, KZ, intro_b, TS).is_none());
    t.observe(CH, KZ, result, TS)
}

#[test]
fn winner_named_directly() {
    let m = run(
        "Introducing our two competitors! On the far side is the mighty ogre OTIS!",
        "And on the side nearest me is Leo The Walking Cat!",
        "Get that cat some milk. Leo wins!",
    )
    .unwrap();
    assert_eq!(m.fighter_a, "Otis");
    assert_eq!(m.fighter_b, "Leo");
    assert_eq!(m.winner, "Leo");
}

#[test]
fn loser_named_directly() {
    let m = run(
        "Introducing our two competitors! On the far side is the mighty ogre OTIS!",
        "And on the side nearest me is Leo The Walking Cat!",
        "What a phenomenal battle! Otis has been defeated!",
    )
    .unwrap();
    assert_eq!(m.winner, "Leo");
}

#[test]
fn loser_named_by_pronoun_line() {
    // The winner isn't named; the loser (Ushug) is, via a loss verb.
    let m = run(
        "Introducing our warriors! On the side farthest from me is Ushug the Undefeatable!",
        "And on the side closer to me is the ferocious Gloz!",
        "Ushug was definitely not expecting this! He's been defeated!",
    )
    .unwrap();
    assert_eq!(m.winner, "Gloz");
}

#[test]
fn is_down_loss_marker() {
    let m = run(
        "Introducing our two competitors! On the far side is Leo The Lion-Man!",
        "And on the side nearest me is the mighty ogre OTIS!",
        "Oh, Leo is down! And he's not getting back up... the fight is over",
    )
    .unwrap();
    assert_eq!(m.winner, "Otis");
}

#[test]
fn ushug_undefeated_is_a_win() {
    let m = run(
        "Introducing our warriors! On the side farthest from me is Ushug the Undefeatable!",
        "And on the side closer to me is the ferocious Gloz!",
        "Ushug has earned his nickname! Ushug is Undefeated!",
    )
    .unwrap();
    assert_eq!(m.winner, "Ushug");
}

#[test]
fn midfight_taunt_does_not_resolve() {
    let mut t = ArenaTracker::new();
    t.observe(CH, KZ, "Introducing our two competitors! On the far side is Corrrak!", TS);
    t.observe(CH, KZ, "And on the side nearest me is Vizlark the Violent!", TS);
    // Neither a win nor a loss marker → no resolution.
    assert!(t
        .observe(CH, KZ, "Neither fighter is defeated yet!", TS)
        .is_none());
    assert!(t
        .observe(CH, KZ, "The end approaches! Who will stand victorious?", TS)
        .is_none());
    // A real result still resolves afterward.
    let m = t.observe(CH, KZ, "Vizlark wins!", TS).unwrap();
    assert_eq!(m.winner, "Vizlark");
}

#[test]
fn ignores_non_kuzavek_and_other_channels() {
    let mut t = ArenaTracker::new();
    assert!(t
        .observe(Some("Global"), Some("SomePlayer"), "Otis wins!", TS)
        .is_none());
    assert!(t
        .observe(CH, Some("OtherNpc"), "Otis wins!", TS)
        .is_none());
}

#[test]
fn result_without_intro_is_ignored() {
    // No pending pair → a lone result line resolves nothing.
    let mut t = ArenaTracker::new();
    assert!(t.observe(CH, KZ, "Dura wins!", TS).is_none());
}

#[test]
fn whole_word_matching_guards_substrings() {
    // "Leon" must not match fighter "Leo".
    assert!(!contains_word("Leon the barbarian appears", "Leo"));
    assert!(contains_word("Get that cat some milk. Leo wins!", "Leo"));
    assert!(contains_word("the mighty ogre OTIS!", "Otis"));
}

#[test]
fn discovers_new_fighter_from_clean_result() {
    let mut t = ArenaTracker::new();
    // A brand-new fighter wins with the clean phrasing → learned.
    t.observe(CH, KZ, "Newcomer wins!", TS);
    assert!(t.roster().iter().any(|n| n == "Newcomer"));
}

#[test]
fn timestamp_is_carried_through() {
    let m = run(
        "Introducing our two competitors! On the far side is Otis the Ogre!",
        "And on the side nearest me is Leo The Lion-Man!",
        "Leo wins!",
    )
    .unwrap();
    assert_eq!(m.fought_at, TS);
}

// ── Personal betting tracker ──────────────────────────────────────────
const CONFIRM: &str = "[16:22:03] LocalPlayer: ProcessTalkScreen(5712, \"Confirm Bet\", \"You are betting <em>7500</em> Councils that Otis defeats Leo in the next arena match. If your fighter is victorious, you will receive <em>14250</em> Councils. If your fighter loses, you will receive <em>0</em> Councils.\", \"\", [201,0,], System.String[], 1, Generic)";
const SUCCESS: &str = "[16:22:04] LocalPlayer: ProcessTalkScreen(5712, \"\", \"Success! You have placed your bet for Otis. Now please find a spot to watch!\\n\\nThe fight begins in <em>4 minutes 45 seconds</em>.\", \"\", [-1,], System.String[], 1, Generic)";
/// The datetime the caller derives for the confirm line of a bet.
const PLACED: &str = "2026-07-20 16:22:03";
const PAYOUT: &str = "[16:30:01] LocalPlayer: ProcessScreenText(CombatInfo, \"You received 14,250 Councils.\")";

#[test]
fn bet_parsing_extracts_all_fields() {
    let bet = parse_confirm_bet(CONFIRM, PLACED).unwrap();
    assert_eq!(bet.pick, "Otis");
    assert_eq!(bet.opponent, "Leo");
    assert_eq!(bet.wager, 7500);
    assert_eq!(bet.payout, 14250);
}

#[test]
fn winning_bet_resolves_on_matching_payout() {
    let mut t = ArenaBetTracker::new();
    assert!(t.observe_line(CONFIRM, PLACED).is_none());
    assert!(t.observe_line(SUCCESS, PLACED).is_none());
    let bet = t.observe_line(PAYOUT, PLACED).unwrap();
    assert!(bet.won);
    assert_eq!(bet.pick, "Otis");
    assert_eq!(bet.payout, 14250);
}

#[test]
fn non_matching_payout_does_not_resolve() {
    // A roulette payout (1,800) must not resolve the arena bet.
    let mut t = ArenaBetTracker::new();
    t.observe_line(CONFIRM, PLACED);
    t.observe_line(SUCCESS, PLACED);
    let roulette = "[16:29:16] LocalPlayer: ProcessScreenText(CombatInfo, \"You received 1,800 Councils.\")";
    assert!(t.observe_line(roulette, PLACED).is_none());
    // The real payout still resolves it as a win.
    assert!(t.observe_line(PAYOUT, PLACED).unwrap().won);
}

#[test]
fn losing_bet_resolves_when_next_bet_placed() {
    let mut t = ArenaBetTracker::new();
    t.observe_line(CONFIRM, PLACED);
    t.observe_line(SUCCESS, PLACED);
    // No payout arrives; the next bet's Confirm resolves the prior as a loss.
    let next_confirm = CONFIRM.replace("Otis defeats Leo", "Corrrak defeats Otis");
    let loss = t.observe_line(&next_confirm, PLACED).unwrap();
    assert!(!loss.won);
    assert_eq!(loss.pick, "Otis");
}

#[test]
fn cancelled_bet_without_success_is_discarded() {
    let mut t = ArenaBetTracker::new();
    t.observe_line(CONFIRM, PLACED); // confirm shown but never placed
    // Payout for that amount must NOT count — no active bet.
    assert!(t.observe_line(PAYOUT, PLACED).is_none());
}

#[test]
fn resolved_match_is_not_reported_twice() {
    let mut t = ArenaTracker::new();
    t.observe(CH, KZ, "Introducing the mighty Dura!", TS);
    t.observe(CH, KZ, "And on the side, Gloz!", TS);
    assert!(t.observe(CH, KZ, "Dura wins!", TS).is_some());
    assert!(t.observe(CH, KZ, "Dura wins!", TS).is_none());
    assert!(t.observe(CH, KZ, "Gloz loses!", TS).is_none());
}

#[test]
fn learned_names_are_titlecase_and_seed_stays_first() {
    let mut t = ArenaTracker::new();
    t.observe(CH, KZ, "bRAWLER99 wins!", TS);
    t.observe(CH, KZ, "Ox loses!", TS);
    let roster = t.roster();
    let seed = ["Corrrak", "Dura", "Gloz", "Leo", "Otis", "Ushug", "Vizlark"];
    assert_eq!(roster.len(), 8);
    for (i, name) in seed.iter().enumerate() {
        assert_eq!(roster[i], *name);
    }
    assert_eq!(roster[7], "Brawler");
}

#[test]
fn no_match_without_a_new_pair_over_a_run() {
    let mut t = ArenaTracker::new();
    for line in ["Dura wins!", "Gloz loses!", "Introducing the mighty Dura!", "Dura wins!"] {
        assert!(t.observe(CH, KZ, line, TS).is_none());
    }
    assert!(t.observe(CH, KZ, "And on the side, Leo!", TS).is_none());
    assert!(t.observe(CH, KZ, "Leo wins!", TS).is_some());
    assert!(t.observe(CH, KZ, "Leo wins!", TS).is_none());
}
