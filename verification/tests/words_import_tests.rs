use glogger::words_import::{
    parse_csv_datetime, words_from_csv, MISSING_POWER_COLUMN, MISSING_WORD_COLUMN,
};

const NOW: &str = "2026-01-01T00:00:00Z";

#[test]
fn csv_datetimes_become_iso() {
    assert_eq!(parse_csv_datetime("03/14/2026 6:22:05 PM"), Some("2026-03-14T18:22:05Z".into()));
    assert_eq!(parse_csv_datetime(" 03/14/2026 18:22 "), Some("2026-03-14T18:22:00Z".into()));
    assert_eq!(parse_csv_datetime("2026-03-14 18:22:05"), Some("2026-03-14T18:22:05Z".into()));
    assert_eq!(parse_csv_datetime("2026-03-14T18:22:05Z"), Some("2026-03-14T18:22:05Z".into()));
    assert_eq!(parse_csv_datetime("yesterday"), None);
}

#[test]
fn words_are_read_with_dates_descriptions_and_blanks_skipped() {
    let csv = "Word,Power Name,Date,Time,Description\n\
               ZAPPO,Power of Thunder,03/14/2026,6:22:05 PM,Hits hard\n\
               ,Skipped Power,,,\n\
               KRUNCH,Power of Stone,,,\n";
    let (words, err) = words_from_csv(csv, NOW);
    assert!(err.is_none());
    assert_eq!(words.len(), 2);
    assert_eq!(words[0].word, "ZAPPO");
    assert_eq!(words[0].power_name, "Power of Thunder");
    assert_eq!(words[0].discovered_at, "2026-03-14T18:22:05Z");
    assert_eq!(words[0].description.as_deref(), Some("Hits hard"));
    assert_eq!(words[1].word, "KRUNCH");
    assert_eq!(words[1].discovered_at, NOW);
    assert_eq!(words[1].description, None);
}

#[test]
fn headers_match_ignoring_case_and_spaces() {
    let csv = " word , POWER_NAME \n  ZAP  ,  Zap Power \n";
    let (words, err) = words_from_csv(csv, NOW);
    assert!(err.is_none());
    assert_eq!(words[0].word, "ZAP");
    assert_eq!(words[0].power_name, "Zap Power");
    assert_eq!(words[0].discovered_at, NOW);
}

#[test]
fn missing_columns_are_refused() {
    let (w, e) = words_from_csv("Power Name\nX\n", NOW);
    assert!(w.is_empty());
    assert_eq!(e.as_deref(), Some(MISSING_WORD_COLUMN));
    let (w, e) = words_from_csv("Word\nX\n", NOW);
    assert!(w.is_empty());
    assert_eq!(e.as_deref(), Some(MISSING_POWER_COLUMN));
}

#[test]
fn unreadable_dates_fall_back_to_now() {
    let csv = "Word,Power Name,Date,Time\nZAP,Zap,someday,noon\n";
    let (words, _) = words_from_csv(csv, NOW);
    assert_eq!(words[0].discovered_at, NOW);
}

#[test]
fn a_short_row_stops_the_import_with_a_refusal() {
    // A record of another length than the header is refused by the reader.
    let csv = "Word,Power Name\nZAP,Zap\nONLY\nLATER,Later\n";
    let (words, err) = words_from_csv(csv, NOW);
    assert_eq!(words.len(), 1);
    let e = err.expect("refusal");
    assert!(e.starts_with("Failed to read CSV record: "), "got {e}");
}
