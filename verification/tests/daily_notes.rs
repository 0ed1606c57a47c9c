use clin::daily_notes::{
    config_from_json, format_date, format_date_with_masked_year, note_entry, with_block,
    with_entry, DailyNotesConfig,
};
use clin::date::Date;

fn date() -> Date {
    Date::from_ymd_opt(2026, 7, 14).unwrap()
}

#[test]
fn load_config_malformed_json_yields_defaults() {
    assert_eq!(config_from_json("not json"), DailyNotesConfig::default());
}

#[test]
fn load_config_reads_folder_and_format() {
    let config = config_from_json(r#"{"folder": "/Journal/", "format": "YYYY/MM/YYYY-MM-DD"}"#);
    assert_eq!(config.folder, "Journal");
    assert_eq!(config.format, "YYYY/MM/YYYY-MM-DD");
}

#[test]
fn format_date_covers_supported_tokens() {
    assert_eq!(format_date("YYYY-MM-DD", date()), "2026-07-14");
    assert_eq!(format_date("YY-M-D", date()), "26-7-14");
    assert_eq!(format_date("MMMM D, YYYY", date()), "July 14, 2026");
    assert_eq!(format_date("MMM", date()), "Jul");
    assert_eq!(format_date("dddd", date()), "Tuesday");
    assert_eq!(format_date("ddd", date()), "Tue");
}

#[test]
fn format_date_treats_brackets_as_literal() {
    assert_eq!(format_date("[Daily] YYYY-MM-DD", date()), "Daily 2026-07-14");
}

#[test]
fn format_date_with_masked_year_replaces_yyyy_with_question_marks() {
    assert_eq!(format_date_with_masked_year("YYYY-MM-DD", date()), "????-07-14");
}

#[test]
fn format_date_with_masked_year_replaces_yy_with_question_marks() {
    assert_eq!(format_date_with_masked_year("YY-MM-DD", date()), "??-07-14");
}

#[test]
fn format_date_with_masked_year_leaves_non_year_tokens_alone() {
    assert_eq!(
        format_date_with_masked_year("dddd, MMMM D", date()),
        "Tuesday, July 14"
    );
}

#[test]
fn append_note_on_creates_new_note_with_leading_blank_line() {
    let entry = note_entry(9, 5, "Hello world");
    assert_eq!(with_entry("", &entry), "\n[09:05] Hello world\n");
}

#[test]
fn append_note_on_inserts_blank_line_even_after_existing_newline() {
    let entry = note_entry(9, 5, "Hello world");
    assert_eq!(with_entry("# Today\n", &entry), "# Today\n\n[09:05] Hello world\n");
}

#[test]
fn append_block_on_appends_to_existing_note_ending_with_newline() {
    assert_eq!(
        with_block("# Today\n", "- [ ] Call the dentist"),
        "# Today\n- [ ] Call the dentist\n"
    );
}

#[test]
fn append_block_on_appends_to_existing_note_not_ending_with_newline() {
    assert_eq!(with_block("# Today", "more text"), "# Today\nmore text\n");
}

#[test]
fn append_block_on_block_already_ending_with_newline_no_double() {
    assert_eq!(with_block("", "Block with newline\n"), "Block with newline\n");
}

#[test]
fn append_block_on_multiline_block_is_preserved_verbatim() {
    assert_eq!(with_block("", "Line one\nLine two"), "Line one\nLine two\n");
}

// ---------------------------------------------------------------------------
// Further cases
// ---------------------------------------------------------------------------

#[test]
fn settings_default_when_missing_empty_or_not_strings() {
    let config = config_from_json(r#"{"folder": "", "format": 7}"#);
    assert_eq!(config, DailyNotesConfig::default());
    let config = config_from_json(r#"{"folder": "///"}"#);
    assert_eq!(config.folder, "");
    assert_eq!(config.format, "YYYY-MM-DD");
    let config = config_from_json(r#"["folder"]"#);
    assert_eq!(config, DailyNotesConfig::default());
}

#[test]
fn default_settings_are_vault_root_and_iso_dates() {
    let config = DailyNotesConfig::default();
    assert_eq!(config.folder, "");
    assert_eq!(config.format, "YYYY-MM-DD");
}

#[test]
fn format_tokens_runs_and_edge_cases() {
    // Longer runs take the longest token and start over.
    assert_eq!(format_date("MMMMM", date()), "July7");
    assert_eq!(format_date("YYY", date()), "26Y");
    assert_eq!(format_date("Y", date()), "Y");
    assert_eq!(format_date("dd", date()), "dd");
    assert_eq!(format_date("DDD", date()), "1414");
    // An unclosed bracket runs to the end.
    assert_eq!(format_date("[YYYY", date()), "YYYY");
    assert_eq!(format_date("[]D", date()), "14");
    assert_eq!(format_date("", date()), "");
}

#[test]
fn format_pads_small_and_negative_years() {
    let early = Date::from_ymd_opt(7, 1, 2).unwrap();
    assert_eq!(format_date("YYYY-MM-DD", early), "0007-01-02");
    assert_eq!(format_date("YY", early), "07");
    let bce = Date::from_ymd_opt(-5, 3, 4).unwrap();
    assert_eq!(format_date("YYYY", bce), "-005");
    assert_eq!(format_date("YY", bce), "95");
    let far = Date::from_ymd_opt(12345, 12, 31).unwrap();
    assert_eq!(format_date("YYYY dddd", far), "12345 Monday");
}

#[test]
fn weekday_names_follow_the_calendar() {
    let monday = Date::from_ymd_opt(2024, 1, 1).unwrap();
    assert_eq!(format_date("dddd", monday), "Monday");
    let sunday = Date::from_ymd_opt(2023, 12, 31).unwrap();
    assert_eq!(format_date("ddd", sunday), "Sun");
}

#[test]
fn entries_pad_hours_and_minutes() {
    assert_eq!(note_entry(23, 59, "late"), "[23:59] late");
    assert_eq!(note_entry(0, 0, ""), "[00:00] ");
}
