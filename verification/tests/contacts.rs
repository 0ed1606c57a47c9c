use clin::contacts::{
    age_at_next_occurrence, contact_from_frontmatter, days_until_birthday, is_birthday_today,
    is_birthday_within, next_occurrence, parse_birthday, quote_reserved_indicator_scalars,
    unquoted_value, BirthdayWindow, Contact, RawFrontmatter, RawName,
};
use clin::date::Date;

fn date(y: i32, m: u32, d: u32) -> Date {
    Date::from_ymd_opt(y, m, d).expect("valid date")
}

fn contact(birthday: Date, birth_year_known: bool) -> Contact {
    Contact {
        first_name: "carl".to_string(),
        last_name: None,
        birthday,
        birth_year_known,
    }
}

#[test]
fn birthday_without_a_year_matches_month_and_day() {
    let contact = contact(date(4, 12, 6), false);
    assert!(is_birthday_today(&contact, date(2026, 12, 6)));
    assert!(!is_birthday_today(&contact, date(2026, 12, 7)));
}

#[test]
fn leap_day_birthday_without_a_year_matches_only_in_a_leap_year() {
    let contact = contact(date(4, 2, 29), false);
    assert!(!is_birthday_today(&contact, date(2026, 3, 1)));
    assert!(is_birthday_today(&contact, date(2028, 2, 29)));
}

#[test]
fn birthday_matches_month_and_day_regardless_of_year() {
    let contact = contact(date(1966, 12, 6), true);
    assert!(is_birthday_today(&contact, date(2026, 12, 6)));
    assert!(!is_birthday_today(&contact, date(2026, 12, 7)));
    assert!(!is_birthday_today(&contact, date(2026, 6, 12)));
}

#[test]
fn leap_day_birthday_does_not_match_in_a_non_leap_year() {
    let contact = contact(date(2000, 2, 29), true);
    assert!(!is_birthday_today(&contact, date(2026, 3, 1)));
    assert!(is_birthday_today(&contact, date(2028, 2, 29)));
}

#[test]
fn days_until_birthday_counts_zero_on_the_day_itself() {
    let contact = contact(date(1966, 12, 6), true);
    assert_eq!(days_until_birthday(&contact, date(2026, 12, 6)), Some(0));
}

#[test]
fn days_until_birthday_counts_forward_within_the_year() {
    let contact = contact(date(1966, 12, 6), true);
    assert_eq!(days_until_birthday(&contact, date(2026, 12, 1)), Some(5));
}

#[test]
fn days_until_birthday_wraps_into_the_next_year() {
    let contact = contact(date(1966, 1, 3), true);
    // Dec 30 -> Jan 3 crosses a year boundary: 4 days, not "already
    // passed this year".
    assert_eq!(days_until_birthday(&contact, date(2026, 12, 30)), Some(4));
}

#[test]
fn days_until_birthday_is_none_for_leap_day_across_two_non_leap_years() {
    let contact = contact(date(2000, 2, 29), true);
    // 2026 and 2027 are both non-leap, so neither has a February 29.
    assert_eq!(days_until_birthday(&contact, date(2026, 3, 1)), None);
}

#[test]
fn age_at_next_occurrence_counts_years_since_birth_when_the_birthday_is_today() {
    let contact = contact(date(1966, 12, 6), true);
    assert_eq!(age_at_next_occurrence(&contact, date(2026, 12, 6)), Some(60));
}

#[test]
fn age_at_next_occurrence_uses_the_year_of_the_upcoming_birthday() {
    let contact = contact(date(1966, 1, 3), true);
    // Dec 30, 2026 -> next occurrence is Jan 3, 2027, turning 61, not 60.
    assert_eq!(age_at_next_occurrence(&contact, date(2026, 12, 30)), Some(61));
}

#[test]
fn age_at_next_occurrence_is_none_without_a_known_birth_year() {
    let contact = contact(date(4, 12, 6), false);
    assert_eq!(age_at_next_occurrence(&contact, date(2026, 12, 6)), None);
}

#[test]
fn age_at_next_occurrence_is_none_for_leap_day_across_two_non_leap_years() {
    let contact = contact(date(2000, 2, 29), true);
    assert_eq!(age_at_next_occurrence(&contact, date(2026, 3, 1)), None);
}

#[test]
fn is_birthday_within_includes_today_as_day_zero() {
    let contact = contact(date(1966, 12, 6), true);
    assert!(is_birthday_within(&contact, date(2026, 12, 6), 1));
}

#[test]
fn is_birthday_within_matches_the_last_day_of_the_window_but_not_beyond() {
    let contact = contact(date(1966, 12, 6), true);
    let today = date(2026, 11, 30);
    assert!(is_birthday_within(&contact, today, 7)); // Dec 6 is 6 days out.
    assert!(!is_birthday_within(&contact, today, 6)); // window ends Dec 5.
}

#[test]
fn is_birthday_within_excludes_a_birthday_already_passed_this_year() {
    let contact = contact(date(1966, 12, 6), true);
    assert!(!is_birthday_within(&contact, date(2026, 12, 7), 31));
}

#[test]
fn display_name_omits_missing_last_name() {
    let contact = contact(date(1966, 12, 6), true);
    assert_eq!(contact.display_name(), "carl");
}

#[test]
fn display_name_joins_first_and_last() {
    let mut contact = contact(date(1966, 12, 6), true);
    contact.last_name = Some("johnson".to_string());
    assert_eq!(contact.display_name(), "carl johnson");
}

#[test]
fn birthday_window_parses_known_keywords_only() {
    assert_eq!(BirthdayWindow::parse("today"), Some(BirthdayWindow::Today));
    assert_eq!(BirthdayWindow::parse("week"), Some(BirthdayWindow::Week));
    assert_eq!(BirthdayWindow::parse("month"), Some(BirthdayWindow::Month));
    assert_eq!(BirthdayWindow::parse("year"), None);
}

#[test]
fn birthday_window_days_and_shows_date() {
    assert_eq!(BirthdayWindow::Today.days(), 1);
    assert_eq!(BirthdayWindow::Week.days(), 7);
    assert_eq!(BirthdayWindow::Month.days(), 31);
    assert!(!BirthdayWindow::Today.shows_date());
    assert!(BirthdayWindow::Week.shows_date());
    assert!(BirthdayWindow::Month.shows_date());
}

// ---------------------------------------------------------------------------
// Further cases
// ---------------------------------------------------------------------------

fn raw(kind: Option<&str>, first: Option<&str>, last: Option<&str>, birthday: Option<&str>) -> RawFrontmatter {
    RawFrontmatter {
        kind: kind.map(String::from),
        name: Some(RawName { first: first.map(String::from), last: last.map(String::from) }),
        birthday: birthday.map(String::from),
    }
}

#[test]
fn decoded_contact_frontmatter_is_read() {
    assert_eq!(
        contact_from_frontmatter(raw(Some("contact"), Some("carl"), Some("johnson"), Some("1966-12-06"))),
        Some(Contact {
            first_name: "carl".to_string(),
            last_name: Some("johnson".to_string()),
            birthday: date(1966, 12, 6),
            birth_year_known: true,
        })
    );
    assert_eq!(
        contact_from_frontmatter(raw(Some("contact"), Some("carl"), None, Some("--12-06")))
            .map(|c| (c.birthday, c.birth_year_known)),
        Some((date(4, 12, 6), false))
    );
}

#[test]
fn decoded_frontmatter_that_is_not_a_contact_is_skipped() {
    assert_eq!(contact_from_frontmatter(raw(Some("note"), Some("carl"), None, Some("1966-12-06"))), None);
    assert_eq!(contact_from_frontmatter(raw(None, Some("carl"), None, Some("1966-12-06"))), None);
    assert_eq!(contact_from_frontmatter(raw(Some("contact"), None, Some("j"), Some("1966-12-06"))), None);
    assert_eq!(contact_from_frontmatter(raw(Some("contact"), Some("carl"), None, None)), None);
    assert_eq!(contact_from_frontmatter(raw(Some("contact"), Some("carl"), None, Some("not-a-date"))), None);
    assert_eq!(contact_from_frontmatter(raw(Some("contact"), Some("carl"), None, Some("--13-99"))), None);
    let no_name = RawFrontmatter { kind: Some("contact".into()), name: None, birthday: Some("1966-12-06".into()) };
    assert_eq!(contact_from_frontmatter(no_name), None);
}

#[test]
fn birthday_forms() {
    assert_eq!(parse_birthday("1966-12-06"), Some((date(1966, 12, 6), true)));
    assert_eq!(parse_birthday("--02-29"), Some((date(4, 2, 29), false)));
    assert_eq!(parse_birthday("--+2-+9"), Some((date(4, 2, 9), false)));
    assert_eq!(parse_birthday("--02"), None);
    assert_eq!(parse_birthday("--02-30"), None);
    assert_eq!(parse_birthday("1966-02-30"), None);
}

#[test]
fn reserved_indicator_values_are_quoted() {
    let src = "name:\n  first: carl\ntelegram: @carl\"j\\x\ncode: `x`\n";
    assert_eq!(
        quote_reserved_indicator_scalars(src),
        "name:\n  first: carl\ntelegram: \"@carl\\\"j\\\\x\"\ncode: \"`x`\""
    );
    let plain = "a: b\r\nc: d\n";
    assert_eq!(quote_reserved_indicator_scalars(plain), plain);
    assert_eq!(quote_reserved_indicator_scalars(": @x\n"), ": @x\n");
}

#[test]
fn unquoted_value_needs_a_key_and_an_indicator() {
    let chars = |s: &str| s.chars().collect::<Vec<char>>();
    assert_eq!(unquoted_value(&chars("telegram: @me")), Some(10));
    assert_eq!(unquoted_value(&chars("   : @me")), None);
    assert_eq!(unquoted_value(&chars("telegram: me")), None);
    assert_eq!(unquoted_value(&chars("telegram:@me")), None);
}

#[test]
fn next_occurrence_is_on_or_after_today() {
    let c = contact(date(1990, 3, 10), true);
    assert_eq!(next_occurrence(&c, date(2026, 3, 10)), Some(date(2026, 3, 10)));
    assert_eq!(next_occurrence(&c, date(2026, 3, 11)), Some(date(2027, 3, 10)));
    assert_eq!(next_occurrence(&c, date(2026, 1, 1)), Some(date(2026, 3, 10)));
}
