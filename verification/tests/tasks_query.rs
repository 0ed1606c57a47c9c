use clin::date::Date;
use clin::tasks::{DateCmp, Filter, Priority, PriorityCmp, SortKey, SortSpec, StatusType};
use clin::tasks_query::{
    flags_to_query, parse_filter_line, parse_query, parse_query_checked, query_dates_in_range,
};

fn today() -> Date {
    Date::from_ymd_opt(2026, 9, 15).unwrap() // a Tuesday
}

fn date(y: i32, m: u32, d: u32) -> Date {
    Date::from_ymd_opt(y, m, d).unwrap()
}

#[test]
fn done_and_not_done() {
    assert_eq!(parse_filter_line("done", today()), Ok(Filter::Done));
    assert_eq!(parse_filter_line("not done", today()), Ok(Filter::NotDone));
    assert_eq!(
        parse_filter_line("Not Done", today()),
        Ok(Filter::NotDone),
        "case-insensitive"
    );
}

#[test]
fn due_date_comparisons() {
    assert_eq!(
        parse_filter_line("due before 2025-01-01", today()),
        Ok(Filter::Due(DateCmp::Before, date(2025, 1, 1)))
    );
    assert_eq!(
        parse_filter_line("due on or after 2025-01-01", today()),
        Ok(Filter::Due(DateCmp::OnOrAfter, date(2025, 1, 1)))
    );
    assert_eq!(
        parse_filter_line("due 2025-01-01", today()),
        Ok(Filter::Due(DateCmp::On, date(2025, 1, 1))),
        "bare date implies 'on'"
    );
    assert_eq!(parse_filter_line("has due date", today()), Ok(Filter::HasDue));
    assert_eq!(parse_filter_line("no due date", today()), Ok(Filter::NoDue));
}

#[test]
fn done_date_is_disambiguated_from_bare_done_status() {
    assert_eq!(
        parse_filter_line("done before 2025-01-01", today()),
        Ok(Filter::DoneCmp(DateCmp::Before, date(2025, 1, 1)))
    );
    assert_eq!(parse_filter_line("done", today()), Ok(Filter::Done));
}

#[test]
fn relative_dates() {
    assert_eq!(
        parse_filter_line("due today", today()),
        Ok(Filter::Due(DateCmp::On, today()))
    );
    assert_eq!(
        parse_filter_line("due tomorrow", today()),
        Ok(Filter::Due(DateCmp::On, date(2026, 9, 16)))
    );
    assert_eq!(
        parse_filter_line("due yesterday", today()),
        Ok(Filter::Due(DateCmp::On, date(2026, 9, 14)))
    );
    assert_eq!(
        parse_filter_line("due in 7 days", today()),
        Ok(Filter::Due(DateCmp::On, date(2026, 9, 22)))
    );
    assert_eq!(
        parse_filter_line("due 3 days ago", today()),
        Ok(Filter::Due(DateCmp::On, date(2026, 9, 12)))
    );
}

#[test]
fn next_and_last_weekday_never_match_today() {
    // today() is Tuesday 2026-09-15.
    assert_eq!(
        parse_filter_line("due next tuesday", today()),
        Ok(Filter::Due(DateCmp::On, date(2026, 9, 22))),
        "next tuesday skips today"
    );
    assert_eq!(
        parse_filter_line("due last tuesday", today()),
        Ok(Filter::Due(DateCmp::On, date(2026, 9, 8))),
        "last tuesday skips today"
    );
}

#[test]
fn priority_filters() {
    assert_eq!(
        parse_filter_line("priority is high", today()),
        Ok(Filter::Priority(PriorityCmp::Is, Priority::High))
    );
    assert_eq!(
        parse_filter_line("priority is above none", today()),
        Ok(Filter::Priority(PriorityCmp::Above, Priority::Normal))
    );
    assert_eq!(
        parse_filter_line("priority is not none", today()),
        Ok(Filter::Priority(PriorityCmp::IsNot, Priority::Normal))
    );
}

#[test]
fn tag_filters() {
    assert_eq!(
        parse_filter_line("tags include #todo", today()),
        Ok(Filter::TagsInclude("#todo".to_string()))
    );
    assert_eq!(
        parse_filter_line("tag includes work", today()),
        Ok(Filter::TagsInclude("work".to_string()))
    );
    assert_eq!(
        parse_filter_line("tags do not include #todo", today()),
        Ok(Filter::TagsExclude("#todo".to_string()))
    );
}

#[test]
fn path_and_description_filters() {
    assert_eq!(
        parse_filter_line("path includes Projects", today()),
        Ok(Filter::PathIncludes("Projects".to_string()))
    );
    assert_eq!(
        parse_filter_line("description does not include draft", today()),
        Ok(Filter::DescriptionExcludes("draft".to_string()))
    );
}

#[test]
fn status_type_filters() {
    assert_eq!(
        parse_filter_line("status.type is IN_PROGRESS", today()),
        Ok(Filter::StatusTypeIs(StatusType::InProgress))
    );
    assert_eq!(
        parse_filter_line("status.type is not cancelled", today()),
        Ok(Filter::StatusTypeIsNot(StatusType::Cancelled))
    );
}

#[test]
fn boolean_or_combination() {
    assert_eq!(
        parse_filter_line("(no due date) OR (due after 2021-04-04)", today()),
        Ok(Filter::Or(vec![
            Filter::NoDue,
            Filter::Due(DateCmp::After, date(2021, 4, 4)),
        ]))
    );
}

#[test]
fn boolean_and_not_combination() {
    assert_eq!(
        parse_filter_line("(path includes GitHub) AND NOT (tags include #todo)", today()),
        Ok(Filter::And(vec![
            Filter::PathIncludes("GitHub".to_string()),
            Filter::Not(Box::new(Filter::TagsInclude("#todo".to_string()))),
        ]))
    );
}

#[test]
fn boolean_not_prefix() {
    assert_eq!(
        parse_filter_line("NOT (done)", today()),
        Ok(Filter::Not(Box::new(Filter::Done)))
    );
}

#[test]
fn single_parenthesized_group_without_operator() {
    assert_eq!(parse_filter_line("(done)", today()), Ok(Filter::Done));
}

#[test]
fn sort_by_lines() {
    let q = parse_query("not done\nsort by due\nsort by priority reverse", today()).unwrap();
    assert_eq!(q.filters, vec![Filter::NotDone]);
    assert_eq!(
        q.sort,
        vec![
            SortSpec {
                key: SortKey::Due,
                reverse: false
            },
            SortSpec {
                key: SortKey::Priority,
                reverse: true
            },
        ]
    );
}

#[test]
fn blank_lines_and_comments_are_ignored() {
    let q = parse_query("not done\n\n# a comment\ndue before 2025-01-01\n", today()).unwrap();
    assert_eq!(q.filters.len(), 2);
}

#[test]
fn unrecognized_filter_is_an_error() {
    assert!(parse_filter_line("blah blah", today()).is_err());
}

#[test]
fn unrecognized_sort_key_is_an_error() {
    assert!(parse_query("sort by nonsense", today()).is_err());
}

#[test]
fn unrecognized_priority_name_is_an_error() {
    assert!(parse_filter_line("priority is extreme", today()).is_err());
}

// ---------------------------------------------------------------------------
// Further cases
// ---------------------------------------------------------------------------

#[test]
fn relative_date_outside_the_calendar_is_reported() {
    let text = "due in 999999999 days";
    assert!(!query_dates_in_range(text, today()));
    assert_eq!(parse_query_checked(text, today()), None);
    assert!(query_dates_in_range("due in 7 days", today()));
}

#[test]
fn checked_parse_agrees_with_parse_on_ordinary_queries() {
    let text = "done\nsort by path";
    assert_eq!(parse_query_checked(text, today()), Some(parse_query(text, today())));
    assert_eq!(
        parse_query_checked("nonsense", today()),
        Some(parse_query("nonsense", today()))
    );
}

#[test]
fn indented_query_lines_are_trimmed() {
    let q = parse_query("   not done   \r\n\tsort by due", today()).unwrap();
    assert_eq!(q.filters, vec![Filter::NotDone]);
    assert_eq!(q.sort, vec![SortSpec { key: SortKey::Due, reverse: false }]);
}

#[test]
fn an_error_stops_at_the_first_bad_line() {
    assert!(parse_query("not done\nbogus\nsort by due", today()).is_err());
}

fn list(status: Option<&str>, tags: &[&str], sort: &[&str], query: Option<&str>) -> clin::cli::TasksCmd {
    clin::cli::TasksCmd::List {
        status: status.map(String::from),
        due: Some("before 2025-01-01".to_string()),
        done: None,
        priority: Some("high".to_string()),
        tags: tags.iter().map(|t| t.to_string()).collect(),
        path: Some("Projects".to_string()),
        sort: sort.iter().map(|t| t.to_string()).collect(),
        query: query.map(String::from),
        verbose: false,
    }
}

#[test]
fn flags_are_query_lines() {
    let text = flags_to_query(&list(Some("open"), &["work", "#home"], &["priority reverse"], None)).unwrap();
    assert_eq!(
        text,
        "not done\ndue before 2025-01-01\npriority is high\ntags include work\ntags include #home\npath includes Projects\nsort by priority reverse"
    );
    let q = parse_query(&text, today()).unwrap();
    assert_eq!(q.filters.len(), 6);
    assert_eq!(q.sort, vec![SortSpec { key: SortKey::Priority, reverse: true }]);
    assert_eq!(
        flags_to_query(&list(Some("all"), &[], &[], None)).unwrap(),
        "due before 2025-01-01\npriority is high\npath includes Projects"
    );
    assert_eq!(
        flags_to_query(&list(Some("done"), &[], &[], None)).unwrap(),
        "done\ndue before 2025-01-01\npriority is high\npath includes Projects"
    );
}

#[test]
fn a_raw_query_overrides_the_flags_and_unknown_status_is_refused() {
    assert_eq!(
        flags_to_query(&list(Some("open"), &["x"], &[], Some("done\nsort by due"))).unwrap(),
        "done\nsort by due"
    );
    assert!(flags_to_query(&list(Some("later"), &[], &[], None)).is_err());
}

#[test]
fn query_filter_lines_are_anded_and_sorting_defaults() {
    let q = parse_query("not done\npriority is high", today()).unwrap();
    let mut task = clin::tasks::Task {
        note_id: "a.md".into(),
        line: 1,
        status: clin::tasks::Status { symbol: ' ', name: "Todo".into(), kind: StatusType::Todo },
        description: "x".into(),
        due: None,
        scheduled: None,
        start: None,
        done: None,
        created: None,
        cancelled: None,
        priority: Priority::High,
        tags: vec![],
    };
    assert!(q.accepts(&task));
    task.priority = Priority::Low;
    assert!(!q.accepts(&task));
    assert_eq!(q.sort_order(), clin::tasks::default_sort());
    let sorted = parse_query("sort by path", today()).unwrap();
    assert_eq!(sorted.sort_order(), vec![SortSpec { key: SortKey::Path, reverse: false }]);
}
