use clin::date::Date;
use clin::markdown::{MdKind, MdNode};
use clin::tasks::{
    default_sort, frontmatter_line_offset, scan_vault, sort_tasks, tasks_from_nodes, tasks_in_note, DateCmp, Filter,
    Priority, PriorityCmp, SortKey, SortSpec, Status, StatusConfig, StatusRegistry, StatusType,
    Task, TasksConfig, VaultNote,
};

fn registry() -> StatusRegistry {
    StatusRegistry::from_config(&TasksConfig::default())
}

fn date(y: i32, m: u32, d: u32) -> Date {
    Date::from_ymd_opt(y, m, d).expect("valid date")
}

fn sample_task() -> Task {
    Task {
        note_id: "Notes/a.md".to_string(),
        line: 1,
        status: Status {
            symbol: ' ',
            name: "Todo".into(),
            kind: StatusType::Todo,
        },
        description: "sample".to_string(),
        due: None,
        scheduled: None,
        start: None,
        done: None,
        created: None,
        cancelled: None,
        priority: Priority::Normal,
        tags: Vec::new(),
    }
}

fn task_with_due(due: Option<Date>) -> Task {
    let mut t = sample_task();
    t.due = due;
    t
}

#[test]
fn plain_checkbox_items_are_parsed() {
    let tasks = tasks_in_note("- [ ] Buy milk\n- [x] Ship it\n- Plain item\n", &registry());
    assert_eq!(tasks.len(), 2);
    assert_eq!(tasks[0].description, "Buy milk");
    assert!(!tasks[0].is_done());
    assert_eq!(tasks[1].description, "Ship it");
    assert!(tasks[1].is_done());
}

#[test]
fn empty_checkbox_is_not_a_task() {
    let tasks = tasks_in_note("- [ ]\n- [ ]   \n", &registry());
    assert!(tasks.is_empty());
}

#[test]
fn custom_status_symbols_are_detected() {
    let tasks = tasks_in_note("- [-] Cancelled item\n- [/] In progress item\n", &registry());
    assert_eq!(tasks.len(), 2);
    assert_eq!(tasks[0].status.kind, StatusType::Cancelled);
    assert_eq!(tasks[0].status.name, "Cancelled");
    assert_eq!(tasks[0].description, "Cancelled item");
    assert_eq!(tasks[1].status.kind, StatusType::InProgress);
}

#[test]
fn unknown_status_symbol_falls_back_to_todo() {
    let tasks = tasks_in_note("- [?] A question\n", &registry());
    assert_eq!(tasks.len(), 1);
    assert_eq!(tasks[0].status.kind, StatusType::Todo);
    assert_eq!(tasks[0].status.name, "Unknown");
}

#[test]
fn due_date_is_extracted_and_stripped_from_description() {
    let tasks = tasks_in_note("- [ ] take out the trash 📅 2021-04-09\n", &registry());
    assert_eq!(tasks[0].due, Some(date(2021, 4, 9)));
    assert_eq!(tasks[0].description, "take out the trash");
}

#[test]
fn done_date_is_extracted() {
    let tasks = tasks_in_note("- [x] take out the trash ✅ 2021-04-09\n", &registry());
    assert_eq!(tasks[0].done, Some(date(2021, 4, 9)));
}

#[test]
fn scheduled_start_created_cancelled_are_parsed_but_not_lost() {
    let tasks = tasks_in_note(
        "- [ ] x ⏳ 2021-04-09 🛫 2021-04-10 ➕ 2021-04-08 ❌ 2021-04-11\n",
        &registry(),
    );
    let t = &tasks[0];
    assert_eq!(t.scheduled, Some(date(2021, 4, 9)));
    assert_eq!(t.start, Some(date(2021, 4, 10)));
    assert_eq!(t.created, Some(date(2021, 4, 8)));
    assert_eq!(t.cancelled, Some(date(2021, 4, 11)));
    assert_eq!(t.description, "x");
}

#[test]
fn all_six_priorities_are_recognised() {
    let src = "\
- [ ] a 🔺
- [ ] b ⏫
- [ ] c 🔼
- [ ] d
- [ ] e 🔽
- [ ] f ⏬
";
    let tasks = tasks_in_note(src, &registry());
    let prios: Vec<Priority> = tasks.iter().map(|t| t.priority).collect();
    assert_eq!(
        prios,
        vec![
            Priority::Highest,
            Priority::High,
            Priority::Medium,
            Priority::Normal,
            Priority::Low,
            Priority::Lowest,
        ]
    );
}

#[test]
fn priority_ordering_puts_low_below_none() {
    assert!(Priority::Normal < Priority::Low);
    assert!(Priority::Low < Priority::Lowest);
    assert!(Priority::Highest < Priority::Normal);
}

#[test]
fn tags_are_extracted_and_kept_in_description() {
    let tasks = tasks_in_note("- [ ] call mom #family #context/home\n", &registry());
    assert_eq!(tasks[0].tags, vec!["#family", "#context/home"]);
    assert_eq!(tasks[0].description, "call mom #family #context/home");
}

#[test]
fn tag_stops_at_a_dot_matching_plugin_character_class() {
    let tasks = tasks_in_note("- [ ] version #1.5 release\n", &registry());
    assert_eq!(tasks[0].tags, vec!["#1"]);
}

#[test]
fn nested_task_inside_blockquote_is_detected() {
    let tasks = tasks_in_note("> [!note]\n> - [ ] In callout\n", &registry());
    assert_eq!(tasks.len(), 1);
    assert_eq!(tasks[0].description, "In callout");
}

#[test]
fn line_numbers_are_1_based_and_in_document_order() {
    let tasks = tasks_in_note("Text\n\n- [ ] First\n- [ ] Second\n", &registry());
    assert_eq!(tasks[0].line, 3);
    assert_eq!(tasks[1].line, 4);
}

#[test]
fn filter_done_and_not_done_use_status_type_groups() {
    let done = Task {
        note_id: String::new(),
        line: 1,
        status: Status {
            symbol: '-',
            name: "Cancelled".into(),
            kind: StatusType::Cancelled,
        },
        description: String::new(),
        due: None,
        scheduled: None,
        start: None,
        done: None,
        created: None,
        cancelled: None,
        priority: Priority::Normal,
        tags: Vec::new(),
    };
    assert!(Filter::Done.matches(&done));
    assert!(!Filter::NotDone.matches(&done));
}

#[test]
fn filter_due_comparisons() {
    let mut task = sample_task();
    task.due = Some(date(2024, 6, 15));
    assert!(Filter::Due(DateCmp::On, date(2024, 6, 15)).matches(&task));
    assert!(Filter::Due(DateCmp::Before, date(2024, 6, 16)).matches(&task));
    assert!(Filter::Due(DateCmp::After, date(2024, 6, 14)).matches(&task));
    assert!(Filter::Due(DateCmp::OnOrBefore, date(2024, 6, 15)).matches(&task));
    assert!(!Filter::Due(DateCmp::Before, date(2024, 6, 15)).matches(&task));
    assert!(!Filter::HasDue.matches(&sample_task()));
    assert!(Filter::NoDue.matches(&sample_task()));
}

#[test]
fn filter_priority_above_and_below() {
    let mut task = sample_task();
    task.priority = Priority::High;
    assert!(Filter::Priority(PriorityCmp::Above, Priority::Normal).matches(&task));
    assert!(!Filter::Priority(PriorityCmp::Below, Priority::Normal).matches(&task));
    assert!(Filter::Priority(PriorityCmp::Is, Priority::High).matches(&task));
}

#[test]
fn filter_tags_include_matches_subtags() {
    let mut task = sample_task();
    task.tags = vec!["#context/home".to_string()];
    assert!(Filter::TagsInclude("context".to_string()).matches(&task));
    assert!(Filter::TagsInclude("#context/home".to_string()).matches(&task));
    assert!(!Filter::TagsInclude("work".to_string()).matches(&task));
}

#[test]
fn filter_and_or_not_combine() {
    let mut task = sample_task();
    task.priority = Priority::High;
    let filter = Filter::And(vec![
        Filter::NotDone,
        Filter::Priority(PriorityCmp::Above, Priority::Normal),
    ]);
    assert!(filter.matches(&task));
    assert!(Filter::Not(Box::new(Filter::Done)).matches(&task));
    assert!(Filter::Or(vec![Filter::Done, Filter::NotDone]).matches(&task));
}

#[test]
fn sort_by_due_puts_none_last_and_earliest_first() {
    let mut tasks = vec![
        task_with_due(None),
        task_with_due(Some(date(2024, 1, 10))),
        task_with_due(Some(date(2024, 1, 5))),
    ];
    sort_tasks(
        &mut tasks,
        &[SortSpec {
            key: SortKey::Due,
            reverse: false,
        }],
    );
    assert_eq!(tasks[0].due, Some(date(2024, 1, 5)));
    assert_eq!(tasks[1].due, Some(date(2024, 1, 10)));
    assert_eq!(tasks[2].due, None);
}

#[test]
fn sort_reverse_flips_order() {
    let mut tasks = vec![
        task_with_due(Some(date(2024, 1, 5))),
        task_with_due(Some(date(2024, 1, 10))),
    ];
    sort_tasks(
        &mut tasks,
        &[SortSpec {
            key: SortKey::Due,
            reverse: true,
        }],
    );
    assert_eq!(tasks[0].due, Some(date(2024, 1, 10)));
}

#[test]
fn multiple_sort_keys_break_ties() {
    let mut a = sample_task();
    a.due = Some(date(2024, 1, 1));
    a.priority = Priority::Low;
    let mut b = sample_task();
    b.due = Some(date(2024, 1, 1));
    b.priority = Priority::High;
    let mut tasks = vec![a, b];
    sort_tasks(
        &mut tasks,
        &[
            SortSpec {
                key: SortKey::Due,
                reverse: false,
            },
            SortSpec {
                key: SortKey::Priority,
                reverse: false,
            },
        ],
    );
    assert_eq!(tasks[0].priority, Priority::High);
    assert_eq!(tasks[1].priority, Priority::Low);
}

// ---------------------------------------------------------------------------
// Further cases
// ---------------------------------------------------------------------------

#[test]
fn strikethrough_and_code_are_flattened_into_the_description() {
    let tasks = tasks_in_note("- [ ] ~~old~~ new `code`\n", &registry());
    assert_eq!(tasks.len(), 1);
    assert_eq!(tasks[0].description, "old new code");
}

#[test]
fn nested_sub_list_is_not_part_of_the_parent_description() {
    let tasks = tasks_in_note("- [ ] parent\n  - [ ] child\n", &registry());
    assert_eq!(tasks.len(), 2);
    assert_eq!(tasks[0].description, "parent");
    assert_eq!(tasks[1].description, "child");
    assert_eq!(tasks[1].line, 2);
}

#[test]
fn soft_wrapped_item_joins_lines_with_a_space() {
    let tasks = tasks_in_note("- [ ] first line\n  second line\n", &registry());
    assert_eq!(tasks[0].description, "first line second line");
}

#[test]
fn custom_marker_without_space_is_still_a_task() {
    let tasks = tasks_in_note("- [/]started\n", &registry());
    assert_eq!(tasks.len(), 1);
    assert_eq!(tasks[0].status.kind, StatusType::InProgress);
    assert_eq!(tasks[0].description, "started");
}

#[test]
fn configured_statuses_replace_earlier_entries_for_a_symbol() {
    let config = TasksConfig {
        statuses: vec![
            StatusConfig { symbol: '!', name: "Important".into(), kind: StatusType::Todo },
            StatusConfig { symbol: '!', name: "Urgent".into(), kind: StatusType::InProgress },
        ],
    };
    let registry = StatusRegistry::from_config(&config);
    let s = registry.resolve('!');
    assert_eq!(s.name, "Urgent");
    assert_eq!(s.kind, StatusType::InProgress);
    let unknown = registry.resolve('x');
    assert_eq!(unknown.name, "Unknown");
    assert_eq!(unknown.kind, StatusType::Todo);
}

#[test]
fn tasks_from_nodes_reads_a_hand_built_document() {
    let node = |kind: MdKind, line: usize, depth: usize| MdNode { kind, line, depth };
    let nodes = vec![
        node(MdKind::Other, 1, 1),
        node(MdKind::List, 1, 2),
        node(MdKind::TaskItem(None), 7, 3),
        node(MdKind::Other, 7, 4),
        node(MdKind::Text("write ".to_string()), 7, 5),
        node(MdKind::Code("tests".to_string()), 7, 5),
        node(MdKind::Item, 8, 3),
        node(MdKind::Other, 8, 4),
        node(MdKind::Text("[-] dropped".to_string()), 8, 5),
        node(MdKind::Item, 9, 3),
        node(MdKind::Other, 9, 4),
        node(MdKind::Text("plain".to_string()), 9, 5),
    ];
    let tasks = tasks_from_nodes(&nodes, &registry());
    assert_eq!(tasks.len(), 2);
    assert_eq!(tasks[0].description, "write tests");
    assert_eq!(tasks[0].line, 7);
    assert_eq!(tasks[0].status.kind, StatusType::Todo);
    assert_eq!(tasks[1].description, "dropped");
    assert_eq!(tasks[1].status.kind, StatusType::Cancelled);
    assert_eq!(tasks[1].line, 8);
}

#[test]
fn default_sort_is_status_due_priority_path() {
    let specs = default_sort();
    let keys: Vec<SortKey> = specs.iter().map(|s| s.key).collect();
    assert_eq!(keys, vec![SortKey::StatusType, SortKey::Due, SortKey::Priority, SortKey::Path]);
    assert!(specs.iter().all(|s| !s.reverse));
}

#[test]
fn sorting_is_stable_for_equal_keys() {
    let mut a = sample_task();
    a.description = "first".into();
    let mut b = sample_task();
    b.description = "second".into();
    let mut tasks = vec![a, b];
    sort_tasks(&mut tasks, &[SortSpec { key: SortKey::Priority, reverse: false }]);
    assert_eq!(tasks[0].description, "first");
    assert_eq!(tasks[1].description, "second");
}

#[test]
fn scan_vault_sets_note_ids_and_shifts_plain_note_lines() {
    let notes = vec![
        VaultNote {
            id: "Daily/a.md".into(),
            content: "- [ ] one\n".into(),
            on_disk: Some("---\ntags: [x]\n---\n\n- [ ] one\n".into()),
        },
        VaultNote {
            id: "secret.clin".into(),
            content: "text\n- [x] two\n".into(),
            on_disk: None,
        },
        VaultNote {
            id: "image.png".into(),
            content: "- [ ] ignored\n".into(),
            on_disk: None,
        },
    ];
    let tasks = scan_vault(&notes, &registry());
    assert_eq!(tasks.len(), 2);
    assert_eq!(tasks[0].note_id, "Daily/a.md");
    assert_eq!(tasks[0].line, 4);
    assert_eq!(tasks[1].note_id, "secret.clin");
    assert_eq!(tasks[1].line, 2);
    assert!(tasks[1].is_done());
}

#[test]
fn frontmatter_line_offset_counts_the_block_and_its_line_ending() {
    assert_eq!(frontmatter_line_offset("---\na: 1\n---\nbody\n"), 3);
    assert_eq!(frontmatter_line_offset("---\r\na: 1\n---\r\nbody"), 3);
    assert_eq!(frontmatter_line_offset("no frontmatter\n"), 0);
}

#[test]
fn filter_text_matches_are_case_insensitive() {
    let mut task = sample_task();
    task.description = "Call ÉMILE".into();
    assert!(Filter::DescriptionIncludes("émile".to_string()).matches(&task));
    assert!(Filter::PathIncludes("NOTES".to_string()).matches(&task));
    assert!(Filter::StatusNameExcludes("done".to_string()).matches(&task));
}
