//! Obsidian Tasks-plugin-style checklist items (`- [ ] Do the thing 📅
//! 2024-01-01 ⏫ #project/x`): statuses, priorities, the task record, the
//! filter predicate and the sort order.
//!
//! Scoped subset of the plugin: due date, done (completion) date, status,
//! tags, priority, filtering and sorting. Read-only: nothing here edits a
//! task line. Scheduled/start/created/cancelled dates are parsed but are not
//! filter or sort keys; recurrence, dependencies, urgency, grouping and date
//! ranges are out of scope.
use std::collections::HashMap;
use vstd::prelude::*;

use crate::date::{date_le, date_lt, Date};
use crate::markdown::{
    checklist_item, checklist_item_exec, markdown_nodes, markdown_options, markdown_tree, nodes_view,
    MarkdownExtensions, MdNode, MdNodeView,
};
use crate::signifiers::{extract_signifiers, signifiers};
use crate::frontmatter::frontmatter_bounds;
use crate::text::{
    chars_of, contains, copy_range, eq_chars, lowercase, seq_contains, to_ascii_lowercase, to_ascii_uppercase,
    to_lowercase, ascii_lowercase, ascii_uppercase, trim, trim_bounds, ends_with, has_suffix,
};

verus! {

broadcast use vstd::std_specs::hash::group_hash_axioms;

// ---------------------------------------------------------------------------
// Status
// ---------------------------------------------------------------------------

/// The six status groups the Tasks plugin sorts and filters by.
#[derive(Debug, Clone, Copy, PartialEq, Eq, Hash, Structural)]
pub enum StatusType {
    Todo,
    InProgress,
    OnHold,
    Done,
    Cancelled,
    NonTask,
}

impl StatusType {
    /// The types the plugin's `done` filter matches.
    pub open spec fn done_group(self) -> bool {
        self is Done || self is Cancelled || self is NonTask
    }

    /// True for `DONE`, `CANCELLED`, `NON_TASK`; false for `TODO`,
    /// `IN_PROGRESS`, `ON_HOLD`.
    pub fn is_done_group(self) -> (r: bool)
        ensures
            r == self.done_group(),
    {
        match self {
            StatusType::Done | StatusType::Cancelled | StatusType::NonTask => true,
            _ => false,
        }
    }

    /// The type a `status.type is <TYPE>` value names, compared after ASCII
    /// upper-casing.
    pub open spec fn named(s: Seq<char>) -> Option<StatusType> {
        let u = ascii_uppercase(s);
        if u == "TODO"@ {
            Some(StatusType::Todo)
        } else if u == "IN_PROGRESS"@ {
            Some(StatusType::InProgress)
        } else if u == "ON_HOLD"@ {
            Some(StatusType::OnHold)
        } else if u == "DONE"@ {
            Some(StatusType::Done)
        } else if u == "CANCELLED"@ {
            Some(StatusType::Cancelled)
        } else if u == "NON_TASK"@ {
            Some(StatusType::NonTask)
        } else {
            None
        }
    }

    /// Parse a `status.type is <TYPE>` value, case-insensitively.
    pub fn parse_name(s: &str) -> (r: Option<Self>)
        ensures
            r == Self::named(s@),
    {
        let v = chars_of(s);
        Self::parse_name_chars(&v)
    }

    pub fn parse_name_chars(s: &[char]) -> (r: Option<Self>)
        ensures
            r == Self::named(s@),
    {
        let u = to_ascii_uppercase(s);
        if eq_chars(&u, &chars_of("TODO")) {
            Some(StatusType::Todo)
        } else if eq_chars(&u, &chars_of("IN_PROGRESS")) {
            Some(StatusType::InProgress)
        } else if eq_chars(&u, &chars_of("ON_HOLD")) {
            Some(StatusType::OnHold)
        } else if eq_chars(&u, &chars_of("DONE")) {
            Some(StatusType::Done)
        } else if eq_chars(&u, &chars_of("CANCELLED")) {
            Some(StatusType::Cancelled)
        } else if eq_chars(&u, &chars_of("NON_TASK")) {
            Some(StatusType::NonTask)
        } else {
            None
        }
    }

    /// Sort rank of the plugin's `sort by status.type` order:
    /// `IN_PROGRESS, TODO, ON_HOLD, DONE, CANCELLED, NON_TASK`.
    pub open spec fn rank(self) -> int {
        match self {
            StatusType::InProgress => 0,
            StatusType::Todo => 1,
            StatusType::OnHold => 2,
            StatusType::Done => 3,
            StatusType::Cancelled => 4,
            StatusType::NonTask => 5,
        }
    }

    pub fn sort_rank(self) -> (r: u8)
        ensures
            r == self.rank(),
    {
        match self {
            StatusType::InProgress => 0,
            StatusType::Todo => 1,
            StatusType::OnHold => 2,
            StatusType::Done => 3,
            StatusType::Cancelled => 4,
            StatusType::NonTask => 5,
        }
    }
}

/// A task's resolved status: checkbox `symbol`, display `name` and
/// [`StatusType`] group.
#[derive(Debug, Clone, PartialEq, Eq)]
pub struct Status {
    pub symbol: char,
    pub name: String,
    pub kind: StatusType,
}

pub struct StatusView {
    pub symbol: char,
    pub name: Seq<char>,
    pub kind: StatusType,
}

impl View for Status {
    type V = StatusView;

    open spec fn view(&self) -> StatusView {
        StatusView { symbol: self.symbol, name: self.name@, kind: self.kind }
    }
}

impl Status {
    /// A copy of this status.
    pub fn duplicate(&self) -> (r: Status)
        ensures
            r@ == self@,
    {
        Status { symbol: self.symbol, name: self.name.clone(), kind: self.kind }
    }
}

/// One configured checkbox symbol: what it is called and which group it
/// belongs to.
#[derive(Debug, Clone, PartialEq, Eq)]
pub struct StatusConfig {
    pub symbol: char,
    pub name: String,
    pub kind: StatusType,
}

impl View for StatusConfig {
    type V = StatusView;

    open spec fn view(&self) -> StatusView {
        StatusView { symbol: self.symbol, name: self.name@, kind: self.kind }
    }
}

/// The `[tasks]` configuration: the checkbox symbols and their statuses.
#[derive(Debug, Clone, PartialEq, Eq)]
pub struct TasksConfig {
    pub statuses: Vec<StatusConfig>,
}

/// The built-in statuses: ` ` Todo, `x` and `X` Done, `-` Cancelled, `/`
/// In Progress.
pub open spec fn default_statuses() -> Seq<StatusView> {
    seq![
        StatusView { symbol: ' ', name: "Todo"@, kind: StatusType::Todo },
        StatusView { symbol: 'x', name: "Done"@, kind: StatusType::Done },
        StatusView { symbol: 'X', name: "Done"@, kind: StatusType::Done },
        StatusView { symbol: '-', name: "Cancelled"@, kind: StatusType::Cancelled },
        StatusView { symbol: '/', name: "In Progress"@, kind: StatusType::InProgress },
    ]
}

pub open spec fn configs_view(s: Seq<StatusConfig>) -> Seq<StatusView> {
    s.map_values(|c: StatusConfig| c@)
}

impl Default for TasksConfig {
    fn default() -> (r: Self)
        ensures
            configs_view(r.statuses@) == default_statuses(),
    {
        let mut statuses: Vec<StatusConfig> = Vec::new();
        statuses.push(
            StatusConfig { symbol: ' ', name: String::from_str("Todo"), kind: StatusType::Todo },
        );
        statuses.push(
            StatusConfig { symbol: 'x', name: String::from_str("Done"), kind: StatusType::Done },
        );
        statuses.push(
            StatusConfig { symbol: 'X', name: String::from_str("Done"), kind: StatusType::Done },
        );
        statuses.push(
            StatusConfig {
                symbol: '-',
                name: String::from_str("Cancelled"),
                kind: StatusType::Cancelled,
            },
        );
        statuses.push(
            StatusConfig {
                symbol: '/',
                name: String::from_str("In Progress"),
                kind: StatusType::InProgress,
            },
        );
        let r = TasksConfig { statuses };
        assert(configs_view(r.statuses@) =~= default_statuses());
        r
    }
}

/// Symbol-to-status map built from a list of configured statuses, a later
/// entry for a symbol replacing an earlier one.
pub open spec fn config_map(s: Seq<StatusView>) -> Map<u32, StatusView>
    decreases s.len(),
{
    if s.len() == 0 {
        Map::empty()
    } else {
        config_map(s.drop_last()).insert(s.last().symbol as u32, s.last())
    }
}

/// The status a symbol resolves to: the configured one, or an `"Unknown"`
/// [`StatusType::Todo`] status carrying the symbol.
pub open spec fn resolved(m: Map<u32, StatusView>, c: char) -> StatusView {
    if m.contains_key(c as u32) {
        m[c as u32]
    } else {
        StatusView { symbol: c, name: "Unknown"@, kind: StatusType::Todo }
    }
}

/// With the built-in configuration, ` ` is Todo, `x` and `X` are Done, `-`
/// is Cancelled and `/` is In Progress; any other symbol resolves to an
/// `"Unknown"` status of type Todo.
pub proof fn law_default_statuses(c: char)
    ensures
        resolved(config_map(default_statuses()), ' ') == (StatusView {
            symbol: ' ',
            name: "Todo"@,
            kind: StatusType::Todo,
        }),
        resolved(config_map(default_statuses()), 'x') == (StatusView {
            symbol: 'x',
            name: "Done"@,
            kind: StatusType::Done,
        }),
        resolved(config_map(default_statuses()), 'X') == (StatusView {
            symbol: 'X',
            name: "Done"@,
            kind: StatusType::Done,
        }),
        resolved(config_map(default_statuses()), '-') == (StatusView {
            symbol: '-',
            name: "Cancelled"@,
            kind: StatusType::Cancelled,
        }),
        resolved(config_map(default_statuses()), '/') == (StatusView {
            symbol: '/',
            name: "In Progress"@,
            kind: StatusType::InProgress,
        }),
        c != ' ' && c != 'x' && c != 'X' && c != '-' && c != '/' ==> resolved(
            config_map(default_statuses()),
            c,
        ) == (StatusView { symbol: c, name: "Unknown"@, kind: StatusType::Todo }),
{
    let d = default_statuses();
    reveal_with_fuel(config_map, 6);
    assert(d.drop_last().drop_last().drop_last().drop_last().drop_last() =~= Seq::<StatusView>::empty());
    let m = config_map(d);
    assert(m =~= Map::<u32, StatusView>::empty().insert(' ' as u32, d[0]).insert('x' as u32, d[1]).insert(
        'X' as u32,
        d[2],
    ).insert('-' as u32, d[3]).insert('/' as u32, d[4]));
    assert((c as u32) != (' ' as u32) || c == ' ');
}

/// Resolves checkbox symbols to [`Status`] values per `[tasks]`
/// configuration, falling back to an `"Unknown"`/[`StatusType::Todo`]
/// status for any symbol not listed.
pub struct StatusRegistry(HashMap<u32, Status>);

impl View for StatusRegistry {
    type V = Map<u32, StatusView>;

    closed spec fn view(&self) -> Map<u32, StatusView> {
        self.0@.map_values(|s: Status| s@)
    }
}

impl StatusRegistry {
    pub fn from_config(config: &TasksConfig) -> (r: Self)
        ensures
            r@ == config_map(configs_view(config.statuses@)),
    {
        let mut m: HashMap<u32, Status> = HashMap::new();
        let ghost cv = configs_view(config.statuses@);
        let mut i: usize = 0;
        while i < config.statuses.len()
            invariant
                i <= config.statuses@.len(),
                cv == configs_view(config.statuses@),
                m@.map_values(|s: Status| s@) == config_map(cv.take(i as int)),
            decreases config.statuses@.len() - i,
        {
            let s = &config.statuses[i];
            let st = Status { symbol: s.symbol, name: s.name.clone(), kind: s.kind };
            m.insert(s.symbol as u32, st);
            assert(cv.take(i + 1).drop_last() =~= cv.take(i as int));
            assert(m@.map_values(|s: Status| s@) =~= config_map(cv.take(i + 1)));
            i = i + 1;
        }
        assert(cv.take(config.statuses@.len() as int) =~= cv);
        StatusRegistry(m)
    }

    pub fn resolve(&self, symbol: char) -> (r: Status)
        ensures
            r@ == resolved(self@, symbol),
    {
        match self.0.get(&(symbol as u32)) {
            Some(s) => s.duplicate(),
            None => Status { symbol, name: String::from_str("Unknown"), kind: StatusType::Todo },
        }
    }
}

// ---------------------------------------------------------------------------
// Priority
// ---------------------------------------------------------------------------

/// A task's priority. Declaration order is urgency order (most urgent
/// first): `Highest, High, Medium, None, Low, Lowest`.
#[derive(Debug, Clone, Copy, PartialEq, Eq, PartialOrd, Ord, Hash, Structural)]
pub enum Priority {
    Highest,
    High,
    Medium,
    Normal,
    Low,
    Lowest,
}

impl Default for Priority {
    fn default() -> (r: Self)
        ensures
            r == Priority::Normal,
    {
        Priority::Normal
    }
}

impl Priority {
    /// Position in urgency order, `Highest` = 0 through `Lowest` = 5 (the
    /// plugin's `priorityNumber`).
    pub open spec fn rank(self) -> int {
        match self {
            Priority::Highest => 0,
            Priority::High => 1,
            Priority::Medium => 2,
            Priority::Normal => 3,
            Priority::Low => 4,
            Priority::Lowest => 5,
        }
    }

    pub fn urgency_rank(self) -> (r: u8)
        ensures
            r == self.rank(),
    {
        match self {
            Priority::Highest => 0,
            Priority::High => 1,
            Priority::Medium => 2,
            Priority::Normal => 3,
            Priority::Low => 4,
            Priority::Lowest => 5,
        }
    }

    pub open spec fn spec_name(self) -> Seq<char> {
        match self {
            Priority::Highest => "Highest"@,
            Priority::High => "High"@,
            Priority::Medium => "Medium"@,
            Priority::Normal => "None"@,
            Priority::Low => "Low"@,
            Priority::Lowest => "Lowest"@,
        }
    }

    pub fn name(self) -> (r: &'static str)
        ensures
            r@ == self.spec_name(),
    {
        match self {
            Priority::Highest => "Highest",
            Priority::High => "High",
            Priority::Medium => "Medium",
            Priority::Normal => "None",
            Priority::Low => "Low",
            Priority::Lowest => "Lowest",
        }
    }

    /// The priority a name denotes, compared after ASCII lower-casing.
    pub open spec fn named(s: Seq<char>) -> Option<Priority> {
        let l = ascii_lowercase(s);
        if l == "highest"@ {
            Some(Priority::Highest)
        } else if l == "high"@ {
            Some(Priority::High)
        } else if l == "medium"@ {
            Some(Priority::Medium)
        } else if l == "none"@ {
            Some(Priority::Normal)
        } else if l == "low"@ {
            Some(Priority::Low)
        } else if l == "lowest"@ {
            Some(Priority::Lowest)
        } else {
            None
        }
    }

    /// Parse a priority name from a `priority is <name>` filter;
    /// case-insensitive.
    pub fn parse_name(s: &str) -> (r: Option<Self>)
        ensures
            r == Self::named(s@),
    {
        let v = chars_of(s);
        Self::parse_name_chars(&v)
    }

    pub fn parse_name_chars(s: &[char]) -> (r: Option<Self>)
        ensures
            r == Self::named(s@),
    {
        let l = to_ascii_lowercase(s);
        if eq_chars(&l, &chars_of("highest")) {
            Some(Priority::Highest)
        } else if eq_chars(&l, &chars_of("high")) {
            Some(Priority::High)
        } else if eq_chars(&l, &chars_of("medium")) {
            Some(Priority::Medium)
        } else if eq_chars(&l, &chars_of("none")) {
            Some(Priority::Normal)
        } else if eq_chars(&l, &chars_of("low")) {
            Some(Priority::Low)
        } else if eq_chars(&l, &chars_of("lowest")) {
            Some(Priority::Lowest)
        } else {
            None
        }
    }
}

// ---------------------------------------------------------------------------
// Task
// ---------------------------------------------------------------------------

/// A checklist item of a note: where it stands, its status, its
/// description and the Tasks-plugin signifiers read from its text.
#[derive(Debug, Clone, PartialEq)]
pub struct Task {
    /// The note's id in the vault.
    pub note_id: String,
    /// 1-based line number.
    pub line: u32,
    pub status: Status,
    /// Description with every recognised signifier (dates, priority)
    /// removed, but tags left in place.
    pub description: String,
    pub due: Option<Date>,
    pub scheduled: Option<Date>,
    pub start: Option<Date>,
    pub done: Option<Date>,
    pub created: Option<Date>,
    pub cancelled: Option<Date>,
    pub priority: Priority,
    /// Tags including their leading `#`, in the order they appear.
    pub tags: Vec<String>,
}

pub open spec fn opt_date(d: Option<Date>) -> Option<(int, int, int)> {
    match d {
        Some(x) => Some(x@),
        None => None,
    }
}

pub open spec fn strings_view(s: Seq<String>) -> Seq<Seq<char>> {
    s.map_values(|t: String| t@)
}

pub struct TaskView {
    pub note_id: Seq<char>,
    pub line: u32,
    pub status: StatusView,
    pub description: Seq<char>,
    pub due: Option<(int, int, int)>,
    pub scheduled: Option<(int, int, int)>,
    pub start: Option<(int, int, int)>,
    pub done: Option<(int, int, int)>,
    pub created: Option<(int, int, int)>,
    pub cancelled: Option<(int, int, int)>,
    pub priority: Priority,
    pub tags: Seq<Seq<char>>,
}

impl View for Task {
    type V = TaskView;

    open spec fn view(&self) -> TaskView {
        TaskView {
            note_id: self.note_id@,
            line: self.line,
            status: self.status@,
            description: self.description@,
            due: opt_date(self.due),
            scheduled: opt_date(self.scheduled),
            start: opt_date(self.start),
            done: opt_date(self.done),
            created: opt_date(self.created),
            cancelled: opt_date(self.cancelled),
            priority: self.priority,
            tags: strings_view(self.tags@),
        }
    }
}

impl Task {
    pub fn is_done(&self) -> (r: bool)
        ensures
            r == self.status.kind.done_group(),
    {
        self.status.kind.is_done_group()
    }
}

// ---------------------------------------------------------------------------
// Filtering
// ---------------------------------------------------------------------------

#[derive(Debug, Clone, Copy, PartialEq, Eq, Structural)]
pub enum DateCmp {
    On,
    Before,
    After,
    OnOrBefore,
    OnOrAfter,
}

impl DateCmp {
    pub open spec fn holds(self, d: (int, int, int), bound: (int, int, int)) -> bool {
        match self {
            DateCmp::On => d == bound,
            DateCmp::Before => date_lt(d, bound),
            DateCmp::After => date_lt(bound, d),
            DateCmp::OnOrBefore => date_le(d, bound),
            DateCmp::OnOrAfter => date_le(bound, d),
        }
    }

    fn matches(self, task_date: Date, bound: Date) -> (r: bool)
        ensures
            r == self.holds(task_date@, bound@),
    {
        match self {
            DateCmp::On => task_date.same_day(&bound),
            DateCmp::Before => task_date.is_before(&bound),
            DateCmp::After => bound.is_before(&task_date),
            DateCmp::OnOrBefore => task_date.is_before(&bound) || task_date.same_day(&bound),
            DateCmp::OnOrAfter => bound.is_before(&task_date) || task_date.same_day(&bound),
        }
    }
}

#[derive(Debug, Clone, Copy, PartialEq, Eq, Structural)]
pub enum PriorityCmp {
    Is,
    IsNot,
    Above,
    Below,
}

/// A filter predicate. `And`/`Or`/`Not` are fully recursive here even
/// though the text grammar builds only one level of nesting.
#[derive(Debug, PartialEq)]
pub enum Filter {
    Done,
    NotDone,
    StatusNameIncludes(String),
    StatusNameExcludes(String),
    StatusTypeIs(StatusType),
    StatusTypeIsNot(StatusType),
    HasDue,
    NoDue,
    Due(DateCmp, Date),
    HasDone,
    NoDone,
    DoneCmp(DateCmp, Date),
    Priority(PriorityCmp, Priority),
    HasTags,
    NoTags,
    TagsInclude(String),
    TagsExclude(String),
    PathIncludes(String),
    PathExcludes(String),
    DescriptionIncludes(String),
    DescriptionExcludes(String),
    And(Vec<Filter>),
    Or(Vec<Filter>),
    Not(Box<Filter>),
}

impl Clone for Filter {
    /// A deep copy.
    fn clone(&self) -> (r: Self)
        ensures
            r@ == self@,
        decreases self,
    {
        match self {
            Filter::Done => Filter::Done,
            Filter::NotDone => Filter::NotDone,
            Filter::StatusNameIncludes(s) => Filter::StatusNameIncludes(s.clone()),
            Filter::StatusNameExcludes(s) => Filter::StatusNameExcludes(s.clone()),
            Filter::StatusTypeIs(t) => Filter::StatusTypeIs(*t),
            Filter::StatusTypeIsNot(t) => Filter::StatusTypeIsNot(*t),
            Filter::HasDue => Filter::HasDue,
            Filter::NoDue => Filter::NoDue,
            Filter::Due(op, d) => Filter::Due(*op, *d),
            Filter::HasDone => Filter::HasDone,
            Filter::NoDone => Filter::NoDone,
            Filter::DoneCmp(op, d) => Filter::DoneCmp(*op, *d),
            Filter::Priority(op, p) => Filter::Priority(*op, *p),
            Filter::HasTags => Filter::HasTags,
            Filter::NoTags => Filter::NoTags,
            Filter::TagsInclude(s) => Filter::TagsInclude(s.clone()),
            Filter::TagsExclude(s) => Filter::TagsExclude(s.clone()),
            Filter::PathIncludes(s) => Filter::PathIncludes(s.clone()),
            Filter::PathExcludes(s) => Filter::PathExcludes(s.clone()),
            Filter::DescriptionIncludes(s) => Filter::DescriptionIncludes(s.clone()),
            Filter::DescriptionExcludes(s) => Filter::DescriptionExcludes(s.clone()),
            Filter::And(fs) => Filter::And(clone_filters(fs)),
            Filter::Or(fs) => Filter::Or(clone_filters(fs)),
            Filter::Not(g) => Filter::Not(Box::new((**g).clone())),
        }
    }
}

/// Deep copies of the filters of `fs`, in order.
fn clone_filters(fs: &Vec<Filter>) -> (r: Vec<Filter>)
    ensures
        filters_view(r@) == filters_view(fs@),
    decreases fs,
{
    let mut r: Vec<Filter> = Vec::new();
    let mut i: usize = 0;
    while i < fs.len()
        invariant
            i <= fs@.len(),
            filters_view(r@) == filters_view(fs@.take(i as int)),
        decreases fs@.len() - i,
    {
        assert(decreases_to!(fs => fs@[i as int]));
        let c = fs[i].clone();
        let ghost prev = r@;
        r.push(c);
        assert(r@.drop_last() =~= prev);
        assert(fs@.take(i + 1).drop_last() =~= fs@.take(i as int));
        i = i + 1;
    }
    assert(fs@.take(fs@.len() as int) =~= fs@);
    r
}

/// A [`Filter`] as a mathematical value.
pub enum FilterView {
    Done,
    NotDone,
    StatusNameIncludes(Seq<char>),
    StatusNameExcludes(Seq<char>),
    StatusTypeIs(StatusType),
    StatusTypeIsNot(StatusType),
    HasDue,
    NoDue,
    Due(DateCmp, (int, int, int)),
    HasDone,
    NoDone,
    DoneCmp(DateCmp, (int, int, int)),
    Priority(PriorityCmp, Priority),
    HasTags,
    NoTags,
    TagsInclude(Seq<char>),
    TagsExclude(Seq<char>),
    PathIncludes(Seq<char>),
    PathExcludes(Seq<char>),
    DescriptionIncludes(Seq<char>),
    DescriptionExcludes(Seq<char>),
    And(Seq<FilterView>),
    Or(Seq<FilterView>),
    Not(Box<FilterView>),
}

pub open spec fn filter_view(f: Filter) -> FilterView
    decreases f,
{
    match f {
        Filter::Done => FilterView::Done,
        Filter::NotDone => FilterView::NotDone,
        Filter::StatusNameIncludes(s) => FilterView::StatusNameIncludes(s@),
        Filter::StatusNameExcludes(s) => FilterView::StatusNameExcludes(s@),
        Filter::StatusTypeIs(t) => FilterView::StatusTypeIs(t),
        Filter::StatusTypeIsNot(t) => FilterView::StatusTypeIsNot(t),
        Filter::HasDue => FilterView::HasDue,
        Filter::NoDue => FilterView::NoDue,
        Filter::Due(c, d) => FilterView::Due(c, d@),
        Filter::HasDone => FilterView::HasDone,
        Filter::NoDone => FilterView::NoDone,
        Filter::DoneCmp(c, d) => FilterView::DoneCmp(c, d@),
        Filter::Priority(c, p) => FilterView::Priority(c, p),
        Filter::HasTags => FilterView::HasTags,
        Filter::NoTags => FilterView::NoTags,
        Filter::TagsInclude(s) => FilterView::TagsInclude(s@),
        Filter::TagsExclude(s) => FilterView::TagsExclude(s@),
        Filter::PathIncludes(s) => FilterView::PathIncludes(s@),
        Filter::PathExcludes(s) => FilterView::PathExcludes(s@),
        Filter::DescriptionIncludes(s) => FilterView::DescriptionIncludes(s@),
        Filter::DescriptionExcludes(s) => FilterView::DescriptionExcludes(s@),
        Filter::And(fs) => FilterView::And(filters_view(fs@)),
        Filter::Or(fs) => FilterView::Or(filters_view(fs@)),
        Filter::Not(g) => FilterView::Not(Box::new(filter_view(*g))),
    }
}

pub open spec fn filters_view(fs: Seq<Filter>) -> Seq<FilterView>
    decreases fs,
{
    if fs.len() == 0 {
        seq![]
    } else {
        filters_view(fs.drop_last()).push(filter_view(fs.last()))
    }
}

impl View for Filter {
    type V = FilterView;

    open spec fn view(&self) -> FilterView {
        filter_view(*self)
    }
}

pub proof fn lemma_filters_view(fs: Seq<Filter>)
    ensures
        filters_view(fs).len() == fs.len(),
        forall|i: int| 0 <= i < fs.len() ==> #[trigger] filters_view(fs)[i] == filter_view(fs[i]),
    decreases fs.len(),
{
    if fs.len() > 0 {
        lemma_filters_view(fs.drop_last());
        assert forall|i: int| 0 <= i < fs.len() implies #[trigger] filters_view(fs)[i]
            == filter_view(fs[i]) by {
            if i < fs.len() - 1 {
                assert(fs.drop_last()[i] == fs[i]);
            }
        }
    }
}

pub open spec fn strip_hash(s: Seq<char>) -> Seq<char> {
    if s.len() > 0 && s[0] == '#' {
        s.drop_first()
    } else {
        s
    }
}

/// `tags include <tag>`: case-insensitive, `#` optional on both sides, and
/// a sub-string match, so `foo` matches both `#foo` and `#foo/bar`.
pub open spec fn tags_include_spec(tags: Seq<Seq<char>>, query: Seq<char>) -> bool {
    exists|i: int|
        0 <= i < tags.len() && seq_contains(
            lowercase(strip_hash(#[trigger] tags[i])),
            lowercase(strip_hash(query)),
        )
}

/// Case-insensitive (Unicode lower-casing) sub-string test.
pub open spec fn includes_ci(s: Seq<char>, part: Seq<char>) -> bool {
    seq_contains(lowercase(s), lowercase(part))
}

pub open spec fn priority_holds(c: PriorityCmp, task: Priority, p: Priority) -> bool {
    match c {
        PriorityCmp::Is => task == p,
        PriorityCmp::IsNot => task != p,
        PriorityCmp::Above => task.rank() < p.rank(),
        PriorityCmp::Below => task.rank() > p.rank(),
    }
}

/// Whether filter `f` accepts task `t`.
pub open spec fn filter_holds(f: FilterView, t: TaskView) -> bool
    decreases f,
{
    match f {
        FilterView::Done => t.status.kind.done_group(),
        FilterView::NotDone => !t.status.kind.done_group(),
        FilterView::StatusNameIncludes(s) => includes_ci(t.status.name, s),
        FilterView::StatusNameExcludes(s) => !includes_ci(t.status.name, s),
        FilterView::StatusTypeIs(k) => t.status.kind == k,
        FilterView::StatusTypeIsNot(k) => t.status.kind != k,
        FilterView::HasDue => t.due is Some,
        FilterView::NoDue => t.due is None,
        FilterView::Due(c, b) => match t.due {
            Some(d) => c.holds(d, b),
            None => false,
        },
        FilterView::HasDone => t.done is Some,
        FilterView::NoDone => t.done is None,
        FilterView::DoneCmp(c, b) => match t.done {
            Some(d) => c.holds(d, b),
            None => false,
        },
        FilterView::Priority(c, p) => priority_holds(c, t.priority, p),
        FilterView::HasTags => t.tags.len() > 0,
        FilterView::NoTags => t.tags.len() == 0,
        FilterView::TagsInclude(q) => tags_include_spec(t.tags, q),
        FilterView::TagsExclude(q) => !tags_include_spec(t.tags, q),
        FilterView::PathIncludes(s) => includes_ci(t.note_id, s),
        FilterView::PathExcludes(s) => !includes_ci(t.note_id, s),
        FilterView::DescriptionIncludes(s) => includes_ci(t.description, s),
        FilterView::DescriptionExcludes(s) => !includes_ci(t.description, s),
        FilterView::And(fs) => all_hold(fs, t),
        FilterView::Or(fs) => any_holds(fs, t),
        FilterView::Not(g) => !filter_holds(*g, t),
    }
}

/// Every filter of `fs` accepts `t`.
pub open spec fn all_hold(fs: Seq<FilterView>, t: TaskView) -> bool
    decreases fs,
{
    if fs.len() == 0 {
        true
    } else {
        all_hold(fs.drop_last(), t) && filter_holds(fs.last(), t)
    }
}

/// Some filter of `fs` accepts `t`.
pub open spec fn any_holds(fs: Seq<FilterView>, t: TaskView) -> bool
    decreases fs,
{
    if fs.len() == 0 {
        false
    } else {
        any_holds(fs.drop_last(), t) || filter_holds(fs.last(), t)
    }
}

fn includes_ci_exec(s: &str, part: &str) -> (r: bool)
    ensures
        r == includes_ci(s@, part@),
{
    let a = to_lowercase(&chars_of(s));
    let b = to_lowercase(&chars_of(part));
    contains(&a, &b)
}

fn strip_hash_chars(s: &[char]) -> (r: Vec<char>)
    ensures
        r@ == strip_hash(s@),
{
    if s.len() > 0 && s[0] == '#' {
        copy_range(s, 1, s.len())
    } else {
        let r = copy_range(s, 0, s.len());
        assert(s@.subrange(0, s@.len() as int) =~= s@);
        r
    }
}

/// `tags include <tag>`, see [`tags_include_spec`].
fn tags_include(tags: &Vec<String>, query: &str) -> (r: bool)
    ensures
        r == tags_include_spec(strings_view(tags@), query@),
{
    let q = to_lowercase(&strip_hash_chars(&chars_of(query)));
    let ghost tv = strings_view(tags@);
    let mut i: usize = 0;
    while i < tags.len()
        invariant
            i <= tags@.len(),
            tv == strings_view(tags@),
            q@ == lowercase(strip_hash(query@)),
            forall|k: int|
                0 <= k < i ==> !seq_contains(lowercase(strip_hash(#[trigger] tv[k])), q@),
        decreases tags@.len() - i,
    {
        let t = to_lowercase(&strip_hash_chars(&chars_of(tags[i].as_str())));
        if contains(&t, &q) {
            assert(tv[i as int] == tags@[i as int]@);
            return true;
        }
        i = i + 1;
    }
    assert forall|k: int| 0 <= k < tv.len() implies !seq_contains(
        lowercase(strip_hash(#[trigger] tv[k])),
        lowercase(strip_hash(query@)),
    ) by {}
    false
}


fn priority_matches(op: PriorityCmp, task: Priority, p: Priority) -> (r: bool)
    ensures
        r == priority_holds(op, task, p),
{
    let a = task.urgency_rank();
    let b = p.urgency_rank();
    match op {
        PriorityCmp::Is => a == b,
        PriorityCmp::IsNot => a != b,
        PriorityCmp::Above => a < b,
        PriorityCmp::Below => a > b,
    }
}

/// Every filter of `fs` accepts `task`.
pub(crate) fn all_match(fs: &Vec<Filter>, task: &Task) -> (r: bool)
    ensures
        r == all_hold(filters_view(fs@), task@),
    decreases fs,
{
    proof {
        lemma_filters_view(fs@);
    }
    let mut i: usize = 0;
    while i < fs.len()
        invariant
            i <= fs@.len(),
            filters_view(fs@).len() == fs@.len(),
            forall|k: int|
                0 <= k < fs@.len() ==> #[trigger] filters_view(fs@)[k] == filter_view(fs@[k]),
            all_hold(filters_view(fs@).take(i as int), task@),
        decreases fs@.len() - i,
    {
        assert(decreases_to!(fs => fs@[i as int]));
        let ok = fs[i].matches(task);
        assert(filters_view(fs@).take(i + 1).drop_last() =~= filters_view(fs@).take(i as int));
        if !ok {
            proof {
                lemma_all_hold_prefix(filters_view(fs@), i + 1, task@);
            }
            return false;
        }
        i = i + 1;
    }
    assert(filters_view(fs@).take(fs@.len() as int) =~= filters_view(fs@));
    true
}

/// Some filter of `fs` accepts `task`.
fn any_match(fs: &Vec<Filter>, task: &Task) -> (r: bool)
    ensures
        r == any_holds(filters_view(fs@), task@),
    decreases fs,
{
    proof {
        lemma_filters_view(fs@);
    }
    let mut i: usize = 0;
    while i < fs.len()
        invariant
            i <= fs@.len(),
            filters_view(fs@).len() == fs@.len(),
            forall|k: int|
                0 <= k < fs@.len() ==> #[trigger] filters_view(fs@)[k] == filter_view(fs@[k]),
            !any_holds(filters_view(fs@).take(i as int), task@),
        decreases fs@.len() - i,
    {
        assert(decreases_to!(fs => fs@[i as int]));
        let ok = fs[i].matches(task);
        assert(filters_view(fs@).take(i + 1).drop_last() =~= filters_view(fs@).take(i as int));
        if ok {
            proof {
                lemma_any_holds_prefix(filters_view(fs@), i + 1, task@);
            }
            return true;
        }
        i = i + 1;
    }
    assert(filters_view(fs@).take(fs@.len() as int) =~= filters_view(fs@));
    false
}

impl Filter {
    /// Whether this filter accepts `task`.
    pub fn matches(&self, task: &Task) -> (r: bool)
        ensures
            r == filter_holds(self@, task@),
        decreases self,
    {
        match self {
            Filter::Done => task.is_done(),
            Filter::NotDone => !task.is_done(),
            Filter::StatusNameIncludes(s) => includes_ci_exec(task.status.name.as_str(), s.as_str()),
            Filter::StatusNameExcludes(s) => !includes_ci_exec(
                task.status.name.as_str(),
                s.as_str(),
            ),
            Filter::StatusTypeIs(t) => task.status.kind == *t,
            Filter::StatusTypeIsNot(t) => task.status.kind != *t,
            Filter::HasDue => task.due.is_some(),
            Filter::NoDue => task.due.is_none(),
            Filter::Due(op, bound) => match task.due {
                Some(d) => op.matches(d, *bound),
                None => false,
            },
            Filter::HasDone => task.done.is_some(),
            Filter::NoDone => task.done.is_none(),
            Filter::DoneCmp(op, bound) => match task.done {
                Some(d) => op.matches(d, *bound),
                None => false,
            },
            Filter::Priority(op, p) => priority_matches(*op, task.priority, *p),
            Filter::HasTags => task.tags.len() > 0,
            Filter::NoTags => task.tags.len() == 0,
            Filter::TagsInclude(t) => tags_include(&task.tags, t.as_str()),
            Filter::TagsExclude(t) => !tags_include(&task.tags, t.as_str()),
            Filter::PathIncludes(s) => includes_ci_exec(task.note_id.as_str(), s.as_str()),
            Filter::PathExcludes(s) => !includes_ci_exec(task.note_id.as_str(), s.as_str()),
            Filter::DescriptionIncludes(s) => includes_ci_exec(
                task.description.as_str(),
                s.as_str(),
            ),
            Filter::DescriptionExcludes(s) => !includes_ci_exec(
                task.description.as_str(),
                s.as_str(),
            ),
            Filter::And(fs) => all_match(fs, task),
            Filter::Or(fs) => any_match(fs, task),
            Filter::Not(g) => !g.matches(task),
        }
    }
}

/// A failing prefix makes the whole conjunction fail.
pub proof fn lemma_all_hold_prefix(fs: Seq<FilterView>, k: int, t: TaskView)
    requires
        0 <= k <= fs.len(),
        !all_hold(fs.take(k), t),
    ensures
        !all_hold(fs, t),
    decreases fs.len() - k,
{
    if k < fs.len() {
        assert(fs.take(k + 1).drop_last() =~= fs.take(k));
        lemma_all_hold_prefix(fs, k + 1, t);
    } else {
        assert(fs.take(k) =~= fs);
    }
}

/// A holding prefix makes the whole disjunction hold.
pub proof fn lemma_any_holds_prefix(fs: Seq<FilterView>, k: int, t: TaskView)
    requires
        0 <= k <= fs.len(),
        any_holds(fs.take(k), t),
    ensures
        any_holds(fs, t),
    decreases fs.len() - k,
{
    if k < fs.len() {
        assert(fs.take(k + 1).drop_last() =~= fs.take(k));
        lemma_any_holds_prefix(fs, k + 1, t);
    } else {
        assert(fs.take(k) =~= fs);
    }
}

/// `done` and `not done` split the tasks between them, and so do the other
/// paired filters: `has`/`no` due date, done date and tags, `is`/`is not`
/// a status type, and each `includes`/`does not include`. `not` negates.
pub proof fn law_paired_filters(t: TaskView, f: FilterView, s: Seq<char>, k: StatusType)
    ensures
        filter_holds(FilterView::Done, t) != filter_holds(FilterView::NotDone, t),
        filter_holds(FilterView::HasDue, t) != filter_holds(FilterView::NoDue, t),
        filter_holds(FilterView::HasDone, t) != filter_holds(FilterView::NoDone, t),
        filter_holds(FilterView::HasTags, t) != filter_holds(FilterView::NoTags, t),
        filter_holds(FilterView::StatusTypeIs(k), t) != filter_holds(
            FilterView::StatusTypeIsNot(k),
            t,
        ),
        filter_holds(FilterView::StatusNameIncludes(s), t) != filter_holds(
            FilterView::StatusNameExcludes(s),
            t,
        ),
        filter_holds(FilterView::TagsInclude(s), t) != filter_holds(FilterView::TagsExclude(s), t),
        filter_holds(FilterView::PathIncludes(s), t) != filter_holds(FilterView::PathExcludes(s), t),
        filter_holds(FilterView::DescriptionIncludes(s), t) != filter_holds(
            FilterView::DescriptionExcludes(s),
            t,
        ),
        filter_holds(FilterView::Not(Box::new(f)), t) == !filter_holds(f, t),
        filter_holds(FilterView::Done, t) == t.status.kind.done_group(),
{
}

/// The date comparisons: `on` is the same day, `before` and `after` are
/// strictly earlier and later, and `on or before` / `on or after` are `on`
/// together with `before` / `after`; a date is on or after (and on or
/// before) itself. For a task's due or done date, a date filter accepts the
/// task exactly when the task has that date and it compares so.
pub proof fn law_date_comparisons(d: (int, int, int), b: (int, int, int), t: TaskView)
    ensures
        DateCmp::On.holds(d, b) == (d == b),
        DateCmp::Before.holds(d, b) == (d.0 < b.0 || (d.0 == b.0 && d.1 < b.1) || (d.0 == b.0
            && d.1 == b.1 && d.2 < b.2)),
        DateCmp::After.holds(d, b) == DateCmp::Before.holds(b, d),
        DateCmp::OnOrBefore.holds(d, b) == (DateCmp::On.holds(d, b) || DateCmp::Before.holds(d, b)),
        DateCmp::OnOrAfter.holds(d, b) == (DateCmp::On.holds(d, b) || DateCmp::After.holds(d, b)),
        DateCmp::OnOrAfter.holds(d, d) && DateCmp::OnOrBefore.holds(d, d),
        !DateCmp::Before.holds(d, d) && !DateCmp::After.holds(d, d),
        DateCmp::Before.holds(d, b) ==> !DateCmp::After.holds(d, b),
        d != b ==> DateCmp::Before.holds(d, b) || DateCmp::After.holds(d, b),
        forall|c: DateCmp|
            filter_holds(FilterView::Due(c, b), t) == (t.due matches Some(x) && c.holds(x, b)),
        forall|c: DateCmp|
            filter_holds(FilterView::DoneCmp(c, b), t) == (t.done matches Some(x) && c.holds(
                x,
                b,
            )),
{
}

/// `and` accepts a task exactly when each of its filters does, `or` when at
/// least one does.
pub proof fn law_and_or(fs: Seq<FilterView>, t: TaskView)
    ensures
        filter_holds(FilterView::And(fs), t) <==> forall|i: int|
            0 <= i < fs.len() ==> filter_holds(#[trigger] fs[i], t),
        filter_holds(FilterView::Or(fs), t) <==> exists|i: int|
            0 <= i < fs.len() && filter_holds(#[trigger] fs[i], t),
{
    lemma_all_hold(fs, t);
    lemma_any_holds(fs, t);
}

proof fn lemma_all_hold(fs: Seq<FilterView>, t: TaskView)
    ensures
        all_hold(fs, t) <==> forall|i: int| 0 <= i < fs.len() ==> filter_holds(#[trigger] fs[i], t),
    decreases fs.len(),
{
    if fs.len() > 0 {
        let init = fs.drop_last();
        lemma_all_hold(init, t);
        if all_hold(fs, t) {
            assert forall|i: int| 0 <= i < fs.len() implies filter_holds(#[trigger] fs[i], t) by {
                if i < fs.len() - 1 {
                    assert(init[i] == fs[i]);
                    assert(filter_holds(init[i], t));
                }
            }
        }
        if forall|i: int| 0 <= i < fs.len() ==> filter_holds(#[trigger] fs[i], t) {
            assert forall|i: int| 0 <= i < init.len() implies filter_holds(#[trigger] init[i], t) by {
                assert(init[i] == fs[i]);
                assert(filter_holds(fs[i], t));
            }
            assert(filter_holds(fs[fs.len() - 1], t));
        }
    }
}

proof fn lemma_any_holds(fs: Seq<FilterView>, t: TaskView)
    ensures
        any_holds(fs, t) <==> exists|i: int| 0 <= i < fs.len() && filter_holds(#[trigger] fs[i], t),
    decreases fs.len(),
{
    if fs.len() > 0 {
        let init = fs.drop_last();
        lemma_any_holds(init, t);
        if any_holds(fs, t) {
            if any_holds(init, t) {
                let i = choose|i: int| 0 <= i < init.len() && filter_holds(#[trigger] init[i], t);
                assert(init[i] == fs[i]);
                assert(filter_holds(fs[i], t));
            } else {
                assert(filter_holds(fs[fs.len() - 1], t));
            }
        }
        if exists|i: int| 0 <= i < fs.len() && filter_holds(#[trigger] fs[i], t) {
            let i = choose|i: int| 0 <= i < fs.len() && filter_holds(#[trigger] fs[i], t);
            if i < fs.len() - 1 {
                assert(init[i] == fs[i]);
                assert(filter_holds(init[i], t));
            }
        }
    }
}

/// Priorities in urgency order, most urgent first: highest, high, medium,
/// none, low, lowest. For any task and priority, exactly one of `priority
/// is`, `is above` and `is below` holds, and `is not` negates `is`.
pub proof fn law_priority_order(t: TaskView, p: Priority)
    ensures
        Priority::Highest.rank() < Priority::High.rank() < Priority::Medium.rank()
            < Priority::Normal.rank() < Priority::Low.rank() < Priority::Lowest.rank(),
        filter_holds(FilterView::Priority(PriorityCmp::Is, p), t) || filter_holds(
            FilterView::Priority(PriorityCmp::Above, p),
            t,
        ) || filter_holds(FilterView::Priority(PriorityCmp::Below, p), t),
        !(filter_holds(FilterView::Priority(PriorityCmp::Is, p), t) && filter_holds(
            FilterView::Priority(PriorityCmp::Above, p),
            t,
        )),
        !(filter_holds(FilterView::Priority(PriorityCmp::Is, p), t) && filter_holds(
            FilterView::Priority(PriorityCmp::Below, p),
            t,
        )),
        !(filter_holds(FilterView::Priority(PriorityCmp::Above, p), t) && filter_holds(
            FilterView::Priority(PriorityCmp::Below, p),
            t,
        )),
        filter_holds(FilterView::Priority(PriorityCmp::IsNot, p), t) == !filter_holds(
            FilterView::Priority(PriorityCmp::Is, p),
            t,
        ),
{
    assert(t.priority.rank() == p.rank() ==> t.priority == p);
}

// ---------------------------------------------------------------------------
// Sort keys
// ---------------------------------------------------------------------------

#[derive(Debug, Clone, Copy, PartialEq, Eq, Structural)]
pub enum SortKey {
    Due,
    Done,
    Priority,
    StatusType,
    StatusName,
    Path,
    Description,
    Tags,
}

#[derive(Debug, Clone, Copy, PartialEq, Eq, Structural)]
pub struct SortSpec {
    pub key: SortKey,
    pub reverse: bool,
}

/// The plugin's default sort order minus `urgency`, with `status`
/// simplified to its type: `status.type, due, priority, path`.
pub open spec fn default_sort_spec() -> Seq<SortSpec> {
    seq![
        SortSpec { key: SortKey::StatusType, reverse: false },
        SortSpec { key: SortKey::Due, reverse: false },
        SortSpec { key: SortKey::Priority, reverse: false },
        SortSpec { key: SortKey::Path, reverse: false },
    ]
}

pub fn default_sort() -> (r: Vec<SortSpec>)
    ensures
        r@ == default_sort_spec(),
{
    let mut v: Vec<SortSpec> = Vec::new();
    v.push(SortSpec { key: SortKey::StatusType, reverse: false });
    v.push(SortSpec { key: SortKey::Due, reverse: false });
    v.push(SortSpec { key: SortKey::Priority, reverse: false });
    v.push(SortSpec { key: SortKey::Path, reverse: false });
    assert(v@ =~= default_sort_spec());
    v
}


// ---------------------------------------------------------------------------
// Sorting
// ---------------------------------------------------------------------------

/// Three-way comparison result as an integer: negative, zero or positive.
pub open spec fn sign_of(b_lt: bool, eq: bool) -> int {
    if b_lt {
        -1
    } else if eq {
        0
    } else {
        1
    }
}

/// Lexicographic comparison of character sequences by code point, which is
/// how `String`'s `Ord` compares (UTF-8 byte order is code-point order).
pub open spec fn text_order(a: Seq<char>, b: Seq<char>) -> int
    decreases a.len(),
{
    if a.len() == 0 && b.len() == 0 {
        0
    } else if a.len() == 0 {
        -1
    } else if b.len() == 0 {
        1
    } else if a[0] < b[0] {
        -1
    } else if a[0] > b[0] {
        1
    } else {
        text_order(a.drop_first(), b.drop_first())
    }
}

/// Chronological comparison of two dates.
pub open spec fn date_order(a: (int, int, int), b: (int, int, int)) -> int {
    sign_of(date_lt(a, b), a == b)
}

/// Optional dates: every date sorts before a missing one.
pub open spec fn opt_date_order(a: Option<(int, int, int)>, b: Option<(int, int, int)>) -> int {
    match (a, b) {
        (Some(x), Some(y)) => date_order(x, y),
        (Some(_), None) => -1,
        (None, Some(_)) => 1,
        (None, None) => 0,
    }
}

pub open spec fn rank_order(a: int, b: int) -> int {
    sign_of(a < b, a == b)
}

/// `tags.join(",")`.
pub open spec fn join_tags(tags: Seq<Seq<char>>) -> Seq<char>
    decreases tags.len(),
{
    if tags.len() == 0 {
        seq![]
    } else if tags.len() == 1 {
        tags[0]
    } else {
        join_tags(tags.drop_last()) + seq![','] + tags.last()
    }
}

/// Comparison of two tasks by one sort key.
pub open spec fn key_order(key: SortKey, a: TaskView, b: TaskView) -> int {
    match key {
        SortKey::Due => opt_date_order(a.due, b.due),
        SortKey::Done => opt_date_order(a.done, b.done),
        SortKey::Priority => rank_order(a.priority.rank(), b.priority.rank()),
        SortKey::StatusType => rank_order(a.status.kind.rank(), b.status.kind.rank()),
        SortKey::StatusName => text_order(a.status.name, b.status.name),
        SortKey::Path => text_order(a.note_id, b.note_id),
        SortKey::Description => text_order(a.description, b.description),
        SortKey::Tags => text_order(join_tags(a.tags), join_tags(b.tags)),
    }
}

pub open spec fn spec_key_order(s: SortSpec, a: TaskView, b: TaskView) -> int {
    if s.reverse {
        -key_order(s.key, a, b)
    } else {
        key_order(s.key, a, b)
    }
}

/// Comparison by a list of sort keys, each breaking ties from the one
/// before.
pub open spec fn tasks_order(specs: Seq<SortSpec>, a: TaskView, b: TaskView) -> int
    decreases specs.len(),
{
    if specs.len() == 0 {
        0
    } else if spec_key_order(specs[0], a, b) != 0 {
        spec_key_order(specs[0], a, b)
    } else {
        tasks_order(specs.drop_first(), a, b)
    }
}

/// `p` lists each index below `n` exactly once.
pub open spec fn is_permutation(p: Seq<int>, n: int) -> bool {
    &&& p.len() == n
    &&& forall|k: int| 0 <= k < n ==> 0 <= #[trigger] p[k] < n
    &&& forall|k: int, l: int| 0 <= k < l < n ==> p[k] != p[l]
}

/// `r` is `o` reordered by `p`, in order by `specs`, with tasks that
/// compare equal kept in their original relative order.
pub open spec fn stably_sorted(r: Seq<Task>, o: Seq<Task>, specs: Seq<SortSpec>, p: Seq<int>) -> bool {
    &&& r.len() == o.len()
    &&& is_permutation(p, o.len() as int)
    &&& forall|k: int| 0 <= k < r.len() ==> #[trigger] r[k] == o[p[k]]
    &&& forall|i: int, j: int|
        0 <= i < j < r.len() ==> tasks_order(specs, #[trigger] r[i]@, #[trigger] r[j]@) <= 0 && (
        tasks_order(specs, r[i]@, r[j]@) == 0 ==> p[i] < p[j])
}

proof fn lemma_text_order(a: Seq<char>, b: Seq<char>)
    ensures
        -1 <= text_order(a, b) <= 1,
        text_order(a, b) == -text_order(b, a),
        text_order(a, b) == 0 ==> a == b,
    decreases a.len(),
{
    if a.len() > 0 && b.len() > 0 && a[0] == b[0] {
        lemma_text_order(a.drop_first(), b.drop_first());
        if text_order(a, b) == 0 {
            assert(a =~= seq![a[0]] + a.drop_first());
            assert(b =~= seq![b[0]] + b.drop_first());
        }
    }
}

proof fn lemma_text_order_trans(a: Seq<char>, b: Seq<char>, c: Seq<char>)
    requires
        text_order(a, b) < 0,
        text_order(b, c) < 0,
    ensures
        text_order(a, c) < 0,
    decreases a.len(),
{
    if a.len() > 0 && b.len() > 0 && c.len() > 0 && a[0] == b[0] && b[0] == c[0] {
        lemma_text_order_trans(a.drop_first(), b.drop_first(), c.drop_first());
    }
}

/// Laws of a total preorder, for one comparison function's values.
pub open spec fn preorder_triple(ab: int, bc: int, ac: int) -> bool {
    (ab <= 0 && bc <= 0 ==> ac <= 0) && (ab <= 0 && bc <= 0 && (ab < 0 || bc < 0) ==> ac < 0)
}

proof fn lemma_text_preorder(a: Seq<char>, b: Seq<char>, c: Seq<char>)
    ensures
        preorder_triple(text_order(a, b), text_order(b, c), text_order(a, c)),
{
    lemma_text_order(a, b);
    lemma_text_order(b, c);
    lemma_text_order(a, c);
    if text_order(a, b) < 0 && text_order(b, c) < 0 {
        lemma_text_order_trans(a, b, c);
    }
}

proof fn lemma_key_order(key: SortKey, a: TaskView, b: TaskView, c: TaskView)
    ensures
        -1 <= key_order(key, a, b) <= 1,
        key_order(key, a, b) == -key_order(key, b, a),
        preorder_triple(key_order(key, a, b), key_order(key, b, c), key_order(key, a, c)),
{
    match key {
        SortKey::StatusName => {
            lemma_text_order(a.status.name, b.status.name);
            lemma_text_preorder(a.status.name, b.status.name, c.status.name);
        },
        SortKey::Path => {
            lemma_text_order(a.note_id, b.note_id);
            lemma_text_preorder(a.note_id, b.note_id, c.note_id);
        },
        SortKey::Description => {
            lemma_text_order(a.description, b.description);
            lemma_text_preorder(a.description, b.description, c.description);
        },
        SortKey::Tags => {
            lemma_text_order(join_tags(a.tags), join_tags(b.tags));
            lemma_text_preorder(join_tags(a.tags), join_tags(b.tags), join_tags(c.tags));
        },
        _ => {},
    }
}

/// The comparison by a list of sort keys is antisymmetric.
pub proof fn lemma_tasks_order_antisym(specs: Seq<SortSpec>, a: TaskView, b: TaskView)
    ensures
        tasks_order(specs, a, b) == -tasks_order(specs, b, a),
    decreases specs.len(),
{
    if specs.len() > 0 {
        lemma_key_order(specs[0].key, a, b, a);
        lemma_tasks_order_antisym(specs.drop_first(), a, b);
    }
}

/// The comparison by a list of sort keys is transitive, strictly so when
/// either step is strict.
pub proof fn lemma_tasks_order_trans(specs: Seq<SortSpec>, a: TaskView, b: TaskView, c: TaskView)
    ensures
        preorder_triple(
            tasks_order(specs, a, b),
            tasks_order(specs, b, c),
            tasks_order(specs, a, c),
        ),
    decreases specs.len(),
{
    if specs.len() > 0 {
        let k = specs[0].key;
        lemma_key_order(k, a, b, c);
        lemma_key_order(k, c, b, a);
        lemma_key_order(k, a, c, b);
        lemma_key_order(k, b, a, c);
        lemma_key_order(k, b, c, a);
        lemma_key_order(k, c, a, b);
        lemma_tasks_order_trans(specs.drop_first(), a, b, c);
    }
}

/// Comparison of character sequences, see [`text_order`].
fn order_chars(a: &[char], b: &[char]) -> (r: i8)
    ensures
        r == text_order(a@, b@),
{
    let mut i: usize = 0;
    assert(a@.skip(0) =~= a@);
    assert(b@.skip(0) =~= b@);
    while i < a.len() && i < b.len()
        invariant
            i <= a@.len(),
            i <= b@.len(),
            text_order(a@, b@) == text_order(a@.skip(i as int), b@.skip(i as int)),
        decreases a@.len() - i,
    {
        assert(a@.skip(i as int)[0] == a@[i as int]);
        assert(b@.skip(i as int)[0] == b@[i as int]);
        if a[i] < b[i] {
            return -1;
        }
        if a[i] > b[i] {
            return 1;
        }
        assert(a@.skip(i as int).drop_first() =~= a@.skip(i + 1));
        assert(b@.skip(i as int).drop_first() =~= b@.skip(i + 1));
        i = i + 1;
    }
    if i == a.len() && i == b.len() {
        0
    } else if i == a.len() {
        -1
    } else {
        1
    }
}

fn order_strings(a: &String, b: &String) -> (r: i8)
    ensures
        r == text_order(a@, b@),
{
    order_chars(&chars_of(a.as_str()), &chars_of(b.as_str()))
}

fn join_tags_exec(tags: &Vec<String>) -> (r: Vec<char>)
    ensures
        r@ == join_tags(strings_view(tags@)),
{
    let ghost tv = strings_view(tags@);
    let mut r: Vec<char> = Vec::new();
    let mut i: usize = 0;
    while i < tags.len()
        invariant
            i <= tags@.len(),
            tv == strings_view(tags@),
            r@ == join_tags(tv.take(i as int)),
        decreases tags@.len() - i,
    {
        let t = chars_of(tags[i].as_str());
        assert(tv.take(i + 1).drop_last() =~= tv.take(i as int));
        assert(tv.take(i + 1).last() == t@);
        if i > 0 {
            r.push(',');
        } else {
            assert(r@ =~= Seq::<char>::empty());
        }
        let mut j: usize = 0;
        let ghost base = r@;
        while j < t.len()
            invariant
                j <= t@.len(),
                r@ == base + t@.take(j as int),
            decreases t@.len() - j,
        {
            r.push(t[j]);
            assert(t@.take(j + 1) =~= t@.take(j as int).push(t@[j as int]));
            j = j + 1;
        }
        assert(t@.take(t@.len() as int) =~= t@);
        assert(r@ =~= join_tags(tv.take(i + 1)));
        i = i + 1;
    }
    assert(tv.take(tags@.len() as int) =~= tv);
    r
}

fn order_opt_dates(a: Option<Date>, b: Option<Date>) -> (r: i8)
    ensures
        r == opt_date_order(opt_date(a), opt_date(b)),
{
    match (a, b) {
        (Some(x), Some(y)) => {
            if x.is_before(&y) {
                -1
            } else if x.same_day(&y) {
                0
            } else {
                1
            }
        },
        (Some(_), None) => -1,
        (None, Some(_)) => 1,
        (None, None) => 0,
    }
}

fn order_ranks(a: u8, b: u8) -> (r: i8)
    ensures
        r == rank_order(a as int, b as int),
{
    if a < b {
        -1
    } else if a == b {
        0
    } else {
        1
    }
}

fn order_by_key(a: &Task, b: &Task, key: SortKey) -> (r: i8)
    ensures
        r == key_order(key, a@, b@),
{
    match key {
        SortKey::Due => order_opt_dates(a.due, b.due),
        SortKey::Done => order_opt_dates(a.done, b.done),
        SortKey::Priority => order_ranks(a.priority.urgency_rank(), b.priority.urgency_rank()),
        SortKey::StatusType => order_ranks(a.status.kind.sort_rank(), b.status.kind.sort_rank()),
        SortKey::StatusName => order_strings(&a.status.name, &b.status.name),
        SortKey::Path => order_strings(&a.note_id, &b.note_id),
        SortKey::Description => order_strings(&a.description, &b.description),
        SortKey::Tags => order_chars(&join_tags_exec(&a.tags), &join_tags_exec(&b.tags)),
    }
}

/// Comparison by `specs`, see [`tasks_order`].
fn order_tasks(a: &Task, b: &Task, specs: &[SortSpec]) -> (r: i8)
    ensures
        r == tasks_order(specs@, a@, b@),
{
    let mut i: usize = 0;
    assert(specs@.skip(0) =~= specs@);
    while i < specs.len()
        invariant
            i <= specs@.len(),
            tasks_order(specs@, a@, b@) == tasks_order(specs@.skip(i as int), a@, b@),
        decreases specs@.len() - i,
    {
        proof {
            lemma_key_order(specs@[i as int].key, a@, b@, a@);
        }
        let o = order_by_key(a, b, specs[i].key);
        let o2 = if specs[i].reverse {
            -o
        } else {
            o
        };
        assert(specs@.skip(i as int)[0] == specs@[i as int]);
        if o2 != 0 {
            return o2;
        }
        assert(specs@.skip(i as int).drop_first() =~= specs@.skip(i + 1));
        i = i + 1;
    }
    0
}

/// Every index below `n` appears in a permutation of `0..n`.
proof fn lemma_permutation_onto(p: Seq<int>, n: int, a: int)
    requires
        is_permutation(p, n),
        0 <= a < n,
    ensures
        exists|l: int| 0 <= l < n && p[l] == a,
{
    assert(p.no_duplicates()) by {
        assert forall|k: int, l: int| 0 <= k < p.len() && 0 <= l < p.len() && k != l implies p[k]
            != p[l] by {
            if k < l {
                assert(p[k] != p[l]);
            } else {
                assert(p[l] != p[k]);
            }
        }
    }
    p.unique_seq_to_set();
    vstd::set_lib::lemma_int_range(0, n);
    let range = vstd::set_lib::set_int_range(0, n);
    assert(p.to_set().subset_of(range)) by {
        assert forall|x: int| p.to_set().contains(x) implies range.contains(x) by {
            let k = choose|k: int| 0 <= k < p.len() && p[k] == x;
            assert(0 <= p[k] < n);
        }
    }
    vstd::seq_lib::seq_to_set_is_finite(p);
    vstd::set_lib::lemma_subset_equality(p.to_set(), range);
    assert(range.contains(a));
    assert(p.to_set().contains(a));
}

proof fn lemma_stable_sorts_agree(
    r1: Seq<Task>,
    r2: Seq<Task>,
    o: Seq<Task>,
    specs: Seq<SortSpec>,
    p1: Seq<int>,
    p2: Seq<int>,
    k: int,
)
    requires
        stably_sorted(r1, o, specs, p1),
        stably_sorted(r2, o, specs, p2),
        0 <= k < o.len(),
    ensures
        forall|j: int| 0 <= j <= k ==> p1[j] == p2[j],
    decreases k,
{
    if k > 0 {
        lemma_stable_sorts_agree(r1, r2, o, specs, p1, p2, k - 1);
    }
    let n = o.len() as int;
    let a = p1[k];
    let b = p2[k];
    if a != b {
        lemma_permutation_onto(p2, n, a);
        let l = choose|l: int| 0 <= l < n && p2[l] == a;
        lemma_permutation_onto(p1, n, b);
        let m = choose|m: int| 0 <= m < n && p1[m] == b;
        if l < k {
            assert(p1[l] == p2[l]);
            assert(p1[l] != p1[k]);
        }
        if m < k {
            assert(p2[m] == p1[m]);
            assert(p2[m] != p2[k]);
        }
        assert(l > k && m > k);
        assert(r1[k] == o[a] && r1[m] == o[b]);
        assert(r2[k] == o[b] && r2[l] == o[a]);
        assert(tasks_order(specs, r1[k]@, r1[m]@) <= 0);
        assert(tasks_order(specs, r2[k]@, r2[l]@) <= 0);
        lemma_tasks_order_antisym(specs, o[a]@, o[b]@);
        assert(p1[k] < p1[m]);
        assert(p2[k] < p2[l]);
        assert(false);
    }
}

/// A stable sort has exactly one outcome: two stable sorts of the same
/// tasks by the same keys give the same sequence, so [`sort_tasks`]'s result
/// is determined by its input.
pub proof fn law_stable_sort_is_unique(
    r1: Seq<Task>,
    r2: Seq<Task>,
    o: Seq<Task>,
    specs: Seq<SortSpec>,
    p1: Seq<int>,
    p2: Seq<int>,
)
    requires
        stably_sorted(r1, o, specs, p1),
        stably_sorted(r2, o, specs, p2),
    ensures
        r1 == r2,
{
    if o.len() > 0 {
        lemma_stable_sorts_agree(r1, r2, o, specs, p1, p2, o.len() - 1);
        assert forall|k: int| 0 <= k < r1.len() implies r1[k] == r2[k] by {
            assert(p1[k] == p2[k]);
        }
    }
    assert(r1 =~= r2);
}

/// Sorted tasks are in order by the first sort key: by status type
/// `IN_PROGRESS, TODO, ON_HOLD, DONE, CANCELLED, NON_TASK`, by priority
/// most urgent first, by due or done date earliest first with missing dates
/// last; a reversed key gives the opposite order.
pub proof fn law_sorted_by_first_key(r: Seq<Task>, o: Seq<Task>, specs: Seq<SortSpec>, p: Seq<int>, i: int, j: int)
    requires
        stably_sorted(r, o, specs, p),
        specs.len() > 0,
        0 <= i < j < r.len(),
    ensures
        StatusType::InProgress.rank() == 0 && StatusType::Todo.rank() == 1
            && StatusType::OnHold.rank() == 2 && StatusType::Done.rank() == 3
            && StatusType::Cancelled.rank() == 4 && StatusType::NonTask.rank() == 5,
        specs[0] == (SortSpec { key: SortKey::StatusType, reverse: false })
            ==> r[i]@.status.kind.rank() <= r[j]@.status.kind.rank(),
        specs[0] == (SortSpec { key: SortKey::StatusType, reverse: true })
            ==> r[i]@.status.kind.rank() >= r[j]@.status.kind.rank(),
        specs[0] == (SortSpec { key: SortKey::Priority, reverse: false })
            ==> r[i]@.priority.rank() <= r[j]@.priority.rank(),
        specs[0] == (SortSpec { key: SortKey::Priority, reverse: true })
            ==> r[i]@.priority.rank() >= r[j]@.priority.rank(),
        specs[0] == (SortSpec { key: SortKey::Due, reverse: false }) ==> match (
            r[i]@.due,
            r[j]@.due,
        ) {
            (Some(x), Some(y)) => date_le(x, y),
            (None, Some(_)) => false,
            _ => true,
        },
        specs[0] == (SortSpec { key: SortKey::Done, reverse: false }) ==> match (
            r[i]@.done,
            r[j]@.done,
        ) {
            (Some(x), Some(y)) => date_le(x, y),
            (None, Some(_)) => false,
            _ => true,
        },
{
    let a = r[i]@;
    let b = r[j]@;
    assert(tasks_order(specs, a, b) <= 0);
    lemma_key_order(specs[0].key, a, b, a);
    if spec_key_order(specs[0], a, b) != 0 {
        assert(spec_key_order(specs[0], a, b) < 0);
    }
    if specs[0] == (SortSpec { key: SortKey::Due, reverse: false }) {
        assert(spec_key_order(specs[0], a, b) == opt_date_order(a.due, b.due));
        assert(opt_date_order(a.due, b.due) <= 0);
        match (a.due, b.due) {
            (Some(x), Some(y)) => {
                if date_lt(y, x) {
                    assert(!date_lt(x, y) && x != y);
                }
            },
            _ => {},
        }
    }
    if specs[0] == (SortSpec { key: SortKey::Done, reverse: false }) {
        assert(spec_key_order(specs[0], a, b) == opt_date_order(a.done, b.done));
        assert(opt_date_order(a.done, b.done) <= 0);
        match (a.done, b.done) {
            (Some(x), Some(y)) => {
                if date_lt(y, x) {
                    assert(!date_lt(x, y) && x != y);
                }
            },
            _ => {},
        }
    }
}

/// Sorting sorted tasks again by the same keys changes nothing.
pub proof fn law_sorting_twice_is_sorting_once(
    r1: Seq<Task>,
    r2: Seq<Task>,
    o: Seq<Task>,
    specs: Seq<SortSpec>,
    p1: Seq<int>,
    p2: Seq<int>,
)
    requires
        stably_sorted(r1, o, specs, p1),
        stably_sorted(r2, r1, specs, p2),
    ensures
        r2 == r1,
{
    let n = r1.len() as int;
    let id = Seq::new(n as nat, |i: int| i);
    assert(stably_sorted(r1, r1, specs, id));
    law_stable_sort_is_unique(r2, r1, r1, specs, p2, id);
}

/// Sort `tasks` by `specs`, each a tiebreaker for the previous; tasks that
/// compare equal keep their relative order (a stable sort).
pub fn sort_tasks(tasks: &mut Vec<Task>, specs: &[SortSpec])
    ensures
        exists|p: Seq<int>| stably_sorted(final(tasks)@, old(tasks)@, specs@, p),
{
    let ghost orig = tasks@;
    let mut items: Vec<Task> = Vec::new();
    std::mem::swap(tasks, &mut items);
    let mut out: Vec<Task> = Vec::new();
    let ghost mut p: Seq<int> = seq![];
    let n = items.len();
    let mut i: usize = 0;
    while i < n
        invariant
            n == orig.len(),
            i <= n,
            items@ == orig.skip(i as int),
            out@.len() == i,
            p.len() == i,
            forall|k: int| 0 <= k < i ==> 0 <= #[trigger] p[k] < i,
            forall|k: int, l: int| 0 <= k < l < i ==> p[k] != p[l],
            forall|k: int| 0 <= k < i ==> #[trigger] out@[k] == orig[p[k]],
            forall|a: int, b: int|
                0 <= a < b < i ==> tasks_order(specs@, #[trigger] out@[a]@, #[trigger] out@[b]@)
                    <= 0 && (tasks_order(specs@, out@[a]@, out@[b]@) == 0 ==> p[a] < p[b]),
        decreases n - i,
    {
        assert(items@[0] == orig[i as int]);
        let x = items.remove(0);
        assert(items@ =~= orig.skip(i + 1));
        let mut pos: usize = 0;
        while pos < out.len() && order_tasks(&out[pos], &x, specs) <= 0
            invariant
                pos <= out@.len(),
                out@.len() == i,
                forall|k: int| 0 <= k < pos ==> tasks_order(specs@, #[trigger] out@[k]@, x@) <= 0,
            decreases out@.len() - pos,
        {
            pos = pos + 1;
        }
        proof {
            if pos < out@.len() {
                assert(tasks_order(specs@, out@[pos as int]@, x@) > 0);
            }
        }
        let ghost old_out = out@;
        let ghost old_p = p;
        out.insert(pos, x);
        proof {
            p = old_p.insert(pos as int, i as int);
            assert forall|k: int| 0 <= k < i + 1 implies 0 <= #[trigger] p[k] < i + 1 by {
                if k < pos {
                    assert(p[k] == old_p[k]);
                } else if k > pos {
                    assert(p[k] == old_p[k - 1]);
                }
            }
            assert forall|k: int, l: int| 0 <= k < l < i + 1 implies p[k] != p[l] by {
                if k < pos && l < pos {
                    assert(p[k] == old_p[k] && p[l] == old_p[l]);
                } else if k < pos && l == pos {
                    assert(p[k] == old_p[k]);
                } else if k < pos && l > pos {
                    assert(p[k] == old_p[k] && p[l] == old_p[l - 1]);
                } else if k == pos {
                    assert(p[l] == old_p[l - 1]);
                } else {
                    assert(p[k] == old_p[k - 1] && p[l] == old_p[l - 1]);
                }
            }
            assert forall|k: int| 0 <= k < i + 1 implies #[trigger] out@[k] == orig[p[k]] by {
                if k < pos {
                    assert(out@[k] == old_out[k]);
                } else if k > pos {
                    assert(out@[k] == old_out[k - 1]);
                }
            }
            assert forall|a: int, b: int| 0 <= a < b < i + 1 implies tasks_order(
                specs@,
                #[trigger] out@[a]@,
                #[trigger] out@[b]@,
            ) <= 0 && (tasks_order(specs@, out@[a]@, out@[b]@) == 0 ==> p[a] < p[b]) by {
                if b < pos {
                    assert(out@[a] == old_out[a] && out@[b] == old_out[b]);
                    assert(p[a] == old_p[a] && p[b] == old_p[b]);
                } else if b == pos {
                    assert(out@[a] == old_out[a]);
                    assert(p[a] == old_p[a]);
                } else if a < pos {
                    assert(out@[a] == old_out[a] && out@[b] == old_out[b - 1]);
                    assert(p[a] == old_p[a] && p[b] == old_p[b - 1]);
                } else if a == pos {
                    assert(out@[b] == old_out[b - 1]);
                    assert(p[b] == old_p[b - 1]);
                    lemma_tasks_order_antisym(specs@, old_out[pos as int]@, x@);
                    if b - 1 > pos {
                        lemma_tasks_order_trans(
                            specs@,
                            x@,
                            old_out[pos as int]@,
                            old_out[b - 1]@,
                        );
                    }
                } else {
                    assert(out@[a] == old_out[a - 1] && out@[b] == old_out[b - 1]);
                    assert(p[a] == old_p[a - 1] && p[b] == old_p[b - 1]);
                }
            }
        }
        i = i + 1;
    }
    proof {
        assert forall|k: int| 0 <= k < n implies #[trigger] out@[k] == orig[p[k]] by {}
    }
    *tasks = out;
    assert(stably_sorted(tasks@, orig, specs@, p));
}


// ---------------------------------------------------------------------------
// Parsing a single note
// ---------------------------------------------------------------------------

/// The extensions notes are parsed with: strikethrough, tables, task
/// lists, footnotes, autolinks, wikilinks with the title after the pipe,
/// and description lists.
pub open spec fn checklist_extensions() -> MarkdownExtensions {
    MarkdownExtensions {
        strikethrough: true,
        table: true,
        tasklist: true,
        footnotes: true,
        autolink: true,
        wikilinks_title_after_pipe: true,
        description_lists: true,
    }
}

fn checklist_extensions_exec() -> (r: MarkdownExtensions)
    ensures
        r == checklist_extensions(),
{
    MarkdownExtensions {
        strikethrough: true,
        table: true,
        tasklist: true,
        footnotes: true,
        autolink: true,
        wikilinks_title_after_pipe: true,
        description_lists: true,
    }
}

/// The task the node at `k` holds, if it is a checklist item with more
/// than whitespace after its checkbox: its status resolved from the
/// symbol, its line, and its description and signifiers read from the
/// item's text. The note id is left empty.
pub open spec fn node_task(ns: Seq<MdNodeView>, m: Map<u32, StatusView>, k: int) -> Option<
    TaskView,
> {
    match checklist_item(ns, k) {
        Some((sym, raw)) => {
            if trim(raw).len() == 0 {
                None
            } else {
                let (description, sig) = signifiers(raw);
                Some(
                    TaskView {
                        note_id: Seq::empty(),
                        line: ns[k].line as u32,
                        status: resolved(m, sym),
                        description,
                        due: sig.due,
                        scheduled: sig.scheduled,
                        start: sig.start,
                        done: sig.done,
                        created: sig.created,
                        cancelled: sig.cancelled,
                        priority: sig.priority,
                        tags: sig.tags,
                    },
                )
            }
        },
        None => None,
    }
}

/// The tasks of the first `k` nodes, in document order.
pub open spec fn tasks_upto(ns: Seq<MdNodeView>, m: Map<u32, StatusView>, k: int) -> Seq<TaskView>
    decreases k,
{
    if k <= 0 {
        Seq::empty()
    } else {
        let prev = tasks_upto(ns, m, k - 1);
        match node_task(ns, m, k - 1) {
            Some(t) => prev.push(t),
            None => prev,
        }
    }
}

/// The checklist items of a parsed note, in document order.
pub open spec fn note_tasks(ns: Seq<MdNodeView>, m: Map<u32, StatusView>) -> Seq<TaskView> {
    tasks_upto(ns, m, ns.len() as int)
}

pub open spec fn tasks_view(ts: Seq<Task>) -> Seq<TaskView> {
    ts.map_values(|t: Task| t@)
}

/// The checklist items among a parsed note's nodes, in document order.
pub fn tasks_from_nodes(nodes: &Vec<MdNode>, registry: &StatusRegistry) -> (r: Vec<Task>)
    ensures
        tasks_view(r@) == note_tasks(nodes_view(nodes@), registry@),
{
    let ghost nv = nodes_view(nodes@);
    let mut out: Vec<Task> = Vec::new();
    let mut k: usize = 0;
    while k < nodes.len()
        invariant
            k <= nodes@.len(),
            nv == nodes_view(nodes@),
            tasks_view(out@) == tasks_upto(nv, registry@, k as int),
        decreases nodes@.len() - k,
    {
        let ghost before = out@;
        match checklist_item_exec(nodes, k) {
            Some((sym, raw)) => {
                let (a, b) = trim_bounds(&raw);
                if a < b {
                    let status = registry.resolve(sym);
                    let (description, sig) = extract_signifiers(&raw);
                    let task = Task {
                        note_id: String::new(),
                        line: nodes[k].line as u32,
                        status,
                        description,
                        due: sig.due,
                        scheduled: sig.scheduled,
                        start: sig.start,
                        done: sig.done,
                        created: sig.created,
                        cancelled: sig.cancelled,
                        priority: sig.priority,
                        tags: sig.tags,
                    };
                    proof {
                        assert(strings_view(sig.tags@) =~= sig@.tags);
                        assert(task@ == node_task(nv, registry@, k as int)->0);
                    }
                    out.push(task);
                    proof {
                        assert(tasks_view(out@) =~= tasks_view(before).push(task@));
                    }
                } else {
                    proof {
                        assert(trim(raw@).len() == 0);
                    }
                }
            },
            None => {},
        }
        k = k + 1;
    }
    out
}

/// A note's checklist items, in document order: its Markdown parsed (with
/// [`checklist_extensions`]) and the items read from the nodes. Plain list
/// items are not tasks, nor is a checkbox with nothing but whitespace after
/// it. Every task's note id is empty.
pub fn tasks_in_note(source: &str, registry: &StatusRegistry) -> (r: Vec<Task>)
    ensures
        tasks_view(r@) == note_tasks(markdown_tree(source@, checklist_extensions()), registry@),
{
    let options = markdown_options(checklist_extensions_exec());
    let nodes = markdown_nodes(source, &options);
    tasks_from_nodes(&nodes, registry)
}

// ---------------------------------------------------------------------------
// Vault-wide scan
// ---------------------------------------------------------------------------

/// Number of line feeds in `s`.
pub open spec fn count_newlines(s: Seq<char>) -> nat
    decreases s.len(),
{
    if s.len() == 0 {
        0
    } else {
        count_newlines(s.drop_last()) + if s.last() == '\n' {
            1nat
        } else {
            0nat
        }
    }
}

/// Number of physical lines a note's frontmatter block (open delimiter
/// through the line ending after the closing one) occupies, as `u32`; `0`
/// for a note without frontmatter.
pub open spec fn frontmatter_lines(raw: Seq<char>) -> u32 {
    match frontmatter_bounds(raw) {
        Some((_, body)) => count_newlines(raw.take(body)) as u32,
        None => 0,
    }
}

/// Number of lines a plain note's frontmatter block occupies on disk, so
/// that task line numbers counted in the body after it can be turned back
/// into line numbers of the file.
pub fn frontmatter_line_offset(raw: &str) -> (r: u32)
    ensures
        r == frontmatter_lines(raw@),
{
    let v = chars_of(raw);
    let bounds = frontmatter_bounds_of(&v);
    match bounds {
        Some(body) => {
            let mut count: usize = 0;
            let mut i: usize = 0;
            while i < body
                invariant
                    i <= body <= v@.len(),
                    count == count_newlines(v@.take(i as int)),
                    count <= i,
                decreases body - i,
            {
                assert(v@.take(i + 1).drop_last() =~= v@.take(i as int));
                if v[i] == '\n' {
                    count = count + 1;
                }
                i = i + 1;
            }
            assert(v@.take(body as int) == raw@.take(body as int));
            #[verifier::truncate]
            (count as u32)
        },
        None => 0,
    }
}

fn frontmatter_bounds_of(v: &Vec<char>) -> (r: Option<usize>)
    ensures
        match r {
            Some(b) => b <= v@.len() && (frontmatter_bounds(v@) matches Some((_, x)) && x == b as int),
            None => frontmatter_bounds(v@) is None,
        },
{
    proof {
        crate::frontmatter::lemma_frontmatter_bounds(v@);
    }
    match crate::frontmatter::frontmatter_bounds_exec(v) {
        Some((_, body)) => Some(body),
        None => None,
    }
}

/// A note of the vault as the scanner reads it: its vault-relative id, its
/// content (decrypted for `.clin` notes), and for a plain note the text of
/// its file on disk, when that could be read.
#[derive(Debug, Clone, PartialEq, Eq)]
pub struct VaultNote {
    pub id: String,
    pub content: String,
    pub on_disk: Option<String>,
}

pub struct VaultNoteView {
    pub id: Seq<char>,
    pub content: Seq<char>,
    pub on_disk: Option<Seq<char>>,
}

impl View for VaultNote {
    type V = VaultNoteView;

    open spec fn view(&self) -> VaultNoteView {
        VaultNoteView {
            id: self.id@,
            content: self.content@,
            on_disk: match self.on_disk {
                Some(t) => Some(t@),
                None => None,
            },
        }
    }
}

pub open spec fn plain_note(id: Seq<char>) -> bool {
    has_suffix(id, seq!['.', 'm', 'd'])
}

pub open spec fn encrypted_note(id: Seq<char>) -> bool {
    has_suffix(id, seq!['.', 'c', 'l', 'i', 'n'])
}

/// What a note's task line numbers are shifted by: the on-disk frontmatter
/// lines of a plain note, nothing for an encrypted one (its content is
/// numbered as decrypted).
pub open spec fn line_offset(n: VaultNoteView) -> u32 {
    if plain_note(n.id) {
        match n.on_disk {
            Some(raw) => frontmatter_lines(raw),
            None => 0,
        }
    } else {
        0
    }
}

/// A task of a note placed in the vault: its note id set and its line
/// shifted (wrapping around past `u32::MAX`).
pub open spec fn placed(t: TaskView, id: Seq<char>, offset: u32) -> TaskView {
    TaskView { note_id: id, line: ((t.line + offset) % 0x1_0000_0000) as u32, ..t }
}

pub open spec fn note_scan(n: VaultNoteView, m: Map<u32, StatusView>) -> Seq<TaskView> {
    note_tasks(markdown_tree(n.content, checklist_extensions()), m).map_values(
        |t: TaskView| placed(t, n.id, line_offset(n)),
    )
}

/// The tasks of the first `k` notes: those of every `.md` and `.clin` note,
/// in order; other notes are skipped.
pub open spec fn vault_tasks(ns: Seq<VaultNoteView>, m: Map<u32, StatusView>, k: int) -> Seq<
    TaskView,
>
    decreases k,
{
    if k <= 0 {
        Seq::empty()
    } else {
        let n = ns[k - 1];
        vault_tasks(ns, m, k - 1) + if plain_note(n.id) || encrypted_note(n.id) {
            note_scan(n, m)
        } else {
            Seq::empty()
        }
    }
}

/// Scan every note of the vault for checklist items.
pub fn scan_vault(notes: &[VaultNote], registry: &StatusRegistry) -> (r: Vec<Task>)
    ensures
        tasks_view(r@) == vault_tasks(notes@.map_values(|n: VaultNote| n@), registry@, notes@.len() as int),
{
    let ghost nv = notes@.map_values(|n: VaultNote| n@);
    let md = vec!['.', 'm', 'd'];
    let clin = vec!['.', 'c', 'l', 'i', 'n'];
    assert(md@ =~= seq!['.', 'm', 'd']);
    assert(clin@ =~= seq!['.', 'c', 'l', 'i', 'n']);
    let mut out: Vec<Task> = Vec::new();
    let mut k: usize = 0;
    while k < notes.len()
        invariant
            k <= notes@.len(),
            nv == notes@.map_values(|n: VaultNote| n@),
            md@ == seq!['.', 'm', 'd'],
            clin@ == seq!['.', 'c', 'l', 'i', 'n'],
            tasks_view(out@) == vault_tasks(nv, registry@, k as int),
        decreases notes@.len() - k,
    {
        let note = &notes[k];
        proof {
            assert(nv[k as int] == note@);
        }
        let id = chars_of(note.id.as_str());
        let is_plain = ends_with(&id, &md);
        let is_clin = ends_with(&id, &clin);
        if is_plain || is_clin {
            let offset: u32 = if is_plain {
                match &note.on_disk {
                    Some(raw) => frontmatter_line_offset(raw.as_str()),
                    None => 0,
                }
            } else {
                0
            };
            let found = tasks_in_note(note.content.as_str(), registry);
            let ghost base = out@;
            let ghost ft = tasks_view(found@);
            let mut j: usize = 0;
            while j < found.len()
                invariant
                    j <= found@.len(),
                    ft == tasks_view(found@),
                    tasks_view(out@) == tasks_view(base) + ft.take(j as int).map_values(
                        |t: TaskView| placed(t, note@.id, offset),
                    ),
                decreases found@.len() - j,
            {
                let t = &found[j];
                let task = Task {
                    note_id: note.id.clone(),
                    line: t.line.wrapping_add(offset),
                    status: t.status.duplicate(),
                    description: t.description.clone(),
                    due: t.due,
                    scheduled: t.scheduled,
                    start: t.start,
                    done: t.done,
                    created: t.created,
                    cancelled: t.cancelled,
                    priority: t.priority,
                    tags: clone_strings(&t.tags),
                };
                proof {
                    assert(task@ == placed(ft[j as int], note@.id, offset));
                }
                let ghost before = out@;
                out.push(task);
                proof {
                    assert(tasks_view(out@) =~= tasks_view(before).push(task@));
                    assert(ft.take(j + 1).map_values(|t: TaskView| placed(t, note@.id, offset))
                        =~= ft.take(j as int).map_values(|t: TaskView| placed(t, note@.id, offset)).push(
                        placed(ft[j as int], note@.id, offset),
                    ));
                }
                j = j + 1;
            }
            proof {
                assert(ft.take(found@.len() as int) =~= ft);
                assert(vault_tasks(nv, registry@, k + 1) == vault_tasks(nv, registry@, k as int)
                    + note_scan(note@, registry@));
            }
        }
        k = k + 1;
    }
    assert(nv.len() == notes@.len());
    out
}

/// Copies of the strings of `v`.
pub fn clone_strings(v: &Vec<String>) -> (r: Vec<String>)
    ensures
        strings_view(r@) == strings_view(v@),
{
    let mut r: Vec<String> = Vec::new();
    let mut i: usize = 0;
    while i < v.len()
        invariant
            i <= v@.len(),
            strings_view(r@) == strings_view(v@.take(i as int)),
        decreases v@.len() - i,
    {
        let ghost before = r@;
        r.push(v[i].clone());
        proof {
            assert(strings_view(r@) =~= strings_view(before).push(v@[i as int]@));
            assert(strings_view(v@.take(i + 1)) =~= strings_view(v@.take(i as int)).push(
                v@[i as int]@,
            ));
        }
        i = i + 1;
    }
    assert(v@.take(v@.len() as int) =~= v@);
    r
}

} // verus!
