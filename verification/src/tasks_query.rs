//! Text grammar for `tasks` filter/sort queries, a scoped subset of the
//! Obsidian Tasks plugin's own query-block syntax.
//!
//! - Filter lines are AND'd together.
//! - One level of parenthesised boolean combination:
//!   `(expr) AND|OR|XOR|AND NOT|OR NOT (expr)`, or `NOT (expr)`.
//! - `sort by <key> [reverse]`.
//! - Blank lines and lines starting with `#` are ignored (comments).
//!
//! Relative dates (`today`, `tomorrow`, `next monday`, ...) resolve once, at
//! parse time, against the `today` the caller passes in.
use vstd::prelude::*;

use crate::cli::TasksCmd;
use crate::date::{lemma_day_number_bounds, lemma_valid_in_range, civil_from_days, day_in_range, day_number, parse_date_ymd, naive_date_parse_ymd, Date};
use crate::tasks::{
    filter_holds, law_and_or, TaskView, all_hold, all_match, default_sort, default_sort_spec, Task, filter_view, filters_view, lemma_filters_view, DateCmp, Filter, FilterView, Priority,
    PriorityCmp, SortKey, SortSpec, StatusType,
};
use crate::text::{
    chars_of, copy_range, ends_with, eq_chars, find_char, has_prefix, has_prefix_ci,
    has_suffix, has_suffix_ci, joined, lemma_lines_step, lemma_newline_index_unique, lines, lowercase, parse_i64,
    parse_i64_spec, push_chars, starts_with, starts_with_ci, ends_with_ci, string_of, strip_cr,
    to_lowercase, trim, trim_bounds, is_ws, lead_ws, newline_index,
};

verus! {

/// A parsed multi-line query: filter lines (AND'd together) and sort keys.
#[derive(Debug, Clone, PartialEq)]
pub struct ParsedQuery {
    pub filters: Vec<Filter>,
    pub sort: Vec<SortSpec>,
}

impl ParsedQuery {
    /// Whether `task` passes every filter line: filter lines are AND'd.
    pub fn accepts(&self, task: &Task) -> (r: bool)
        ensures
            r == all_hold(self@.filters, task@),
    {
        all_match(&self.filters, task)
    }

    /// The order to sort by: the query's `sort by` lines, or
    /// [`default_sort`] when it has none.
    pub fn sort_order(&self) -> (r: Vec<SortSpec>)
        ensures
            r@ == if self.sort@.len() == 0 {
                default_sort_spec()
            } else {
                self.sort@
            },
    {
        if self.sort.len() == 0 {
            default_sort()
        } else {
            self.sort.clone()
        }
    }
}

impl Default for ParsedQuery {
    /// No filters and no sort keys.
    fn default() -> (r: Self)
        ensures
            r@.filters.len() == 0,
            r@.sort.len() == 0,
    {
        ParsedQuery { filters: Vec::new(), sort: Vec::new() }
    }
}

pub struct QueryView {
    pub filters: Seq<FilterView>,
    pub sort: Seq<SortSpec>,
}

impl View for ParsedQuery {
    type V = QueryView;

    open spec fn view(&self) -> QueryView {
        QueryView { filters: filters_view(self.filters@), sort: self.sort@ }
    }
}

/// Result of parsing a piece of query text: a value, an error message, or a
/// relative date that falls outside the range of representable dates.
pub enum Outcome<T> {
    Parsed(T),
    Rejected(Seq<char>),
    OutOfRange,
}

/// Why an exec parse step failed.
pub enum QueryError {
    Message(String),
    OutOfRange,
}

pub open spec fn outcome_of<T, V>(r: Result<T, QueryError>, v: spec_fn(T) -> V) -> Outcome<V> {
    match r {
        Ok(x) => Outcome::Parsed(v(x)),
        Err(QueryError::Message(m)) => Outcome::Rejected(m@),
        Err(QueryError::OutOfRange) => Outcome::OutOfRange,
    }
}

// ---------------------------------------------------------------------------
// Small string helpers
// ---------------------------------------------------------------------------

/// Case-insensitive (ASCII) prefix strip, preserving the remainder's case.
pub open spec fn strip_ci(s: Seq<char>, p: Seq<char>) -> Option<Seq<char>> {
    if has_prefix_ci(s, p) {
        Some(s.skip(p.len() as int))
    } else {
        None
    }
}

/// Case-insensitive (ASCII) suffix strip.
pub open spec fn strip_ci_suffix(s: Seq<char>, p: Seq<char>) -> Option<Seq<char>> {
    if has_suffix_ci(s, p) {
        Some(s.take(s.len() - p.len()))
    } else {
        None
    }
}

/// `str::strip_prefix`.
pub open spec fn strip_prefix(s: Seq<char>, p: Seq<char>) -> Option<Seq<char>> {
    if has_prefix(s, p) {
        Some(s.skip(p.len() as int))
    } else {
        None
    }
}

/// `str::strip_suffix`.
pub open spec fn strip_suffix(s: Seq<char>, p: Seq<char>) -> Option<Seq<char>> {
    if has_suffix(s, p) {
        Some(s.take(s.len() - p.len()))
    } else {
        None
    }
}

/// Length of `p` when `s` starts with it, ignoring ASCII case.
fn strip_ci_len(s: &[char], p: &str) -> (r: Option<usize>)
    ensures
        match strip_ci(s@, p@) {
            Some(rest) => r matches Some(k) && k == p@.len() && rest == s@.skip(k as int),
            None => r is None,
        },
{
    let pv = chars_of(p);
    if starts_with_ci(s, 0, &pv) {
        assert(s@.skip(0) == s@);
        Some(pv.len())
    } else {
        assert(s@.skip(0) == s@);
        None
    }
}

/// Length of what remains when `s` ends with `p`, ignoring ASCII case.
fn strip_ci_suffix_len(s: &[char], p: &str) -> (r: Option<usize>)
    ensures
        match strip_ci_suffix(s@, p@) {
            Some(rest) => r matches Some(k) && k == s@.len() - p@.len() && rest == s@.take(
                k as int,
            ),
            None => r is None,
        },
{
    let pv = chars_of(p);
    assert(s@.take(s@.len() as int) == s@);
    if ends_with_ci(s, s.len(), &pv) {
        Some(s.len() - pv.len())
    } else {
        None
    }
}

fn strip_prefix_len(s: &[char], p: &str) -> (r: Option<usize>)
    ensures
        match strip_prefix(s@, p@) {
            Some(rest) => r matches Some(k) && k == p@.len() && rest == s@.skip(k as int),
            None => r is None,
        },
{
    let pv = chars_of(p);
    assert(s@.skip(0) == s@);
    if starts_with(s, 0, &pv) {
        Some(pv.len())
    } else {
        None
    }
}

fn strip_suffix_len(s: &[char], p: &str) -> (r: Option<usize>)
    ensures
        match strip_suffix(s@, p@) {
            Some(rest) => r matches Some(k) && k == s@.len() - p@.len() && rest == s@.take(
                k as int,
            ),
            None => r is None,
        },
{
    let pv = chars_of(p);
    if ends_with(s, &pv) {
        Some(s.len() - pv.len())
    } else {
        None
    }
}

/// The trimmed part of `s`.
fn trimmed(s: &[char]) -> (r: &[char])
    ensures
        r@ == trim(s@),
{
    let (a, b) = trim_bounds(s);
    &s[a..b]
}

/// `prefix + body + suffix`, as a `String`.
fn message(prefix: &str, body: &[char], suffix: &str) -> (r: String)
    ensures
        r@ == prefix@ + body@ + suffix@,
{
    let mut m = String::from_str(prefix);
    push_chars(&mut m, body);
    m.append(suffix);
    m
}

fn is_keyword(s: &[char], k: &str) -> (r: bool)
    ensures
        r == (s@ == k@),
{
    eq_chars(s, &chars_of(k))
}

// ---------------------------------------------------------------------------
// Parentheses
// ---------------------------------------------------------------------------

/// Index of the `)` that closes the group opened before position `i`, given
/// `depth` groups open there.
pub open spec fn close_index(t: Seq<char>, i: int, depth: int) -> Option<int>
    decreases t.len() - i,
{
    if i < 0 || i >= t.len() {
        None
    } else if t[i] == '(' {
        close_index(t, i + 1, depth + 1)
    } else if t[i] == ')' {
        if depth - 1 == 0 {
            Some(i)
        } else {
            close_index(t, i + 1, depth - 1)
        }
    } else {
        close_index(t, i + 1, depth)
    }
}

/// If trimmed `s` starts with a balanced `(...)` group, its inner content
/// (the group need not span the whole string).
pub open spec fn parenthesized_prefix(s: Seq<char>) -> Option<Seq<char>> {
    let t = trim(s);
    if t.len() == 0 || t[0] != '(' {
        None
    } else {
        match close_index(t, 0, 0) {
            Some(i) => Some(t.subrange(1, i)),
            None => None,
        }
    }
}

/// If trimmed `s` is exactly one balanced `(...)` group, its inner content.
pub open spec fn parenthesized(s: Seq<char>) -> Option<Seq<char>> {
    let t = trim(s);
    match parenthesized_prefix(t) {
        Some(inner) => if inner.len() + 2 == t.len() {
            Some(inner)
        } else {
            None
        },
        None => None,
    }
}

proof fn lemma_close_index_bounds(t: Seq<char>, i: int, depth: int)
    requires
        0 <= i,
    ensures
        close_index(t, i, depth) matches Some(j) ==> i <= j < t.len() && t[j] == ')',
    decreases t.len() - i,
{
    if i < t.len() {
        lemma_close_index_bounds(t, i + 1, depth + 1);
        lemma_close_index_bounds(t, i + 1, depth - 1);
        lemma_close_index_bounds(t, i + 1, depth);
    }
}

/// Exec counterpart of [`parenthesized_prefix`] on an already trimmed `t`:
/// the index of the closing `)`.
fn close_of_group(t: &[char]) -> (r: Option<usize>)
    requires
        t@.len() > 0,
        t@[0] == '(',
    ensures
        match close_index(t@, 0, 0) {
            Some(j) => r == Some(j as usize),
            None => r is None,
        },
{
    proof {
        lemma_close_index_bounds(t@, 0, 0);
    }
    let mut depth: usize = 1;
    let mut i: usize = 1;
    assert(close_index(t@, 0, 0) == close_index(t@, 1, 1));
    while i < t.len()
        invariant
            1 <= i <= t@.len(),
            1 <= depth <= i,
            close_index(t@, 0, 0) == close_index(t@, i as int, depth as int),
        decreases t@.len() - i,
    {
        let c = t[i];
        if c == '(' {
            depth = depth + 1;
        } else if c == ')' {
            if depth == 1 {
                return Some(i);
            }
            depth = depth - 1;
        }
        i = i + 1;
    }
    None
}

/// `(start, end)` of the inner content of [`parenthesized_prefix`].
fn parenthesized_prefix_range(s: &[char]) -> (r: Option<(usize, usize)>)
    ensures
        match parenthesized_prefix(s@) {
            Some(inner) => r matches Some((a, b)) && a <= b <= s@.len() && s@.subrange(
                a as int,
                b as int,
            ) == inner && a == lead_ws(s@) + 1 && b < s@.len() && s@[b as int] == ')',
            None => r is None,
        },
{
    let (a, b) = trim_bounds(s);
    let t = &s[a..b];
    if t.len() == 0 || t[0] != '(' {
        return None;
    }
    proof {
        lemma_close_index_bounds(t@, 0, 0);
    }
    match close_of_group(t) {
        Some(i) => {
            assert(t@.subrange(1, i as int) =~= s@.subrange(a + 1, a + i));
            assert(t@[i as int] == s@[a + i]);
            Some((a + 1, a + i))
        },
        None => None,
    }
}

/// `(start, end)` of the inner content of [`parenthesized`].
fn parenthesized_range(s: &[char]) -> (r: Option<(usize, usize)>)
    ensures
        match parenthesized(s@) {
            Some(inner) => r matches Some((a, b)) && a <= b <= s@.len() && s@.subrange(
                a as int,
                b as int,
            ) == inner,
            None => r is None,
        },
{
    let (a, b) = trim_bounds(s);
    let t = &s[a..b];
    match parenthesized_prefix_range(t) {
        Some((x, y)) => {
            if (y - x) + 2 == t.len() {
                assert(t@.subrange(x as int, y as int) =~= s@.subrange(a + x, a + y));
                Some((a + x, a + y))
            } else {
                None
            }
        },
        None => None,
    }
}

// ---------------------------------------------------------------------------
// Dates: absolute `YYYY-MM-DD`, plus a fixed relative vocabulary
// ---------------------------------------------------------------------------

/// Weekday index (Monday = 0) of a lowercase English weekday name,
/// surrounding whitespace ignored.
pub open spec fn weekday_named(s: Seq<char>) -> Option<int> {
    let t = trim(s);
    if t == "monday"@ {
        Some(0)
    } else if t == "tuesday"@ {
        Some(1)
    } else if t == "wednesday"@ {
        Some(2)
    } else if t == "thursday"@ {
        Some(3)
    } else if t == "friday"@ {
        Some(4)
    } else if t == "saturday"@ {
        Some(5)
    } else if t == "sunday"@ {
        Some(6)
    } else {
        None
    }
}

fn weekday_from_name(s: &[char]) -> (r: Option<u32>)
    ensures
        match weekday_named(s@) {
            Some(w) => r == Some(w as u32),
            None => r is None,
        },
{
    let t = trimmed(s);
    if is_keyword(t, "monday") {
        Some(0)
    } else if is_keyword(t, "tuesday") {
        Some(1)
    } else if is_keyword(t, "wednesday") {
        Some(2)
    } else if is_keyword(t, "thursday") {
        Some(3)
    } else if is_keyword(t, "friday") {
        Some(4)
    } else if is_keyword(t, "saturday") {
        Some(5)
    } else if is_keyword(t, "sunday") {
        Some(6)
    } else {
        None
    }
}

/// The date `n` days after `today` (before it for negative `n`), or out of
/// range.
pub open spec fn shift(today: (int, int, int), n: int) -> Outcome<(int, int, int)> {
    if day_in_range(day_number(today) + n) {
        Outcome::Parsed(civil_from_days(day_number(today) + n))
    } else {
        Outcome::OutOfRange
    }
}

/// Days from `today` to the next date after it (never `today` itself)
/// falling on weekday `w`: between 1 and 7.
pub open spec fn days_to_next(today: (int, int, int), w: int) -> int {
    ((w - (day_number(today) + 3) % 7 - 1) % 7) + 1
}

/// Days from the most recent date before `today` (never `today` itself)
/// falling on weekday `w` to `today`: between 1 and 7.
pub open spec fn days_since_last(today: (int, int, int), w: int) -> int {
    (((day_number(today) + 3) % 7 - w - 1) % 7) + 1
}

/// A date value: `today`, `tomorrow`, `yesterday`, `in N days`,
/// `N days ago`, `next <weekday>`, `last <weekday>` (matched after Unicode
/// lower-casing), or `YYYY-MM-DD` as `chrono` parses it.
pub open spec fn date_value(s: Seq<char>, today: (int, int, int)) -> Outcome<(int, int, int)> {
    let lower = lowercase(s);
    if lower == "today"@ {
        Outcome::Parsed(today)
    } else if lower == "tomorrow"@ {
        shift(today, 1)
    } else if lower == "yesterday"@ {
        shift(today, -1)
    } else if strip_suffix(lower, " days ago"@) is Some && parse_i64_spec(
        trim(strip_suffix(lower, " days ago"@)->0),
    ) is Some {
        shift(today, -(parse_i64_spec(trim(strip_suffix(lower, " days ago"@)->0))->0))
    } else if strip_prefix(lower, "in "@) is Some && strip_suffix(
        strip_prefix(lower, "in "@)->0,
        " days"@,
    ) is Some && parse_i64_spec(
        trim(strip_suffix(strip_prefix(lower, "in "@)->0, " days"@)->0),
    ) is Some {
        shift(
            today,
            parse_i64_spec(trim(strip_suffix(strip_prefix(lower, "in "@)->0, " days"@)->0))->0
                as int,
        )
    } else if strip_prefix(lower, "next "@) is Some {
        let w = strip_prefix(lower, "next "@)->0;
        match weekday_named(w) {
            Some(t) => shift(today, days_to_next(today, t)),
            None => Outcome::Rejected("Unknown weekday '"@ + w + "'"@),
        }
    } else if strip_prefix(lower, "last "@) is Some {
        let w = strip_prefix(lower, "last "@)->0;
        match weekday_named(w) {
            Some(t) => shift(today, -days_since_last(today, t)),
            None => Outcome::Rejected("Unknown weekday '"@ + w + "'"@),
        }
    } else {
        match naive_date_parse_ymd(s) {
            Some(d) => Outcome::Parsed(d),
            None => Outcome::Rejected("Unrecognized date '"@ + s + "'"@),
        }
    }
}

fn shift_date(today: Date, n: i64) -> (r: Result<Date, QueryError>)
    ensures
        outcome_of(r, |d: Date| d@) == shift(today@, n as int),
        r matches Ok(d) ==> day_number(d@) == day_number(today@) + n,
{
    match today.add_days(n) {
        Some(d) => Ok(d),
        None => Err(QueryError::OutOfRange),
    }
}

/// `today - n days`, with `n == i64::MIN` always out of range.
fn shift_back(today: Date, n: i64) -> (r: Result<Date, QueryError>)
    ensures
        outcome_of(r, |d: Date| d@) == shift(today@, -n),
{
    if n == i64::MIN {
        today.check_valid();
        proof {
            lemma_day_number_bounds(today@);
        }
        Err(QueryError::OutOfRange)
    } else {
        shift_date(today, -n)
    }
}


/// `next <weekday>` lies one to seven days after today, never on today
/// itself: the first day after today on that weekday (`0` for Monday
/// through `6` for Sunday).
pub proof fn law_next_weekday(today: (int, int, int), w: int)
    requires
        0 <= w < 7,
    ensures
        1 <= days_to_next(today, w) <= 7,
        (day_number(today) + days_to_next(today, w) + 3) % 7 == w,
        forall|j: int|
            1 <= j < days_to_next(today, w) ==> #[trigger] ((day_number(today) + j + 3) % 7) != w,
{
    let dn = day_number(today);
    let o = days_to_next(today, w);
    assert forall|j: int| 1 <= j < o implies #[trigger] ((dn + j + 3) % 7) != w by {
        assert(((w - (dn + 3) % 7 - 1) % 7) + 1 == o);
    }
}

/// `last <weekday>` lies one to seven days before today, never on today
/// itself: the last day before today on that weekday.
pub proof fn law_last_weekday(today: (int, int, int), w: int)
    requires
        0 <= w < 7,
    ensures
        1 <= days_since_last(today, w) <= 7,
        (day_number(today) - days_since_last(today, w) + 3) % 7 == w,
        forall|j: int|
            1 <= j < days_since_last(today, w) ==> #[trigger] ((day_number(today) - j + 3) % 7)
                != w,
{
    let dn = day_number(today);
    let o = days_since_last(today, w);
    assert forall|j: int| 1 <= j < o implies #[trigger] ((dn - j + 3) % 7) != w by {
        assert((((dn + 3) % 7 - w - 1) % 7) + 1 == o);
    }
}

/// The next date after `today` (never `today` itself) on weekday `target`.
fn next_weekday(today: Date, target: u32) -> (r: Result<Date, QueryError>)
    requires
        target < 7,
    ensures
        outcome_of(r, |d: Date| d@) == shift(today@, days_to_next(today@, target as int)),
{
    let ghost dn = day_number(today@);
    let ghost o = days_to_next(today@, target as int);
    today.check_valid();
    proof {
        lemma_valid_in_range(today@);
        law_next_weekday(today@, target as int);
    }
    let mut d = match shift_date(today, 1) {
        Ok(d) => d,
        Err(e) => {
            return Err(e);
        },
    };
    let mut k: u32 = 1;
    while d.weekday() != target
        invariant
            1 <= k <= o,
            o == days_to_next(today@, target as int),
            dn == day_number(today@),
            1 <= o <= 7,
            (dn + o + 3) % 7 == target,
            forall|j: int| 1 <= j < o ==> #[trigger] ((dn + j + 3) % 7) != target,
            day_number(d@) == dn + k,
            d@ == civil_from_days(dn + k),
            day_in_range(dn + k),
        decreases o - k,
    {
        assert(k < o);
        d = match shift_date(d, 1) {
            Ok(x) => x,
            Err(e) => {
                return Err(e);
            },
        };
        k = k + 1;
    }
    Ok(d)
}

/// The most recent date before `today` (never `today` itself) on weekday
/// `target`.
fn last_weekday(today: Date, target: u32) -> (r: Result<Date, QueryError>)
    requires
        target < 7,
    ensures
        outcome_of(r, |d: Date| d@) == shift(today@, -days_since_last(today@, target as int)),
{
    let ghost dn = day_number(today@);
    let ghost o = days_since_last(today@, target as int);
    today.check_valid();
    proof {
        lemma_valid_in_range(today@);
        law_last_weekday(today@, target as int);
    }
    let mut d = match shift_date(today, -1) {
        Ok(d) => d,
        Err(e) => {
            return Err(e);
        },
    };
    let mut k: u32 = 1;
    while d.weekday() != target
        invariant
            1 <= k <= o,
            o == days_since_last(today@, target as int),
            dn == day_number(today@),
            1 <= o <= 7,
            (dn - o + 3) % 7 == target,
            forall|j: int| 1 <= j < o ==> #[trigger] ((dn - j + 3) % 7) != target,
            day_number(d@) == dn - k,
            d@ == civil_from_days(dn - k),
            day_in_range(dn - k),
        decreases o - k,
    {
        assert(k < o);
        d = match shift_date(d, -1) {
            Ok(x) => x,
            Err(e) => {
                return Err(e);
            },
        };
        k = k + 1;
    }
    Ok(d)
}

fn parse_date_value(s: &[char], today: Date) -> (r: Result<Date, QueryError>)
    ensures
        outcome_of(r, |d: Date| d@) == date_value(s@, today@),
{
    let lower_v = to_lowercase(s);
    let lower = lower_v.as_slice();
    if is_keyword(lower, "today") {
        return Ok(today);
    }
    if is_keyword(lower, "tomorrow") {
        return shift_date(today, 1);
    }
    if is_keyword(lower, "yesterday") {
        return shift_date(today, -1);
    }
    if let Some(k) = strip_suffix_len(lower, " days ago") {
        let part = &lower[0..k];
        assert(part@ == lower@.take(k as int));
        if let Some(n) = parse_i64(trimmed(part)) {
            return shift_back(today, n);
        }
    }
    if let Some(k) = strip_prefix_len(lower, "in ") {
        let r1 = &lower[k..lower.len()];
        assert(r1@ == lower@.skip(k as int));
        if let Some(k2) = strip_suffix_len(r1, " days") {
            let part = &r1[0..k2];
            assert(part@ == r1@.take(k2 as int));
            if let Some(n) = parse_i64(trimmed(part)) {
                return shift_date(today, n);
            }
        }
    }
    if let Some(k) = strip_prefix_len(lower, "next ") {
        let w = &lower[k..lower.len()];
        assert(w@ == lower@.skip(k as int));
        return match weekday_from_name(w) {
            Some(t) => next_weekday(today, t),
            None => Err(QueryError::Message(message("Unknown weekday '", w, "'"))),
        };
    }
    if let Some(k) = strip_prefix_len(lower, "last ") {
        let w = &lower[k..lower.len()];
        assert(w@ == lower@.skip(k as int));
        return match weekday_from_name(w) {
            Some(t) => last_weekday(today, t),
            None => Err(QueryError::Message(message("Unknown weekday '", w, "'"))),
        };
    }
    let st = string_of(s);
    match parse_date_ymd(st.as_str()) {
        Some(d) => Ok(d),
        None => Err(QueryError::Message(message("Unrecognized date '", s, "'"))),
    }
}


// ---------------------------------------------------------------------------
// Simple (non-boolean) filter clauses
// ---------------------------------------------------------------------------

/// The comparison a date filter starts with and the date text after it; a
/// bare date means `on`.
pub open spec fn date_cmp_split(rest: Seq<char>) -> (DateCmp, Seq<char>) {
    if strip_ci(rest, "on or before "@) is Some {
        (DateCmp::OnOrBefore, strip_ci(rest, "on or before "@)->0)
    } else if strip_ci(rest, "on or after "@) is Some {
        (DateCmp::OnOrAfter, strip_ci(rest, "on or after "@)->0)
    } else if strip_ci(rest, "before "@) is Some {
        (DateCmp::Before, strip_ci(rest, "before "@)->0)
    } else if strip_ci(rest, "after "@) is Some {
        (DateCmp::After, strip_ci(rest, "after "@)->0)
    } else if strip_ci(rest, "on "@) is Some {
        (DateCmp::On, strip_ci(rest, "on "@)->0)
    } else {
        (DateCmp::On, rest)
    }
}

/// `due ...` (`is_due`) or `done ...` followed by a comparison and a date.
pub open spec fn date_filter(rest: Seq<char>, today: (int, int, int), is_due: bool) -> Outcome<
    FilterView,
> {
    let (op, ds) = date_cmp_split(rest);
    match date_value(trim(ds), today) {
        Outcome::Parsed(d) => Outcome::Parsed(
            if is_due {
                FilterView::Due(op, d)
            } else {
                FilterView::DoneCmp(op, d)
            },
        ),
        Outcome::Rejected(m) => Outcome::Rejected(m),
        Outcome::OutOfRange => Outcome::OutOfRange,
    }
}

/// The comparison of a `priority is ...` filter and the name after it.
pub open spec fn priority_cmp_split(rest: Seq<char>) -> (PriorityCmp, Seq<char>) {
    if strip_ci(rest, "above "@) is Some {
        (PriorityCmp::Above, strip_ci(rest, "above "@)->0)
    } else if strip_ci(rest, "below "@) is Some {
        (PriorityCmp::Below, strip_ci(rest, "below "@)->0)
    } else if strip_ci(rest, "not "@) is Some {
        (PriorityCmp::IsNot, strip_ci(rest, "not "@)->0)
    } else {
        (PriorityCmp::Is, rest)
    }
}

pub open spec fn priority_filter(rest: Seq<char>) -> Outcome<FilterView> {
    let (op, name) = priority_cmp_split(rest);
    match Priority::named(trim(name)) {
        Some(p) => Outcome::Parsed(FilterView::Priority(op, p)),
        None => Outcome::Rejected("Unknown priority '"@ + trim(name) + "'"@),
    }
}

/// Text after the first of two prefixes that `s` starts with.
pub open spec fn strip_ci_either(s: Seq<char>, p: Seq<char>, q: Seq<char>) -> Option<Seq<char>> {
    if strip_ci(s, p) is Some {
        strip_ci(s, p)
    } else {
        strip_ci(s, q)
    }
}

pub open spec fn status_type_filter(rest: Seq<char>, negated: bool) -> Outcome<FilterView> {
    match StatusType::named(trim(rest)) {
        Some(k) => Outcome::Parsed(
            if negated {
                FilterView::StatusTypeIsNot(k)
            } else {
                FilterView::StatusTypeIs(k)
            },
        ),
        None => Outcome::Rejected("Unknown status type '"@ + trim(rest) + "'"@),
    }
}

/// One filter clause (no boolean combination), matched against the
/// trimmed text; keywords are matched after Unicode lower-casing, prefixes
/// ASCII case-insensitively.
pub open spec fn simple_filter(s0: Seq<char>, today: (int, int, int)) -> Outcome<FilterView> {
    let s = trim(s0);
    let l = lowercase(s);
    if l == "done"@ {
        Outcome::Parsed(FilterView::Done)
    } else if l == "not done"@ {
        Outcome::Parsed(FilterView::NotDone)
    } else if l == "has due date"@ {
        Outcome::Parsed(FilterView::HasDue)
    } else if l == "no due date"@ {
        Outcome::Parsed(FilterView::NoDue)
    } else if l == "has done date"@ {
        Outcome::Parsed(FilterView::HasDone)
    } else if l == "no done date"@ {
        Outcome::Parsed(FilterView::NoDone)
    } else if l == "has tags"@ {
        Outcome::Parsed(FilterView::HasTags)
    } else if l == "no tags"@ {
        Outcome::Parsed(FilterView::NoTags)
    } else if strip_ci(s, "due "@) is Some {
        date_filter(strip_ci(s, "due "@)->0, today, true)
    } else if strip_ci(s, "done "@) is Some {
        date_filter(strip_ci(s, "done "@)->0, today, false)
    } else if strip_ci(s, "priority is "@) is Some {
        priority_filter(strip_ci(s, "priority is "@)->0)
    } else if strip_ci_either(s, "tags include "@, "tag includes "@) is Some {
        Outcome::Parsed(
            FilterView::TagsInclude(trim(strip_ci_either(s, "tags include "@, "tag includes "@)->0)),
        )
    } else if strip_ci_either(s, "tags do not include "@, "tag does not include "@) is Some {
        Outcome::Parsed(
            FilterView::TagsExclude(
                trim(strip_ci_either(s, "tags do not include "@, "tag does not include "@)->0),
            ),
        )
    } else if strip_ci(s, "path includes "@) is Some {
        Outcome::Parsed(FilterView::PathIncludes(trim(strip_ci(s, "path includes "@)->0)))
    } else if strip_ci(s, "path does not include "@) is Some {
        Outcome::Parsed(FilterView::PathExcludes(trim(strip_ci(s, "path does not include "@)->0)))
    } else if strip_ci(s, "description includes "@) is Some {
        Outcome::Parsed(
            FilterView::DescriptionIncludes(trim(strip_ci(s, "description includes "@)->0)),
        )
    } else if strip_ci(s, "description does not include "@) is Some {
        Outcome::Parsed(
            FilterView::DescriptionExcludes(
                trim(strip_ci(s, "description does not include "@)->0),
            ),
        )
    } else if strip_ci(s, "status.name includes "@) is Some {
        Outcome::Parsed(
            FilterView::StatusNameIncludes(trim(strip_ci(s, "status.name includes "@)->0)),
        )
    } else if strip_ci(s, "status.name does not include "@) is Some {
        Outcome::Parsed(
            FilterView::StatusNameExcludes(
                trim(strip_ci(s, "status.name does not include "@)->0),
            ),
        )
    } else if strip_ci(s, "status.type is not "@) is Some {
        status_type_filter(strip_ci(s, "status.type is not "@)->0, true)
    } else if strip_ci(s, "status.type is "@) is Some {
        status_type_filter(strip_ci(s, "status.type is "@)->0, false)
    } else {
        Outcome::Rejected("Unrecognized filter: '"@ + s + "'"@)
    }
}

fn parse_date_filter(rest: &[char], today: Date, is_due: bool) -> (r: Result<Filter, QueryError>)
    ensures
        outcome_of(r, |f: Filter| f@) == date_filter(rest@, today@, is_due),
{
    let (op, k) = if let Some(k) = strip_ci_len(rest, "on or before ") {
        (DateCmp::OnOrBefore, k)
    } else if let Some(k) = strip_ci_len(rest, "on or after ") {
        (DateCmp::OnOrAfter, k)
    } else if let Some(k) = strip_ci_len(rest, "before ") {
        (DateCmp::Before, k)
    } else if let Some(k) = strip_ci_len(rest, "after ") {
        (DateCmp::After, k)
    } else if let Some(k) = strip_ci_len(rest, "on ") {
        (DateCmp::On, k)
    } else {
        (DateCmp::On, 0)
    };
    let ds = &rest[k..rest.len()];
    assert(ds@ == date_cmp_split(rest@).1);
    assert(op == date_cmp_split(rest@).0);
    match parse_date_value(trimmed(ds), today) {
        Ok(d) => Ok(
            if is_due {
                Filter::Due(op, d)
            } else {
                Filter::DoneCmp(op, d)
            },
        ),
        Err(e) => Err(e),
    }
}

fn parse_priority_filter(rest: &[char]) -> (r: Result<Filter, QueryError>)
    ensures
        outcome_of(r, |f: Filter| f@) == priority_filter(rest@),
{
    let (op, k) = if let Some(k) = strip_ci_len(rest, "above ") {
        (PriorityCmp::Above, k)
    } else if let Some(k) = strip_ci_len(rest, "below ") {
        (PriorityCmp::Below, k)
    } else if let Some(k) = strip_ci_len(rest, "not ") {
        (PriorityCmp::IsNot, k)
    } else {
        (PriorityCmp::Is, 0)
    };
    let name_all = &rest[k..rest.len()];
    assert(name_all@ == priority_cmp_split(rest@).1);
    let name = trimmed(name_all);
    match Priority::parse_name_chars(name) {
        Some(p) => Ok(Filter::Priority(op, p)),
        None => Err(QueryError::Message(message("Unknown priority '", name, "'"))),
    }
}

fn parse_status_type_filter(rest: &[char], negated: bool) -> (r: Result<Filter, QueryError>)
    ensures
        outcome_of(r, |f: Filter| f@) == status_type_filter(rest@, negated),
{
    let name = trimmed(rest);
    match StatusType::parse_name_chars(name) {
        Some(k) => Ok(
            if negated {
                Filter::StatusTypeIsNot(k)
            } else {
                Filter::StatusTypeIs(k)
            },
        ),
        None => Err(QueryError::Message(message("Unknown status type '", name, "'"))),
    }
}

/// Length of the first of two prefixes that `s` starts with.
fn strip_ci_either_len(s: &[char], p: &str, q: &str) -> (r: Option<usize>)
    ensures
        match strip_ci_either(s@, p@, q@) {
            Some(rest) => r matches Some(k) && k <= s@.len() && rest == s@.skip(k as int),
            None => r is None,
        },
{
    match strip_ci_len(s, p) {
        Some(k) => Some(k),
        None => strip_ci_len(s, q),
    }
}

/// A filter holding the trimmed text of `s[k..]`.
fn trimmed_string(s: &[char], k: usize) -> (r: String)
    requires
        k <= s@.len(),
    ensures
        r@ == trim(s@.skip(k as int)),
{
    let rest = &s[k..s.len()];
    string_of(trimmed(rest))
}

fn parse_simple_filter(s0: &[char], today: Date) -> (r: Result<Filter, QueryError>)
    ensures
        outcome_of(r, |f: Filter| f@) == simple_filter(s0@, today@),
{
    let s = trimmed(s0);
    let lv = to_lowercase(s);
    let l = lv.as_slice();
    if is_keyword(l, "done") {
        return Ok(Filter::Done);
    }
    if is_keyword(l, "not done") {
        return Ok(Filter::NotDone);
    }
    if is_keyword(l, "has due date") {
        return Ok(Filter::HasDue);
    }
    if is_keyword(l, "no due date") {
        return Ok(Filter::NoDue);
    }
    if is_keyword(l, "has done date") {
        return Ok(Filter::HasDone);
    }
    if is_keyword(l, "no done date") {
        return Ok(Filter::NoDone);
    }
    if is_keyword(l, "has tags") {
        return Ok(Filter::HasTags);
    }
    if is_keyword(l, "no tags") {
        return Ok(Filter::NoTags);
    }
    if let Some(k) = strip_ci_len(s, "due ") {
        return parse_date_filter(&s[k..s.len()], today, true);
    }
    if let Some(k) = strip_ci_len(s, "done ") {
        return parse_date_filter(&s[k..s.len()], today, false);
    }
    if let Some(k) = strip_ci_len(s, "priority is ") {
        return parse_priority_filter(&s[k..s.len()]);
    }
    if let Some(k) = strip_ci_either_len(s, "tags include ", "tag includes ") {
        return Ok(Filter::TagsInclude(trimmed_string(s, k)));
    }
    if let Some(k) = strip_ci_either_len(s, "tags do not include ", "tag does not include ") {
        return Ok(Filter::TagsExclude(trimmed_string(s, k)));
    }
    if let Some(k) = strip_ci_len(s, "path includes ") {
        return Ok(Filter::PathIncludes(trimmed_string(s, k)));
    }
    if let Some(k) = strip_ci_len(s, "path does not include ") {
        return Ok(Filter::PathExcludes(trimmed_string(s, k)));
    }
    if let Some(k) = strip_ci_len(s, "description includes ") {
        return Ok(Filter::DescriptionIncludes(trimmed_string(s, k)));
    }
    if let Some(k) = strip_ci_len(s, "description does not include ") {
        return Ok(Filter::DescriptionExcludes(trimmed_string(s, k)));
    }
    if let Some(k) = strip_ci_len(s, "status.name includes ") {
        return Ok(Filter::StatusNameIncludes(trimmed_string(s, k)));
    }
    if let Some(k) = strip_ci_len(s, "status.name does not include ") {
        return Ok(Filter::StatusNameExcludes(trimmed_string(s, k)));
    }
    if let Some(k) = strip_ci_len(s, "status.type is not ") {
        return parse_status_type_filter(&s[k..s.len()], true);
    }
    if let Some(k) = strip_ci_len(s, "status.type is ") {
        return parse_status_type_filter(&s[k..s.len()], false);
    }
    Err(QueryError::Message(message("Unrecognized filter: '", s, "'")))
}


// ---------------------------------------------------------------------------
// Filter lines, including one level of boolean combination
// ---------------------------------------------------------------------------

/// The boolean connectives, tried in this order.
#[derive(Clone, Copy, PartialEq, Eq, Structural)]
pub enum Connective {
    AndNot,
    OrNot,
    And,
    Or,
    Xor,
}

pub open spec fn connective_word(c: Connective) -> Seq<char> {
    match c {
        Connective::AndNot => "AND NOT "@,
        Connective::OrNot => "OR NOT "@,
        Connective::And => "AND "@,
        Connective::Or => "OR "@,
        Connective::Xor => "XOR "@,
    }
}

/// `a <op> b` as a filter: `XOR` is `(a OR b) AND NOT (a AND b)`.
pub open spec fn combined(c: Connective, a: FilterView, b: FilterView) -> FilterView {
    match c {
        Connective::And => FilterView::And(seq![a, b]),
        Connective::Or => FilterView::Or(seq![a, b]),
        Connective::AndNot => FilterView::And(seq![a, FilterView::Not(Box::new(b))]),
        Connective::OrNot => FilterView::Or(seq![a, FilterView::Not(Box::new(b))]),
        Connective::Xor => FilterView::And(
            seq![
                FilterView::Or(seq![a, b]),
                FilterView::Not(Box::new(FilterView::And(seq![a, b]))),
            ],
        ),
    }
}

/// The parenthesised second operand after connective `c`, if `rest` is
/// `<c> (...)`.
pub open spec fn second_operand(rest: Seq<char>, c: Connective) -> Option<Seq<char>> {
    match strip_ci(rest, connective_word(c)) {
        Some(r) => parenthesized(r),
        None => None,
    }
}

/// The first connective (in [`Connective`] order) that `rest` uses.
pub open spec fn connective_of(rest: Seq<char>) -> Option<Connective> {
    if second_operand(rest, Connective::AndNot) is Some {
        Some(Connective::AndNot)
    } else if second_operand(rest, Connective::OrNot) is Some {
        Some(Connective::OrNot)
    } else if second_operand(rest, Connective::And) is Some {
        Some(Connective::And)
    } else if second_operand(rest, Connective::Or) is Some {
        Some(Connective::Or)
    } else if second_operand(rest, Connective::Xor) is Some {
        Some(Connective::Xor)
    } else {
        None
    }
}

/// Both operands parsed (first one first), then combined.
pub open spec fn combine_parsed(
    c: Connective,
    first: Seq<char>,
    second: Seq<char>,
    today: (int, int, int),
) -> Outcome<FilterView> {
    match simple_filter(first, today) {
        Outcome::Parsed(a) => match simple_filter(second, today) {
            Outcome::Parsed(b) => Outcome::Parsed(combined(c, a, b)),
            Outcome::Rejected(m) => Outcome::Rejected(m),
            Outcome::OutOfRange => Outcome::OutOfRange,
        },
        Outcome::Rejected(m) => Outcome::Rejected(m),
        Outcome::OutOfRange => Outcome::OutOfRange,
    }
}

/// A filter line: `NOT (expr)`, `(expr)`, `(expr) <connective> (expr)`, or
/// a simple clause.
pub open spec fn filter_line(line: Seq<char>, today: (int, int, int)) -> Outcome<FilterView> {
    if strip_ci(line, "not "@) is Some && parenthesized(trim(strip_ci(line, "not "@)->0)) is Some {
        let body = parenthesized(trim(strip_ci(line, "not "@)->0))->0;
        match simple_filter(body, today) {
            Outcome::Parsed(f) => Outcome::Parsed(FilterView::Not(Box::new(f))),
            Outcome::Rejected(m) => Outcome::Rejected(m),
            Outcome::OutOfRange => Outcome::OutOfRange,
        }
    } else if parenthesized_prefix(line) is Some {
        let first = parenthesized_prefix(line)->0;
        let rest = trim(line.skip(first.len() + 2int));
        if rest.len() == 0 {
            simple_filter(first, today)
        } else {
            match connective_of(rest) {
                Some(c) => combine_parsed(c, first, second_operand(rest, c)->0, today),
                None => Outcome::Rejected("Unrecognized boolean combination: '"@ + line + "'"@),
            }
        }
    } else {
        simple_filter(line, today)
    }
}

fn connective_word_exec(c: Connective) -> (r: &'static str)
    ensures
        r@ == connective_word(c),
{
    match c {
        Connective::AndNot => "AND NOT ",
        Connective::OrNot => "OR NOT ",
        Connective::And => "AND ",
        Connective::Or => "OR ",
        Connective::Xor => "XOR ",
    }
}

/// `(start, end)` in `rest` of [`second_operand`].
fn second_operand_range(rest: &[char], c: Connective) -> (r: Option<(usize, usize)>)
    ensures
        match second_operand(rest@, c) {
            Some(inner) => r matches Some((a, b)) && a <= b <= rest@.len() && rest@.subrange(
                a as int,
                b as int,
            ) == inner,
            None => r is None,
        },
{
    match strip_ci_len(rest, connective_word_exec(c)) {
        Some(k) => {
            let r1 = &rest[k..rest.len()];
            assert(r1@ == rest@.skip(k as int));
            match parenthesized_range(r1) {
                Some((a, b)) => {
                    assert(r1@.subrange(a as int, b as int) =~= rest@.subrange(k + a, k + b));
                    Some((k + a, k + b))
                },
                None => None,
            }
        },
        None => None,
    }
}

fn connective_in(rest: &[char]) -> (r: Option<(Connective, usize, usize)>)
    ensures
        match connective_of(rest@) {
            Some(c) => r matches Some((c2, a, b)) && c2 == c && a <= b <= rest@.len()
                && rest@.subrange(a as int, b as int) == second_operand(rest@, c)->0,
            None => r is None,
        },
{
    if let Some((a, b)) = second_operand_range(rest, Connective::AndNot) {
        return Some((Connective::AndNot, a, b));
    }
    if let Some((a, b)) = second_operand_range(rest, Connective::OrNot) {
        return Some((Connective::OrNot, a, b));
    }
    if let Some((a, b)) = second_operand_range(rest, Connective::And) {
        return Some((Connective::And, a, b));
    }
    if let Some((a, b)) = second_operand_range(rest, Connective::Or) {
        return Some((Connective::Or, a, b));
    }
    if let Some((a, b)) = second_operand_range(rest, Connective::Xor) {
        return Some((Connective::Xor, a, b));
    }
    None
}

fn pair(a: Filter, b: Filter) -> (r: Vec<Filter>)
    ensures
        filters_view(r@) == seq![a@, b@],
{
    let mut v: Vec<Filter> = Vec::new();
    v.push(a);
    v.push(b);
    proof {
        reveal_with_fuel(filters_view, 3);
        assert(v@.drop_last() =~= seq![a]);
        assert(seq![a].drop_last() =~= Seq::<Filter>::empty());
        assert(filters_view(Seq::<Filter>::empty()) =~= Seq::<FilterView>::empty());
        assert(filters_view(seq![a]) =~= seq![a@]);
        assert(filters_view(v@) =~= seq![a@, b@]);
    }
    v
}

fn combine(c: Connective, a: Filter, b: Filter) -> (r: Filter)
    ensures
        r@ == combined(c, a@, b@),
{
    proof {
        reveal_with_fuel(filter_view, 2);
    }
    match c {
        Connective::And => Filter::And(pair(a, b)),
        Connective::Or => Filter::Or(pair(a, b)),
        Connective::AndNot => Filter::And(pair(a, Filter::Not(Box::new(b)))),
        Connective::OrNot => Filter::Or(pair(a, Filter::Not(Box::new(b)))),
        Connective::Xor => {
            let a2 = a.clone();
            let b2 = b.clone();
            Filter::And(pair(Filter::Or(pair(a, b)), Filter::Not(Box::new(Filter::And(pair(a2, b2))))))
        },
    }
}

/// Parses one (trimmed) filter line.
fn parse_filter_line_impl(line: &[char], today: Date) -> (r: Result<Filter, QueryError>)
    requires
        line@.len() == 0 || !is_ws(line@[0]),
    ensures
        outcome_of(r, |f: Filter| f@) == filter_line(line@, today@),
{
    if let Some(k) = strip_ci_len(line, "not ") {
        let inner = trimmed(&line[k..line.len()]);
        assert(inner@ == trim(strip_ci(line@, "not "@)->0));
        if let Some((a, b)) = parenthesized_range(inner) {
            return match parse_simple_filter(&inner[a..b], today) {
                Ok(f) => Ok(Filter::Not(Box::new(f))),
                Err(e) => Err(e),
            };
        }
    }
    if let Some((a, b)) = parenthesized_prefix_range(line) {
        proof {
            crate::text::lemma_lead_ws_unique(line@, 0);
        }
        let first = &line[a..b];
        assert(b < line.len());
        let rest = trimmed(&line[b + 1..line.len()]);
        assert(line@.skip(first@.len() + 2int) =~= line@.subrange(b + 1, line@.len() as int));
        if rest.len() == 0 {
            return parse_simple_filter(first, today);
        }
        return match connective_in(rest) {
            Some((c, x, y)) => {
                let fa = match parse_simple_filter(first, today) {
                    Ok(f) => f,
                    Err(e) => {
                        return Err(e);
                    },
                };
                let fb = match parse_simple_filter(&rest[x..y], today) {
                    Ok(f) => f,
                    Err(e) => {
                        return Err(e);
                    },
                };
                Ok(combine(c, fa, fb))
            },
            None => Err(
                QueryError::Message(message("Unrecognized boolean combination: '", line, "'")),
            ),
        };
    }
    parse_simple_filter(line, today)
}

// ---------------------------------------------------------------------------
// Sort lines
// ---------------------------------------------------------------------------

pub open spec fn sort_key_named(l: Seq<char>) -> Option<SortKey> {
    if l == "due"@ {
        Some(SortKey::Due)
    } else if l == "done"@ {
        Some(SortKey::Done)
    } else if l == "priority"@ {
        Some(SortKey::Priority)
    } else if l == "status.type"@ || l == "status"@ {
        Some(SortKey::StatusType)
    } else if l == "status.name"@ {
        Some(SortKey::StatusName)
    } else if l == "path"@ {
        Some(SortKey::Path)
    } else if l == "description"@ {
        Some(SortKey::Description)
    } else if l == "tag"@ || l == "tags"@ {
        Some(SortKey::Tags)
    } else {
        None
    }
}

/// The text after `sort by `: a key (matched after Unicode lower-casing),
/// optionally followed by ` reverse`.
pub open spec fn sort_spec(rest0: Seq<char>) -> Outcome<SortSpec> {
    let rest = trim(rest0);
    let key_str = match strip_ci_suffix(rest, " reverse"@) {
        Some(k) => trim(k),
        None => rest,
    };
    let reverse = strip_ci_suffix(rest, " reverse"@) is Some;
    match sort_key_named(lowercase(key_str)) {
        Some(key) => Outcome::Parsed(SortSpec { key, reverse }),
        None => Outcome::Rejected("Unknown sort key '"@ + lowercase(key_str) + "'"@),
    }
}

fn parse_sort_spec(rest0: &[char]) -> (r: Result<SortSpec, QueryError>)
    ensures
        outcome_of(r, |s: SortSpec| s) == sort_spec(rest0@),
{
    let rest = trimmed(rest0);
    let (key_str, reverse) = match strip_ci_suffix_len(rest, " reverse") {
        Some(k) => (trimmed(&rest[0..k]), true),
        None => (rest, false),
    };
    let lv = to_lowercase(key_str);
    let l = lv.as_slice();
    let key = if is_keyword(l, "due") {
        SortKey::Due
    } else if is_keyword(l, "done") {
        SortKey::Done
    } else if is_keyword(l, "priority") {
        SortKey::Priority
    } else if is_keyword(l, "status.type") || is_keyword(l, "status") {
        SortKey::StatusType
    } else if is_keyword(l, "status.name") {
        SortKey::StatusName
    } else if is_keyword(l, "path") {
        SortKey::Path
    } else if is_keyword(l, "description") {
        SortKey::Description
    } else if is_keyword(l, "tag") || is_keyword(l, "tags") {
        SortKey::Tags
    } else {
        return Err(QueryError::Message(message("Unknown sort key '", l, "'")));
    };
    Ok(SortSpec { key, reverse })
}


// ---------------------------------------------------------------------------
// Whole queries
// ---------------------------------------------------------------------------

/// Accumulated filters and sort keys.
pub open spec fn query_step(
    line: Seq<char>,
    acc: (Seq<FilterView>, Seq<SortSpec>),
    today: (int, int, int),
) -> Outcome<(Seq<FilterView>, Seq<SortSpec>)> {
    if line.len() == 0 || line[0] == '#' {
        Outcome::Parsed(acc)
    } else if strip_ci(line, "sort by "@) is Some {
        match sort_spec(strip_ci(line, "sort by "@)->0) {
            Outcome::Parsed(k) => Outcome::Parsed((acc.0, acc.1.push(k))),
            Outcome::Rejected(m) => Outcome::Rejected(m),
            Outcome::OutOfRange => Outcome::OutOfRange,
        }
    } else {
        match filter_line(line, today) {
            Outcome::Parsed(f) => Outcome::Parsed((acc.0.push(f), acc.1)),
            Outcome::Rejected(m) => Outcome::Rejected(m),
            Outcome::OutOfRange => Outcome::OutOfRange,
        }
    }
}

/// Lines processed in order; the first one that fails decides the outcome.
pub open spec fn query_lines(ls: Seq<Seq<char>>, today: (int, int, int)) -> Outcome<
    (Seq<FilterView>, Seq<SortSpec>),
>
    decreases ls.len(),
{
    if ls.len() == 0 {
        Outcome::Parsed((seq![], seq![]))
    } else {
        match query_lines(ls.drop_last(), today) {
            Outcome::Parsed(acc) => query_step(trim(ls.last()), acc, today),
            Outcome::Rejected(m) => Outcome::Rejected(m),
            Outcome::OutOfRange => Outcome::OutOfRange,
        }
    }
}

/// A whole multi-line query.
pub open spec fn query(text: Seq<char>, today: (int, int, int)) -> Outcome<QueryView> {
    match query_lines(lines(text), today) {
        Outcome::Parsed((f, s)) => Outcome::Parsed(QueryView { filters: f, sort: s }),
        Outcome::Rejected(m) => Outcome::Rejected(m),
        Outcome::OutOfRange => Outcome::OutOfRange,
    }
}

/// Once a line of a query fails, the lines after it do not change the
/// outcome: the first failing line decides it.
pub proof fn law_first_failure_decides(a: Seq<Seq<char>>, b: Seq<Seq<char>>, today: (int, int, int))
    requires
        !(query_lines(a, today) is Parsed),
    ensures
        query_lines(a + b, today) == query_lines(a, today),
    decreases b.len(),
{
    if b.len() == 0 {
        assert(a + b =~= a);
    } else {
        law_first_failure_decides(a, b.drop_last(), today);
        assert((a + b).drop_last() =~= a + b.drop_last());
    }
}

/// Blank lines and comment lines (starting with `#` once trimmed) can be
/// added anywhere in a query without changing its outcome.
pub proof fn law_ignored_lines(a: Seq<Seq<char>>, line: Seq<char>, b: Seq<Seq<char>>, today: (
    int,
    int,
    int,
))
    requires
        trim(line).len() == 0 || trim(line)[0] == '#',
    ensures
        query_lines(a.push(line) + b, today) == query_lines(a + b, today),
    decreases b.len(),
{
    if b.len() == 0 {
        assert(a.push(line) + b =~= a.push(line));
        assert(a + b =~= a);
        assert(a.push(line).drop_last() =~= a);
    } else {
        law_ignored_lines(a, line, b.drop_last(), today);
        assert((a.push(line) + b).drop_last() =~= a.push(line) + b.drop_last());
        assert((a + b).drop_last() =~= a + b.drop_last());
        assert((a.push(line) + b).last() == b.last());
        assert((a + b).last() == b.last());
    }
}

/// Applies one raw line of a query to the accumulated filters and sort keys.
fn apply_line(
    raw: &[char],
    filters: &mut Vec<Filter>,
    sort: &mut Vec<SortSpec>,
    today: Date,
) -> (r: Result<(), QueryError>)
    ensures
        match query_step(trim(raw@), (filters_view(old(filters)@), old(sort)@), today@) {
            Outcome::Parsed(acc) => r is Ok && filters_view(final(filters)@) == acc.0
                && final(sort)@ == acc.1,
            Outcome::Rejected(m) => r matches Err(QueryError::Message(e)) && e@ == m,
            Outcome::OutOfRange => r matches Err(QueryError::OutOfRange),
        },
{
    let line = trimmed(raw);
    proof {
        crate::text::lemma_trim_first(raw@);
    }
    if line.len() == 0 || line[0] == '#' {
        return Ok(());
    }
    if let Some(k) = strip_ci_len(line, "sort by ") {
        return match parse_sort_spec(&line[k..line.len()]) {
            Ok(spec) => {
                sort.push(spec);
                Ok(())
            },
            Err(e) => Err(e),
        };
    }
    match parse_filter_line_impl(line, today) {
        Ok(f) => {
            let ghost old_filters = filters@;
            filters.push(f);
            proof {
                assert(filters@.drop_last() =~= old_filters);
            }
            Ok(())
        },
        Err(e) => Err(e),
    }
}

fn parse_query_impl(text: &str, today: Date) -> (r: Result<ParsedQuery, QueryError>)
    ensures
        outcome_of(r, |q: ParsedQuery| q@) == query(text@, today@),
{
    let v = chars_of(text);
    let n = v.len();
    let mut filters: Vec<Filter> = Vec::new();
    let mut sort: Vec<SortSpec> = Vec::new();
    let mut start: usize = 0;
    let ghost mut done: Seq<Seq<char>> = seq![];
    assert(v@.skip(0) =~= v@);
    while start < n
        invariant
            n == v@.len(),
            v@ == text@,
            start <= n,
            lines(v@) == done + lines(v@.skip(start as int)),
            query_lines(done, today@) == Outcome::Parsed((filters_view(filters@), sort@)),
        decreases n - start,
    {
        let nl = find_char(&v, start, '\n');
        let (line_end, next) = match nl {
            Some(i) => {
                if i > start && v[i - 1] == '\r' {
                    (i - 1, i + 1)
                } else {
                    (i, i + 1)
                }
            },
            None => (n, n),
        };
        let raw = &v[start..line_end];
        proof {
            match nl {
                Some(i) => {
                    lemma_lines_step(v@, start as int, Some(i as int));
                    assert(raw@ =~= strip_cr(v@.subrange(start as int, i as int)));
                },
                None => {
                    lemma_lines_step(v@, start as int, None);
                    assert(raw@ =~= v@.skip(start as int));
                },
            }
        }
        let ghost done_next = done.push(raw@);
        assert(done_next.drop_last() =~= done);
        assert(lines(v@) =~= done_next + lines(v@.skip(next as int)));
        let res = apply_line(raw, &mut filters, &mut sort, today);
        if let Err(e) = res {
            proof {
                law_first_failure_decides(done_next, lines(v@.skip(next as int)), today@);
            }
            return Err(e);
        }
        proof {
            done = done_next;
        }
        start = next;
    }
    assert(v@.skip(n as int) =~= Seq::<char>::empty());
    assert(done =~= lines(v@));
    Ok(ParsedQuery { filters, sort })
}

/// Parse a multi-line query. `today` resolves relative dates (`today`,
/// `tomorrow`, `next monday`, ...) once, at parse time; every relative date
/// in the query must stay within the representable range.
pub fn parse_query(text: &str, today: Date) -> (r: Result<ParsedQuery, String>)
    requires
        !(query(text@, today@) is OutOfRange),
    ensures
        match query(text@, today@) {
            Outcome::Parsed(q) => r matches Ok(p) && p@ == q,
            Outcome::Rejected(m) => r matches Err(e) && e@ == m,
            Outcome::OutOfRange => false,
        },
{
    match parse_query_impl(text, today) {
        Ok(q) => Ok(q),
        Err(QueryError::Message(m)) => Err(m),
        Err(QueryError::OutOfRange) => Err(String::new()),
    }
}

/// Whether every relative date in `text` stays within the representable
/// range, so that [`parse_query`] may be called on it.
pub fn query_dates_in_range(text: &str, today: Date) -> (r: bool)
    ensures
        r == !(query(text@, today@) is OutOfRange),
{
    match parse_query_impl(text, today) {
        Err(QueryError::OutOfRange) => false,
        _ => true,
    }
}

/// [`parse_query`] for any input: `None` when a relative date in the query
/// falls outside the representable range.
pub fn parse_query_checked(text: &str, today: Date) -> (r: Option<Result<ParsedQuery, String>>)
    ensures
        r is None <==> query(text@, today@) is OutOfRange,
        match query(text@, today@) {
            Outcome::Parsed(q) => r matches Some(Ok(p)) && p@ == q,
            Outcome::Rejected(m) => r matches Some(Err(e)) && e@ == m,
            Outcome::OutOfRange => r is None,
        },
{
    if query_dates_in_range(text, today) {
        Some(parse_query(text, today))
    } else {
        None
    }
}

/// Parse one filter line (already trimmed at its start, as [`parse_query`]
/// passes it); relative dates must stay within the representable range.
pub fn parse_filter_line(line: &str, today: Date) -> (r: Result<Filter, String>)
    requires
        line@.len() == 0 || !is_ws(line@[0]),
        !(filter_line(line@, today@) is OutOfRange),
    ensures
        match filter_line(line@, today@) {
            Outcome::Parsed(f) => r matches Ok(g) && g@ == f,
            Outcome::Rejected(m) => r matches Err(e) && e@ == m,
            Outcome::OutOfRange => false,
        },
{
    let v = chars_of(line);
    match parse_filter_line_impl(&v, today) {
        Ok(f) => Ok(f),
        Err(QueryError::Message(m)) => Err(m),
        Err(QueryError::OutOfRange) => Err(String::new()),
    }
}

// ---------------------------------------------------------------------------
// Command-line flags
// ---------------------------------------------------------------------------

/// `prefix` followed by each of `xs`, one line each.
pub open spec fn prefixed_lines(prefix: Seq<char>, xs: Seq<String>) -> Seq<Seq<char>> {
    xs.map_values(|x: String| prefix + x@)
}

/// `prefix` followed by `x`, as one line, or no line.
pub open spec fn optional_line(prefix: Seq<char>, x: Option<String>) -> Seq<Seq<char>> {
    match x {
        Some(v) => seq![prefix + v@],
        None => seq![],
    }
}

/// The line a `--status` value stands for: none for `all` or no value,
/// `not done` for `open`, `done` for `done`; any other value is refused.
pub open spec fn status_lines(status: Option<String>) -> Option<Seq<Seq<char>>> {
    match status {
        None => Some(seq![]),
        Some(s) => if s@ == "all"@ {
            Some(seq![])
        } else if s@ == "open"@ {
            Some(seq!["not done"@])
        } else if s@ == "done"@ {
            Some(seq!["done"@])
        } else {
            None
        },
    }
}

/// The query lines the `tasks list` flags stand for, in the order the
/// flags are listed: status, `due <due>`, `done <done>`,
/// `priority is <priority>`, `tags include <tag>` for each tag,
/// `path includes <path>`, then `sort by <key>` for each sort key.
pub open spec fn flag_lines(cmd: TasksCmd) -> Option<Seq<Seq<char>>> {
    match cmd {
        TasksCmd::List { status, due, done, priority, tags, path, sort, .. } => match status_lines(
            status,
        ) {
            Some(st) => Some(
                st + optional_line("due "@, due) + optional_line("done "@, done) + optional_line(
                    "priority is "@,
                    priority,
                ) + prefixed_lines("tags include "@, tags@) + optional_line(
                    "path includes "@,
                    path,
                ) + prefixed_lines("sort by "@, sort@),
            ),
            None => None,
        },
    }
}

fn push_line(lines: &mut Vec<Vec<char>>, prefix: &str, value: &str)
    ensures
        final(lines)@.map_values(|l: Vec<char>| l@) == old(lines)@.map_values(|l: Vec<char>| l@).push(
            prefix@ + value@,
        ),
{
    let mut line = chars_of(prefix);
    let mut v = chars_of(value);
    line.append(&mut v);
    let ghost before = lines@;
    lines.push(line);
    assert(lines@.map_values(|l: Vec<char>| l@) =~= before.map_values(|l: Vec<char>| l@).push(
        prefix@ + value@,
    ));
}

fn push_each(lines: &mut Vec<Vec<char>>, prefix: &str, values: &Vec<String>)
    ensures
        final(lines)@.map_values(|l: Vec<char>| l@) == old(lines)@.map_values(|l: Vec<char>| l@)
            + prefixed_lines(prefix@, values@),
{
    let ghost start = lines@.map_values(|l: Vec<char>| l@);
    let mut i: usize = 0;
    while i < values.len()
        invariant
            i <= values@.len(),
            lines@.map_values(|l: Vec<char>| l@) == start + prefixed_lines(
                prefix@,
                values@.take(i as int),
            ),
        decreases values@.len() - i,
    {
        push_line(lines, prefix, values[i].as_str());
        assert(prefixed_lines(prefix@, values@.take(i + 1)) =~= prefixed_lines(
            prefix@,
            values@.take(i as int),
        ).push(prefix@ + values@[i as int]@));
        assert(start + prefixed_lines(prefix@, values@.take(i + 1)) =~= (start + prefixed_lines(
            prefix@,
            values@.take(i as int),
        )).push(prefix@ + values@[i as int]@));
        i = i + 1;
    }
    assert(values@.take(values@.len() as int) =~= values@);
}

fn push_status_line(lines: &mut Vec<Vec<char>>, status: &Option<String>) -> (r: Result<(), String>)
    ensures
        match status_lines(*status) {
            Some(st) => r is Ok && final(lines)@.map_values(|l: Vec<char>| l@) == old(lines)@.map_values(
                |l: Vec<char>| l@,
            ) + st,
            None => r is Err,
        },
{
    let ghost before = lines@.map_values(|l: Vec<char>| l@);
    match status {
        None => {
            assert(before + Seq::<Seq<char>>::empty() =~= before);
            Ok(())
        },
        Some(s) => {
            let v = chars_of(s.as_str());
            let all = vec!['a', 'l', 'l'];
            let open = vec!['o', 'p', 'e', 'n'];
            let done_word = vec!['d', 'o', 'n', 'e'];
            proof {
                reveal_strlit("all");
                reveal_strlit("open");
                reveal_strlit("done");
                reveal_strlit("not done");
                reveal_strlit("");
                assert(all@ =~= "all"@);
                assert(open@ =~= "open"@);
                assert(done_word@ =~= "done"@);
                assert("not done"@ + ""@ =~= "not done"@);
                assert("done"@ + ""@ =~= "done"@);
            }
            if eq_chars(&v, &all) {
                assert(before + Seq::<Seq<char>>::empty() =~= before);
                Ok(())
            } else if eq_chars(&v, &open) {
                push_line(lines, "not done", "");
                assert(before.push("not done"@) =~= before + seq!["not done"@]);
                Ok(())
            } else if eq_chars(&v, &done_word) {
                push_line(lines, "done", "");
                assert(before.push("done"@) =~= before + seq!["done"@]);
                Ok(())
            } else {
                let mut m = chars_of("unknown status '");
                m.append(&mut chars_of(s.as_str()));
                m.append(&mut chars_of("' (expected open, done or all)"));
                Err(string_of(&m))
            }
        },
    }
}

fn join_lines(lines: &Vec<Vec<char>>) -> (r: String)
    ensures
        r@ == joined(lines@.map_values(|l: Vec<char>| l@)),
{
    let ghost lv = lines@.map_values(|l: Vec<char>| l@);
    let mut out: Vec<char> = Vec::new();
    let mut i: usize = 0;
    while i < lines.len()
        invariant
            i <= lines@.len(),
            lv == lines@.map_values(|l: Vec<char>| l@),
            out@ == joined(lv.take(i as int)),
        decreases lines@.len() - i,
    {
        if i > 0 {
            out.push('\n');
        }
        let mut l = copy_range(&lines[i], 0, lines[i].len());
        out.append(&mut l);
        proof {
            assert(lv.take(i + 1).drop_last() =~= lv.take(i as int));
            assert(lines@[i as int]@.subrange(0, lines@[i as int]@.len() as int) =~= lv[i as int]);
        }
        i = i + 1;
    }
    assert(lv.take(lines@.len() as int) =~= lv);
    string_of(&out)
}

/// The query text `tasks list` runs: its `--query` when given (the other
/// flags are then ignored), otherwise one line per flag as
/// [`flag_lines`] lists them, joined with line feeds. An unknown
/// `--status` value is an error.
pub fn flags_to_query(cmd: &TasksCmd) -> (r: Result<String, String>)
    ensures
        match cmd {
            TasksCmd::List { query: Some(q), .. } => r matches Ok(t) && t@ == q@,
            TasksCmd::List { query: None, .. } => match flag_lines(*cmd) {
                Some(ls) => r matches Ok(t) && t@ == joined(ls),
                None => r is Err,
            },
        },
{
    let TasksCmd::List { status, due, done, priority, tags, path, sort, query, .. } = cmd;
    if let Some(q) = query {
        return Ok(q.clone());
    }
    let mut lines: Vec<Vec<char>> = Vec::new();
    push_status_line(&mut lines, status)?;
    if let Some(d) = due {
        push_line(&mut lines, "due ", d.as_str());
    }
    if let Some(d) = done {
        push_line(&mut lines, "done ", d.as_str());
    }
    if let Some(p) = priority {
        push_line(&mut lines, "priority is ", p.as_str());
    }
    push_each(&mut lines, "tags include ", tags);
    if let Some(p) = path {
        push_line(&mut lines, "path includes ", p.as_str());
    }
    push_each(&mut lines, "sort by ", sort);
    assert(lines@.map_values(|l: Vec<char>| l@) =~= flag_lines(*cmd)->0);
    Ok(join_lines(&lines))
}

// ---------------------------------------------------------------------------
// What the connectives and the flags mean
// ---------------------------------------------------------------------------

/// The truth table of each connective on the truth values of its two
/// operands.
pub open spec fn connective_holds(c: Connective, x: bool, y: bool) -> bool {
    match c {
        Connective::And => x && y,
        Connective::Or => x || y,
        Connective::AndNot => x && !y,
        Connective::OrNot => x || !y,
        Connective::Xor => x != y,
    }
}

/// `(a) AND (b)` accepts a task when both operands do, `OR` when either
/// does, `AND NOT` when the first does and the second does not, `OR NOT`
/// when the first does or the second does not, and `XOR` when exactly one
/// of the two does.
pub proof fn law_connectives(c: Connective, a: FilterView, b: FilterView, t: TaskView)
    ensures
        filter_holds(combined(c, a, b), t) == connective_holds(
            c,
            filter_holds(a, t),
            filter_holds(b, t),
        ),
{
    let nb = FilterView::Not(Box::new(b));
    law_and_or(seq![a, b], t);
    law_and_or(seq![a, nb], t);
    let either = FilterView::Or(seq![a, b]);
    let both = FilterView::And(seq![a, b]);
    let neither_both = FilterView::Not(Box::new(both));
    law_and_or(seq![either, neither_both], t);
    assert(seq![a, b][0] == a && seq![a, b][1] == b);
    assert(seq![a, nb][0] == a && seq![a, nb][1] == nb);
    assert(seq![either, neither_both][0] == either && seq![either, neither_both][1] == neither_both);
    if filter_holds(a, t) && filter_holds(b, t) {
        assert(filter_holds(seq![a, b][0], t) && filter_holds(seq![a, b][1], t));
    }
    if filter_holds(a, t) && !filter_holds(nb, t) {
        assert(!filter_holds(seq![a, nb][1], t));
    }
    if !filter_holds(a, t) && filter_holds(nb, t) {
        assert(filter_holds(seq![a, nb][1], t));
    }
    if filter_holds(a, t) {
        assert(filter_holds(seq![a, b][0], t));
        assert(filter_holds(seq![a, nb][0], t));
    }
    if filter_holds(b, t) {
        assert(filter_holds(seq![a, b][1], t));
    }
    if !filter_holds(b, t) {
        assert(filter_holds(seq![a, nb][1], t));
    }
    if filter_holds(either, t) && filter_holds(neither_both, t) {
        assert(filter_holds(seq![either, neither_both][0], t));
    }
    if filter_holds(either, t) && !filter_holds(neither_both, t) {
        assert(!filter_holds(seq![either, neither_both][1], t));
    }
    if !filter_holds(either, t) {
        assert(!filter_holds(seq![either, neither_both][0], t));
    }
}

/// A line `(first) <connective> (second)` whose two operands parse (and
/// that is not a `NOT (...)` line) parses to a filter accepting exactly the
/// tasks the connective's truth table gives from the operands' filters:
/// `XOR` those accepted by exactly one of them.
pub proof fn law_combined_line(line: Seq<char>, today: (int, int, int), t: TaskView)
    requires
        !(strip_ci(line, "not "@) is Some && parenthesized(trim(strip_ci(line, "not "@)->0)) is Some),
        parenthesized_prefix(line) is Some,
        trim(line.skip(parenthesized_prefix(line)->0.len() + 2int)).len() > 0,
        connective_of(trim(line.skip(parenthesized_prefix(line)->0.len() + 2int))) is Some,
        simple_filter(parenthesized_prefix(line)->0, today) is Parsed,
        simple_filter(
            second_operand(
                trim(line.skip(parenthesized_prefix(line)->0.len() + 2int)),
                connective_of(trim(line.skip(parenthesized_prefix(line)->0.len() + 2int)))->0,
            )->0,
            today,
        ) is Parsed,
    ensures
        ({
            let first = parenthesized_prefix(line)->0;
            let rest = trim(line.skip(first.len() + 2int));
            let c = connective_of(rest)->0;
            let fa = simple_filter(first, today)->Parsed_0;
            let fb = simple_filter(second_operand(rest, c)->0, today)->Parsed_0;
            filter_line(line, today) matches Outcome::Parsed(f) && filter_holds(f, t)
                == connective_holds(c, filter_holds(fa, t), filter_holds(fb, t))
        }),
{
    let first = parenthesized_prefix(line)->0;
    let rest = trim(line.skip(first.len() + 2int));
    let c = connective_of(rest)->0;
    let fa = simple_filter(first, today)->Parsed_0;
    let fb = simple_filter(second_operand(rest, c)->0, today)->Parsed_0;
    law_connectives(c, fa, fb, t);
}

/// The `tasks list` command with the given `--due`, `--done`,
/// `--priority` and `--path` values, no `--status` and no `--query`.
pub open spec fn list_with(
    due: Option<String>,
    done: Option<String>,
    priority: Option<String>,
    path: Option<String>,
    tags: Vec<String>,
    sort: Vec<String>,
    verbose: bool,
) -> TasksCmd {
    TasksCmd::List { status: None, due, done, priority, tags, path, sort, query: None, verbose }
}

/// Each of the `tasks list` flags `--due`, `--done`, `--priority` and
/// `--path`, given alone, stands for one query line: `--due V` for `due V`,
/// `--done V` for `done V` (a done-date filter, never a due-date one),
/// `--priority V` for `priority is V` and `--path P` for `path includes P`;
/// with no flag at all the query has no line.
pub proof fn law_each_flag_is_one_line(
    v: String,
    tags: Vec<String>,
    sort: Vec<String>,
    verbose: bool,
)
    requires
        tags@.len() == 0,
        sort@.len() == 0,
    ensures
        joined(flag_lines(list_with(Some(v), None, None, None, tags, sort, verbose))->0) == seq![
            'd',
            'u',
            'e',
            ' ',
        ] + v@,
        joined(flag_lines(list_with(None, Some(v), None, None, tags, sort, verbose))->0) == seq![
            'd',
            'o',
            'n',
            'e',
            ' ',
        ] + v@,
        joined(flag_lines(list_with(None, None, Some(v), None, tags, sort, verbose))->0) == seq![
            'p',
            'r',
            'i',
            'o',
            'r',
            'i',
            't',
            'y',
            ' ',
            'i',
            's',
            ' ',
        ] + v@,
        joined(flag_lines(list_with(None, None, None, Some(v), tags, sort, verbose))->0) == seq![
            'p',
            'a',
            't',
            'h',
            ' ',
            'i',
            'n',
            'c',
            'l',
            'u',
            'd',
            'e',
            's',
            ' ',
        ] + v@,
        flag_lines(list_with(None, None, None, None, tags, sort, verbose)) == Some(
            Seq::<Seq<char>>::empty(),
        ),
{
    reveal_strlit("due ");
    reveal_strlit("done ");
    reveal_strlit("priority is ");
    reveal_strlit("path includes ");
    let e: Seq<Seq<char>> = Seq::empty();
    assert(prefixed_lines("tags include "@, tags@) =~= e);
    assert(prefixed_lines("sort by "@, sort@) =~= e);
    assert(flag_lines(list_with(Some(v), None, None, None, tags, sort, verbose))->0 =~= seq![
        "due "@ + v@,
    ]);
    assert(flag_lines(list_with(None, Some(v), None, None, tags, sort, verbose))->0 =~= seq![
        "done "@ + v@,
    ]);
    assert(flag_lines(list_with(None, None, Some(v), None, tags, sort, verbose))->0 =~= seq![
        "priority is "@ + v@,
    ]);
    assert(flag_lines(list_with(None, None, None, Some(v), tags, sort, verbose))->0 =~= seq![
        "path includes "@ + v@,
    ]);
    assert(flag_lines(list_with(None, None, None, None, tags, sort, verbose))->0 =~= e);
}

/// `--status open` alone stands for the line `not done`, `--status done`
/// for `done`, and `--status all` for no line at all.
pub proof fn law_status_flag(st: String, tags: Vec<String>, sort: Vec<String>, verbose: bool)
    requires
        tags@.len() == 0,
        sort@.len() == 0,
    ensures
        st@ == seq!['o', 'p', 'e', 'n'] ==> joined(
            flag_lines(
                TasksCmd::List {
                    status: Some(st),
                    due: None,
                    done: None,
                    priority: None,
                    tags,
                    path: None,
                    sort,
                    query: None,
                    verbose,
                },
            )->0,
        ) == seq!['n', 'o', 't', ' ', 'd', 'o', 'n', 'e'],
        st@ == seq!['d', 'o', 'n', 'e'] ==> joined(
            flag_lines(
                TasksCmd::List {
                    status: Some(st),
                    due: None,
                    done: None,
                    priority: None,
                    tags,
                    path: None,
                    sort,
                    query: None,
                    verbose,
                },
            )->0,
        ) == seq!['d', 'o', 'n', 'e'],
        st@ == seq!['a', 'l', 'l'] ==> flag_lines(
            TasksCmd::List {
                status: Some(st),
                due: None,
                done: None,
                priority: None,
                tags,
                path: None,
                sort,
                query: None,
                verbose,
            },
        ) == Some(Seq::<Seq<char>>::empty()),
{
    reveal_strlit("open");
    reveal_strlit("done");
    reveal_strlit("all");
    reveal_strlit("not done");
    let e: Seq<Seq<char>> = Seq::empty();
    assert(prefixed_lines("tags include "@, tags@) =~= e);
    assert(prefixed_lines("sort by "@, sort@) =~= e);
    let cmd = TasksCmd::List {
        status: Some(st),
        due: None,
        done: None,
        priority: None,
        tags,
        path: None,
        sort,
        query: None,
        verbose,
    };
    assert("all"@ =~= seq!['a', 'l', 'l']);
    assert("open"@ =~= seq!['o', 'p', 'e', 'n']);
    assert("done"@ =~= seq!['d', 'o', 'n', 'e']);
    assert("not done"@ =~= seq!['n', 'o', 't', ' ', 'd', 'o', 'n', 'e']);
    if st@ == seq!['o', 'p', 'e', 'n'] {
        assert(st@ != "all"@);
        assert(status_lines(Some(st)) == Some(seq!["not done"@]));
        assert(flag_lines(cmd)->0 =~= seq!["not done"@]);
    }
    if st@ == seq!['d', 'o', 'n', 'e'] {
        assert(st@ != "all"@ && st@ != "open"@);
        assert(status_lines(Some(st)) == Some(seq!["done"@]));
        assert(flag_lines(cmd)->0 =~= seq!["done"@]);
    }
    if st@ == seq!['a', 'l', 'l'] {
        assert(flag_lines(cmd)->0 =~= e);
    }
}

} // verus!
