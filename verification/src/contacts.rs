//! Contact notes in the obsidian-contacts plugin's "Frontmatter Format":
//! the fields read from a note's frontmatter, birthdays, and birthday
//! windows.
//!
//! Only this format is supported; the plugin's alternate "Custom Format"
//! (a `/---contact---/` Markdown table) is not read. Decoding the YAML
//! itself is left to the caller: [`quote_reserved_indicator_scalars`]
//! prepares the frontmatter text for it, and [`contact_from_frontmatter`]
//! reads the decoded fields.
use vstd::prelude::*;

use crate::date::{
    date_le, date_lt, day_number, lemma_day_number_bounds, lemma_day_number_injective,
    naive_date_from_str, parse_date, valid_ymd, Date,
};
use crate::text::{
    chars_of, copy_range, eq_chars, index_from, index_of, joined, lines, lines_of, parse_u32,
    parse_u32_spec,
    push_chars, string_of, trim, trim_bounds,
};

verus! {

// ---------------------------------------------------------------------------
// Contacts
// ---------------------------------------------------------------------------

/// A contact parsed from a note's YAML frontmatter.
#[derive(Debug, Clone, PartialEq, Eq)]
pub struct Contact {
    pub first_name: String,
    pub last_name: Option<String>,
    /// Birthdate. Only the month and day are meaningful for "is it
    /// today": the year is a birth year when `birth_year_known` is true,
    /// and otherwise a leap-year placeholder (see [`parse_birthday`]) that
    /// callers must not display.
    pub birthday: Date,
    /// Whether `birthday`'s year is an actual birth year, rather than the
    /// placeholder substituted for the ISO 8601 reduced-precision
    /// `--MM-DD` form (a birthday with no known year).
    pub birth_year_known: bool,
}

pub struct ContactView {
    pub first_name: Seq<char>,
    pub last_name: Option<Seq<char>>,
    pub birthday: (int, int, int),
    pub birth_year_known: bool,
}

pub open spec fn opt_chars(s: Option<String>) -> Option<Seq<char>> {
    match s {
        Some(t) => Some(t@),
        None => None,
    }
}

impl View for Contact {
    type V = ContactView;

    open spec fn view(&self) -> ContactView {
        ContactView {
            first_name: self.first_name@,
            last_name: opt_chars(self.last_name),
            birthday: self.birthday@,
            birth_year_known: self.birth_year_known,
        }
    }
}

impl Contact {
    /// "First Last", or just "First" when the note has no last name.
    pub fn display_name(&self) -> (r: String)
        ensures
            r@ == match self.last_name {
                Some(last) => self.first_name@ + seq![' '] + last@,
                None => self.first_name@,
            },
    {
        match &self.last_name {
            Some(last) => {
                let mut v = chars_of(self.first_name.as_str());
                v.push(' ');
                let mut l = chars_of(last.as_str());
                v.append(&mut l);
                string_of(&v)
            },
            None => self.first_name.clone(),
        }
    }
}

// ---------------------------------------------------------------------------
// Birthdays
// ---------------------------------------------------------------------------

/// The year a birthday written without one is placed in: a leap year, so
/// that `--02-29` stays a real date.
pub open spec fn placeholder_year() -> int {
    4
}

/// A `birthday` value as a date and whether its year is known: a full date
/// as `NaiveDate`'s `FromStr` reads it, or the ISO 8601 reduced-precision
/// form `--MM-DD` (month and day as `u32::from_str` reads them, split at
/// the first `-`), placed in [`placeholder_year`].
pub open spec fn birthday_of(raw: Seq<char>) -> Option<((int, int, int), bool)> {
    if raw.len() >= 2 && raw[0] == '-' && raw[1] == '-' {
        let md = raw.skip(2);
        match index_from(md, '-', 0) {
            Some(k) => match (parse_u32_spec(md.take(k)), parse_u32_spec(md.skip(k + 1))) {
                (Some(m), Some(d)) => if valid_ymd(placeholder_year(), m as int, d as int) {
                    Some(((placeholder_year(), m as int, d as int), false))
                } else {
                    None
                },
                _ => None,
            },
            None => None,
        }
    } else {
        match naive_date_from_str(raw) {
            Some(v) => Some((v, true)),
            None => None,
        }
    }
}

/// Parse a `birthday` frontmatter value into a date and whether its year
/// is actually known.
///
/// Accepts a full `YYYY-MM-DD` date, and the ISO 8601 reduced-precision
/// form `--MM-DD` the obsidian-contacts plugin accepts for a birthday
/// whose year is unknown. For `--MM-DD` the date's year is a leap-year
/// placeholder, so a February 29 stays constructible (and, like a
/// full-year February 29, is only matched in leap years); the `bool` is
/// `false` so callers know not to display it.
pub fn parse_birthday(raw: &str) -> (r: Option<(Date, bool)>)
    ensures
        match (r, birthday_of(raw@)) {
            (Some((d, known)), Some((v, k))) => d@ == v && known == k,
            (None, None) => true,
            _ => false,
        },
{
    let v = chars_of(raw);
    if v.len() >= 2 && v[0] == '-' && v[1] == '-' {
        let md = copy_range(&v, 2, v.len());
        proof {
            assert(md@ =~= raw@.skip(2));
        }
        match index_of(&md, 0, '-') {
            Some(k) => {
                let month_text = copy_range(&md, 0, k);
                let day_text = copy_range(&md, k + 1, md.len());
                proof {
                    assert(month_text@ =~= md@.take(k as int));
                    assert(day_text@ =~= md@.skip(k + 1));
                }
                match (parse_u32(&month_text), parse_u32(&day_text)) {
                    (Some(m), Some(d)) => match Date::from_ymd_opt(4, m, d) {
                        Some(date) => Some((date, false)),
                        None => None,
                    },
                    _ => None,
                }
            },
            None => None,
        }
    } else {
        match parse_date(raw) {
            Some(d) => Some((d, true)),
            None => None,
        }
    }
}

/// The next date on or after `today` that falls on the birthday's month
/// and day in year `y`, if there is one.
pub open spec fn occurrence_in(y: int, birthday: (int, int, int), today: (int, int, int)) -> Option<
    (int, int, int),
> {
    if valid_ymd(y, birthday.1, birthday.2) && date_le(today, (y, birthday.1, birthday.2)) {
        Some((y, birthday.1, birthday.2))
    } else {
        None
    }
}

/// The next date the birthday's month and day fall on, on or after
/// `today`: this year's or next year's.
pub open spec fn next_birthday(birthday: (int, int, int), today: (int, int, int)) -> Option<
    (int, int, int),
> {
    match occurrence_in(today.0, birthday, today) {
        Some(o) => Some(o),
        None => occurrence_in(today.0 + 1, birthday, today),
    }
}

/// Days from `today` to the next birthday, as `i32`.
pub open spec fn days_to_birthday(birthday: (int, int, int), today: (int, int, int)) -> Option<i32> {
    match next_birthday(birthday, today) {
        Some(o) => Some((day_number(o) - day_number(today)) as i32),
        None => None,
    }
}

fn occurrence_exec(y: i32, contact: &Contact, today: &Date) -> (r: Option<Date>)
    requires
        y <= 262143,
    ensures
        match r {
            Some(d) => occurrence_in(y as int, contact.birthday@, today@) == Some(d@),
            None => occurrence_in(y as int, contact.birthday@, today@) is None,
        },
{
    match Date::from_ymd_opt(y, contact.birthday.month(), contact.birthday.day()) {
        Some(o) => if o.is_before(today) {
            None
        } else {
            Some(o)
        },
        None => None,
    }
}

/// The next calendar date `contact.birthday`'s month/day falls on, on or
/// after `today`. Checks `today`'s year and the next one; `None` only for
/// a February 29 birthday when neither year is a leap year (it does not
/// roll over to March 1).
pub fn next_occurrence(contact: &Contact, today: Date) -> (r: Option<Date>)
    ensures
        match r {
            Some(d) => next_birthday(contact.birthday@, today@) == Some(d@),
            None => next_birthday(contact.birthday@, today@) is None,
        },
{
    let y = today.year();
    match occurrence_exec(y, contact, &today) {
        Some(o) => Some(o),
        None => occurrence_exec(y + 1, contact, &today),
    }
}

/// Days from `today` until `contact`'s next birthday (`0` if it's today).
/// `None` exactly when [`next_occurrence`] is `None`.
pub fn days_until_birthday(contact: &Contact, today: Date) -> (r: Option<i32>)
    ensures
        r == days_to_birthday(contact.birthday@, today@),
{
    match next_occurrence(contact, today) {
        Some(o) => Some(o.days_since(&today) as i32),
        None => None,
    }
}

/// True if `contact`'s birthday falls on `today`.
pub fn is_birthday_today(contact: &Contact, today: Date) -> (r: bool)
    ensures
        r == (days_to_birthday(contact.birthday@, today@) == Some(0i32)),
{
    match days_until_birthday(contact, today) {
        Some(d) => d == 0,
        None => false,
    }
}

/// The age `contact` turns on their next birthday. `None` when the birth
/// year isn't known or when [`next_occurrence`] is `None`.
pub fn age_at_next_occurrence(contact: &Contact, today: Date) -> (r: Option<i32>)
    ensures
        r == if !contact.birth_year_known {
            None
        } else {
            match next_birthday(contact.birthday@, today@) {
                Some(o) => Some((o.0 - contact.birthday@.0) as i32),
                None => None,
            }
        },
{
    if !contact.birth_year_known {
        return None;
    }
    match next_occurrence(contact, today) {
        Some(o) => Some(o.year() - contact.birthday.year()),
        None => None,
    }
}

/// True if `contact`'s next birthday falls within the next `days` days,
/// counting `today` as the first of them (so `days == 1` matches only
/// today, `days == 7` today through six days out, and so on).
pub fn is_birthday_within(contact: &Contact, today: Date, days: i32) -> (r: bool)
    ensures
        r == within_window(contact.birthday@, today@, days as int),
{
    match days_until_birthday(contact, today) {
        Some(until) => until < days,
        None => false,
    }
}

/// Whether the next birthday is fewer than `days` days away.
pub open spec fn within_window(birthday: (int, int, int), today: (int, int, int), days: int) -> bool {
    match days_to_birthday(birthday, today) {
        Some(until) => until < days,
        None => false,
    }
}

/// The next birthday falls on the birthday's month and day, on or after
/// today, in this year or the next; the count of days to it is never
/// negative, is zero exactly when the next birthday is today, and is
/// missing exactly when there is no next birthday.
pub proof fn law_next_birthday(birthday: (int, int, int), today: (int, int, int))
    requires
        valid_ymd(birthday.0, birthday.1, birthday.2),
        valid_ymd(today.0, today.1, today.2),
    ensures
        next_birthday(birthday, today) matches Some(o) ==> {
            &&& date_le(today, o)
            &&& o.1 == birthday.1 && o.2 == birthday.2
            &&& o.0 == today.0 || o.0 == today.0 + 1
        },
        days_to_birthday(birthday, today) matches Some(n) ==> n >= 0 && (n == 0
            <==> next_birthday(birthday, today) == Some(today)),
        days_to_birthday(birthday, today) is None <==> next_birthday(birthday, today) is None,
{
    match next_birthday(birthday, today) {
        Some(o) => {
            lemma_day_number_injective(today, o);
            lemma_day_number_bounds(today);
            lemma_day_number_bounds(o);
            let diff = day_number(o) - day_number(today);
            assert(0 <= diff <= 400_000_000);
            assert((diff as i32) == diff);
        },
        None => {},
    }
}

/// Every birthday has a next occurrence except a February 29 one, which
/// has none when this year's has passed or does not exist and the next year
/// is not a leap year. (Not stated for today's year being the last one
/// `chrono` represents, whose next year it cannot represent.)
pub proof fn law_only_leap_day_birthdays_can_lack_a_next_one(birthday: (int, int, int), today: (
    int,
    int,
    int,
))
    requires
        valid_ymd(birthday.0, birthday.1, birthday.2),
        valid_ymd(today.0, today.1, today.2),
        today.0 < crate::date::MAX_YEAR,
    ensures
        next_birthday(birthday, today) is None ==> birthday.1 == 2 && birthday.2 == 29,
{
    if !(birthday.1 == 2 && birthday.2 == 29) {
        assert(valid_ymd(today.0 + 1, birthday.1, birthday.2));
        assert(date_le(today, (today.0 + 1, birthday.1, birthday.2)));
    }
}

/// A birthday is today exactly when today falls on its month and day, so
/// a February 29 birthday is only ever today in a leap year.
pub proof fn law_birthday_today_is_month_and_day(birthday: (int, int, int), today: (
    int,
    int,
    int,
))
    requires
        valid_ymd(birthday.0, birthday.1, birthday.2),
        valid_ymd(today.0, today.1, today.2),
    ensures
        (days_to_birthday(birthday, today) == Some(0i32)) <==> (today.1 == birthday.1 && today.2
            == birthday.2),
{
    law_next_birthday(birthday, today);
    if today.1 == birthday.1 && today.2 == birthday.2 {
        assert(occurrence_in(today.0, birthday, today) == Some(today));
        lemma_day_number_bounds(today);
    }
}

/// A window of one day holds exactly the birthdays that are today, and a
/// window holds every birthday a narrower one holds.
pub proof fn law_birthday_windows(birthday: (int, int, int), today: (int, int, int), narrow: int, wide: int)
    requires
        valid_ymd(birthday.0, birthday.1, birthday.2),
        valid_ymd(today.0, today.1, today.2),
    ensures
        within_window(birthday, today, BirthdayWindow::Today.span()) <==> days_to_birthday(
            birthday,
            today,
        ) == Some(0i32),
        narrow <= wide && within_window(birthday, today, narrow) ==> within_window(
            birthday,
            today,
            wide,
        ),
{
    law_next_birthday(birthday, today);
}

// ---------------------------------------------------------------------------
// Reading a contact note's frontmatter
// ---------------------------------------------------------------------------

/// The `name` mapping of a contact's frontmatter.
#[derive(Debug, Clone, PartialEq, Eq)]
pub struct RawName {
    pub first: Option<String>,
    pub last: Option<String>,
}

/// The frontmatter fields a contact is read from (`type`, `name`,
/// `birthday`); every other key (`phone`, `telegram`, ...) is ignored.
#[derive(Debug, Clone, PartialEq, Eq)]
pub struct RawFrontmatter {
    pub kind: Option<String>,
    pub name: Option<RawName>,
    pub birthday: Option<String>,
}

pub open spec fn contact_kind() -> Seq<char> {
    seq!['c', 'o', 'n', 't', 'a', 'c', 't']
}

/// The contact decoded frontmatter describes: its `type` is `contact`, it
/// has a `name` with a `first` entry and a `birthday` that
/// [`birthday_of`] reads.
pub open spec fn contact_of(raw: RawFrontmatter) -> Option<ContactView> {
    if opt_chars(raw.kind) != Some(contact_kind()) {
        None
    } else {
        match raw.name {
            Some(name) => match raw.birthday {
                Some(b) => match birthday_of(b@) {
                    Some((date, known)) => match name.first {
                        Some(first) => Some(
                            ContactView {
                                first_name: first@,
                                last_name: opt_chars(name.last),
                                birthday: date,
                                birth_year_known: known,
                            },
                        ),
                        None => None,
                    },
                    None => None,
                },
                None => None,
            },
            None => None,
        }
    }
}

/// The contact a note's decoded frontmatter describes; `None` when its
/// `type` isn't `contact`, or it's missing `name.first` or a parseable
/// `birthday` (a non-contact or malformed note is skipped, not an error).
pub fn contact_from_frontmatter(raw: RawFrontmatter) -> (r: Option<Contact>)
    ensures
        match r {
            Some(c) => contact_of(raw) == Some(c@),
            None => contact_of(raw) is None,
        },
{
    let is_contact = match &raw.kind {
        Some(k) => {
            let kv = chars_of(k.as_str());
            let want = vec!['c', 'o', 'n', 't', 'a', 'c', 't'];
            assert(want@ =~= contact_kind());
            eq_chars(&kv, &want)
        },
        None => false,
    };
    if !is_contact {
        return None;
    }
    let name = match raw.name {
        Some(n) => n,
        None => return None,
    };
    let birthday = match raw.birthday {
        Some(b) => b,
        None => return None,
    };
    let (date, known) = match parse_birthday(birthday.as_str()) {
        Some(p) => p,
        None => return None,
    };
    match name.first {
        Some(first) => Some(
            Contact { first_name: first, last_name: name.last, birthday: date, birth_year_known: known },
        ),
        None => None,
    }
}

// ---------------------------------------------------------------------------
// Reserved YAML indicators
// ---------------------------------------------------------------------------

/// Index of the first `": "` in `s` at or after `j`.
pub open spec fn colon_space_from(s: Seq<char>, j: int) -> Option<int>
    decreases s.len() - j,
{
    if 0 <= j && j + 1 < s.len() {
        if s[j] == ':' && s[j + 1] == ' ' {
            Some(j)
        } else {
            colon_space_from(s, j + 1)
        }
    } else {
        None
    }
}

/// The value of a `key: value` line when it starts with one of the two
/// YAML indicators reserved for future use, `@` and `` ` ``: the text after
/// the first `": "`, whose key part is not blank.
pub open spec fn unquoted_value_of(line: Seq<char>) -> Option<Seq<char>> {
    match colon_space_from(line, 0) {
        Some(k) => {
            if trim(line.take(k)).len() == 0 {
                None
            } else {
                let v = line.skip(k + 2);
                if v.len() > 0 && (v[0] == '@' || v[0] == '`') {
                    Some(v)
                } else {
                    None
                }
            }
        },
        None => None,
    }
}

fn colon_space_exec(s: &[char]) -> (r: Option<usize>)
    ensures
        colon_space_from(s@, 0) == match r {
            Some(i) => Some(i as int),
            None => None::<int>,
        },
        r matches Some(i) ==> i + 1 < s@.len(),
{
    let mut j: usize = 0;
    while j < s.len() && j + 1 < s.len()
        invariant
            j <= s@.len(),
            colon_space_from(s@, j as int) == colon_space_from(s@, 0),
        decreases s@.len() - j,
    {
        if s[j] == ':' && s[j + 1] == ' ' {
            return Some(j);
        }
        j = j + 1;
    }
    None
}

/// If `line` is a `key: value` pair whose value starts with a reserved
/// YAML indicator, the index where that value (as written) starts.
pub fn unquoted_value(line: &[char]) -> (r: Option<usize>)
    ensures
        match r {
            Some(i) => i <= line@.len() && unquoted_value_of(line@) == Some(line@.skip(i as int)),
            None => unquoted_value_of(line@) is None,
        },
{
    let n = line.len();
    match colon_space_exec(line) {
        Some(k) => {
            let (a, b) = trim_bounds(&line[0..k]);
            proof {
                assert(line@.subrange(0, k as int) =~= line@.take(k as int));
            }
            if a == b {
                return None;
            }
            let start = k + 2;
            if start < line.len() && (line[start] == '@' || line[start] == '`') {
                Some(start)
            } else {
                None
            }
        },
        None => None,
    }
}

/// `value` with every `\` and `"` escaped by a backslash, as inside a
/// double-quoted YAML scalar.
pub open spec fn escaped(v: Seq<char>) -> Seq<char>
    decreases v.len(),
{
    if v.len() == 0 {
        Seq::empty()
    } else {
        let c = v.last();
        escaped(v.drop_last()) + if c == '\\' || c == '"' {
            seq!['\\', c]
        } else {
            seq![c]
        }
    }
}

/// A line with its reserved-indicator value double-quoted, or the line as
/// it is.
pub open spec fn quoted_line(line: Seq<char>) -> Seq<char> {
    match unquoted_value_of(line) {
        Some(v) => line.take(line.len() - v.len()) + seq!['"'] + escaped(v) + seq!['"'],
        None => line,
    }
}

/// The frontmatter text with every plain `key: value` line whose value
/// starts with `@` or `` ` `` rewritten to quote that value; the text as
/// it is when no line needs it.
pub open spec fn quote_reserved(raw: Seq<char>) -> Seq<char> {
    let ls = lines(raw);
    if exists|i: int| 0 <= i < ls.len() && (#[trigger] unquoted_value_of(ls[i])) is Some {
        joined(ls.map_values(|l: Seq<char>| quoted_line(l)))
    } else {
        raw
    }
}

fn quoted_line_exec(line: &[char]) -> (r: Vec<char>)
    ensures
        r@ == quoted_line(line@),
{
    match unquoted_value(line) {
        Some(start) => {
            let mut out = copy_range(line, 0, start);
            out.push('"');
            let mut i = start;
            while i < line.len()
                invariant
                    start <= i <= line@.len(),
                    out@ == line@.take(start as int) + seq!['"'] + escaped(
                        line@.subrange(start as int, i as int),
                    ),
                decreases line@.len() - i,
            {
                let c = line[i];
                if c == '\\' || c == '"' {
                    out.push('\\');
                }
                out.push(c);
                proof {
                    let s = line@.subrange(start as int, i + 1);
                    assert(s.drop_last() =~= line@.subrange(start as int, i as int));
                }
                i = i + 1;
            }
            out.push('"');
            proof {
                assert(line@.subrange(start as int, line@.len() as int) =~= line@.skip(
                    start as int,
                ));
                assert(line@.take(start as int) =~= line@.take(
                    line@.len() - line@.skip(start as int).len(),
                ));
            }
            out
        },
        None => copy_range(line, 0, line.len()),
    }
}

/// Quote plain YAML scalars that begin with `@` or `` ` `` -- the two
/// "reserved for future use" indicator characters that no compliant
/// parser accepts unquoted. The obsidian-contacts plugin's own template
/// writes `telegram: @handle` this way, which would otherwise fail the
/// whole document's parse over one field that is not even read.
///
/// Only simple `key: value` lines are rewritten (nested ones too, e.g.
/// `  first: value`); block scalars and flow collections are left alone.
pub fn quote_reserved_indicator_scalars(raw: &str) -> (r: String)
    ensures
        r@ == quote_reserved(raw@),
{
    let v = chars_of(raw);
    let ls = lines_of(&v);
    let ghost lv = ls@.map_values(|l: Vec<char>| l@);
    let mut any = false;
    let mut i: usize = 0;
    while i < ls.len()
        invariant
            i <= ls@.len(),
            lv == ls@.map_values(|l: Vec<char>| l@),
            any <==> exists|j: int| 0 <= j < i && (#[trigger] unquoted_value_of(lv[j])) is Some,
        decreases ls@.len() - i,
    {
        proof {
            assert(lv[i as int] == ls@[i as int]@);
        }
        if unquoted_value(&ls[i]).is_some() {
            any = true;
        }
        i = i + 1;
    }
    if !any {
        return raw.to_owned();
    }
    let ghost qs = lv.map_values(|l: Seq<char>| quoted_line(l));
    let mut out: Vec<char> = Vec::new();
    let mut i: usize = 0;
    while i < ls.len()
        invariant
            i <= ls@.len(),
            lv == ls@.map_values(|l: Vec<char>| l@),
            qs == lv.map_values(|l: Seq<char>| quoted_line(l)),
            out@ == joined(qs.take(i as int)),
        decreases ls@.len() - i,
    {
        if i > 0 {
            out.push('\n');
        }
        let mut q = quoted_line_exec(&ls[i]);
        out.append(&mut q);
        proof {
            assert(qs.take(i + 1).drop_last() =~= qs.take(i as int));
        }
        i = i + 1;
    }
    proof {
        assert(qs.take(ls@.len() as int) =~= qs);
    }
    string_of(&out)
}

// ---------------------------------------------------------------------------
// Birthday windows
// ---------------------------------------------------------------------------

/// How far ahead `contacts birthdays` should look for a match.
#[derive(Debug, Clone, Copy, PartialEq, Eq, Structural)]
pub enum BirthdayWindow {
    Today,
    Week,
    Month,
}

pub open spec fn window_named(s: Seq<char>) -> Option<BirthdayWindow> {
    if s == seq!['t', 'o', 'd', 'a', 'y'] {
        Some(BirthdayWindow::Today)
    } else if s == seq!['w', 'e', 'e', 'k'] {
        Some(BirthdayWindow::Week)
    } else if s == seq!['m', 'o', 'n', 't', 'h'] {
        Some(BirthdayWindow::Month)
    } else {
        None
    }
}

impl BirthdayWindow {
    /// Parse the `window` CLI argument (`today`, `week`, `month`).
    pub fn parse(s: &str) -> (r: Option<Self>)
        ensures
            r == window_named(s@),
    {
        let v = chars_of(s);
        let today = vec!['t', 'o', 'd', 'a', 'y'];
        let week = vec!['w', 'e', 'e', 'k'];
        let month = vec!['m', 'o', 'n', 't', 'h'];
        assert(today@ =~= seq!['t', 'o', 'd', 'a', 'y']);
        assert(week@ =~= seq!['w', 'e', 'e', 'k']);
        assert(month@ =~= seq!['m', 'o', 'n', 't', 'h']);
        if eq_chars(&v, &today) {
            Some(BirthdayWindow::Today)
        } else if eq_chars(&v, &week) {
            Some(BirthdayWindow::Week)
        } else if eq_chars(&v, &month) {
            Some(BirthdayWindow::Month)
        } else {
            None
        }
    }

    pub open spec fn span(self) -> int {
        match self {
            BirthdayWindow::Today => 1,
            BirthdayWindow::Week => 7,
            BirthdayWindow::Month => 31,
        }
    }

    /// Window size in days, counting today as the first of them.
    pub fn days(self) -> (r: i32)
        ensures
            r == self.span(),
    {
        match self {
            BirthdayWindow::Today => 1,
            BirthdayWindow::Week => 7,
            BirthdayWindow::Month => 31,
        }
    }

    /// Printed when no contact's birthday falls inside the window.
    pub fn none_message(self) -> (r: &'static str)
        ensures
            r@ == match self {
                BirthdayWindow::Today => "no birthdays today"@,
                BirthdayWindow::Week => "no birthdays this week"@,
                BirthdayWindow::Month => "no birthdays this month"@,
            },
    {
        match self {
            BirthdayWindow::Today => "no birthdays today",
            BirthdayWindow::Week => "no birthdays this week",
            BirthdayWindow::Month => "no birthdays this month",
        }
    }

    /// Whether listed contacts should be suffixed with their next
    /// birthday's date: redundant for `Today` (it's always today), useful
    /// once the window spans more than a single day.
    pub fn shows_date(self) -> (r: bool)
        ensures
            r == !(self is Today),
    {
        !matches!(self, BirthdayWindow::Today)
    }
}

} // verus!
