//! The signifier grammar of a task line: `📅`/`⏳`/`🛫`/`✅`/`➕`/`❌`
//! followed by a `YYYY-MM-DD` date, the priority marks `🔺 ⏫ 🔼 🔽 ⏬`,
//! `#tags`, and the whitespace normalisation of the description.
//!
//! Each marker is found the way the regex `\s*<marker>\s*(\d{4}-\d{2}-\d{2})`
//! finds it (leftmost match, Unicode `\s` and `\d`), and the matched text,
//! with the whitespace before it, is removed from the line.
use vstd::prelude::*;

use crate::date::{naive_date_from_str, parse_date, Date};
use crate::tasks::Priority;
use crate::text::{
    is_whitespace, is_ws, lead_ws, lemma_lead_ws, lemma_lead_ws_unique, lemma_trail_ws,
    lemma_trail_ws_unique, occurs_at, seq_contains, string_of_range, trail_ws, trim, trim_bounds,
    trim_start,
};

verus! {

/// Unicode general category `Nd` (decimal digits) as of Unicode 16.0, the
/// class `\d` of the regex crate.
pub open spec fn is_decimal_digit(c: char) -> bool {
    let u = c as u32;
    ||| (0x30 <= u && u <= 0x39)
    ||| (0x660 <= u && u <= 0x669)
    ||| (0x6f0 <= u && u <= 0x6f9)
    ||| (0x7c0 <= u && u <= 0x7c9)
    ||| (0x966 <= u && u <= 0x96f)
    ||| (0x9e6 <= u && u <= 0x9ef)
    ||| (0xa66 <= u && u <= 0xa6f)
    ||| (0xae6 <= u && u <= 0xaef)
    ||| (0xb66 <= u && u <= 0xb6f)
    ||| (0xbe6 <= u && u <= 0xbef)
    ||| (0xc66 <= u && u <= 0xc6f)
    ||| (0xce6 <= u && u <= 0xcef)
    ||| (0xd66 <= u && u <= 0xd6f)
    ||| (0xde6 <= u && u <= 0xdef)
    ||| (0xe50 <= u && u <= 0xe59)
    ||| (0xed0 <= u && u <= 0xed9)
    ||| (0xf20 <= u && u <= 0xf29)
    ||| (0x1040 <= u && u <= 0x1049)
    ||| (0x1090 <= u && u <= 0x1099)
    ||| (0x17e0 <= u && u <= 0x17e9)
    ||| (0x1810 <= u && u <= 0x1819)
    ||| (0x1946 <= u && u <= 0x194f)
    ||| (0x19d0 <= u && u <= 0x19d9)
    ||| (0x1a80 <= u && u <= 0x1a89)
    ||| (0x1a90 <= u && u <= 0x1a99)
    ||| (0x1b50 <= u && u <= 0x1b59)
    ||| (0x1bb0 <= u && u <= 0x1bb9)
    ||| (0x1c40 <= u && u <= 0x1c49)
    ||| (0x1c50 <= u && u <= 0x1c59)
    ||| (0xa620 <= u && u <= 0xa629)
    ||| (0xa8d0 <= u && u <= 0xa8d9)
    ||| (0xa900 <= u && u <= 0xa909)
    ||| (0xa9d0 <= u && u <= 0xa9d9)
    ||| (0xa9f0 <= u && u <= 0xa9f9)
    ||| (0xaa50 <= u && u <= 0xaa59)
    ||| (0xabf0 <= u && u <= 0xabf9)
    ||| (0xff10 <= u && u <= 0xff19)
    ||| (0x104a0 <= u && u <= 0x104a9)
    ||| (0x10d30 <= u && u <= 0x10d39)
    ||| (0x10d40 <= u && u <= 0x10d49)
    ||| (0x11066 <= u && u <= 0x1106f)
    ||| (0x110f0 <= u && u <= 0x110f9)
    ||| (0x11136 <= u && u <= 0x1113f)
    ||| (0x111d0 <= u && u <= 0x111d9)
    ||| (0x112f0 <= u && u <= 0x112f9)
    ||| (0x11450 <= u && u <= 0x11459)
    ||| (0x114d0 <= u && u <= 0x114d9)
    ||| (0x11650 <= u && u <= 0x11659)
    ||| (0x116c0 <= u && u <= 0x116c9)
    ||| (0x116d0 <= u && u <= 0x116e3)
    ||| (0x11730 <= u && u <= 0x11739)
    ||| (0x118e0 <= u && u <= 0x118e9)
    ||| (0x11950 <= u && u <= 0x11959)
    ||| (0x11bf0 <= u && u <= 0x11bf9)
    ||| (0x11c50 <= u && u <= 0x11c59)
    ||| (0x11d50 <= u && u <= 0x11d59)
    ||| (0x11da0 <= u && u <= 0x11da9)
    ||| (0x11f50 <= u && u <= 0x11f59)
    ||| (0x16130 <= u && u <= 0x16139)
    ||| (0x16a60 <= u && u <= 0x16a69)
    ||| (0x16ac0 <= u && u <= 0x16ac9)
    ||| (0x16b50 <= u && u <= 0x16b59)
    ||| (0x16d70 <= u && u <= 0x16d79)
    ||| (0x1ccf0 <= u && u <= 0x1ccf9)
    ||| (0x1d7ce <= u && u <= 0x1d7ff)
    ||| (0x1e140 <= u && u <= 0x1e149)
    ||| (0x1e2f0 <= u && u <= 0x1e2f9)
    ||| (0x1e4f0 <= u && u <= 0x1e4f9)
    ||| (0x1e5f1 <= u && u <= 0x1e5fa)
    ||| (0x1e950 <= u && u <= 0x1e959)
    ||| (0x1fbf0 <= u && u <= 0x1fbf9)
}

pub fn decimal_digit(c: char) -> (r: bool)
    ensures
        r == is_decimal_digit(c),
{
    let u = c as u32;
    (0x30 <= u && u <= 0x39)
        || (0x660 <= u && u <= 0x669)
        || (0x6f0 <= u && u <= 0x6f9)
        || (0x7c0 <= u && u <= 0x7c9)
        || (0x966 <= u && u <= 0x96f)
        || (0x9e6 <= u && u <= 0x9ef)
        || (0xa66 <= u && u <= 0xa6f)
        || (0xae6 <= u && u <= 0xaef)
        || (0xb66 <= u && u <= 0xb6f)
        || (0xbe6 <= u && u <= 0xbef)
        || (0xc66 <= u && u <= 0xc6f)
        || (0xce6 <= u && u <= 0xcef)
        || (0xd66 <= u && u <= 0xd6f)
        || (0xde6 <= u && u <= 0xdef)
        || (0xe50 <= u && u <= 0xe59)
        || (0xed0 <= u && u <= 0xed9)
        || (0xf20 <= u && u <= 0xf29)
        || (0x1040 <= u && u <= 0x1049)
        || (0x1090 <= u && u <= 0x1099)
        || (0x17e0 <= u && u <= 0x17e9)
        || (0x1810 <= u && u <= 0x1819)
        || (0x1946 <= u && u <= 0x194f)
        || (0x19d0 <= u && u <= 0x19d9)
        || (0x1a80 <= u && u <= 0x1a89)
        || (0x1a90 <= u && u <= 0x1a99)
        || (0x1b50 <= u && u <= 0x1b59)
        || (0x1bb0 <= u && u <= 0x1bb9)
        || (0x1c40 <= u && u <= 0x1c49)
        || (0x1c50 <= u && u <= 0x1c59)
        || (0xa620 <= u && u <= 0xa629)
        || (0xa8d0 <= u && u <= 0xa8d9)
        || (0xa900 <= u && u <= 0xa909)
        || (0xa9d0 <= u && u <= 0xa9d9)
        || (0xa9f0 <= u && u <= 0xa9f9)
        || (0xaa50 <= u && u <= 0xaa59)
        || (0xabf0 <= u && u <= 0xabf9)
        || (0xff10 <= u && u <= 0xff19)
        || (0x104a0 <= u && u <= 0x104a9)
        || (0x10d30 <= u && u <= 0x10d39)
        || (0x10d40 <= u && u <= 0x10d49)
        || (0x11066 <= u && u <= 0x1106f)
        || (0x110f0 <= u && u <= 0x110f9)
        || (0x11136 <= u && u <= 0x1113f)
        || (0x111d0 <= u && u <= 0x111d9)
        || (0x112f0 <= u && u <= 0x112f9)
        || (0x11450 <= u && u <= 0x11459)
        || (0x114d0 <= u && u <= 0x114d9)
        || (0x11650 <= u && u <= 0x11659)
        || (0x116c0 <= u && u <= 0x116c9)
        || (0x116d0 <= u && u <= 0x116e3)
        || (0x11730 <= u && u <= 0x11739)
        || (0x118e0 <= u && u <= 0x118e9)
        || (0x11950 <= u && u <= 0x11959)
        || (0x11bf0 <= u && u <= 0x11bf9)
        || (0x11c50 <= u && u <= 0x11c59)
        || (0x11d50 <= u && u <= 0x11d59)
        || (0x11da0 <= u && u <= 0x11da9)
        || (0x11f50 <= u && u <= 0x11f59)
        || (0x16130 <= u && u <= 0x16139)
        || (0x16a60 <= u && u <= 0x16a69)
        || (0x16ac0 <= u && u <= 0x16ac9)
        || (0x16b50 <= u && u <= 0x16b59)
        || (0x16d70 <= u && u <= 0x16d79)
        || (0x1ccf0 <= u && u <= 0x1ccf9)
        || (0x1d7ce <= u && u <= 0x1d7ff)
        || (0x1e140 <= u && u <= 0x1e149)
        || (0x1e2f0 <= u && u <= 0x1e2f9)
        || (0x1e4f0 <= u && u <= 0x1e4f9)
        || (0x1e5f1 <= u && u <= 0x1e5fa)
        || (0x1e950 <= u && u <= 0x1e959)
        || (0x1fbf0 <= u && u <= 0x1fbf9)
}


// ---------------------------------------------------------------------------
// Dates after a marker
// ---------------------------------------------------------------------------

/// `\d{4}-\d{2}-\d{2}` starting at `i`.
pub open spec fn date_shape_at(t: Seq<char>, i: int) -> bool {
    &&& 0 <= i
    &&& i + 10 <= t.len()
    &&& is_decimal_digit(t[i])
    &&& is_decimal_digit(t[i + 1])
    &&& is_decimal_digit(t[i + 2])
    &&& is_decimal_digit(t[i + 3])
    &&& t[i + 4] == '-'
    &&& is_decimal_digit(t[i + 5])
    &&& is_decimal_digit(t[i + 6])
    &&& t[i + 7] == '-'
    &&& is_decimal_digit(t[i + 8])
    &&& is_decimal_digit(t[i + 9])
}

/// Number of whitespace characters starting at `i`.
pub open spec fn ws_run(t: Seq<char>, i: int) -> int {
    lead_ws(t.skip(i)) as int
}

/// Number of whitespace characters ending just before `i`.
pub open spec fn ws_before(t: Seq<char>, i: int) -> int {
    trail_ws(t.take(i)) as int
}

/// `marker` at `m`, then whitespace, then a date shape.
pub open spec fn date_marker_at(t: Seq<char>, marker: char, m: int) -> bool {
    0 <= m < t.len() && t[m] == marker && date_shape_at(t, m + 1 + ws_run(t, m + 1))
}

/// First position at or after `from` where [`date_marker_at`] holds.
pub open spec fn first_date_marker(t: Seq<char>, marker: char, from: int) -> Option<int>
    decreases t.len() - from,
{
    if from < 0 || from >= t.len() {
        None
    } else if date_marker_at(t, marker, from) {
        Some(from)
    } else {
        first_date_marker(t, marker, from + 1)
    }
}

/// Leftmost match of `\s*<marker>\s*(\d{4}-\d{2}-\d{2})`: its start, the
/// start of the date, and its end.
pub open spec fn date_match(t: Seq<char>, marker: char) -> Option<(int, int, int)> {
    match first_date_marker(t, marker, 0) {
        Some(m) => {
            let ds = m + 1 + ws_run(t, m + 1);
            Some((m - ws_before(t, m), ds, ds + 10))
        },
        None => None,
    }
}

/// The date after `marker` (as `chrono` parses the matched digits) and the
/// text with the match removed.
pub open spec fn take_date(t: Seq<char>, marker: char) -> (Option<(int, int, int)>, Seq<char>) {
    match date_match(t, marker) {
        Some((s, ds, e)) => (naive_date_from_str(t.subrange(ds, e)), t.take(s) + t.skip(e)),
        None => (None, t),
    }
}

proof fn lemma_first_date_marker(t: Seq<char>, marker: char, from: int)
    requires
        0 <= from,
    ensures
        match first_date_marker(t, marker, from) {
            Some(m) => from <= m < t.len() && date_marker_at(t, marker, m) && forall|j: int|
                from <= j < m ==> !date_marker_at(t, marker, j),
            None => forall|j: int| from <= j < t.len() ==> !date_marker_at(t, marker, j),
        },
    decreases t.len() - from,
{
    if from < t.len() && !date_marker_at(t, marker, from) {
        lemma_first_date_marker(t, marker, from + 1);
    }
}

/// Count of whitespace characters starting at `i`.
fn count_ws_from(t: &[char], i: usize) -> (r: usize)
    requires
        i <= t@.len(),
    ensures
        r == ws_run(t@, i as int),
        i + r <= t@.len(),
{
    let mut j = i;
    while j < t.len() && is_whitespace(t[j])
        invariant
            i <= j <= t@.len(),
            forall|k: int| i <= k < j ==> is_ws(#[trigger] t@[k]),
        decreases t@.len() - j,
    {
        j = j + 1;
    }
    proof {
        let s = t@.skip(i as int);
        assert forall|k: int| 0 <= k < j - i implies is_ws(#[trigger] s[k]) by {
            assert(s[k] == t@[i + k]);
        }
        if j < t@.len() {
            assert(s[j - i] == t@[j as int]);
        }
        lemma_lead_ws_unique(s, j - i);
    }
    j - i
}

/// Count of whitespace characters ending just before `i`.
fn count_ws_before(t: &[char], i: usize) -> (r: usize)
    requires
        i <= t@.len(),
    ensures
        r == ws_before(t@, i as int),
        r <= i,
{
    let mut k = i;
    while k > 0 && is_whitespace(t[k - 1])
        invariant
            k <= i <= t@.len(),
            forall|j: int| k <= j < i ==> is_ws(#[trigger] t@[j]),
        decreases k,
    {
        k = k - 1;
    }
    proof {
        let s = t@.take(i as int);
        assert forall|j: int| s.len() - (i - k) <= j < s.len() implies is_ws(#[trigger] s[j]) by {
            assert(s[j] == t@[j]);
        }
        if k > 0 {
            assert(s[s.len() - (i - k) - 1] == t@[k - 1]);
        }
        lemma_trail_ws_unique(s, (i - k) as int);
    }
    i - k
}

fn date_shape(t: &[char], i: usize) -> (r: bool)
    ensures
        r == date_shape_at(t@, i as int),
{
    if i > t.len() || t.len() - i < 10 {
        return false;
    }
    decimal_digit(t[i]) && decimal_digit(t[i + 1]) && decimal_digit(t[i + 2]) && decimal_digit(
        t[i + 3],
    ) && t[i + 4] == '-' && decimal_digit(t[i + 5]) && decimal_digit(t[i + 6]) && t[i + 7]
        == '-' && decimal_digit(t[i + 8]) && decimal_digit(t[i + 9])
}

/// Exec counterpart of [`date_match`].
fn find_date_match(t: &[char], marker: char) -> (r: Option<(usize, usize, usize)>)
    ensures
        match date_match(t@, marker) {
            Some((s, ds, e)) => r matches Some((a, b, c)) && a == s && b == ds && c == e && 0 <= s
                <= ds && ds + 10 == e && e <= t@.len(),
            None => r is None,
        },
{
    proof {
        lemma_first_date_marker(t@, marker, 0);
    }
    let mut m: usize = 0;
    while m < t.len()
        invariant
            m <= t@.len(),
            first_date_marker(t@, marker, 0) == first_date_marker(t@, marker, m as int),
        decreases t@.len() - m,
    {
        if t[m] == marker {
            let w = count_ws_from(t, m + 1);
            let ds = m + 1 + w;
            if date_shape(t, ds) {
                assert(date_marker_at(t@, marker, m as int));
                let before = count_ws_before(t, m);
                return Some((m - before, ds, ds + 10));
            }
        }
        m = m + 1;
    }
    None
}

/// Reads the date of a `date_match` and removes the match.
fn take_date_exec(t: Vec<char>, marker: char) -> (r: (Option<Date>, Vec<char>))
    ensures
        (match r.0 {
            Some(d) => Some(d@),
            None => None,
        }) == take_date(t@, marker).0,
        r.1@ == take_date(t@, marker).1,
{
    match find_date_match(&t, marker) {
        Some((s, ds, e)) => {
            let text = string_of_range(&t, ds, e);
            let date = parse_date(text.as_str());
            let mut rest: Vec<char> = Vec::new();
            let mut i: usize = 0;
            while i < s
                invariant
                    s <= t@.len(),
                    i <= s,
                    rest@ == t@.take(i as int),
                decreases s - i,
            {
                rest.push(t[i]);
                assert(t@.take(i + 1) =~= t@.take(i as int).push(t@[i as int]));
                i = i + 1;
            }
            let mut j: usize = e;
            while j < t.len()
                invariant
                    e <= j <= t@.len(),
                    rest@ == t@.take(s as int) + t@.subrange(e as int, j as int),
                decreases t@.len() - j,
            {
                rest.push(t[j]);
                assert(t@.subrange(e as int, j + 1) =~= t@.subrange(e as int, j as int).push(
                    t@[j as int],
                ));
                j = j + 1;
            }
            assert(t@.subrange(e as int, t@.len() as int) =~= t@.skip(e as int));
            (date, rest)
        },
        None => (None, t),
    }
}


// ---------------------------------------------------------------------------
// Priority marks
// ---------------------------------------------------------------------------

pub open spec fn is_priority_mark(c: char) -> bool {
    c == '\u{1f53a}' || c == '\u{23eb}' || c == '\u{1f53c}' || c == '\u{1f53d}' || c == '\u{23ec}'
}

/// `🔺` Highest, `⏫` High, `🔼` Medium, `🔽` Low, `⏬` Lowest.
pub open spec fn priority_of_mark(c: char) -> Priority {
    if c == '\u{1f53a}' {
        Priority::Highest
    } else if c == '\u{23eb}' {
        Priority::High
    } else if c == '\u{1f53c}' {
        Priority::Medium
    } else if c == '\u{1f53d}' {
        Priority::Low
    } else {
        Priority::Lowest
    }
}

pub open spec fn first_priority_mark(t: Seq<char>, from: int) -> Option<int>
    decreases t.len() - from,
{
    if from < 0 || from >= t.len() {
        None
    } else if is_priority_mark(t[from]) {
        Some(from)
    } else {
        first_priority_mark(t, from + 1)
    }
}

/// The first priority mark (`\s*(🔺|⏫|🔼|🔽|⏬️?)`, leftmost match) and the
/// text with the match removed; [`Priority::Normal`] when there is none.
pub open spec fn take_priority(t: Seq<char>) -> (Priority, Seq<char>) {
    match first_priority_mark(t, 0) {
        Some(m) => {
            let e = if t[m] == '\u{23ec}' && m + 1 < t.len() && t[m + 1] == '\u{fe0f}' {
                m + 2
            } else {
                m + 1
            };
            (priority_of_mark(t[m]), t.take(m - ws_before(t, m)) + t.skip(e))
        },
        None => (Priority::Normal, t),
    }
}

proof fn lemma_first_priority_mark(t: Seq<char>, from: int)
    requires
        0 <= from,
    ensures
        match first_priority_mark(t, from) {
            Some(m) => from <= m < t.len() && is_priority_mark(t[m]),
            None => true,
        },
    decreases t.len() - from,
{
    if from < t.len() && !is_priority_mark(t[from]) {
        lemma_first_priority_mark(t, from + 1);
    }
}

/// `t[..a] + t[b..]`.
fn splice_out(t: &[char], a: usize, b: usize) -> (r: Vec<char>)
    requires
        a <= b <= t@.len(),
    ensures
        r@ == t@.take(a as int) + t@.skip(b as int),
{
    let mut rest: Vec<char> = Vec::new();
    let mut i: usize = 0;
    while i < a
        invariant
            a <= t@.len(),
            i <= a,
            rest@ == t@.take(i as int),
        decreases a - i,
    {
        rest.push(t[i]);
        assert(t@.take(i + 1) =~= t@.take(i as int).push(t@[i as int]));
        i = i + 1;
    }
    let mut j: usize = b;
    while j < t.len()
        invariant
            b <= j <= t@.len(),
            rest@ == t@.take(a as int) + t@.subrange(b as int, j as int),
        decreases t@.len() - j,
    {
        rest.push(t[j]);
        assert(t@.subrange(b as int, j + 1) =~= t@.subrange(b as int, j as int).push(t@[j as int]));
        j = j + 1;
    }
    assert(t@.subrange(b as int, t@.len() as int) =~= t@.skip(b as int));
    rest
}

fn take_priority_exec(t: Vec<char>) -> (r: (Priority, Vec<char>))
    ensures
        r.0 == take_priority(t@).0,
        r.1@ == take_priority(t@).1,
{
    proof {
        lemma_first_priority_mark(t@, 0);
    }
    let mut m: usize = 0;
    while m < t.len()
        invariant
            m <= t@.len(),
            first_priority_mark(t@, 0) == first_priority_mark(t@, m as int),
        decreases t@.len() - m,
    {
        let c = t[m];
        if c == '\u{1f53a}' || c == '\u{23eb}' || c == '\u{1f53c}' || c == '\u{1f53d}' || c
            == '\u{23ec}' {
            let e = if c == '\u{23ec}' && m + 1 < t.len() && t[m + 1] == '\u{fe0f}' {
                m + 2
            } else {
                m + 1
            };
            let before = count_ws_before(&t, m);
            let p = if c == '\u{1f53a}' {
                Priority::Highest
            } else if c == '\u{23eb}' {
                Priority::High
            } else if c == '\u{1f53c}' {
                Priority::Medium
            } else if c == '\u{1f53d}' {
                Priority::Low
            } else {
                Priority::Lowest
            };
            return (p, splice_out(&t, m - before, e));
        }
        m = m + 1;
    }
    (Priority::Normal, t)
}

// ---------------------------------------------------------------------------
// Tags
// ---------------------------------------------------------------------------

/// A character a tag may contain: anything but whitespace and
/// `!@#$%^&*(),.?":{}|<>` (so a tag holds no nested `#`; `/` is allowed).
pub open spec fn is_tag_char(c: char) -> bool {
    !is_ws(c) && !(c == '!' || c == '@' || c == '#' || c == '$' || c == '%' || c == '^' || c
        == '&' || c == '*' || c == '(' || c == ')' || c == ',' || c == '.' || c == '?' || c == '"'
        || c == ':' || c == '{' || c == '}' || c == '|' || c == '<' || c == '>')
}

fn tag_char(c: char) -> (r: bool)
    ensures
        r == is_tag_char(c),
{
    !is_whitespace(c) && !(c == '!' || c == '@' || c == '#' || c == '$' || c == '%' || c == '^'
        || c == '&' || c == '*' || c == '(' || c == ')' || c == ',' || c == '.' || c == '?' || c
        == '"' || c == ':' || c == '{' || c == '}' || c == '|' || c == '<' || c == '>')
}

/// Number of tag characters starting at `j`.
pub open spec fn tag_len(t: Seq<char>, j: int) -> int
    decreases t.len() - j,
{
    if 0 <= j < t.len() && is_tag_char(t[j]) {
        1 + tag_len(t, j + 1)
    } else {
        0
    }
}

pub proof fn lemma_tag_len(t: Seq<char>, j: int)
    requires
        0 <= j <= t.len(),
    ensures
        0 <= tag_len(t, j) <= t.len() - j,
    decreases t.len() - j,
{
    if j < t.len() && is_tag_char(t[j]) {
        lemma_tag_len(t, j + 1);
    }
}

/// Successive leftmost matches of `#[^\s!@#$%^&*(),.?":{}|<>]+` from `i`.
pub open spec fn tags_from(t: Seq<char>, i: int) -> Seq<Seq<char>>
    decreases t.len() - i,
{
    if i < 0 || i >= t.len() {
        seq![]
    } else if t[i] == '#' && i + 1 < t.len() && is_tag_char(t[i + 1]) {
        let e = i + 1 + tag_len(t, i + 1);
        proof {
            lemma_tag_len(t, i + 1);
        }
        seq![t.subrange(i, e)] + tags_from(t, e)
    } else {
        tags_from(t, i + 1)
    }
}

fn count_tag_chars(t: &[char], j: usize) -> (r: usize)
    requires
        j <= t@.len(),
    ensures
        r == tag_len(t@, j as int),
        j + r <= t@.len(),
{
    let mut k = j;
    while k < t.len() && tag_char(t[k])
        invariant
            j <= k <= t@.len(),
            tag_len(t@, j as int) == (k - j) + tag_len(t@, k as int),
        decreases t@.len() - k,
    {
        k = k + 1;
    }
    k - j
}

fn tags_exec(t: &[char]) -> (r: Vec<String>)
    ensures
        r@.map_values(|s: String| s@) == tags_from(t@, 0),
{
    let mut out: Vec<String> = Vec::new();
    let mut i: usize = 0;
    while i < t.len()
        invariant
            i <= t@.len(),
            tags_from(t@, 0) == out@.map_values(|s: String| s@) + tags_from(t@, i as int),
        decreases t@.len() - i,
    {
        if t[i] == '#' && i + 1 < t.len() && tag_char(t[i + 1]) {
            let n = count_tag_chars(t, i + 1);
            let e = i + 1 + n;
            let tag = string_of_range(t, i, e);
            let ghost before = out@.map_values(|s: String| s@);
            out.push(tag);
            assert(out@.map_values(|s: String| s@) =~= before.push(t@.subrange(i as int, e as int)));
            i = e;
        } else {
            i = i + 1;
        }
    }
    assert(out@.map_values(|s: String| s@) + tags_from(t@, i as int) =~= out@.map_values(
        |s: String| s@,
    ));
    out
}

// ---------------------------------------------------------------------------
// Whitespace normalisation
// ---------------------------------------------------------------------------

/// Every run of whitespace replaced by one space (`\s+` to `" "`).
pub open spec fn collapse_ws(t: Seq<char>) -> Seq<char>
    decreases t.len(),
{
    if t.len() == 0 {
        seq![]
    } else if is_ws(t[0]) {
        proof {
            lemma_lead_ws(t);
        }
        seq![' '] + collapse_ws(t.skip(lead_ws(t) as int))
    } else {
        seq![t[0]] + collapse_ws(t.drop_first())
    }
}

fn collapse_ws_exec(t: &[char]) -> (r: Vec<char>)
    ensures
        r@ == collapse_ws(t@),
{
    let mut out: Vec<char> = Vec::new();
    let mut i: usize = 0;
    assert(t@.skip(0) =~= t@);
    while i < t.len()
        invariant
            i <= t@.len(),
            collapse_ws(t@) == out@ + collapse_ws(t@.skip(i as int)),
        decreases t@.len() - i,
    {
        let ghost rest = t@.skip(i as int);
        assert(rest[0] == t@[i as int]);
        if is_whitespace(t[i]) {
            let w = count_ws_from(t, i);
            proof {
                lemma_lead_ws(rest);
                assert(rest.skip(lead_ws(rest) as int) =~= t@.skip(i + w));
            }
            out.push(' ');
            i = i + w;
        } else {
            assert(rest.drop_first() =~= t@.skip(i + 1));
            out.push(t[i]);
            i = i + 1;
        }
    }
    assert(t@.skip(i as int) =~= Seq::<char>::empty());
    assert(out@ + collapse_ws(Seq::<char>::empty()) =~= out@);
    out
}

// ---------------------------------------------------------------------------
// All signifiers of a line
// ---------------------------------------------------------------------------

pub struct SignifiersView {
    pub due: Option<(int, int, int)>,
    pub scheduled: Option<(int, int, int)>,
    pub start: Option<(int, int, int)>,
    pub done: Option<(int, int, int)>,
    pub created: Option<(int, int, int)>,
    pub cancelled: Option<(int, int, int)>,
    pub priority: Priority,
    pub tags: Seq<Seq<char>>,
}

/// Description and signifiers of a task's text: the six dates are removed
/// in the order due, scheduled, start, done, created, cancelled, then the
/// priority mark; tags are read from what remains and stay in it; the
/// description is that text trimmed, whitespace runs collapsed.
pub open spec fn signifiers(raw: Seq<char>) -> (Seq<char>, SignifiersView) {
    let (due, t1) = take_date(raw, '\u{1f4c5}');
    let (scheduled, t2) = take_date(t1, '\u{23f3}');
    let (start, t3) = take_date(t2, '\u{1f6eb}');
    let (done, t4) = take_date(t3, '\u{2705}');
    let (created, t5) = take_date(t4, '\u{2795}');
    let (cancelled, t6) = take_date(t5, '\u{274c}');
    let (priority, t7) = take_priority(t6);
    (
        collapse_ws(trim(t7)),
        SignifiersView {
            due,
            scheduled,
            start,
            done,
            created,
            cancelled,
            priority,
            tags: tags_from(t7, 0),
        },
    )
}

/// Dates, priority and tags of a task line, with its description.
pub struct Signifiers {
    pub due: Option<Date>,
    pub scheduled: Option<Date>,
    pub start: Option<Date>,
    pub done: Option<Date>,
    pub created: Option<Date>,
    pub cancelled: Option<Date>,
    pub priority: Priority,
    pub tags: Vec<String>,
}

pub open spec fn opt_view(d: Option<Date>) -> Option<(int, int, int)> {
    match d {
        Some(x) => Some(x@),
        None => None,
    }
}

impl View for Signifiers {
    type V = SignifiersView;

    open spec fn view(&self) -> SignifiersView {
        SignifiersView {
            due: opt_view(self.due),
            scheduled: opt_view(self.scheduled),
            start: opt_view(self.start),
            done: opt_view(self.done),
            created: opt_view(self.created),
            cancelled: opt_view(self.cancelled),
            priority: self.priority,
            tags: self.tags@.map_values(|s: String| s@),
        }
    }
}

/// Splits a task's text into its description and its signifiers.
pub fn extract_signifiers(raw: &[char]) -> (r: (String, Signifiers))
    ensures
        r.0@ == signifiers(raw@).0,
        r.1@ == signifiers(raw@).1,
{
    let t0 = crate::text::copy_range(raw, 0, raw.len());
    assert(raw@.subrange(0, raw@.len() as int) =~= raw@);
    let (due, t1) = take_date_exec(t0, '\u{1f4c5}');
    let (scheduled, t2) = take_date_exec(t1, '\u{23f3}');
    let (start, t3) = take_date_exec(t2, '\u{1f6eb}');
    let (done, t4) = take_date_exec(t3, '\u{2705}');
    let (created, t5) = take_date_exec(t4, '\u{2795}');
    let (cancelled, t6) = take_date_exec(t5, '\u{274c}');
    let (priority, t7) = take_priority_exec(t6);
    let tags = tags_exec(&t7);
    let (a, b) = trim_bounds(&t7);
    let description = collapse_ws_exec(&t7[a..b]);
    let d = crate::text::string_of(&description);
    (d, Signifiers { due, scheduled, start, done, created, cancelled, priority, tags })
}

// ---------------------------------------------------------------------------
// Tags stay in the description
// ---------------------------------------------------------------------------

/// No character of `g` is whitespace.
pub open spec fn solid(g: Seq<char>) -> bool {
    forall|i: int| 0 <= i < g.len() ==> !is_ws(#[trigger] g[i])
}

proof fn lemma_collapse_solid(g: Seq<char>)
    requires
        solid(g),
    ensures
        collapse_ws(g) == g,
    decreases g.len(),
{
    if g.len() > 0 {
        assert(!is_ws(g[0]));
        let rest = g.drop_first();
        assert(solid(rest)) by {
            assert forall|i: int| 0 <= i < rest.len() implies !is_ws(#[trigger] rest[i]) by {
                assert(rest[i] == g[i + 1]);
            }
        }
        lemma_collapse_solid(rest);
        assert(seq![g[0]] + rest =~= g);
    }
}

/// Whitespace runs only merge across a joint that has whitespace on both
/// sides.
proof fn lemma_collapse_concat(x: Seq<char>, y: Seq<char>)
    requires
        x.len() == 0 || y.len() == 0 || !is_ws(x.last()) || !is_ws(y[0]),
    ensures
        collapse_ws(x + y) == collapse_ws(x) + collapse_ws(y),
    decreases x.len(),
{
    if x.len() == 0 {
        assert(x + y =~= y);
    } else if y.len() == 0 {
        assert(x + y =~= x);
    } else {
        let s = x + y;
        assert(s[0] == x[0]);
        if is_ws(x[0]) {
            lemma_lead_ws(x);
            lemma_lead_ws(s);
            let l = lead_ws(x);
            if l < x.len() {
                lemma_lead_ws_unique(s, l as int);
                assert(s.skip(l as int) =~= x.skip(l as int) + y);
                lemma_collapse_concat(x.skip(l as int), y);
            } else {
                assert(is_ws(x.last()));
                assert(!is_ws(y[0]));
                assert(!is_ws(s[x.len() as int]));
                assert forall|i: int| 0 <= i < x.len() implies is_ws(#[trigger] s[i]) by {
                    assert(s[i] == x[i]);
                }
                lemma_lead_ws_unique(s, x.len() as int);
                assert(s.skip(x.len() as int) =~= y);
                assert(x.skip(l as int) =~= Seq::<char>::empty());
            }
        } else {
            assert(s.drop_first() =~= x.drop_first() + y);
            lemma_collapse_concat(x.drop_first(), y);
        }
    }
}

/// Every tag read from `t` is a run of non-whitespace characters of `t`.
proof fn lemma_tags_are_solid_runs(t: Seq<char>, i: int, k: int)
    requires
        0 <= k < tags_from(t, i).len(),
    ensures
        exists|a: int, b: int|
            0 <= a < b <= t.len() && t.subrange(a, b) == tags_from(t, i)[k] && solid(
                #[trigger] t.subrange(a, b),
            ),
    decreases t.len() - i,
{
    if 0 <= i < t.len() {
        if t[i] == '#' && i + 1 < t.len() && is_tag_char(t[i + 1]) {
            lemma_tag_len(t, i + 1);
            let e = i + 1 + tag_len(t, i + 1);
            if k == 0 {
                let g = t.subrange(i, e);
                assert(solid(g)) by {
                    assert forall|j: int| 0 <= j < g.len() implies !is_ws(#[trigger] g[j]) by {
                        if j > 0 {
                            lemma_tag_chars(t, i + 1, i + j);
                        }
                    }
                }
                assert(tags_from(t, i)[0] == g);
            } else {
                lemma_tags_are_solid_runs(t, e, k - 1);
                assert(tags_from(t, i)[k] == tags_from(t, e)[k - 1]);
            }
        } else {
            lemma_tags_are_solid_runs(t, i + 1, k);
        }
    }
}

proof fn lemma_tag_chars(t: Seq<char>, j: int, m: int)
    requires
        0 <= j <= m < j + tag_len(t, j),
    ensures
        is_tag_char(t[m]),
    decreases m - j,
{
    if j < m {
        lemma_tag_chars(t, j + 1, m);
    }
}

/// A run of non-whitespace characters survives trimming and whitespace
/// collapsing.
proof fn lemma_solid_run_survives(t: Seq<char>, a: int, b: int)
    requires
        0 <= a < b <= t.len(),
        solid(t.subrange(a, b)),
    ensures
        seq_contains(collapse_ws(trim(t)), t.subrange(a, b)),
{
    let g = t.subrange(a, b);
    assert(!is_ws(t[a])) by {
        assert(g[0] == t[a]);
    }
    assert(!is_ws(t[b - 1])) by {
        assert(g[b - a - 1] == t[b - 1]);
    }
    lemma_lead_ws(t);
    let l = lead_ws(t) as int;
    assert(l <= a);
    let u = trim_start(t);
    lemma_trail_ws(u);
    let r = trail_ws(u) as int;
    assert(u[b - 1 - l] == t[b - 1]);
    assert(b - l <= u.len() - r);
    let s = trim(t);
    assert(s == u.take(u.len() - r));
    let x = s.take(a - l);
    let y = s.skip(b - l);
    assert(s.subrange(a - l, b - l) =~= g);
    assert(s =~= x + g + y);
    lemma_collapse_concat(x, g);
    lemma_collapse_concat(x + g, y);
    lemma_collapse_solid(g);
    let c = collapse_ws(s);
    assert(c =~= collapse_ws(x) + g + collapse_ws(y));
    assert(c.subrange(collapse_ws(x).len() as int, collapse_ws(x).len() + g.len() as int) =~= g);
    assert(occurs_at(c, g, collapse_ws(x).len() as int));
}

/// Tags stay in the description: every tag read from a task's text also
/// occurs in its description, since only the dates and the priority mark
/// are removed from the text.
pub proof fn law_tags_stay_in_description(raw: Seq<char>, k: int)
    requires
        0 <= k < signifiers(raw).1.tags.len(),
    ensures
        seq_contains(signifiers(raw).0, signifiers(raw).1.tags[k]),
{
    let (due, t1) = take_date(raw, '\u{1f4c5}');
    let (scheduled, t2) = take_date(t1, '\u{23f3}');
    let (start, t3) = take_date(t2, '\u{1f6eb}');
    let (done, t4) = take_date(t3, '\u{2705}');
    let (created, t5) = take_date(t4, '\u{2795}');
    let (cancelled, t6) = take_date(t5, '\u{274c}');
    let (priority, t7) = take_priority(t6);
    assert(signifiers(raw).1.tags == tags_from(t7, 0));
    assert(signifiers(raw).0 == collapse_ws(trim(t7)));
    lemma_tags_are_solid_runs(t7, 0, k);
    let (a, b) = choose|a: int, b: int|
        0 <= a < b <= t7.len() && t7.subrange(a, b) == tags_from(t7, 0)[k] && solid(
            #[trigger] t7.subrange(a, b),
        );
    lemma_solid_run_survives(t7, a, b);
}

} // verus!
