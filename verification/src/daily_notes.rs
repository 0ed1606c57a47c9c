//! Obsidian Daily Notes plugin compatibility: the plugin's settings, the
//! Moment.js date formats its note names use, and the text an entry or a
//! block adds to a daily note.
//!
//! Reading `.obsidian/daily-notes.json` and writing the note are left to
//! the caller; here the settings are read from the file's text and the new
//! note content is computed from the old.
use vstd::prelude::*;

use crate::date::{weekday_of, Date};
use crate::text::{chars_of, copy_range, push_chars, string_of};

verus! {

// ---------------------------------------------------------------------------
// Settings
// ---------------------------------------------------------------------------

/// Daily-note settings from `.obsidian/daily-notes.json`, falling back to
/// Obsidian's defaults (vault root, `YYYY-MM-DD`) when absent.
#[derive(Debug, Clone, PartialEq, Eq)]
pub struct DailyNotesConfig {
    /// Vault-relative folder for daily notes; empty means the vault root.
    pub folder: String,
    /// Filename pattern in Moment.js tokens, without the `.md` extension.
    /// May contain `/` to nest notes in per-year/month folders.
    pub format: String,
}

/// The default note name format.
pub open spec fn default_format() -> Seq<char> {
    seq!['Y', 'Y', 'Y', 'Y', '-', 'M', 'M', '-', 'D', 'D']
}

impl Default for DailyNotesConfig {
    fn default() -> (r: Self)
        ensures
            r.folder@ == Seq::<char>::empty(),
            r.format@ == default_format(),
    {
        let format = string_of(&default_format_exec());
        DailyNotesConfig { folder: String::new(), format }
    }
}

fn default_format_exec() -> (r: Vec<char>)
    ensures
        r@ == default_format(),
{
    let r = vec!['Y', 'Y', 'Y', 'Y', '-', 'M', 'M', '-', 'D', 'D'];
    assert(r@ =~= default_format());
    r
}

/// The string member `key` of the JSON object `text`, as `serde_json`
/// reads it; a function of the two strings alone.
pub uninterp spec fn json_string_member(text: Seq<char>, key: Seq<char>) -> Option<Seq<char>>;

/// `serde_json::from_str::<serde_json::Value>(text)`, then `Value::get(key)`
/// and `Value::as_str`: the string stored under `key` when `text` is a JSON
/// object holding one there, `None` otherwise (not JSON, not an object, no
/// such member, or a member that is not a string). The contract names the
/// result and states nothing else of it.
#[verifier::external_body]
fn json_string_field(text: &str, key: &str) -> (r: Option<String>)
    ensures
        match r {
            Some(s) => json_string_member(text@, key@) == Some(s@),
            None => json_string_member(text@, key@) is None,
        },
{
    let json: serde_json::Value = serde_json::from_str(text).ok()?;
    json.get(key)?.as_str().map(|s| s.to_string())
}

/// A non-empty string member of the settings, or `default`.
pub open spec fn setting_or(text: Seq<char>, key: Seq<char>, default: Seq<char>) -> Seq<char> {
    match json_string_member(text, key) {
        Some(s) => if s.len() > 0 {
            s
        } else {
            default
        },
        None => default,
    }
}

/// Number of leading `c` in `s`.
pub open spec fn lead_count(s: Seq<char>, c: char) -> nat
    decreases s.len(),
{
    if s.len() > 0 && s[0] == c {
        1 + lead_count(s.drop_first(), c)
    } else {
        0
    }
}

/// Number of trailing `c` in `s`.
pub open spec fn trail_count(s: Seq<char>, c: char) -> nat
    decreases s.len(),
{
    if s.len() > 0 && s.last() == c {
        1 + trail_count(s.drop_last(), c)
    } else {
        0
    }
}

/// `str::trim_matches(c)`: every leading and trailing `c` removed.
pub open spec fn trim_char(s: Seq<char>, c: char) -> Seq<char> {
    let t = s.skip(lead_count(s, c) as int);
    t.take(t.len() - trail_count(t, c))
}

proof fn lemma_lead_count(s: Seq<char>, c: char, k: int)
    requires
        0 <= k <= s.len(),
        forall|i: int| 0 <= i < k ==> s[i] == c,
        k == s.len() || s[k] != c,
    ensures
        lead_count(s, c) == k,
    decreases k,
{
    if k > 0 {
        lemma_lead_count(s.drop_first(), c, k - 1);
    }
}

proof fn lemma_trail_count(s: Seq<char>, c: char, k: int)
    requires
        0 <= k <= s.len(),
        forall|i: int| s.len() - k <= i < s.len() ==> s[i] == c,
        k == s.len() || s[s.len() - k - 1] != c,
    ensures
        trail_count(s, c) == k,
    decreases k,
{
    if k > 0 {
        lemma_trail_count(s.drop_last(), c, k - 1);
    }
}

fn trim_char_exec(s: &[char], c: char) -> (r: Vec<char>)
    ensures
        r@ == trim_char(s@, c),
{
    let n = s.len();
    let mut a: usize = 0;
    while a < n && s[a] == c
        invariant
            a <= n == s@.len(),
            forall|i: int| 0 <= i < a ==> s@[i] == c,
        decreases n - a,
    {
        a = a + 1;
    }
    proof {
        lemma_lead_count(s@, c, a as int);
    }
    let mut b: usize = n;
    while b > a && s[b - 1] == c
        invariant
            a <= b <= n == s@.len(),
            forall|i: int| b <= i < n ==> s@[i] == c,
        decreases b,
    {
        b = b - 1;
    }
    proof {
        let t = s@.skip(a as int);
        assert forall|i: int| t.len() - (n - b) <= i < t.len() implies t[i] == c by {
            assert(t[i] == s@[i + a]);
        }
        if b > a {
            assert(t[t.len() - (n - b) - 1] == s@[b - 1]);
        }
        lemma_trail_count(t, c, n - b);
        assert(trim_char(s@, c) =~= s@.subrange(a as int, b as int));
    }
    copy_range(s, a, b)
}

/// The settings a `daily-notes.json` text gives: its non-empty `folder`
/// string with every `/` at either end removed (the vault root when
/// absent), and its non-empty `format` string (`YYYY-MM-DD` when absent).
/// Text that is not a JSON object gives the defaults.
pub fn config_from_json(text: &str) -> (r: DailyNotesConfig)
    ensures
        r.folder@ == trim_char(setting_or(text@, "folder"@, Seq::empty()), '/'),
        r.format@ == setting_or(text@, "format"@, default_format()),
{
    let folder_raw: Vec<char> = match json_string_field(text, "folder") {
        Some(s) => if !s.as_str().is_empty() {
            chars_of(s.as_str())
        } else {
            Vec::new()
        },
        None => Vec::new(),
    };
    proof {
        assert(folder_raw@ =~= setting_or(text@, "folder"@, Seq::empty()));
    }
    let folder = string_of(&trim_char_exec(&folder_raw, '/'));
    let format = match json_string_field(text, "format") {
        Some(s) => if !s.as_str().is_empty() {
            s
        } else {
            string_of(&default_format_exec())
        },
        None => string_of(&default_format_exec()),
    };
    DailyNotesConfig { folder, format }
}

// ---------------------------------------------------------------------------
// Numbers
// ---------------------------------------------------------------------------

pub open spec fn digit_char(n: int) -> char {
    (48 + n) as char
}

/// Decimal digits of `n`, most significant first.
pub open spec fn decimal(n: nat) -> Seq<char>
    decreases n,
{
    if n < 10 {
        seq![digit_char(n as int)]
    } else {
        decimal(n / 10).push(digit_char((n % 10) as int))
    }
}

/// `s` with zeros in front up to `w` characters.
pub open spec fn zero_pad(s: Seq<char>, w: nat) -> Seq<char> {
    if s.len() >= w {
        s
    } else {
        Seq::new((w - s.len()) as nat, |_i: int| '0') + s
    }
}

/// `format!("{:0w$}", n)`: the sign counts toward the width, zeros go
/// between it and the digits.
pub open spec fn padded(n: int, w: nat) -> Seq<char> {
    if n >= 0 {
        zero_pad(decimal(n as nat), w)
    } else {
        seq!['-'] + zero_pad(
            decimal((-n) as nat),
            if w > 0 {
                (w - 1) as nat
            } else {
                0
            },
        )
    }
}

fn digit_exec(d: u32) -> (r: char)
    requires
        d < 10,
    ensures
        r == digit_char(d as int),
{
    ((48 + d) as u8) as char
}

fn decimal_exec(n: u32) -> (r: Vec<char>)
    ensures
        r@ == decimal(n as nat),
    decreases n,
{
    if n < 10 {
        let v = vec![digit_exec(n)];
        assert(v@ =~= decimal(n as nat));
        v
    } else {
        let mut v = decimal_exec(n / 10);
        v.push(digit_exec(n % 10));
        v
    }
}

fn zero_pad_exec(s: Vec<char>, w: usize) -> (r: Vec<char>)
    ensures
        r@ == zero_pad(s@, w as nat),
{
    if s.len() >= w {
        s
    } else {
        let mut r: Vec<char> = Vec::new();
        let k = w - s.len();
        let mut i: usize = 0;
        while i < k
            invariant
                i <= k,
                r@ == Seq::new(i as nat, |_i: int| '0'),
            decreases k - i,
        {
            r.push('0');
            assert(r@ =~= Seq::new((i + 1) as nat, |_i: int| '0'));
            i = i + 1;
        }
        let mut s = s;
        r.append(&mut s);
        r
    }
}

fn padded_exec(n: i32, w: usize) -> (r: Vec<char>)
    requires
        n > i32::MIN,
    ensures
        r@ == padded(n as int, w as nat),
{
    if n >= 0 {
        zero_pad_exec(decimal_exec(n as u32), w)
    } else {
        let digits = zero_pad_exec(
            decimal_exec((-n) as u32),
            if w > 0 {
                w - 1
            } else {
                0
            },
        );
        let mut r = vec!['-'];
        let mut digits = digits;
        r.append(&mut digits);
        r
    }
}

// ---------------------------------------------------------------------------
// Date formats
// ---------------------------------------------------------------------------

pub open spec fn month_name(m: int) -> Seq<char> {
    if m == 1 {
        "January"@
    } else if m == 2 {
        "February"@
    } else if m == 3 {
        "March"@
    } else if m == 4 {
        "April"@
    } else if m == 5 {
        "May"@
    } else if m == 6 {
        "June"@
    } else if m == 7 {
        "July"@
    } else if m == 8 {
        "August"@
    } else if m == 9 {
        "September"@
    } else if m == 10 {
        "October"@
    } else if m == 11 {
        "November"@
    } else {
        "December"@
    }
}

/// Weekday names, Monday (`0`) to Sunday (`6`).
pub open spec fn weekday_name(w: int) -> Seq<char> {
    if w == 0 {
        "Monday"@
    } else if w == 1 {
        "Tuesday"@
    } else if w == 2 {
        "Wednesday"@
    } else if w == 3 {
        "Thursday"@
    } else if w == 4 {
        "Friday"@
    } else if w == 5 {
        "Saturday"@
    } else {
        "Sunday"@
    }
}

fn month_name_exec(m: u32) -> (r: Vec<char>)
    ensures
        r@ == month_name(m as int),
        r@.len() >= 3,
{
    let s = if m == 1 {
        proof {
            reveal_strlit("January");
        }
        "January"
    } else if m == 2 {
        proof {
            reveal_strlit("February");
        }
        "February"
    } else if m == 3 {
        proof {
            reveal_strlit("March");
        }
        "March"
    } else if m == 4 {
        proof {
            reveal_strlit("April");
        }
        "April"
    } else if m == 5 {
        proof {
            reveal_strlit("May");
        }
        "May"
    } else if m == 6 {
        proof {
            reveal_strlit("June");
        }
        "June"
    } else if m == 7 {
        proof {
            reveal_strlit("July");
        }
        "July"
    } else if m == 8 {
        proof {
            reveal_strlit("August");
        }
        "August"
    } else if m == 9 {
        proof {
            reveal_strlit("September");
        }
        "September"
    } else if m == 10 {
        proof {
            reveal_strlit("October");
        }
        "October"
    } else if m == 11 {
        proof {
            reveal_strlit("November");
        }
        "November"
    } else {
        proof {
            reveal_strlit("December");
        }
        "December"
    };
    chars_of(s)
}

fn weekday_name_exec(w: u32) -> (r: Vec<char>)
    ensures
        r@ == weekday_name(w as int),
        r@.len() >= 3,
{
    let s = if w == 0 {
        proof {
            reveal_strlit("Monday");
        }
        "Monday"
    } else if w == 1 {
        proof {
            reveal_strlit("Tuesday");
        }
        "Tuesday"
    } else if w == 2 {
        proof {
            reveal_strlit("Wednesday");
        }
        "Wednesday"
    } else if w == 3 {
        proof {
            reveal_strlit("Thursday");
        }
        "Thursday"
    } else if w == 4 {
        proof {
            reveal_strlit("Friday");
        }
        "Friday"
    } else if w == 5 {
        proof {
            reveal_strlit("Saturday");
        }
        "Saturday"
    } else {
        proof {
            reveal_strlit("Sunday");
        }
        "Sunday"
    };
    chars_of(s)
}

/// Length of the run of `c` starting at `j`.
pub open spec fn run_from(f: Seq<char>, c: char, j: int) -> int
    decreases f.len() - j,
{
    if 0 <= j < f.len() && f[j] == c {
        1 + run_from(f, c, j + 1)
    } else {
        0
    }
}

pub proof fn lemma_run_from(f: Seq<char>, c: char, j: int)
    requires
        0 <= j,
    ensures
        0 <= run_from(f, c, j),
        j < f.len() ==> run_from(f, c, j) <= f.len() - j,
        j < f.len() && f[j] == c ==> run_from(f, c, j) >= 1,
    decreases f.len() - j,
{
    if 0 <= j < f.len() && f[j] == c {
        lemma_run_from(f, c, j + 1);
    }
}

/// The text a token renders to and how many format characters it takes:
/// `c` opens a run of `run` equal characters; `date` is `(year, month,
/// day)` and `weekday` counts from Monday. `YYYY` is the year padded to
/// four characters and `YY` its last two digits, or `????` and `??` when
/// the year is masked; `MMMM` the month's name, `MMM` its first three
/// letters, `MM` and `M` its number padded to two digits or not; `DD` and
/// `D` the day likewise; `dddd` the weekday's name and `ddd` its first
/// three letters. Any other character stands for itself.
pub open spec fn token(c: char, run: int, date: (int, int, int), weekday: int, mask: bool) -> (
    Seq<char>,
    int,
) {
    if c == 'Y' && run >= 4 {
        (
            if mask {
                seq!['?', '?', '?', '?']
            } else {
                padded(date.0, 4)
            },
            4,
        )
    } else if c == 'Y' && run >= 2 {
        (
            if mask {
                seq!['?', '?']
            } else {
                padded(date.0 % 100, 2)
            },
            2,
        )
    } else if c == 'M' && run >= 4 {
        (month_name(date.1), 4)
    } else if c == 'M' && run == 3 {
        (month_name(date.1).take(3), 3)
    } else if c == 'M' && run == 2 {
        (padded(date.1, 2), 2)
    } else if c == 'M' {
        (decimal(date.1 as nat), 1)
    } else if c == 'D' && run >= 2 {
        (padded(date.2, 2), 2)
    } else if c == 'D' {
        (decimal(date.2 as nat), 1)
    } else if c == 'd' && run >= 4 {
        (weekday_name(weekday), 4)
    } else if c == 'd' && run == 3 {
        (weekday_name(weekday).take(3), 3)
    } else {
        (seq![c], 1)
    }
}

/// The first `]` at or after `j`.
pub open spec fn close_bracket(f: Seq<char>, j: int) -> Option<int>
    decreases f.len() - j,
{
    if 0 <= j < f.len() {
        if f[j] == ']' {
            Some(j)
        } else {
            close_bracket(f, j + 1)
        }
    } else {
        None
    }
}

pub proof fn lemma_close_bracket(f: Seq<char>, j: int)
    requires
        0 <= j,
    ensures
        close_bracket(f, j) matches Some(k) ==> j <= k < f.len() && f[k] == ']',
    decreases f.len() - j,
{
    if 0 <= j < f.len() && f[j] != ']' {
        lemma_close_bracket(f, j + 1);
    }
}

/// The format `f` rendered from its `i`-th character on: text in `[...]`
/// is copied as it is (an unclosed bracket runs to the end), every other
/// run of characters goes through [`token`].
pub open spec fn render(f: Seq<char>, i: int, date: (int, int, int), weekday: int, mask: bool) -> Seq<
    char,
>
    decreases f.len() - i,
{
    if 0 <= i < f.len() {
        if f[i] == '[' {
            proof {
                lemma_close_bracket(f, i + 1);
            }
            match close_bracket(f, i + 1) {
                Some(k) => f.subrange(i + 1, k) + render(f, k + 1, date, weekday, mask),
                None => f.subrange(i + 1, f.len() as int),
            }
        } else {
            let (piece, taken) = token(f[i], run_from(f, f[i], i), date, weekday, mask);
            proof {
                lemma_run_from(f, f[i], i);
                assert(1 <= taken <= run_from(f, f[i], i));
            }
            piece + render(f, i + taken, date, weekday, mask)
        }
    } else {
        Seq::empty()
    }
}

fn run_exec(f: &[char], i: usize) -> (r: usize)
    requires
        i < f@.len(),
    ensures
        r == run_from(f@, f@[i as int], i as int),
        1 <= r <= f@.len() - i,
{
    let c = f[i];
    let mut j = i;
    while j < f.len() && f[j] == c
        invariant
            i <= j <= f@.len(),
            c == f@[i as int],
            forall|k: int| i <= k < j ==> f@[k] == c,
            run_from(f@, c, i as int) == (j - i) + run_from(f@, c, j as int),
        decreases f@.len() - j,
    {
        j = j + 1;
    }
    j - i
}

fn token_exec(c: char, run: usize, year: i32, month: u32, day: u32, weekday: u32, mask: bool) -> (r: (
    Vec<char>,
    usize,
))
    requires
        1 <= run,
        -262143 <= year <= 262142,
        1 <= month <= 12,
        1 <= day <= 31,
    ensures
        r.0@ == token(c, run as int, (year as int, month as int, day as int), weekday as int, mask).0,
        r.1 == token(c, run as int, (year as int, month as int, day as int), weekday as int, mask).1,
        1 <= r.1 <= run,
{
    if c == 'Y' && run >= 4 {
        let piece = if mask {
            let v = vec!['?', '?', '?', '?'];
            assert(v@ =~= seq!['?', '?', '?', '?']);
            v
        } else {
            padded_exec(year, 4)
        };
        (piece, 4)
    } else if c == 'Y' && run >= 2 {
        let piece = if mask {
            let v = vec!['?', '?'];
            assert(v@ =~= seq!['?', '?']);
            v
        } else {
            let yy: i32 = if year >= 0 {
                ((year as u32) % 100) as i32
            } else {
                let m = ((-year) as u32) % 100;
                if m == 0 {
                    0
                } else {
                    (100 - m) as i32
                }
            };
            assert(yy == (year as int) % 100) by (nonlinear_arith)
                requires
                    year >= 0 ==> yy == (year as int) % 100,
                    year < 0 ==> yy == (if (-year as int) % 100 == 0 {
                        0
                    } else {
                        100 - (-year as int) % 100
                    }),
            ;
            padded_exec(yy, 2)
        };
        (piece, 2)
    } else if c == 'M' && run >= 4 {
        (month_name_exec(month), 4)
    } else if c == 'M' && run == 3 {
        let name = month_name_exec(month);
        (copy_range(&name, 0, 3), 3)
    } else if c == 'M' && run == 2 {
        (padded_exec(month as i32, 2), 2)
    } else if c == 'M' {
        (decimal_exec(month), 1)
    } else if c == 'D' && run >= 2 {
        (padded_exec(day as i32, 2), 2)
    } else if c == 'D' {
        (decimal_exec(day), 1)
    } else if c == 'd' && run >= 4 {
        (weekday_name_exec(weekday), 4)
    } else if c == 'd' && run == 3 {
        let name = weekday_name_exec(weekday);
        (copy_range(&name, 0, 3), 3)
    } else {
        let v = vec![c];
        assert(v@ =~= seq![c]);
        (v, 1)
    }
}

fn format_date_impl(f: &[char], date: &Date, mask: bool) -> (r: Vec<char>)
    ensures
        r@ == render(f@, 0, date@, weekday_of(date@), mask),
{
    let year = date.year();
    let month = date.month();
    let day = date.day();
    let weekday = date.weekday();
    let ghost d = date@;
    let ghost wd = weekday_of(date@);
    let mut out: Vec<char> = Vec::new();
    let mut i: usize = 0;
    while i < f.len()
        invariant
            i <= f@.len(),
            d == (year as int, month as int, day as int),
            wd == weekday as int,
            -262143 <= year <= 262142,
            1 <= month <= 12,
            1 <= day <= 31,
            out@ + render(f@, i as int, d, wd, mask) == render(f@, 0, d, wd, mask),
        decreases f@.len() - i,
    {
        let ghost before = out@;
        if f[i] == '[' {
            match crate::text::find_char(f, i + 1, ']') {
                Some(k) => {
                    proof {
                        lemma_close_bracket_is(f@, i + 1, k as int);
                    }
                    let mut lit = copy_range(f, i + 1, k);
                    out.append(&mut lit);
                    proof {
                        assert(out@ + render(f@, k + 1, d, wd, mask) =~= before + render(
                            f@,
                            i as int,
                            d,
                            wd,
                            mask,
                        ));
                    }
                    i = k + 1;
                },
                None => {
                    proof {
                        lemma_close_bracket_none(f@, i + 1);
                    }
                    let mut lit = copy_range(f, i + 1, f.len());
                    out.append(&mut lit);
                    proof {
                        assert(out@ + render(f@, f@.len() as int, d, wd, mask) =~= before
                            + render(f@, i as int, d, wd, mask));
                    }
                    i = f.len();
                },
            }
        } else {
            let run = run_exec(f, i);
            let (mut piece, taken) = token_exec(f[i], run, year, month, day, weekday, mask);
            out.append(&mut piece);
            proof {
                assert(out@ + render(f@, i + taken, d, wd, mask) =~= before + render(
                    f@,
                    i as int,
                    d,
                    wd,
                    mask,
                ));
            }
            i = i + taken;
        }
    }
    proof {
        assert(out@ + Seq::<char>::empty() =~= out@);
    }
    out
}

proof fn lemma_close_bracket_is(f: Seq<char>, j: int, k: int)
    requires
        0 <= j <= k < f.len(),
        f[k] == ']',
        forall|m: int| j <= m < k ==> f[m] != ']',
    ensures
        close_bracket(f, j) == Some(k),
    decreases k - j,
{
    if j < k {
        lemma_close_bracket_is(f, j + 1, k);
    }
}

proof fn lemma_close_bracket_none(f: Seq<char>, j: int)
    requires
        0 <= j <= f.len(),
        forall|m: int| j <= m < f.len() ==> f[m] != ']',
    ensures
        close_bracket(f, j) is None,
    decreases f.len() - j,
{
    if j < f.len() {
        lemma_close_bracket_none(f, j + 1);
    }
}

/// `date` rendered with the subset of Moment.js tokens daily-note formats
/// commonly use: `YYYY`, `YY`, `MMMM`, `MMM`, `MM`, `M`, `DD`, `D`,
/// `dddd`, `ddd`. Text in `[...]` is literal; everything else passes
/// through.
pub fn format_date(format: &str, date: Date) -> (r: String)
    ensures
        r@ == render(format@, 0, date@, weekday_of(date@), false),
{
    let f = chars_of(format);
    string_of(&format_date_impl(&f, &date, false))
}

/// [`format_date`] with every `YYYY`/`YY` token rendered as `?` repeated to
/// the token's width: for a date whose year is a placeholder (a birthday
/// with no known birth year), a real-looking year would claim knowledge
/// the vault doesn't have.
pub fn format_date_with_masked_year(format: &str, date: Date) -> (r: String)
    ensures
        r@ == render(format@, 0, date@, weekday_of(date@), true),
{
    let f = chars_of(format);
    string_of(&format_date_impl(&f, &date, true))
}

// ---------------------------------------------------------------------------
// Note content
// ---------------------------------------------------------------------------

/// `[HH:MM] text`, the hour and minute padded to two digits.
pub open spec fn entry_text(hour: u32, minute: u32, text: Seq<char>) -> Seq<char> {
    seq!['['] + padded(hour as int, 2) + seq![':'] + padded(minute as int, 2) + seq![']', ' ']
        + text
}

/// The timestamped entry `[HH:MM] text` for a note appended at
/// `hour:minute`.
pub fn note_entry(hour: u32, minute: u32, text: &str) -> (r: String)
    ensures
        r@ == entry_text(hour, minute, text@),
{
    let mut v: Vec<char> = vec!['['];
    let mut h = zero_pad_exec(decimal_exec(hour), 2);
    v.append(&mut h);
    v.push(':');
    let mut m = zero_pad_exec(decimal_exec(minute), 2);
    v.append(&mut m);
    v.push(']');
    v.push(' ');
    let mut t = chars_of(text);
    v.append(&mut t);
    assert(v@ =~= entry_text(hour, minute, text@));
    string_of(&v)
}

/// A note's content with an entry appended: a line feed, the entry and a
/// line feed follow whatever the note held, so the entry is always
/// preceded by a blank line when the note ended with a line feed.
pub open spec fn content_with_entry(content: Seq<char>, entry: Seq<char>) -> Seq<char> {
    content.push('\n') + entry.push('\n')
}

pub fn with_entry(content: &str, entry: &str) -> (r: String)
    ensures
        r@ == content_with_entry(content@, entry@),
{
    let mut v = chars_of(content);
    v.push('\n');
    let mut e = chars_of(entry);
    v.append(&mut e);
    v.push('\n');
    assert(v@ =~= content_with_entry(content@, entry@));
    string_of(&v)
}

/// A note's content with a block appended: a line feed separates the
/// block from existing content that does not end with one, and a line
/// feed ends the block unless it already does. No blank line is forced in
/// front of it.
pub open spec fn content_with_block(content: Seq<char>, block: Seq<char>) -> Seq<char> {
    let head = if content.len() > 0 && content.last() != '\n' {
        content.push('\n')
    } else {
        content
    };
    let tail = if block.len() > 0 && block.last() == '\n' {
        block
    } else {
        block.push('\n')
    };
    head + tail
}

pub fn with_block(content: &str, block: &str) -> (r: String)
    ensures
        r@ == content_with_block(content@, block@),
{
    let mut v = chars_of(content);
    if v.len() > 0 && v[v.len() - 1] != '\n' {
        v.push('\n');
    }
    let mut b = chars_of(block);
    let ends = b.len() > 0 && b[b.len() - 1] == '\n';
    v.append(&mut b);
    if !ends {
        v.push('\n');
    }
    assert(v@ =~= content_with_block(content@, block@));
    string_of(&v)
}

/// Masking the year changes nothing in a format with no `Y` in it.
pub proof fn law_mask_only_touches_years(f: Seq<char>, date: (int, int, int), weekday: int)
    requires
        forall|i: int| 0 <= i < f.len() ==> f[i] != 'Y',
    ensures
        render(f, 0, date, weekday, true) == render(f, 0, date, weekday, false),
{
    lemma_mask_from(f, 0, date, weekday);
}

proof fn lemma_mask_from(f: Seq<char>, i: int, date: (int, int, int), weekday: int)
    requires
        0 <= i,
        forall|j: int| 0 <= j < f.len() ==> f[j] != 'Y',
    ensures
        render(f, i, date, weekday, true) == render(f, i, date, weekday, false),
    decreases f.len() - i,
{
    if i < f.len() {
        if f[i] == '[' {
            lemma_close_bracket(f, i + 1);
            match close_bracket(f, i + 1) {
                Some(k) => {
                    lemma_mask_from(f, k + 1, date, weekday);
                },
                None => {},
            }
        } else {
            lemma_run_from(f, f[i], i);
            let run = run_from(f, f[i], i);
            let taken = token(f[i], run, date, weekday, true).1;
            assert(token(f[i], run, date, weekday, true) == token(f[i], run, date, weekday, false));
            lemma_mask_from(f, i + taken, date, weekday);
        }
    }
}

/// The folder read from the settings never begins or ends with `/`.
pub proof fn law_folder_has_no_outer_slashes(text: Seq<char>)
    ensures
        ({
            let folder = trim_char(setting_or(text, "folder"@, Seq::empty()), '/');
            folder.len() > 0 ==> folder[0] != '/' && folder.last() != '/'
        }),
{
    lemma_trim_char(setting_or(text, "folder"@, Seq::empty()), '/');
}

proof fn lemma_lead_count_stop(s: Seq<char>, c: char)
    ensures
        lead_count(s, c) <= s.len(),
        lead_count(s, c) < s.len() ==> s[lead_count(s, c) as int] != c,
        forall|i: int| 0 <= i < lead_count(s, c) ==> s[i] == c,
    decreases s.len(),
{
    if s.len() > 0 && s[0] == c {
        lemma_lead_count_stop(s.drop_first(), c);
        assert forall|i: int| 0 <= i < lead_count(s, c) implies s[i] == c by {
            if i > 0 {
                assert(s[i] == s.drop_first()[i - 1]);
            }
        }
    }
}

proof fn lemma_trail_count_stop(s: Seq<char>, c: char)
    ensures
        trail_count(s, c) <= s.len(),
        trail_count(s, c) < s.len() ==> s[s.len() - 1 - trail_count(s, c)] != c,
    decreases s.len(),
{
    if s.len() > 0 && s.last() == c {
        lemma_trail_count_stop(s.drop_last(), c);
    }
}

proof fn lemma_trim_char(s: Seq<char>, c: char)
    ensures
        trim_char(s, c).len() > 0 ==> trim_char(s, c)[0] != c && trim_char(s, c).last() != c,
{
    let t = s.skip(lead_count(s, c) as int);
    lemma_lead_count_stop(s, c);
    lemma_trail_count_stop(t, c);
    let r = trim_char(s, c);
    if r.len() > 0 {
        assert(r[0] == t[0]);
        assert(t[0] == s[lead_count(s, c) as int]);
        assert(r.last() == t[t.len() - 1 - trail_count(t, c)]);
    }
}

/// An entry always lands on a line of its own, followed by a line feed;
/// when the note was empty or ended with a line feed, a blank line comes
/// right before it.
pub proof fn law_entry_on_its_own_line(content: Seq<char>, entry: Seq<char>)
    ensures
        ({
            let r = content_with_entry(content, entry);
            &&& r.take(content.len() as int) == content
            &&& r[content.len() as int] == '\n'
            &&& r.subrange(content.len() as int + 1, r.len() - 1) == entry
            &&& r.last() == '\n'
            &&& (content.len() == 0 || content.last() == '\n') ==> (content.len() == 0 || r[
                content.len() - 1] == '\n')
        }),
{
    let r = content_with_entry(content, entry);
    assert(r.take(content.len() as int) =~= content);
    assert(r.subrange(content.len() as int + 1, r.len() - 1) =~= entry);
}

/// A block is appended after the existing content on a line of its own
/// (a line feed is added in between only when the content does not already
/// end with one), and the note then ends with a line feed.
pub proof fn law_block_on_its_own_line(content: Seq<char>, block: Seq<char>)
    ensures
        ({
            let r = content_with_block(content, block);
            let start = if content.len() > 0 && content.last() != '\n' {
                content.len() as int + 1
            } else {
                content.len() as int
            };
            &&& r.take(content.len() as int) == content
            &&& (start > 0 ==> r[start - 1] == '\n')
            &&& r.subrange(start, start + block.len()) == block
            &&& r.last() == '\n'
            &&& r.len() == start + block.len() + if block.len() > 0 && block.last() == '\n' {
                0int
            } else {
                1int
            }
        }),
{
    let r = content_with_block(content, block);
    assert(r.take(content.len() as int) =~= content);
    let start = if content.len() > 0 && content.last() != '\n' {
        content.len() as int + 1
    } else {
        content.len() as int
    };
    assert(r.subrange(start, start + block.len()) =~= block);
}

/// A run of `n` copies of `c`.
pub open spec fn run_of(c: char, n: nat) -> Seq<char> {
    Seq::new(n, |_i: int| c)
}

proof fn lemma_render_single_token(c: char, n: nat, date: (int, int, int), weekday: int, mask: bool)
    requires
        1 <= n <= 4,
        c != '[',
    ensures
        token(c, n as int, date, weekday, mask).1 == n ==> render(run_of(c, n), 0, date, weekday, mask)
            == token(c, n as int, date, weekday, mask).0,
{
    let f = run_of(c, n);
    assert(f.len() == n);
    assert(f[0] == c);
    reveal_with_fuel(run_from, 5);
    assert(run_from(f, c, n as int) == 0);
    if n >= 2 {
        assert(f[n - 1] == c);
        assert(run_from(f, c, n - 1) == 1);
    }
    if n >= 3 {
        assert(f[n - 2] == c);
        assert(run_from(f, c, n - 2) == 2);
    }
    if n >= 4 {
        assert(f[n - 3] == c);
        assert(run_from(f, c, n - 3) == 3);
    }
    assert(run_from(f, c, 0) == n);
    if c != '[' {
        let tk = token(c, n as int, date, weekday, mask);
        if tk.1 == n {
            assert(render(f, n as int, date, weekday, mask) == Seq::<char>::empty());
            assert(render(f, 0, date, weekday, mask) == tk.0 + render(f, n as int, date, weekday, mask));
            assert(tk.0 + Seq::<char>::empty() =~= tk.0);
        }
    }
}

/// `MMMM` renders a date's month as its English name (`January` for month
/// 1 through `December` for month 12) and `MMM` as the name's first three
/// letters, year masked or not; `dddd` and `ddd` likewise render the
/// weekday (`Monday` for 0 through `Sunday` for 6).
pub proof fn law_month_and_weekday_names(date: (int, int, int), weekday: int, mask: bool)
    ensures
        date.1 == 1 ==> render(run_of('M', 4), 0, date, weekday, mask) == seq!['J', 'a', 'n', 'u', 'a', 'r', 'y'],
        date.1 == 2 ==> render(run_of('M', 4), 0, date, weekday, mask) == seq!['F', 'e', 'b', 'r', 'u', 'a', 'r', 'y'],
        date.1 == 3 ==> render(run_of('M', 4), 0, date, weekday, mask) == seq!['M', 'a', 'r', 'c', 'h'],
        date.1 == 4 ==> render(run_of('M', 4), 0, date, weekday, mask) == seq!['A', 'p', 'r', 'i', 'l'],
        date.1 == 5 ==> render(run_of('M', 4), 0, date, weekday, mask) == seq!['M', 'a', 'y'],
        date.1 == 6 ==> render(run_of('M', 4), 0, date, weekday, mask) == seq!['J', 'u', 'n', 'e'],
        date.1 == 7 ==> render(run_of('M', 4), 0, date, weekday, mask) == seq!['J', 'u', 'l', 'y'],
        date.1 == 8 ==> render(run_of('M', 4), 0, date, weekday, mask) == seq!['A', 'u', 'g', 'u', 's', 't'],
        date.1 == 9 ==> render(run_of('M', 4), 0, date, weekday, mask) == seq!['S', 'e', 'p', 't', 'e', 'm', 'b', 'e', 'r'],
        date.1 == 10 ==> render(run_of('M', 4), 0, date, weekday, mask) == seq!['O', 'c', 't', 'o', 'b', 'e', 'r'],
        date.1 == 11 ==> render(run_of('M', 4), 0, date, weekday, mask) == seq!['N', 'o', 'v', 'e', 'm', 'b', 'e', 'r'],
        date.1 == 12 ==> render(run_of('M', 4), 0, date, weekday, mask) == seq!['D', 'e', 'c', 'e', 'm', 'b', 'e', 'r'],
        date.1 == 1 ==> render(run_of('M', 3), 0, date, weekday, mask) == seq!['J', 'a', 'n'],
        date.1 == 2 ==> render(run_of('M', 3), 0, date, weekday, mask) == seq!['F', 'e', 'b'],
        date.1 == 3 ==> render(run_of('M', 3), 0, date, weekday, mask) == seq!['M', 'a', 'r'],
        date.1 == 4 ==> render(run_of('M', 3), 0, date, weekday, mask) == seq!['A', 'p', 'r'],
        date.1 == 5 ==> render(run_of('M', 3), 0, date, weekday, mask) == seq!['M', 'a', 'y'],
        date.1 == 6 ==> render(run_of('M', 3), 0, date, weekday, mask) == seq!['J', 'u', 'n'],
        date.1 == 7 ==> render(run_of('M', 3), 0, date, weekday, mask) == seq!['J', 'u', 'l'],
        date.1 == 8 ==> render(run_of('M', 3), 0, date, weekday, mask) == seq!['A', 'u', 'g'],
        date.1 == 9 ==> render(run_of('M', 3), 0, date, weekday, mask) == seq!['S', 'e', 'p'],
        date.1 == 10 ==> render(run_of('M', 3), 0, date, weekday, mask) == seq!['O', 'c', 't'],
        date.1 == 11 ==> render(run_of('M', 3), 0, date, weekday, mask) == seq!['N', 'o', 'v'],
        date.1 == 12 ==> render(run_of('M', 3), 0, date, weekday, mask) == seq!['D', 'e', 'c'],
        weekday == 0 ==> render(run_of('d', 4), 0, date, weekday, mask) == seq!['M', 'o', 'n', 'd', 'a', 'y'],
        weekday == 1 ==> render(run_of('d', 4), 0, date, weekday, mask) == seq!['T', 'u', 'e', 's', 'd', 'a', 'y'],
        weekday == 2 ==> render(run_of('d', 4), 0, date, weekday, mask) == seq!['W', 'e', 'd', 'n', 'e', 's', 'd', 'a', 'y'],
        weekday == 3 ==> render(run_of('d', 4), 0, date, weekday, mask) == seq!['T', 'h', 'u', 'r', 's', 'd', 'a', 'y'],
        weekday == 4 ==> render(run_of('d', 4), 0, date, weekday, mask) == seq!['F', 'r', 'i', 'd', 'a', 'y'],
        weekday == 5 ==> render(run_of('d', 4), 0, date, weekday, mask) == seq!['S', 'a', 't', 'u', 'r', 'd', 'a', 'y'],
        weekday == 6 ==> render(run_of('d', 4), 0, date, weekday, mask) == seq!['S', 'u', 'n', 'd', 'a', 'y'],
        weekday == 0 ==> render(run_of('d', 3), 0, date, weekday, mask) == seq!['M', 'o', 'n'],
        weekday == 1 ==> render(run_of('d', 3), 0, date, weekday, mask) == seq!['T', 'u', 'e'],
        weekday == 2 ==> render(run_of('d', 3), 0, date, weekday, mask) == seq!['W', 'e', 'd'],
        weekday == 3 ==> render(run_of('d', 3), 0, date, weekday, mask) == seq!['T', 'h', 'u'],
        weekday == 4 ==> render(run_of('d', 3), 0, date, weekday, mask) == seq!['F', 'r', 'i'],
        weekday == 5 ==> render(run_of('d', 3), 0, date, weekday, mask) == seq!['S', 'a', 't'],
        weekday == 6 ==> render(run_of('d', 3), 0, date, weekday, mask) == seq!['S', 'u', 'n'],
{
    reveal_strlit("January");
    reveal_strlit("February");
    reveal_strlit("March");
    reveal_strlit("April");
    reveal_strlit("May");
    reveal_strlit("June");
    reveal_strlit("July");
    reveal_strlit("August");
    reveal_strlit("September");
    reveal_strlit("October");
    reveal_strlit("November");
    reveal_strlit("December");
    reveal_strlit("Monday");
    reveal_strlit("Tuesday");
    reveal_strlit("Wednesday");
    reveal_strlit("Thursday");
    reveal_strlit("Friday");
    reveal_strlit("Saturday");
    reveal_strlit("Sunday");
    lemma_render_single_token('M', 4, date, weekday, mask);
    lemma_render_single_token('M', 3, date, weekday, mask);
    lemma_render_single_token('d', 4, date, weekday, mask);
    lemma_render_single_token('d', 3, date, weekday, mask);
}

/// Different months render different `MMMM` names, and different weekdays
/// different `dddd` names.
pub proof fn law_names_are_distinct(
    d1: (int, int, int),
    d2: (int, int, int),
    w1: int,
    w2: int,
    mask: bool,
)
    ensures
        1 <= d1.1 <= 12 && 1 <= d2.1 <= 12 && d1.1 != d2.1 ==> render(run_of('M', 4), 0, d1, w1, mask)
            != render(run_of('M', 4), 0, d2, w2, mask),
        0 <= w1 <= 6 && 0 <= w2 <= 6 && w1 != w2 ==> render(run_of('d', 4), 0, d1, w1, mask)
            != render(run_of('d', 4), 0, d2, w2, mask),
{
    law_month_and_weekday_names(d1, w1, mask);
    law_month_and_weekday_names(d2, w2, mask);
    let a = render(run_of('M', 4), 0, d1, w1, mask);
    let b = render(run_of('M', 4), 0, d2, w2, mask);
    if 1 <= d1.1 <= 12 && 1 <= d2.1 <= 12 && d1.1 != d2.1 && a == b {
        assert(a.len() == b.len() && a[0] == b[0] && a[2] == b[2]);
    }
    let x = render(run_of('d', 4), 0, d1, w1, mask);
    let y = render(run_of('d', 4), 0, d2, w2, mask);
    if 0 <= w1 <= 6 && 0 <= w2 <= 6 && w1 != w2 && x == y {
        assert(x.len() == y.len() && x[0] == y[0] && x[1] == y[1]);
    }
}

} // verus!
