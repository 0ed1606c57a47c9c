//! A note's YAML frontmatter: the block between `---` delimiters at the top
//! of the note, the fields it holds, and framing YAML text as frontmatter.
//!
//! Converting between YAML text and [`Frontmatter`] values is left to the
//! caller; here the block is located in a note and a note is assembled from
//! YAML text and a body.
use vstd::prelude::*;

use crate::text::{chars_of, copy_range, string_of, trim, trim_bounds};

verus! {

/// The frontmatter fields of a note.
#[derive(Debug, Clone)]
pub struct Frontmatter {
    pub title: Option<String>,
    pub updated_at: Option<u64>,
    pub tags: Vec<String>,
    pub pinned: bool,
    pub links: Option<Vec<String>>,
    pub original_ext: Option<String>,
}

impl Default for Frontmatter {
    fn default() -> (r: Self)
        ensures
            r.title is None,
            r.updated_at is None,
            r.tags@.len() == 0,
            !r.pinned,
            r.links is None,
            r.original_ext is None,
    {
        Frontmatter {
            title: None,
            updated_at: None,
            tags: Vec::new(),
            pinned: false,
            links: None,
            original_ext: None,
        }
    }
}

impl Frontmatter {
    /// Whether every field is at its default: no tags, not pinned, and no
    /// title, timestamp, links or original extension. Such frontmatter is
    /// not written out.
    pub fn carries_nothing(&self) -> (r: bool)
        ensures
            r == (self.tags@.len() == 0 && !self.pinned && self.title is None
                && self.updated_at is None && self.links is None && self.original_ext is None),
    {
        self.tags.len() == 0 && !self.pinned && self.title.is_none() && self.updated_at.is_none()
            && self.links.is_none() && self.original_ext.is_none()
    }
}

/// Whether the closing delimiter `"\n---"` starts at `k`.
pub open spec fn closing_at(s: Seq<char>, k: int) -> bool {
    0 <= k && k + 4 <= s.len() && s[k] == '\n' && s[k + 1] == '-' && s[k + 2] == '-' && s[k + 3]
        == '-'
}

/// The first closing delimiter at or after `k`.
pub open spec fn first_closing(s: Seq<char>, k: int) -> Option<int>
    decreases s.len() - k,
{
    if 0 <= k && k + 4 <= s.len() {
        if closing_at(s, k) {
            Some(k)
        } else {
            first_closing(s, k + 1)
        }
    } else {
        None
    }
}

/// Whether a note opens with a `---` delimiter line (`"---\n"` or
/// `"---\r\n"`).
pub open spec fn opens_frontmatter(s: Seq<char>) -> bool {
    s.len() >= 3 && s[0] == '-' && s[1] == '-' && s[2] == '-' && ((s.len() >= 4 && s[3] == '\n')
        || (s.len() >= 5 && s[3] == '\r' && s[4] == '\n'))
}

/// Where a note's frontmatter lies: `(end, body)`, the text between the
/// opening `---` and the first `"\n---"` after it being `s[3..end]` and the
/// body starting at `body`, past the closing delimiter and one line ending
/// (`"\r\n"` or `"\n"`) after it. `None` when the note does not open with a
/// delimiter line or has no closing one.
pub open spec fn frontmatter_bounds(s: Seq<char>) -> Option<(int, int)> {
    if !opens_frontmatter(s) {
        None
    } else {
        match first_closing(s, 3) {
            Some(k) => {
                let r = k + 4;
                let body = if r + 1 < s.len() && s[r] == '\r' && s[r + 1] == '\n' {
                    r + 2
                } else if r < s.len() && s[r] == '\n' {
                    r + 1
                } else {
                    r
                };
                Some((k, body))
            },
            None => None,
        }
    }
}

/// The raw YAML text of a note's frontmatter and the remaining body.
pub open spec fn split_frontmatter(s: Seq<char>) -> Option<(Seq<char>, Seq<char>)> {
    match frontmatter_bounds(s) {
        Some((end, body)) => Some((s.subrange(3, end), s.skip(body))),
        None => None,
    }
}

proof fn lemma_first_closing(s: Seq<char>, j: int, r: Option<int>)
    requires
        0 <= j,
        match r {
            Some(k) => j <= k && closing_at(s, k) && forall|m: int| j <= m < k ==> !closing_at(s, m),
            None => forall|m: int| j <= m ==> !closing_at(s, m),
        },
    ensures
        first_closing(s, j) == r,
    decreases s.len() - j,
{
    if j + 4 <= s.len() {
        match r {
            Some(k) => {
                if j < k {
                    lemma_first_closing(s, j + 1, r);
                }
            },
            None => {
                lemma_first_closing(s, j + 1, r);
            },
        }
    } else {
        match r {
            Some(k) => {
                assert(!closing_at(s, k));
            },
            None => {},
        }
    }
}

pub proof fn lemma_frontmatter_bounds(s: Seq<char>)
    ensures
        frontmatter_bounds(s) matches Some((end, body)) ==> 3 <= end && end + 4 <= body <= s.len(),
{
    if opens_frontmatter(s) {
        lemma_first_closing_in(s, 3);
    }
}

proof fn lemma_first_closing_in(s: Seq<char>, j: int)
    requires
        0 <= j,
    ensures
        first_closing(s, j) matches Some(k) ==> j <= k && k + 4 <= s.len(),
    decreases s.len() - j,
{
    if j + 4 <= s.len() && !closing_at(s, j) {
        lemma_first_closing_in(s, j + 1);
    }
}

pub(crate) fn frontmatter_bounds_exec(v: &[char]) -> (r: Option<(usize, usize)>)
    ensures
        match r {
            Some((end, body)) => frontmatter_bounds(v@) == Some((end as int, body as int)),
            None => frontmatter_bounds(v@) is None,
        },
{
    let n = v.len();
    let opens = n >= 3 && v[0] == '-' && v[1] == '-' && v[2] == '-' && ((n >= 4 && v[3] == '\n') || (
    n >= 5 && v[3] == '\r' && v[4] == '\n'));
    if !opens {
        return None;
    }
    let mut k: usize = 3;
    while k < n && n - k >= 4 && !(v[k] == '\n' && v[k + 1] == '-' && v[k + 2] == '-' && v[k + 3]
        == '-')
        invariant
            3 <= k <= n == v@.len(),
            forall|m: int| 3 <= m < k ==> !closing_at(v@, m),
        decreases n - k,
    {
        k = k + 1;
    }
    if k < n && n - k >= 4 {
        proof {
            lemma_first_closing(v@, 3, Some(k as int));
        }
        let r = k + 4;
        let body = if r < n && r + 1 < n && v[r] == '\r' && v[r + 1] == '\n' {
            r + 2
        } else if r < n && v[r] == '\n' {
            r + 1
        } else {
            r
        };
        Some((k, body))
    } else {
        proof {
            assert forall|m: int| 3 <= m implies !closing_at(v@, m) by {
                if m >= k {
                    assert(m + 4 > v@.len());
                }
            }
            lemma_first_closing(v@, 3, None);
        }
        None
    }
}

/// Extract the raw YAML text between a note's `---` frontmatter
/// delimiters, along with the remaining body. Returns `None` when
/// `content` doesn't open with a `---` delimiter line, or has no closing
/// one.
pub fn extract_raw(content: &str) -> (r: Option<(String, String)>)
    ensures
        match r {
            Some((yaml, body)) => split_frontmatter(content@) == Some((yaml@, body@)),
            None => split_frontmatter(content@) is None,
        },
{
    let v = chars_of(content);
    match frontmatter_bounds_exec(&v) {
        Some((end, body)) => {
            proof {
                lemma_frontmatter_bounds(v@);
            }
            let yaml = copy_range(&v, 3, end);
            let rest = copy_range(&v, body, v.len());
            proof {
                assert(rest@ =~= v@.skip(body as int));
            }
            Some((string_of(&yaml), string_of(&rest)))
        },
        None => None,
    }
}

/// A note with frontmatter: the YAML text trimmed, between `---` lines,
/// then the body.
pub open spec fn framed(yaml: Seq<char>, content: Seq<char>) -> Seq<char> {
    seq!['-', '-', '-', '\n'] + trim(yaml) + seq!['\n', '-', '-', '-', '\n'] + content
}

/// Put serialized frontmatter in front of a note's body.
pub fn frame(yaml: &str, content: &str) -> (r: String)
    ensures
        r@ == framed(yaml@, content@),
{
    let mut out = vec!['-', '-', '-', '\n'];
    let y = chars_of(yaml);
    let (a, b) = trim_bounds(&y);
    let mut t = copy_range(&y, a, b);
    out.append(&mut t);
    let mut close = vec!['\n', '-', '-', '-', '\n'];
    out.append(&mut close);
    let mut c = chars_of(content);
    out.append(&mut c);
    assert(out@ =~= framed(yaml@, content@));
    string_of(&out)
}

/// Framing YAML text as frontmatter and splitting the note again gives
/// back the body, and the trimmed YAML after the line feed that follows the
/// opening `---`, provided that text holds no line feed followed by `---`.
pub proof fn law_frame_then_split(yaml: Seq<char>, content: Seq<char>)
    requires
        forall|k: int| !closing_at(seq!['\n'] + trim(yaml), k),
    ensures
        split_frontmatter(framed(yaml, content)) == Some((seq!['\n'] + trim(yaml), content)),
{
    let t = trim(yaml);
    let head = seq!['\n'] + t;
    let s = framed(yaml, content);
    let n = t.len() as int;
    assert(s =~= seq!['-', '-', '-'] + head + seq!['\n', '-', '-', '-', '\n'] + content);
    assert(opens_frontmatter(s));
    assert forall|m: int| 3 <= m < 4 + n implies !closing_at(s, m) by {
        if m + 4 <= 4 + n {
            assert(!closing_at(head, m - 3));
            assert(s[m] == head[m - 3] && s[m + 1] == head[m - 2] && s[m + 2] == head[m - 1] && s[m
                + 3] == head[m]);
        } else {
            assert(s[4 + n] == '\n');
        }
    }
    assert(closing_at(s, 4 + n));
    lemma_first_closing(s, 3, Some(4 + n));
    assert(s[8 + n] == '\n');
    assert(s.subrange(3, 4 + n) =~= head);
    assert(s.skip(9 + n) =~= content);
}

} // verus!
