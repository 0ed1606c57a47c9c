//! The Markdown structure of a note as the checklist scanner reads it.
//!
//! `comrak` parses the note; its document tree comes back as the list of
//! its nodes in document order (a pre-order walk), each with its depth.
//! Everything the scanner needs is read from that list: where a node's
//! subtree ends, its children, its plain text, and the text of a list
//! item's own lines.
use vstd::prelude::*;

use comrak::nodes::NodeValue;
use comrak::{parse_document, Arena, Options};

use crate::text::{chars_of, is_whitespace, trim, trim_bounds};

verus! {

#[verifier::external_type_specification]
#[verifier::external_body]
pub struct ExComrakOptions<'c>(Options<'c>);

// ---------------------------------------------------------------------------
// Parsing
// ---------------------------------------------------------------------------

/// The CommonMark extensions a parse runs with.
#[derive(Debug, Clone, Copy, PartialEq, Eq, Structural)]
pub struct MarkdownExtensions {
    pub strikethrough: bool,
    pub table: bool,
    pub tasklist: bool,
    pub footnotes: bool,
    pub autolink: bool,
    pub wikilinks_title_after_pipe: bool,
    pub description_lists: bool,
}

/// Parser options: `comrak`'s own, built from a set of extensions.
pub struct MarkdownOptions {
    flags: MarkdownExtensions,
    options: Options<'static>,
}

impl View for MarkdownOptions {
    type V = MarkdownExtensions;

    closed spec fn view(&self) -> MarkdownExtensions {
        self.flags
    }
}

/// `comrak::Options` with the given extensions switched on or off and
/// every other option at its default. The contract records the extensions
/// the options were built from; that they are the ones `comrak` runs with
/// is the construction in the body.
#[verifier::external_body]
pub(crate) fn markdown_options(flags: MarkdownExtensions) -> (r: MarkdownOptions)
    ensures
        r@ == flags,
{
    let extension = comrak::options::Extension {
        strikethrough: flags.strikethrough,
        table: flags.table,
        tasklist: flags.tasklist,
        footnotes: flags.footnotes,
        autolink: flags.autolink,
        wikilinks_title_after_pipe: flags.wikilinks_title_after_pipe,
        description_lists: flags.description_lists,
        ..Default::default()
    };
    MarkdownOptions { flags, options: Options { extension, ..Default::default() } }
}

/// What a node of the document holds, as far as the scanner reads it.
#[derive(Debug, Clone, PartialEq, Eq)]
pub enum MdKind {
    /// A text inline and its literal.
    Text(String),
    /// A code span and its literal.
    Code(String),
    /// A soft or hard line break.
    Break,
    /// A list.
    List,
    /// A list item that is not a recognised checkbox item.
    Item,
    /// A checkbox list item and the symbol inside its brackets (`None`
    /// when unchecked).
    TaskItem(Option<char>),
    /// Anything else.
    Other,
}

pub enum MdKindView {
    Text(Seq<char>),
    Code(Seq<char>),
    Break,
    List,
    Item,
    TaskItem(Option<char>),
    Other,
}

impl View for MdKind {
    type V = MdKindView;

    open spec fn view(&self) -> MdKindView {
        match self {
            MdKind::Text(t) => MdKindView::Text(t@),
            MdKind::Code(c) => MdKindView::Code(c@),
            MdKind::Break => MdKindView::Break,
            MdKind::List => MdKindView::List,
            MdKind::Item => MdKindView::Item,
            MdKind::TaskItem(s) => MdKindView::TaskItem(*s),
            MdKind::Other => MdKindView::Other,
        }
    }
}

/// One node of a parsed document: its kind, the 1-based line its source
/// starts on, and its depth (the number of nodes from it up to the root,
/// both counted, so the root has depth 1).
#[derive(Debug, Clone, PartialEq, Eq)]
pub struct MdNode {
    pub kind: MdKind,
    pub line: usize,
    pub depth: usize,
}

pub struct MdNodeView {
    pub kind: MdKindView,
    pub line: usize,
    pub depth: usize,
}

impl View for MdNode {
    type V = MdNodeView;

    open spec fn view(&self) -> MdNodeView {
        MdNodeView { kind: self.kind@, line: self.line, depth: self.depth }
    }
}

pub open spec fn nodes_view(v: Seq<MdNode>) -> Seq<MdNodeView> {
    v.map_values(|n: MdNode| n@)
}

/// The nodes `comrak` parses `source` into with the given extensions, in
/// document order.
pub uninterp spec fn markdown_tree(source: Seq<char>, extensions: MarkdownExtensions) -> Seq<
    MdNodeView,
>;

/// `comrak::parse_document` on `source`, its tree walked by
/// `Node::descendants` from the root: one `MdNode` per node, with the kind
/// of value it holds, `sourcepos.start.line`, and the length of
/// `Node::ancestors` (which counts the node itself). The contract names
/// this list and states nothing else of it.
#[verifier::external_body]
pub(crate) fn markdown_nodes(source: &str, options: &MarkdownOptions) -> (r: Vec<MdNode>)
    ensures
        nodes_view(r@) == markdown_tree(source@, options@),
{
    let arena = Arena::new();
    let root = parse_document(&arena, source, &options.options);
    root.descendants().map(|n| {
        let d = n.data();
        let kind = match &d.value {
            NodeValue::Text(t) => MdKind::Text(t.to_string()),
            NodeValue::Code(c) => MdKind::Code(c.literal.clone()),
            NodeValue::SoftBreak | NodeValue::LineBreak => MdKind::Break,
            NodeValue::List(_) => MdKind::List,
            NodeValue::Item(_) => MdKind::Item,
            NodeValue::TaskItem(t) => MdKind::TaskItem(t.symbol),
            _ => MdKind::Other,
        };
        MdNode { kind, line: d.sourcepos.start.line, depth: n.ancestors().count() }
    }).collect()
}

// ---------------------------------------------------------------------------
// Subtrees
// ---------------------------------------------------------------------------

/// The first index from `j` on whose depth is at most `d`, or the length.
pub open spec fn scan_end(ns: Seq<MdNodeView>, d: usize, j: int) -> int
    decreases ns.len() - j,
{
    if 0 <= j < ns.len() {
        if ns[j].depth <= d {
            j
        } else {
            scan_end(ns, d, j + 1)
        }
    } else {
        ns.len() as int
    }
}

/// One past the last node of the subtree rooted at `i`: the next node that
/// is not deeper than `i`.
pub open spec fn subtree_end(ns: Seq<MdNodeView>, i: int) -> int {
    scan_end(ns, ns[i].depth, i + 1)
}

pub proof fn lemma_scan_end(ns: Seq<MdNodeView>, d: usize, j: int)
    requires
        0 <= j <= ns.len(),
    ensures
        j <= scan_end(ns, d, j) <= ns.len(),
        forall|k: int| j <= k < scan_end(ns, d, j) ==> ns[k].depth > d,
    decreases ns.len() - j,
{
    if j < ns.len() && ns[j].depth > d {
        lemma_scan_end(ns, d, j + 1);
    }
}

pub proof fn lemma_subtree_end(ns: Seq<MdNodeView>, i: int)
    requires
        0 <= i < ns.len(),
    ensures
        i < subtree_end(ns, i) <= ns.len(),
        forall|k: int| i < k < subtree_end(ns, i) ==> ns[k].depth > ns[i].depth,
{
    lemma_scan_end(ns, ns[i].depth, i + 1);
}

fn subtree_end_exec(ns: &Vec<MdNode>, i: usize) -> (r: usize)
    requires
        i < ns@.len(),
    ensures
        r == subtree_end(nodes_view(ns@), i as int),
        i < r <= ns@.len(),
{
    let ghost nv = nodes_view(ns@);
    let n = ns.len();
    let d = ns[i].depth;
    let mut j = i + 1;
    while j < ns.len() && ns[j].depth > d
        invariant
            nv == nodes_view(ns@),
            i < j <= ns@.len(),
            d == nv[i as int].depth,
            scan_end(nv, d, j as int) == scan_end(nv, d, i + 1),
        decreases ns@.len() - j,
    {
        j = j + 1;
    }
    proof {
        lemma_subtree_end(nv, i as int);
    }
    j
}

// ---------------------------------------------------------------------------
// Plain text
// ---------------------------------------------------------------------------

/// The plain text of the node at `i`: a text or code literal as written, a
/// line break as a space, any other node the text of its children in order.
pub open spec fn node_text(ns: Seq<MdNodeView>, i: int) -> Seq<char>
    decreases ns.len() - i, 0int,
{
    if 0 <= i < ns.len() {
        match ns[i].kind {
            MdKindView::Text(t) => t,
            MdKindView::Code(c) => c,
            MdKindView::Break => seq![' '],
            _ => children_text(ns, i + 1, subtree_end(ns, i)),
        }
    } else {
        Seq::empty()
    }
}

/// The text of the sibling subtrees from `c` up to `e`, concatenated.
pub open spec fn children_text(ns: Seq<MdNodeView>, c: int, e: int) -> Seq<char>
    decreases ns.len() - c, 1int,
{
    if 0 <= c < e && e <= ns.len() {
        proof {
            lemma_subtree_end(ns, c);
        }
        node_text(ns, c) + children_text(ns, subtree_end(ns, c), e)
    } else {
        Seq::empty()
    }
}

fn node_text_exec(ns: &Vec<MdNode>, i: usize) -> (r: Vec<char>)
    requires
        i < ns@.len(),
    ensures
        r@ == node_text(nodes_view(ns@), i as int),
    decreases ns@.len() - i,
{
    let ghost nv = nodes_view(ns@);
    match &ns[i].kind {
        MdKind::Text(t) => chars_of(t.as_str()),
        MdKind::Code(c) => chars_of(c.as_str()),
        MdKind::Break => {
            let mut v: Vec<char> = Vec::new();
            v.push(' ');
            proof {
                assert(v@ =~= seq![' ']);
            }
            v
        },
        _ => {
            let e = subtree_end_exec(ns, i);
            let mut acc: Vec<char> = Vec::new();
            let mut c = i + 1;
            while c < e
                invariant
                    nv == nodes_view(ns@),
                    i < c <= ns@.len(),
                    e <= ns@.len(),
                    acc@ + children_text(nv, c as int, e as int) == children_text(
                        nv,
                        i + 1,
                        e as int,
                    ),
                decreases ns@.len() - c,
            {
                let mut piece = node_text_exec(ns, c);
                let next = subtree_end_exec(ns, c);
                proof {
                    assert(children_text(nv, c as int, e as int) == node_text(nv, c as int)
                        + children_text(nv, next as int, e as int));
                    assert(acc@ + piece@ + children_text(nv, next as int, e as int) =~= acc@
                        + children_text(nv, c as int, e as int));
                }
                acc.append(&mut piece);
                c = next;
            }
            proof {
                assert(acc@ + Seq::<char>::empty() =~= acc@);
            }
            acc
        },
    }
}

// ---------------------------------------------------------------------------
// List items
// ---------------------------------------------------------------------------

/// The text of a list item's own lines: its children other than nested
/// lists, each trimmed, joined with one space (no space before the first
/// piece while nothing has been collected).
pub open spec fn item_pieces(ns: Seq<MdNodeView>, c: int, e: int, acc: Seq<char>) -> Seq<char>
    decreases ns.len() - c,
{
    if 0 <= c < e && e <= ns.len() {
        proof {
            lemma_subtree_end(ns, c);
        }
        let next = subtree_end(ns, c);
        if ns[c].kind is List {
            item_pieces(ns, next, e, acc)
        } else {
            let sep = if acc.len() > 0 {
                acc.push(' ')
            } else {
                acc
            };
            item_pieces(ns, next, e, sep + trim(node_text(ns, c)))
        }
    } else {
        acc
    }
}

pub open spec fn item_text(ns: Seq<MdNodeView>, i: int) -> Seq<char> {
    item_pieces(ns, i + 1, subtree_end(ns, i), Seq::empty())
}

fn item_text_exec(ns: &Vec<MdNode>, i: usize) -> (r: Vec<char>)
    requires
        i < ns@.len(),
    ensures
        r@ == item_text(nodes_view(ns@), i as int),
{
    let ghost nv = nodes_view(ns@);
    let e = subtree_end_exec(ns, i);
    let mut acc: Vec<char> = Vec::new();
    let mut c = i + 1;
    while c < e
        invariant
            nv == nodes_view(ns@),
            i < c <= ns@.len(),
            e <= ns@.len(),
            item_pieces(nv, c as int, e as int, acc@) == item_pieces(
                nv,
                i + 1,
                e as int,
                Seq::empty(),
            ),
        decreases ns@.len() - c,
    {
        let next = subtree_end_exec(ns, c);
        let is_list = match &ns[c].kind {
            MdKind::List => true,
            _ => false,
        };
        let ghost before = acc@;
        if !is_list {
            if acc.len() > 0 {
                acc.push(' ');
            }
            let t = node_text_exec(ns, c);
            let (a, b) = trim_bounds(&t);
            acc.extend_from_slice(&t[a..b]);
            proof {
                let sep = if before.len() > 0 {
                    before.push(' ')
                } else {
                    before
                };
                assert(acc@ =~= sep + trim(node_text(nv, c as int)));
            }
        }
        proof {
            lemma_subtree_end(nv, c as int);
            assert(item_pieces(nv, c as int, e as int, before) == item_pieces(
                nv,
                next as int,
                e as int,
                acc@,
            ));
        }
        c = next;
    }
    acc
}

/// A custom checkbox marker, `^\[(.)\]\s?`: a symbol other than a line
/// feed between brackets, and an optional whitespace character after them.
/// The symbol and the text after the marker.
pub open spec fn custom_marker(t: Seq<char>) -> Option<(char, Seq<char>)> {
    if t.len() >= 3 && t[0] == '[' && t[1] != '\n' && t[2] == ']' {
        let rest = t.skip(3);
        Some(
            (
                t[1],
                if rest.len() > 0 && crate::text::is_ws(rest[0]) {
                    rest.skip(1)
                } else {
                    rest
                },
            ),
        )
    } else {
        None
    }
}

/// The checkbox symbol and raw text of the node at `k`, if it is a
/// checklist item: a checkbox item (an unchecked box reads as a space), or
/// a plain list item whose text opens with a custom marker (the parser
/// only recognises a space, `x` and `X` inside the brackets).
pub open spec fn checklist_item(ns: Seq<MdNodeView>, k: int) -> Option<(char, Seq<char>)> {
    match ns[k].kind {
        MdKindView::TaskItem(sym) => Some(
            (
                match sym {
                    Some(c) => c,
                    None => ' ',
                },
                item_text(ns, k),
            ),
        ),
        MdKindView::Item => custom_marker(item_text(ns, k)),
        _ => None,
    }
}

pub(crate) fn checklist_item_exec(ns: &Vec<MdNode>, k: usize) -> (r: Option<(char, Vec<char>)>)
    requires
        k < ns@.len(),
    ensures
        match (r, checklist_item(nodes_view(ns@), k as int)) {
            (Some((c, t)), Some((c2, t2))) => c == c2 && t@ == t2,
            (None, None) => true,
            _ => false,
        },
{
    match &ns[k].kind {
        MdKind::TaskItem(sym) => {
            let c = match sym {
                Some(c) => *c,
                None => ' ',
            };
            Some((c, item_text_exec(ns, k)))
        },
        MdKind::Item => {
            let t = item_text_exec(ns, k);
            let n = t.len();
            if n >= 3 && t[0] == '[' && t[1] != '\n' && t[2] == ']' {
                let start: usize = if n > 3 && is_whitespace(t[3]) {
                    4
                } else {
                    3
                };
                let rest = crate::text::copy_range(&t, start, n);
                proof {
                    let s = t@.skip(3);
                    if n > 3 && crate::text::is_ws(t@[3]) {
                        assert(rest@ =~= s.skip(1));
                    } else {
                        assert(rest@ =~= s);
                    }
                }
                Some((t[1], rest))
            } else {
                None
            }
        },
        _ => None,
    }
}

} // verus!
