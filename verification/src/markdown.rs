//! Markdown parsing. The parse itself is comrak's; this module picks the
//! extensions, detects front matter, and copies comrak's tree into the
//! library's [`MdNode`] form.

use vstd::prelude::*;

use comrak::arena_tree::NodeEdge;
use comrak::nodes::{ListType, NodeValue, TableAlignment};

use crate::ast::{MdNode, NodeKind, TableAlign};
use crate::text::{first_newline, lemma_first_newline_bounds, str_chars};

verus! {

#[verifier::external_type_specification]
#[verifier::external_body]
pub struct ExNodeValue(NodeValue);

#[verifier::external_type_specification]
#[verifier::external_body]
pub struct ExTableAlignment(TableAlignment);

/// Parser settings shared by every front-end, so extension flags do not
/// drift between the renderer and the browser.
#[derive(Debug, Clone, PartialEq, Eq)]
pub struct ParseConfig {
    pub strikethrough: bool,
    pub table: bool,
    pub tasklist: bool,
    pub autolink: bool,
    pub shortcodes: bool,
    pub front_matter_delimiter: Option<String>,
}

/// The extensions every front-end parses with: strikethrough, tables, task
/// lists and autolinks; emoji shortcodes as asked.
pub open spec fn base_config(c: ParseConfig, shortcodes: bool) -> bool {
    &&& c.strikethrough
    &&& c.table
    &&& c.tasklist
    &&& c.autolink
    &&& c.shortcodes == shortcodes
}

pub fn options(shortcodes: bool) -> (c: ParseConfig)
    ensures
        base_config(c, shortcodes),
        c.front_matter_delimiter is None,
{
    ParseConfig {
        strikethrough: true,
        table: true,
        tasklist: true,
        autolink: true,
        shortcodes,
        front_matter_delimiter: None,
    }
}

/// `s` without its trailing carriage returns.
pub open spec fn trim_cr(s: Seq<char>) -> Seq<char>
    decreases s.len(),
{
    if s.len() > 0 && s.last() == '\r' {
        trim_cr(s.drop_last())
    } else {
        s
    }
}

/// The first line of `s`, without its line terminator.
pub open spec fn first_line(s: Seq<char>) -> Seq<char> {
    trim_cr(s.subrange(0, first_newline(s)))
}

/// The front matter delimiter that `input` opens with, if any: a first line
/// of exactly `+++` (TOML) or `---` (YAML).
pub open spec fn front_matter_of(input: Seq<char>) -> Option<Seq<char>> {
    if first_line(input) == "+++"@ {
        Some("+++"@)
    } else if first_line(input) == "---"@ {
        Some("---"@)
    } else {
        None
    }
}

fn first_line_exec(chars: &Vec<char>) -> (r: Vec<char>)
    ensures
        r@ == first_line(chars@),
{
    let mut end: usize = 0;
    while end < chars.len() && chars[end] != '\n'
        invariant
            end <= chars@.len(),
            forall|i: int| 0 <= i < end ==> chars@[i] != '\n',
        decreases chars@.len() - end,
    {
        end = end + 1;
    }
    proof {
        lemma_first_newline_bounds(chars@);
        // `end` is the first newline: nothing before it is one.
        if first_newline(chars@) < end {
            assert(chars@[first_newline(chars@)] == '\n');
        }
        if end < first_newline(chars@) {
            assert(chars@[end as int] == '\n');
        }
    }
    while end > 0 && chars[end - 1] == '\r'
        invariant
            end <= chars@.len(),
            trim_cr(chars@.subrange(0, end as int)) == first_line(chars@),
        decreases end,
    {
        assert(chars@.subrange(0, end as int).drop_last() =~= chars@.subrange(0, end - 1));
        end = end - 1;
    }
    let mut r: Vec<char> = Vec::new();
    let mut i: usize = 0;
    while i < end
        invariant
            i <= end <= chars@.len(),
            r@ == chars@.subrange(0, i as int),
        decreases end - i,
    {
        r.push(chars[i]);
        i = i + 1;
        assert(r@ =~= chars@.subrange(0, i as int));
    }
    r
}

fn chars_eq3(v: &Vec<char>, a: char, b: char, c: char) -> (r: bool)
    ensures
        r == (v@ == seq![a, b, c]),
{
    let r = v.len() == 3 && v[0] == a && v[1] == b && v[2] == c;
    proof {
        if v@.len() == 3 && v@[0] == a && v@[1] == b && v@[2] == c {
            assert(v@ =~= seq![a, b, c]);
        }
    }
    r
}

/// Detect a YAML (`---`) or TOML (`+++`) front matter delimiter on the first
/// line of `input` and pick the matching delimiter for the parser, so the
/// block lands in the tree as front matter instead of content.
pub fn options_for(input: &str, shortcodes: bool) -> (c: ParseConfig)
    ensures
        base_config(c, shortcodes),
        match c.front_matter_delimiter {
            Some(d) => front_matter_of(input@) == Some(d@),
            None => front_matter_of(input@) is None,
        },
{
    let mut opts = options(shortcodes);
    let chars = str_chars(input);
    let first = first_line_exec(&chars);
    proof {
        reveal_strlit("+++");
        reveal_strlit("---");
        assert("+++"@ =~= seq!['+', '+', '+']);
        assert("---"@ =~= seq!['-', '-', '-']);
    }
    if chars_eq3(&first, '+', '+', '+') {
        opts.front_matter_delimiter = Some("+++".to_string());
    } else if chars_eq3(&first, '-', '-', '-') {
        opts.front_matter_delimiter = Some("---".to_string());
    }
    opts
}

/// Copies a block container's value out of comrak's `NodeValue`.
#[verifier::external_body]
fn container_kind(v: &NodeValue) -> Option<NodeKind> {
    match v {
        NodeValue::Document => Some(NodeKind::Document),
        NodeValue::FrontMatter(_) => Some(NodeKind::FrontMatter),
        NodeValue::BlockQuote => Some(NodeKind::BlockQuote),
        NodeValue::List(l) => Some(NodeKind::List {
            ordered: matches!(l.list_type, ListType::Ordered),
            start: l.start,
            tight: l.tight,
        }),
        NodeValue::Item(_) => Some(NodeKind::Item),
        NodeValue::TaskItem(t) => Some(NodeKind::TaskItem(t.symbol.is_some())),
        NodeValue::Paragraph => Some(NodeKind::Paragraph),
        NodeValue::Heading(h) => Some(NodeKind::Heading(h.level)),
        _ => None,
    }
}

/// Copies a leaf block's or table part's value out of comrak's `NodeValue`
/// (a table's alignments come from [`table_alignments`]).
#[verifier::external_body]
fn leaf_kind(v: &NodeValue) -> Option<NodeKind> {
    match v {
        NodeValue::CodeBlock(c) => Some(NodeKind::CodeBlock {
            info: c.info.clone(),
            literal: c.literal.clone(),
        }),
        NodeValue::HtmlBlock(h) => Some(NodeKind::HtmlBlock(h.literal.clone())),
        NodeValue::ThematicBreak => Some(NodeKind::ThematicBreak),
        NodeValue::Table(_) => Some(NodeKind::Table(Vec::new())),
        NodeValue::TableRow(header) => Some(NodeKind::TableRow(*header)),
        NodeValue::TableCell => Some(NodeKind::TableCell),
        _ => None,
    }
}

/// Copies a literal inline's value out of comrak's `NodeValue`.
#[verifier::external_body]
fn literal_kind(v: &NodeValue) -> Option<NodeKind> {
    match v {
        NodeValue::Text(t) => Some(NodeKind::Text(t.to_string())),
        NodeValue::SoftBreak => Some(NodeKind::SoftBreak),
        NodeValue::LineBreak => Some(NodeKind::LineBreak),
        NodeValue::Code(c) => Some(NodeKind::Code(c.literal.clone())),
        NodeValue::HtmlInline(h) => Some(NodeKind::HtmlInline(h.clone())),
        NodeValue::ShortCode(s) => Some(NodeKind::ShortCode(s.emoji.clone())),
        _ => None,
    }
}

/// Copies a styled inline's value out of comrak's `NodeValue`.
#[verifier::external_body]
fn span_kind(v: &NodeValue) -> Option<NodeKind> {
    match v {
        NodeValue::Emph => Some(NodeKind::Emph),
        NodeValue::Strong => Some(NodeKind::Strong),
        NodeValue::Strikethrough => Some(NodeKind::Strikethrough),
        NodeValue::Link(l) => Some(NodeKind::Link(l.url.clone())),
        NodeValue::Image(l) => Some(NodeKind::Image(l.url.clone())),
        _ => None,
    }
}

/// A copy of a table node's column alignments; empty for any other node.
#[verifier::external_body]
fn table_alignments(v: &NodeValue) -> Vec<TableAlignment> {
    match v {
        NodeValue::Table(t) => t.alignments.clone(),
        _ => Vec::new(),
    }
}

/// comrak's `TableAlignment` as the library's `TableAlign`.
#[verifier::external_body]
fn alignment(a: &TableAlignment) -> TableAlign {
    match a {
        TableAlignment::None => TableAlign::Unspecified,
        TableAlignment::Left => TableAlign::Left,
        TableAlignment::Center => TableAlign::Center,
        TableAlignment::Right => TableAlign::Right,
    }
}

/// The library's node kind for a comrak node value.
fn node_kind(v: &NodeValue) -> NodeKind {
    if let Some(k) = container_kind(v) {
        return k;
    }
    if let Some(k) = leaf_kind(v) {
        if let NodeKind::Table(_) = k {
            let raw = table_alignments(v);
            let mut aligns: Vec<TableAlign> = Vec::new();
            let mut i: usize = 0;
            while i < raw.len()
                invariant
                    i <= raw@.len(),
                decreases raw@.len() - i,
            {
                aligns.push(alignment(&raw[i]));
                i = i + 1;
            }
            return NodeKind::Table(aligns);
        }
        return k;
    }
    if let Some(k) = literal_kind(v) {
        return k;
    }
    if let Some(k) = span_kind(v) {
        return k;
    }
    NodeKind::Other
}

/// The events as traversal steps: entering a node of a kind (`Some`), or
/// leaving the innermost open node (`None`).
pub open spec fn steps_of(events: Seq<(bool, NodeKind)>) -> Seq<Option<NodeKind>> {
    events.map_values(|e: (bool, NodeKind)| if e.0 { Some(e.1) } else { None })
}

/// The depth-first traversal of `t`: entering it, traversing its children
/// in order, leaving it.
pub open spec fn traversal(t: MdNode) -> Seq<Option<NodeKind>>
    decreases t, 1nat, 0int,
{
    seq![Some(t.kind)] + children_traversal(t, t.children@.len() as int) + seq![None]
}

/// The traversals of the first `n` children of `t`, one after another.
pub open spec fn children_traversal(t: MdNode, n: int) -> Seq<Option<NodeKind>>
    decreases t, 0nat, n,
{
    if n <= 0 || n > t.children@.len() {
        Seq::empty()
    } else {
        proof {
            assert(decreases_to!(t => t.children@[n - 1]));
        }
        children_traversal(t, n - 1) + traversal(t.children@[n - 1])
    }
}

/// Entries minus exits.
pub open spec fn depth(s: Seq<Option<NodeKind>>) -> int
    decreases s.len(),
{
    if s.len() == 0 {
        0
    } else {
        depth(s.drop_last()) + if s.last() is Some { 1int } else { -1int }
    }
}

/// The steps that opened the nodes on `stack` and traversed the children
/// they hold so far.
pub open spec fn open_steps(stack: Seq<(NodeKind, Vec<MdNode>)>) -> Seq<Option<NodeKind>>
    decreases stack.len(),
{
    if stack.len() == 0 {
        Seq::empty()
    } else {
        let f = stack.last();
        open_steps(stack.drop_last()) + seq![Some(f.0)] + children_traversal(
            MdNode { kind: f.0, children: f.1 },
            f.1@.len() as int,
        )
    }
}

proof fn lemma_depth_single(x: Option<NodeKind>)
    ensures
        depth(seq![x]) == if x is Some { 1int } else { -1int },
{
    let s = seq![x];
    assert(s.drop_last() =~= Seq::<Option<NodeKind>>::empty());
    assert(depth(Seq::<Option<NodeKind>>::empty()) == 0);
}

proof fn lemma_depth_concat(a: Seq<Option<NodeKind>>, b: Seq<Option<NodeKind>>)
    ensures
        depth(a + b) == depth(a) + depth(b),
    decreases b.len(),
{
    if b.len() > 0 {
        assert((a + b).drop_last() =~= a + b.drop_last());
        lemma_depth_concat(a, b.drop_last());
    } else {
        assert(a + b =~= a);
    }
}

/// A traversal ends as deep as it starts, and every proper prefix of it
/// that is not empty stays inside the node.
proof fn lemma_traversal_depth(t: MdNode)
    ensures
        traversal(t).len() >= 2,
        traversal(t)[0] == Some(t.kind),
        depth(traversal(t)) == 0,
        forall|k: int| 0 < k < traversal(t).len() ==> depth(#[trigger] traversal(t).take(k)) >= 1,
    decreases t, 1nat, 0int,
{
    let n = t.children@.len() as int;
    let ct = children_traversal(t, n);
    lemma_children_depth(t, n);
    let tr = traversal(t);
    assert(tr =~= seq![Some(t.kind)] + ct + seq![None]);
    lemma_depth_concat(seq![Some(t.kind)], ct);
    lemma_depth_concat(seq![Some(t.kind)] + ct, seq![None]);
    lemma_depth_single(Some(t.kind));
    lemma_depth_single(None);
    assert forall|k: int| 0 < k < tr.len() implies depth(#[trigger] tr.take(k)) >= 1 by {
        assert(tr.take(k) =~= seq![Some(t.kind)] + ct.take(k - 1));
        lemma_depth_concat(seq![Some(t.kind)], ct.take(k - 1));
    }
}

/// The children's traversals together end as deep as they start and never
/// climb above it.
proof fn lemma_children_depth(t: MdNode, n: int)
    ensures
        depth(children_traversal(t, n)) == 0,
        forall|k: int|
            0 <= k <= children_traversal(t, n).len() ==> depth(#[trigger] children_traversal(t, n).take(k)) >= 0,
    decreases t, 0nat, n,
{
    if n <= 0 || n > t.children@.len() {
        assert forall|k: int| 0 <= k <= children_traversal(t, n).len() implies depth(
            #[trigger] children_traversal(t, n).take(k),
        ) >= 0 by {
            assert(children_traversal(t, n).take(k) =~= Seq::<Option<NodeKind>>::empty());
        }
    } else {
        assert(decreases_to!(t => t.children@[n - 1]));
        let prev = children_traversal(t, n - 1);
        let last = traversal(t.children@[n - 1]);
        lemma_children_depth(t, n - 1);
        lemma_traversal_depth(t.children@[n - 1]);
        lemma_depth_concat(prev, last);
        let whole = children_traversal(t, n);
        assert(whole == prev + last);
        assert forall|k: int| 0 <= k <= whole.len() implies depth(#[trigger] whole.take(k)) >= 0 by {
            if k <= prev.len() {
                assert(whole.take(k) =~= prev.take(k));
            } else {
                let m = k - prev.len();
                assert(whole.take(k) =~= prev + last.take(m));
                lemma_depth_concat(prev, last.take(m));
                assert(prev.take(prev.len() as int) =~= prev);
                if m == last.len() {
                    assert(last.take(m) =~= last);
                } else if m == 0 {
                    assert(last.take(m) =~= Seq::<Option<NodeKind>>::empty());
                }
            }
        }
    }
}

/// Each node still open on `stack` contributes one more entry than exit.
proof fn lemma_open_depth(stack: Seq<(NodeKind, Vec<MdNode>)>)
    ensures
        depth(open_steps(stack)) == stack.len(),
    decreases stack.len(),
{
    if stack.len() > 0 {
        let f = stack.last();
        let node = MdNode { kind: f.0, children: f.1 };
        lemma_open_depth(stack.drop_last());
        lemma_children_depth(node, f.1@.len() as int);
        lemma_depth_concat(open_steps(stack.drop_last()), seq![Some(f.0)]);
        lemma_depth_concat(open_steps(stack.drop_last()) + seq![Some(f.0)], children_traversal(node, f.1@.len() as int));
        lemma_depth_single(Some(f.0));
    }
}

/// The traversals of the first `n` children depend on those children only.
proof fn lemma_children_same(a: MdNode, b: MdNode, n: int)
    requires
        0 <= n <= a.children@.len(),
        n <= b.children@.len(),
        forall|j: int| 0 <= j < n ==> a.children@[j] == b.children@[j],
    ensures
        children_traversal(a, n) == children_traversal(b, n),
    decreases n,
{
    if n > 0 {
        lemma_children_same(a, b, n - 1);
    }
}

/// Adding a child adds its traversal.
proof fn lemma_children_push(k: NodeKind, before: Vec<MdNode>, after: Vec<MdNode>, child: MdNode)
    requires
        after@ == before@.push(child),
    ensures
        children_traversal(MdNode { kind: k, children: after }, after@.len() as int) == children_traversal(
            MdNode { kind: k, children: before },
            before@.len() as int,
        ) + traversal(child),
{
    let a = MdNode { kind: k, children: after };
    let b = MdNode { kind: k, children: before };
    lemma_children_same(a, b, before@.len() as int);
    assert(a.children@[before@.len() as int] == child);
}

/// Closes the innermost open node and hands it to its parent; returns it
/// when it was the outermost.
fn close_node(stack: &mut Vec<(NodeKind, Vec<MdNode>)>) -> (done: Option<MdNode>)
    requires
        old(stack)@.len() > 0,
    ensures
        final(stack)@.len() == old(stack)@.len() - 1,
        done is Some <==> final(stack)@.len() == 0,
        open_steps(old(stack)@) + seq![None] == if done is Some {
            traversal(done->0)
        } else {
            open_steps(final(stack)@)
        },
{
    let ghost pre = stack@;
    let (kind, children) = stack.pop().unwrap();
    let node = MdNode { kind, children };
    proof {
        assert(pre.drop_last() == stack@);
        assert(node == MdNode { kind: pre.last().0, children: pre.last().1 });
    }
    if stack.len() == 0 {
        proof {
            assert(open_steps(stack@) =~= Seq::<Option<NodeKind>>::empty());
            assert(open_steps(pre) =~= seq![Some(node.kind)] + children_traversal(node, node.children@.len() as int));
            assert(open_steps(pre) + seq![None] =~= traversal(node));
        }
        Some(node)
    } else {
        let ghost mid = stack@;
        let (pk, mut pc) = stack.pop().unwrap();
        let ghost pc_before = pc;
        pc.push(node);
        stack.push((pk, pc));
        proof {
            assert(mid.drop_last() == stack@.drop_last());
            lemma_children_push(pk, pc_before, pc, node);
            let rest = open_steps(mid.drop_last());
            assert(open_steps(mid) == rest + seq![Some(pk)] + children_traversal(
                MdNode { kind: pk, children: pc_before },
                pc_before@.len() as int,
            ));
            assert(open_steps(stack@) == rest + seq![Some(pk)] + children_traversal(
                MdNode { kind: pk, children: pc },
                pc@.len() as int,
            ));
            assert(open_steps(pre) == open_steps(mid) + seq![Some(node.kind)] + children_traversal(
                node,
                node.children@.len() as int,
            ));
            assert(open_steps(pre) + seq![None] =~= open_steps(stack@));
        }
        None
    }
}

/// Rebuild a tree from enter/leave events. Unmatched leaves are ignored and
/// nodes still open at the end are closed; with no node at all the result
/// is an empty document. When the events are the traversal of a tree, the
/// tree rebuilt has exactly that traversal.
fn build_tree(events: Vec<(bool, NodeKind)>) -> (doc: MdNode)
    ensures
        (exists|t: MdNode| traversal(t) == steps_of(events@)) ==> traversal(doc) == steps_of(events@),
{
    let ghost steps = steps_of(events@);
    let ghost t = choose|t: MdNode| traversal(t) == steps;
    let ghost bal = traversal(t) == steps;
    proof {
        lemma_traversal_depth(t);
    }
    let n = events.len();
    let mut rev = crate::render::reversed(events);
    let mut stack: Vec<(NodeKind, Vec<MdNode>)> = Vec::new();
    let mut root: Option<MdNode> = None;
    let mut i: usize = 0;
    assert(steps.take(0) =~= Seq::<Option<NodeKind>>::empty());
    assert(open_steps(stack@) =~= Seq::<Option<NodeKind>>::empty());
    while rev.len() > 0
        invariant
            n == steps.len(),
            i + rev@.len() == n,
            steps == steps_of(events@),
            rev@ == events@.subrange(i as int, n as int).reverse(),
            bal == (traversal(t) == steps),
            traversal(t).len() >= 2,
            traversal(t)[0] == Some(t.kind),
            forall|k: int| 0 < k < traversal(t).len() ==> depth(#[trigger] traversal(t).take(k)) >= 1,
            bal ==> (root is None ==> open_steps(stack@) == steps.take(i as int)),
            bal ==> (root is Some ==> i == n && stack@.len() == 0),
            bal ==> (root matches Some(r) ==> traversal(r) == steps),
        decreases rev@.len(),
    {
        assert(rev@[rev@.len() - 1] == events@[i as int]);
        let (enter, kind) = rev.pop().unwrap();
        proof {
            assert(rev@ =~= events@.subrange(i + 1, n as int).reverse());
            assert(steps.take(i + 1) =~= steps.take(i as int).push(steps[i as int]));
            assert(steps[i as int] == (if enter { Some(kind) } else { None }));
        }
        if enter {
            let ghost before = stack@;
            stack.push((kind, Vec::new()));
            proof {
                let fresh: Vec<MdNode> = stack@.last().1;
                assert(children_traversal(MdNode { kind, children: fresh }, 0) =~= Seq::<Option<NodeKind>>::empty());
                assert(stack@.drop_last() == before);
                assert(open_steps(stack@) =~= open_steps(before) + seq![Some(kind)]);
            }
        } else if stack.len() > 0 {
            let ghost before = stack@;
            let ghost was_none = root is None;
            if let Some(done) = close_node(&mut stack) {
                proof {
                    if bal {
                        assert(traversal(done) == steps.take(i + 1));
                        lemma_traversal_depth(done);
                        lemma_open_depth(before);
                        lemma_depth_concat(open_steps(before), seq![None]);
                        lemma_depth_single(None);
                        assert(before.len() == 1);
                        assert(depth(steps.take(i + 1)) == 0);
                        assert(traversal(t).take(i + 1) == steps.take(i + 1));
                        assert(i + 1 == n);
                        assert(steps.take(n as int) =~= steps);
                    }
                }
                if root.is_none() {
                    root = Some(done);
                }
            }
        } else {
            proof {
                if bal && root is None {
                    assert(open_steps(stack@) =~= Seq::<Option<NodeKind>>::empty());
                    assert(i == 0);
                    assert(steps[0] == traversal(t)[0]);
                }
            }
        }
        i = i + 1;
    }
    proof {
        lemma_traversal_depth(t);
        if bal && root is None {
            assert(steps.take(n as int) =~= steps);
            lemma_open_depth(stack@);
            if stack@.len() == 0 {
                assert(open_steps(stack@) =~= Seq::<Option<NodeKind>>::empty());
            }
        }
    }
    while stack.len() > 0
        invariant
            bal ==> stack@.len() == 0,
            bal ==> (root matches Some(r) && traversal(r) == steps),
        decreases stack@.len(),
    {
        if let Some(done) = close_node(&mut stack) {
            if root.is_none() {
                root = Some(done);
            }
        }
    }
    match root {
        Some(r) => r,
        None => MdNode { kind: NodeKind::Document, children: Vec::new() },
    }
}

/// What comrak makes of `input`: the entries of `comrak::parse_document` on
/// `input` with the given extensions and front matter delimiter (the other
/// options at their defaults), walked with `traverse`, each node's value
/// copied as a `NodeKind`. A function of its arguments alone.
pub uninterp spec fn comrak_events_of(
    input: Seq<char>,
    strikethrough: bool,
    table: bool,
    tasklist: bool,
    autolink: bool,
    shortcodes: bool,
    front_matter: Option<Seq<char>>,
) -> Seq<(bool, NodeKind)>;

/// `comrak::parse_document` on `input`, the extensions and front matter
/// delimiter set as given, walked with `traverse`: one entry per node
/// entered (`true`) and left (`false`), with the node's kind. The entries
/// are named, not stated; the one fact claimed of them is the shape
/// `traverse` yields, the depth-first traversal of a tree.
#[verifier::external_body]
fn comrak_parse(
    input: &str,
    strikethrough: bool,
    table: bool,
    tasklist: bool,
    autolink: bool,
    shortcodes: bool,
    front_matter: Option<&str>,
) -> (r: Vec<(bool, NodeKind)>)
    ensures
        r@ == comrak_events_of(
            input@,
            strikethrough,
            table,
            tasklist,
            autolink,
            shortcodes,
            match front_matter {
                Some(f) => Some(f@),
                None => None,
            },
        ),
        exists|t: MdNode| traversal(t) == steps_of(r@),
{
    let mut o = comrak::Options::default();
    o.extension.strikethrough = strikethrough;
    o.extension.table = table;
    o.extension.tasklist = tasklist;
    o.extension.autolink = autolink;
    o.extension.shortcodes = shortcodes;
    o.extension.front_matter_delimiter = front_matter.map(str::to_string);
    let arena = comrak::Arena::new();
    let root = comrak::parse_document(&arena, input, &o);
    root.traverse().map(|edge| match edge {
        NodeEdge::Start(n) => (true, node_kind(&n.data().value)),
        NodeEdge::End(n) => (false, node_kind(&n.data().value)),
    }).collect()
}

/// The traversal of the tree `input` parses into: the extensions every
/// front-end uses, front matter as its first line says.
pub open spec fn parsed_steps(input: Seq<char>, shortcodes: bool) -> Seq<Option<NodeKind>> {
    steps_of(comrak_events_of(input, true, true, true, true, shortcodes, front_matter_of(input)))
}

/// Parse markdown into the library's tree, with front matter detected from
/// the first line and emoji shortcodes expanded when `shortcodes` is set:
/// the tree whose traversal is the one comrak gives.
pub fn parse(input: &str, shortcodes: bool) -> (doc: MdNode)
    ensures
        traversal(doc) == parsed_steps(input@, shortcodes),
{
    let config = options_for(input, shortcodes);
    let front_matter = match &config.front_matter_delimiter {
        Some(d) => Some(d.as_str()),
        None => None,
    };
    let events = comrak_parse(
        input,
        config.strikethrough,
        config.table,
        config.tasklist,
        config.autolink,
        config.shortcodes,
        front_matter,
    );
    build_tree(events)
}

} // verus!
