//! The subtree report of an element: its nodes, the XPath of each child
//! relative to the root, the flat list of the nodes that carry some
//! identifying text, and the indented text form of the tree.
use vstd::prelude::*;
use crate::model::{join_strings, join_with, Rect};
use crate::text::{decimal, push_decimal, push_signed_decimal, signed_decimal};

verus! {

/// One element of an inspected subtree.
#[derive(Debug)]
pub struct InspectNode {
    /// Depth below the root (the root is 0).
    pub depth: usize,
    pub control_type: String,
    pub name: String,
    pub class_name: String,
    pub automation_id: String,
    pub framework_id: String,
    /// The text of the element's value pattern, when it has a non-empty one.
    pub text_value: Option<String>,
    pub help_text: String,
    pub item_type: String,
    pub item_status: String,
    pub rect: Option<Rect>,
    pub is_offscreen: bool,
    /// The XPath that selects the element from the root.
    pub relative_xpath: String,
    pub children: Vec<InspectNode>,
}

/// The report of an inspection.
#[derive(Debug)]
pub struct InspectResult {
    pub success: bool,
    pub root_xpath: String,
    pub nodes: Option<InspectNode>,
    /// The identifiable nodes in depth-first order, without their children.
    pub flat_nodes: Vec<InspectNode>,
    /// The indented text form, when asked for.
    pub text_output: Option<String>,
    /// The number of nodes visited below the root.
    pub total_children: usize,
    pub error: Option<String>,
}

// ── child XPaths ─────────────────────────────────────────────────────────

/// How many of the first `k` types equal `t`.
pub open spec fn count_type(types: Seq<Seq<char>>, k: int, t: Seq<char>) -> nat
    decreases k,
{
    if k <= 0 {
        0
    } else {
        count_type(types, k - 1, t) + if types[k - 1] == t {
            1nat
        } else {
            0nat
        }
    }
}

/// The XPath of child `i` among children of the given control types: the
/// parent's XPath, `/` and the type, with its position among the children of
/// that type (from 1) when there is more than one of them.
pub open spec fn child_xpath(parent: Seq<char>, types: Seq<Seq<char>>, i: int) -> Seq<char> {
    let t = types[i];
    if count_type(types, types.len() as int, t) > 1 {
        parent + "/"@ + t + "["@ + decimal(count_type(types, i + 1, t)) + "]"@
    } else {
        parent + "/"@ + t
    }
}

proof fn lemma_count_type_bound(types: Seq<Seq<char>>, k: int, t: Seq<char>)
    requires
        0 <= k <= types.len(),
    ensures
        count_type(types, k, t) <= k,
    decreases k,
{
    if k > 0 {
        lemma_count_type_bound(types, k - 1, t);
    }
}

fn count_of(types: &Vec<String>, k: usize, t: &str) -> (c: usize)
    requires
        k <= types@.len(),
    ensures
        c == count_type(types@.map_values(|s: String| s@), k as int, t@),
{
    let ghost tv = types@.map_values(|s: String| s@);
    let mut c: usize = 0;
    let mut j: usize = 0;
    while j < k
        invariant
            j <= k <= types@.len(),
            tv == types@.map_values(|s: String| s@),
            c == count_type(tv, j as int, t@),
            c <= j,
        decreases k - j,
    {
        assert(tv[j as int] == types@[j as int]@);
        if crate::model::str_eq(types[j].as_str(), t) {
            c += 1;
        }
        j += 1;
    }
    c
}

/// The XPaths of children of the given control types under a parent.
pub fn child_xpaths(parent_xpath: &str, types: &Vec<String>) -> (r: Vec<String>)
    ensures
        r@.len() == types@.len(),
        forall|i: int| 0 <= i < types@.len() ==> (#[trigger] r@[i])@ == child_xpath(
            parent_xpath@,
            types@.map_values(|s: String| s@),
            i,
        ),
{
    let ghost tv = types@.map_values(|s: String| s@);
    proof {
        reveal_strlit("/");
        reveal_strlit("[");
        reveal_strlit("]");
    }
    let n = types.len();
    let mut r: Vec<String> = Vec::new();
    let mut i: usize = 0;
    while i < n
        invariant
            i <= n,
            n == types@.len(),
            tv == types@.map_values(|s: String| s@),
            r@.len() == i,
            forall|k: int| 0 <= k < i ==> (#[trigger] r@[k])@ == child_xpath(parent_xpath@, tv, k),
        decreases n - i,
    {
        let t = types[i].as_str();
        assert(tv[i as int] == t@);
        let total = count_of(types, n, t);
        let seen = count_of(types, i + 1, t);
        let mut s = String::new();
        s.push_str(parent_xpath);
        s.push_str("/");
        s.push_str(t);
        if total > 1 {
            s.push_str("[");
            push_decimal(&mut s, seen as u64);
            s.push_str("]");
        }
        assert(s@ == child_xpath(parent_xpath@, tv, i as int));
        r.push(s);
        i += 1;
    }
    r
}

/// The number of nodes of a subtree, its root among them.
pub open spec fn node_count(n: InspectNode) -> nat
    decreases n, 1nat,
{
    1 + nodes_count(n.children@)
}

/// The number of nodes of a sequence of subtrees.
pub open spec fn nodes_count(s: Seq<InspectNode>) -> nat
    decreases s, 0nat,
{
    if s.len() == 0 {
        0
    } else {
        nodes_count(s.drop_last()) + node_count(s.last())
    }
}

/// A count, or the largest `usize` when it does not fit.
pub open spec fn capped(n: nat) -> usize {
    if n <= usize::MAX {
        n as usize
    } else {
        usize::MAX
    }
}

/// The number of nodes of a subtree (the largest `usize` when more).
pub fn count_nodes(node: &InspectNode) -> (c: usize)
    ensures
        c == capped(node_count(*node)),
        c >= 1,
    decreases node,
{
    let n = node.children.len();
    let mut c: usize = 1;
    let mut i: usize = 0;
    while i < n
        invariant
            i <= n,
            n == node.children@.len(),
            c == capped(1 + nodes_count(node.children@.take(i as int))),
            c >= 1,
        decreases n - i,
    {
        proof {
            assert(decreases_to!(*node => node.children));
            assert(decreases_to!(node.children => node.children@));
            assert(decreases_to!(node.children@ => node.children@[i as int]));
        }
        let k = count_nodes(&node.children[i]);
        proof {
            let t = node.children@.take(i + 1);
            assert(t.drop_last() =~= node.children@.take(i as int));
            assert(t.last() == node.children@[i as int]);
        }
        c = c.saturating_add(k);
        i += 1;
    }
    assert(node.children@.take(n as int) =~= node.children@);
    c
}

/// The limits of a subtree inspection and the number of nodes built so far.
pub struct InspectBudget {
    max_depth: usize,
    max_nodes: usize,
    visited: usize,
}

/// The mathematical state of an inspection's budget.
pub struct BudgetView {
    pub max_depth: usize,
    pub max_nodes: usize,
    pub visited: usize,
}

impl View for InspectBudget {
    type V = BudgetView;

    closed spec fn view(&self) -> BudgetView {
        BudgetView { max_depth: self.max_depth, max_nodes: self.max_nodes, visited: self.visited }
    }
}

/// The most nodes an inspection builds: `max_nodes`, and the root even when
/// that is 0.
pub open spec fn node_limit(max_nodes: usize) -> usize {
    if max_nodes == 0 {
        1
    } else {
        max_nodes
    }
}

/// Whether a node may be built now: the root, or a child while the node
/// budget is not used up.
pub open spec fn may_visit(b: BudgetView) -> bool {
    b.visited == 0 || b.visited < b.max_nodes
}

impl InspectBudget {
    /// The budget of an inspection to `max_depth` levels and at most
    /// `max_nodes` nodes, before the root is built.
    pub fn new(max_depth: usize, max_nodes: usize) -> (r: Self)
        ensures
            r@ == (BudgetView { max_depth, max_nodes, visited: 0 }),
    {
        InspectBudget { max_depth, max_nodes, visited: 0 }
    }

    /// The number of nodes built so far.
    pub fn visited(&self) -> (n: usize)
        ensures
            n == self@.visited,
    {
        self.visited
    }

    /// Counts a node built; the count never goes past the node limit.
    pub fn visit(&mut self)
        requires
            may_visit(old(self)@),
            old(self)@.visited <= node_limit(old(self)@.max_nodes),
        ensures
            final(self)@ == (BudgetView { visited: (old(self)@.visited + 1) as usize, ..old(self)@ }),
            final(self)@.visited <= node_limit(final(self)@.max_nodes),
    {
        self.visited = self.visited + 1;
    }

    /// Whether the node just built at `depth` has its children read: it is
    /// above the depth limit and the node budget is not used up.
    pub fn expands(&self, depth: usize) -> (b: bool)
        ensures
            b == (depth < self@.max_depth && self@.visited < self@.max_nodes),
    {
        expands(depth, self.max_depth, self.visited, self.max_nodes)
    }

    /// How many children of a node at `depth` are read: all of them below
    /// the root's own level, at most `max_nodes` deeper down.
    pub fn child_cap(&self, depth: usize) -> (r: Option<usize>)
        ensures
            r == (if depth == 0 {
                None
            } else {
                Some(self@.max_nodes)
            }),
    {
        if depth == 0 {
            None
        } else {
            Some(self.max_nodes)
        }
    }

    /// Whether the next child is built: while the node budget is not used up.
    pub fn takes_child(&self) -> (b: bool)
        ensures
            b == (self@.visited < self@.max_nodes),
            b ==> may_visit(self@),
    {
        self.visited < self.max_nodes
    }
}

/// Whether a node is expanded: it is above the depth limit and the node
/// budget is not used up.
pub fn expands(depth: usize, max_depth: usize, visited: usize, max_nodes: usize) -> (b: bool)
    ensures
        b == (depth < max_depth && visited < max_nodes),
{
    depth < max_depth && visited < max_nodes
}

// ── identifiable nodes ───────────────────────────────────────────────────

/// A node carries identifying text: a name, a value text or a help text.
pub open spec fn identifiable(n: InspectNode) -> bool {
    n.name@.len() > 0 || (n.text_value matches Some(t) && t@.len() > 0) || n.help_text@.len() > 0
}

/// Whether a node has identifying text.
pub fn has_identifiable_info(n: &InspectNode) -> (b: bool)
    ensures
        b == identifiable(*n),
{
    let text = match &n.text_value {
        Some(t) => !t.as_str().is_empty(),
        None => false,
    };
    !n.name.as_str().is_empty() || text || !n.help_text.as_str().is_empty()
}

/// The identifiable nodes of a subtree in depth-first order (with their
/// children still attached).
pub open spec fn flat_node(n: InspectNode) -> Seq<InspectNode>
    decreases n, 1nat,
{
    (if identifiable(n) {
        seq![n]
    } else {
        seq![]
    }) + flat_nodes(n.children@)
}

/// The identifiable nodes of a sequence of subtrees, in order.
pub open spec fn flat_nodes(s: Seq<InspectNode>) -> Seq<InspectNode>
    decreases s, 0nat,
{
    if s.len() == 0 {
        seq![]
    } else {
        flat_nodes(s.drop_last()) + flat_node(s.last())
    }
}

/// Two nodes agree on everything but their children.
pub open spec fn same_fields(a: InspectNode, b: InspectNode) -> bool {
    &&& a.depth == b.depth
    &&& a.control_type@ == b.control_type@
    &&& a.name@ == b.name@
    &&& a.class_name@ == b.class_name@
    &&& a.automation_id@ == b.automation_id@
    &&& a.framework_id@ == b.framework_id@
    &&& crate::validation::opt_chars(a.text_value) == crate::validation::opt_chars(b.text_value)
    &&& a.help_text@ == b.help_text@
    &&& a.item_type@ == b.item_type@
    &&& a.item_status@ == b.item_status@
    &&& a.rect == b.rect
    &&& a.is_offscreen == b.is_offscreen
    &&& a.relative_xpath@ == b.relative_xpath@
}

/// `out` holds, after `base`, copies without children of the nodes of `flat`.
pub open spec fn copies_of(out: Seq<InspectNode>, base: int, flat: Seq<InspectNode>) -> bool {
    &&& out.len() == base + flat.len()
    &&& forall|j: int| 0 <= j < flat.len() ==> same_fields(#[trigger] out[base + j], flat[j]) && out[base
        + j].children@.len() == 0
}

fn copy_text(t: &Option<String>) -> (r: Option<String>)
    ensures
        crate::validation::opt_chars(r) == crate::validation::opt_chars(*t),
{
    match t {
        Some(s) => Some(s.clone()),
        None => None,
    }
}

/// A copy of a node without its children.
pub fn shallow_copy(n: &InspectNode) -> (r: InspectNode)
    ensures
        same_fields(r, *n),
        r.children@.len() == 0,
{
    InspectNode {
        depth: n.depth,
        control_type: n.control_type.clone(),
        name: n.name.clone(),
        class_name: n.class_name.clone(),
        automation_id: n.automation_id.clone(),
        framework_id: n.framework_id.clone(),
        text_value: copy_text(&n.text_value),
        help_text: n.help_text.clone(),
        item_type: n.item_type.clone(),
        item_status: n.item_status.clone(),
        rect: n.rect,
        is_offscreen: n.is_offscreen,
        relative_xpath: n.relative_xpath.clone(),
        children: Vec::new(),
    }
}

fn flatten_into(node: &InspectNode, out: &mut Vec<InspectNode>)
    ensures
        final(out)@.subrange(0, old(out)@.len() as int) == old(out)@,
        copies_of(final(out)@, old(out)@.len() as int, flat_node(*node)),
    decreases node,
{
    let ghost base = old(out)@.len() as int;
    if has_identifiable_info(node) {
        out.push(shallow_copy(node));
    }
    let ghost mid = out@;
    assert(copies_of(out@, base, if identifiable(*node) {
        seq![*node]
    } else {
        seq![]
    }));
    let n = node.children.len();
    let mut i: usize = 0;
    while i < n
        invariant
            i <= n,
            n == node.children@.len(),
            base <= mid.len(),
            out@.subrange(0, base) == old(out)@,
            out@.subrange(0, mid.len() as int) == mid,
            copies_of(mid, base, if identifiable(*node) {
                seq![*node]
            } else {
                seq![]
            }),
            copies_of(out@, mid.len() as int, flat_nodes(node.children@.take(i as int))),
            old(out)@.len() == base,
        decreases n - i,
    {
        let ghost before = out@;
        proof {
            assert(decreases_to!(*node => node.children));
            assert(decreases_to!(node.children => node.children@));
            assert(decreases_to!(node.children@ => node.children@[i as int]));
        }
        flatten_into(&node.children[i], out);
        proof {
            let s = node.children@.take(i + 1);
            assert(s.drop_last() =~= node.children@.take(i as int));
            assert(s.last() == node.children@[i as int]);
            assert(flat_nodes(s) == flat_nodes(node.children@.take(i as int)) + flat_node(node.children@[i as int]));
            let f1 = flat_nodes(node.children@.take(i as int));
            let f2 = flat_node(node.children@[i as int]);
            assert(out@.subrange(0, before.len() as int) =~= before);
            assert forall|j: int| 0 <= j < (f1 + f2).len() implies same_fields(
                #[trigger] out@[mid.len() + j],
                (f1 + f2)[j],
            ) && out@[mid.len() + j].children@.len() == 0 by {
                if j < f1.len() {
                    assert(out@[mid.len() + j] == before[mid.len() + j]);
                } else {
                    assert(out@[before.len() + (j - f1.len())] == out@[mid.len() + j]);
                }
            }
            assert(out@.subrange(0, base) =~= before.subrange(0, base));
            assert(out@.subrange(0, mid.len() as int) =~= before.subrange(0, mid.len() as int));
        }
        i += 1;
    }
    proof {
        assert(node.children@.take(n as int) =~= node.children@);
        let head = if identifiable(*node) {
            seq![*node]
        } else {
            seq![]
        };
        let tail = flat_nodes(node.children@);
        assert(flat_node(*node) == head + tail);
        assert forall|j: int| 0 <= j < (head + tail).len() implies same_fields(
            #[trigger] out@[base + j],
            (head + tail)[j],
        ) && out@[base + j].children@.len() == 0 by {
            if j < head.len() {
                assert(out@[base + j] == mid[base + j]);
            } else {
                assert(out@[mid.len() + (j - head.len())] == out@[base + j]);
            }
        }
    }
}

/// The identifiable nodes of a tree in depth-first order, each without its
/// children.
pub fn flatten_inspect_tree(root: &InspectNode) -> (r: Vec<InspectNode>)
    ensures
        copies_of(r@, 0, flat_node(*root)),
{
    let mut out: Vec<InspectNode> = Vec::new();
    flatten_into(root, &mut out);
    out
}

// ── text form ────────────────────────────────────────────────────────────

/// `2 * k` spaces.
pub open spec fn spaces(k: nat) -> Seq<char> {
    Seq::new(2 * k, |i: int| ' ')
}

/// `label="value"`.
pub open spec fn quoted_part(label: Seq<char>, v: Seq<char>) -> Seq<char> {
    label + "=\""@ + v + "\""@
}

/// `rect=(x,y,width,height)`.
pub open spec fn rect_part(r: Rect) -> Seq<char> {
    "rect=("@ + signed_decimal(r.x as int) + ","@ + signed_decimal(r.y as int) + ","@ + signed_decimal(
        r.width as int,
    ) + ","@ + signed_decimal(r.height as int) + ")"@
}

pub open spec fn part_if(cond: bool, part: Seq<char>) -> Seq<Seq<char>> {
    if cond {
        seq![part]
    } else {
        seq![]
    }
}

/// The words of a node's line: its type (indented), then each non-empty
/// attribute, the value text when there is one, the rectangle when known,
/// and an off-screen mark.
pub open spec fn line_parts(n: InspectNode, indent: nat) -> Seq<Seq<char>> {
    seq![spaces(indent) + n.control_type@]
        + part_if(n.name@.len() > 0, quoted_part("name"@, n.name@))
        + part_if(n.class_name@.len() > 0, quoted_part("class"@, n.class_name@))
        + part_if(n.automation_id@.len() > 0, quoted_part("id"@, n.automation_id@))
        + part_if(n.text_value is Some, quoted_part("text"@, n.text_value->0@))
        + part_if(n.help_text@.len() > 0, quoted_part("help"@, n.help_text@))
        + part_if(n.item_type@.len() > 0, quoted_part("itemType"@, n.item_type@))
        + part_if(n.item_status@.len() > 0, quoted_part("itemStatus"@, n.item_status@))
        + part_if(n.rect is Some, rect_part(n.rect->0))
        + part_if(n.is_offscreen, "[offscreen]"@)
}

/// The lines of a subtree: an identifiable node's own line, then its
/// children one level deeper; a node without identifying text has no line,
/// and its children stay at its level.
pub open spec fn node_lines(n: InspectNode, indent: nat) -> Seq<Seq<char>>
    decreases n, 1nat,
{
    if identifiable(n) {
        seq![join_with(line_parts(n, indent), " "@)] + list_lines(n.children@, indent + 1)
    } else {
        list_lines(n.children@, indent)
    }
}

pub open spec fn list_lines(s: Seq<InspectNode>, indent: nat) -> Seq<Seq<char>>
    decreases s, 0nat,
{
    if s.len() == 0 {
        seq![]
    } else {
        list_lines(s.drop_last(), indent) + node_lines(s.last(), indent)
    }
}

/// The height of a subtree.
pub open spec fn node_height(n: InspectNode) -> nat
    decreases n, 1nat,
{
    1 + list_height(n.children@)
}

pub open spec fn list_height(s: Seq<InspectNode>) -> nat
    decreases s, 0nat,
{
    if s.len() == 0 {
        0
    } else {
        let a = list_height(s.drop_last());
        let b = node_height(s.last());
        if a > b {
            a
        } else {
            b
        }
    }
}

proof fn lemma_list_height(s: Seq<InspectNode>, i: int)
    requires
        0 <= i < s.len(),
    ensures
        node_height(s[i]) <= list_height(s),
    decreases s.len(),
{
    if i < s.len() - 1 {
        lemma_list_height(s.drop_last(), i);
        assert(s.drop_last()[i] == s[i]);
    }
}

pub open spec fn lines_view(v: Seq<String>) -> Seq<Seq<char>> {
    v.map_values(|s: String| s@)
}

fn push_quoted_if(parts: &mut Vec<String>, cond: bool, label: &str, v: &str)
    ensures
        lines_view(final(parts)@) == lines_view(old(parts)@) + part_if(cond, quoted_part(label@, v@)),
{
    if cond {
        let mut s = String::new();
        s.push_str(label);
        s.push_str("=\"");
        s.push_str(v);
        s.push_str("\"");
        proof {
            reveal_strlit("=\"");
            reveal_strlit("\"");
        }
        assert(s@ == quoted_part(label@, v@));
        parts.push(s);
    }
    assert(lines_view(parts@) =~= lines_view(old(parts)@) + part_if(cond, quoted_part(label@, v@)));
}

fn indented(indent: usize, ct: &str) -> (s: String)
    ensures
        s@ == spaces(indent as nat) + ct@,
{
    let mut first = String::new();
    let mut k: usize = 0;
    proof {
        reveal_strlit("  ");
    }
    assert(first@ =~= spaces(0));
    while k < indent
        invariant
            k <= indent,
            first@ == spaces(k as nat),
        decreases indent - k,
    {
        first.push_str("  ");
        proof {
            reveal_strlit("  ");
        }
        assert(first@ =~= spaces((k + 1) as nat));
        k += 1;
    }
    first.push_str(ct);
    first
}

fn rect_text(r: Rect) -> (s: String)
    ensures
        s@ == rect_part(r),
{
    proof {
        reveal_strlit("rect=(");
        reveal_strlit(",");
        reveal_strlit(")");
    }
    let mut s = String::new();
    s.push_str("rect=(");
    push_signed_decimal(&mut s, r.x as i64);
    s.push_str(",");
    push_signed_decimal(&mut s, r.y as i64);
    s.push_str(",");
    push_signed_decimal(&mut s, r.width as i64);
    s.push_str(",");
    push_signed_decimal(&mut s, r.height as i64);
    s.push_str(")");
    assert(s@ =~= rect_part(r));
    s
}

fn push_part_if(parts: &mut Vec<String>, cond: bool, part: String)
    ensures
        lines_view(final(parts)@) == lines_view(old(parts)@) + part_if(cond, part@),
{
    if cond {
        parts.push(part);
    }
    assert(lines_view(parts@) =~= lines_view(old(parts)@) + part_if(cond, part@));
}

fn line_words(n: &InspectNode, indent: usize) -> (parts: Vec<String>)
    ensures
        lines_view(parts@) == line_parts(*n, indent as nat),
{
    let mut parts: Vec<String> = Vec::new();
    parts.push(indented(indent, n.control_type.as_str()));
    assert(lines_view(parts@) =~= seq![spaces(indent as nat) + n.control_type@]);
    push_quoted_if(&mut parts, !n.name.as_str().is_empty(), "name", n.name.as_str());
    push_quoted_if(&mut parts, !n.class_name.as_str().is_empty(), "class", n.class_name.as_str());
    push_quoted_if(&mut parts, !n.automation_id.as_str().is_empty(), "id", n.automation_id.as_str());
    let text = match &n.text_value {
        Some(t) => t.as_str(),
        None => "",
    };
    push_quoted_if(&mut parts, n.text_value.is_some(), "text", text);
    push_quoted_if(&mut parts, !n.help_text.as_str().is_empty(), "help", n.help_text.as_str());
    push_quoted_if(&mut parts, !n.item_type.as_str().is_empty(), "itemType", n.item_type.as_str());
    push_quoted_if(&mut parts, !n.item_status.as_str().is_empty(), "itemStatus", n.item_status.as_str());
    let rt = match n.rect {
        Some(r) => rect_text(r),
        None => String::new(),
    };
    push_part_if(&mut parts, n.rect.is_some(), rt);
    push_part_if(&mut parts, n.is_offscreen, "[offscreen]".to_string());
    proof {
        reveal_strlit("name");
        reveal_strlit("class");
        reveal_strlit("id");
        reveal_strlit("text");
        reveal_strlit("help");
        reveal_strlit("itemType");
        reveal_strlit("itemStatus");
        reveal_strlit("[offscreen]");
    }
    parts
}

fn node_line(n: &InspectNode, indent: usize) -> (s: String)
    ensures
        s@ == join_with(line_parts(*n, indent as nat), " "@),
{
    let parts = line_words(n, indent);
    join_strings(&parts, " ")
}

fn format_into(node: &InspectNode, indent: usize, lines: &mut Vec<String>)
    requires
        indent + node_height(*node) <= usize::MAX,
    ensures
        lines_view(final(lines)@) == lines_view(old(lines)@) + node_lines(*node, indent as nat),
    decreases node,
{
    let ident = has_identifiable_info(node);
    let child_indent = if ident {
        indent + 1
    } else {
        indent
    };
    if ident {
        let line = node_line(node, indent);
        lines.push(line);
    }
    let ghost mid = lines_view(lines@);
    assert(mid =~= lines_view(old(lines)@) + if ident {
        seq![join_with(line_parts(*node, indent as nat), " "@)]
    } else {
        seq![]
    });
    let n = node.children.len();
    let mut i: usize = 0;
    while i < n
        invariant
            i <= n,
            n == node.children@.len(),
            child_indent + list_height(node.children@) <= usize::MAX,
            lines_view(lines@) == mid + list_lines(node.children@.take(i as int), child_indent as nat),
        decreases n - i,
    {
        proof {
            assert(decreases_to!(*node => node.children));
            assert(decreases_to!(node.children => node.children@));
            assert(decreases_to!(node.children@ => node.children@[i as int]));
            lemma_list_height(node.children@, i as int);
        }
        let ghost before = lines_view(lines@);
        format_into(&node.children[i], child_indent, lines);
        proof {
            let s = node.children@.take(i + 1);
            assert(s.drop_last() =~= node.children@.take(i as int));
            assert(s.last() == node.children@[i as int]);
            assert(lines_view(lines@) =~= mid + list_lines(s, child_indent as nat));
        }
        i += 1;
    }
    assert(node.children@.take(n as int) =~= node.children@);
    assert(lines_view(lines@) =~= lines_view(old(lines)@) + node_lines(*node, indent as nat));
}

/// The text form of a tree: one line per identifiable node, indented two
/// spaces per level of identifiable ancestors, starting at `indent`.
pub fn format_inspect_tree(node: &InspectNode, indent: usize) -> (s: String)
    requires
        indent + node_height(*node) <= usize::MAX,
    ensures
        s@ == join_with(node_lines(*node, indent as nat), "\n"@),
{
    let mut lines: Vec<String> = Vec::new();
    format_into(node, indent, &mut lines);
    assert(lines_view(lines@) =~= node_lines(*node, indent as nat));
    join_strings(&lines, "\n")
}

// ── the report ───────────────────────────────────────────────────────────

/// Why an inspection could not be made.
#[derive(Debug, Clone, Copy, PartialEq, Eq, Structural)]
pub enum InspectFailure {
    /// No automation instance; the detail is its error.
    AutomationUnavailable,
    /// No window matched; the detail is the window selector.
    WindowNotFound,
    /// The element was not found; the detail is its XPath.
    ElementNotFound,
    /// No raw-view walker; the detail is its error.
    WalkerUnavailable,
}

/// The message of a failed inspection.
pub open spec fn failure_text(kind: InspectFailure, detail: Seq<char>) -> Seq<char> {
    match kind {
        InspectFailure::AutomationUnavailable => "获取 UIAutomation 实例失败: "@ + detail,
        InspectFailure::WindowNotFound => "窗口未找到: "@ + detail,
        InspectFailure::ElementNotFound => "元素未找到: "@ + detail,
        InspectFailure::WalkerUnavailable => "获取 RawViewWalker 失败: "@ + detail,
    }
}

/// The report of an inspection that could not be made.
pub fn inspect_failure(root_xpath: &str, kind: InspectFailure, detail: &str) -> (r: InspectResult)
    ensures
        !r.success,
        r.root_xpath@ == root_xpath@,
        r.nodes is None,
        r.flat_nodes@.len() == 0,
        r.text_output is None,
        r.total_children == 0,
        r.error matches Some(e) && e@ == failure_text(kind, detail@),
{
    proof {
        reveal_strlit("获取 UIAutomation 实例失败: ");
        reveal_strlit("窗口未找到: ");
        reveal_strlit("元素未找到: ");
        reveal_strlit("获取 RawViewWalker 失败: ");
    }
    let mut e = String::new();
    match kind {
        InspectFailure::AutomationUnavailable => e.push_str("获取 UIAutomation 实例失败: "),
        InspectFailure::WindowNotFound => e.push_str("窗口未找到: "),
        InspectFailure::ElementNotFound => e.push_str("元素未找到: "),
        InspectFailure::WalkerUnavailable => e.push_str("获取 RawViewWalker 失败: "),
    }
    e.push_str(detail);
    InspectResult {
        success: false,
        root_xpath: root_xpath.to_string(),
        nodes: None,
        flat_nodes: Vec::new(),
        text_output: None,
        total_children: 0,
        error: Some(e),
    }
}

/// Whether a report format asks for the text form (`txt` or `text`).
pub open spec fn wants_text(format: Seq<char>) -> bool {
    format == "txt"@ || format == "text"@
}

/// The report of an inspection of the tree under `root`: the tree, its
/// identifiable nodes flattened, the text form when the format asks for it,
/// and the number of nodes below the root.
pub fn inspect_success(root_xpath: &str, root: InspectNode, format: &str) -> (r: InspectResult)
    requires
        node_height(root) <= usize::MAX,
    ensures
        r.success,
        r.root_xpath@ == root_xpath@,
        r.nodes == Some(root),
        copies_of(r.flat_nodes@, 0, flat_node(root)),
        wants_text(format@) ==> (r.text_output matches Some(t) && t@ == join_with(node_lines(root, 0), "\n"@)),
        !wants_text(format@) ==> r.text_output is None,
        r.total_children == capped(node_count(root)) - 1,
        r.error is None,
{
    let visited = count_nodes(&root);
    let flat_nodes = flatten_inspect_tree(&root);
    let text = crate::model::str_eq(format, "txt") || crate::model::str_eq(format, "text");
    let text_output = if text {
        Some(format_inspect_tree(&root, 0))
    } else {
        None
    };
    InspectResult {
        success: true,
        root_xpath: root_xpath.to_string(),
        nodes: Some(root),
        flat_nodes,
        text_output,
        total_children: visited - 1,
        error: None,
    }
}

} // verus!
