//! XPath generation from a captured hierarchy, and the syntax check (lint)
//! applied to hand-edited XPath.
use vstd::prelude::*;
use crate::model::{
    filters_view, join_with, lemma_join_push, node_segment, nodes_view, operator_predicate,
    str_eq, FilterView, HierarchyNode, NodeView, Operator, WindowInfo, XPathResult,
};
use crate::window::{selector_part, selector_value};
use vstd::seq_lib::lemma_concat_associative;
use crate::text::{
    chars_of, copy_range, starts_with_lit, decimal, find_first, first_occurrence, contains_seq, lemma_first_occurrence, lemma_first_occurrence_occurs, matches_at, occurs_at, push_decimal, trim,
    trim_bounds, lemma_trim_idempotent,
};

verus! {

/// The axis written before the step of node `i` when the previous included
/// node was `prev`: `//` when nodes in between were skipped, `/` otherwise.
pub open spec fn axis_before(prev: Option<int>, i: int) -> Seq<char> {
    match prev {
        Some(p) => if i > p + 1 {
            "//"@
        } else {
            "/"@
        },
        None => "/"@,
    }
}

/// The element XPath of `ns[i..]`, where `incl` says which nodes take part and
/// `prev` is the last included node before `i`.
pub open spec fn xpath_from(ns: Seq<NodeView>, incl: Seq<bool>, i: int, prev: Option<int>) -> Seq<char>
    decreases ns.len() - i,
{
    if i < 0 || i >= ns.len() {
        seq![]
    } else if incl[i] {
        axis_before(prev, i) + node_segment(ns[i]) + xpath_from(ns, incl, i + 1, Some(i))
    } else {
        xpath_from(ns, incl, i + 1, prev)
    }
}

/// The element XPath of a node list: the included nodes' steps in order, each
/// introduced by `/`, or by `//` where included nodes are not adjacent.
pub open spec fn element_xpath(ns: Seq<NodeView>, incl: Seq<bool>) -> Seq<char> {
    xpath_from(ns, incl, 0, None)
}

/// The inclusion flags stored in the nodes.
pub open spec fn included_flags(ns: Seq<NodeView>) -> Seq<bool> {
    ns.map_values(|n: NodeView| n.included)
}

/// The inclusion flags of the simplified XPath: the last node always; any other
/// node when it is included and has an automation id or a name.
pub open spec fn simplified_flags(ns: Seq<NodeView>) -> Seq<bool> {
    ns.map(
        |i: int, n: NodeView|
            i == ns.len() - 1 || (n.included && (n.automation_id.len() > 0 || n.name.len() > 0)),
    )
}

fn element_xpath_with(nodes: &[HierarchyNode], incl: &Vec<bool>) -> (s: String)
    requires
        incl@.len() == nodes@.len(),
    ensures
        s@ == element_xpath(nodes_view(nodes@), incl@),
{
    let ghost ns = nodes_view(nodes@);
    let mut out = String::new();
    let mut prev: Option<usize> = None;
    let mut i: usize = 0;
    assert(out@ + xpath_from(ns, incl@, 0, None) =~= element_xpath(ns, incl@));
    while i < nodes.len()
        invariant
            i <= nodes.len(),
            incl@.len() == nodes@.len(),
            ns == nodes_view(nodes@),
            prev matches Some(p) ==> p < i,
            out@ + xpath_from(ns, incl@, i as int, match prev {
                Some(p) => Some(p as int),
                None => None,
            }) == element_xpath(ns, incl@),
        decreases nodes.len() - i,
    {
        let ghost gp: Option<int> = match prev {
            Some(p) => Some(p as int),
            None => None,
        };
        let ghost before = out@;
        if incl[i] {
            let skipped = match prev {
                Some(p) => i > p + 1,
                None => false,
            };
            if skipped {
                out.push_str("//");
            } else {
                out.push_str("/");
            }
            assert(out@ == before + axis_before(gp, i as int));
            nodes[i].push_segment(&mut out);
            assert(ns[i as int] == nodes@[i as int]@);
            assert(before + (axis_before(gp, i as int) + node_segment(ns[i as int]) + xpath_from(
                ns,
                incl@,
                i + 1,
                Some(i as int),
            )) =~= out@ + xpath_from(ns, incl@, i + 1, Some(i as int)));
            prev = Some(i);
        }
        i += 1;
    }
    assert(out@ + seq![] =~= out@);
    out
}

/// The element XPath of the nodes after the window node; `/` joins adjacent
/// included nodes and `//` marks skipped ones.
pub fn generate_elements(nodes: &[HierarchyNode]) -> (s: String)
    ensures
        s@ == element_xpath(nodes_view(nodes@), included_flags(nodes_view(nodes@))),
        s@ == path_steps(nodes_view(nodes@), included_positions(included_flags(nodes_view(nodes@)), 0), None).flatten(),
{
    proof {
        lemma_element_xpath_closed_form(nodes_view(nodes@), included_flags(nodes_view(nodes@)));
    }
    let mut incl: Vec<bool> = Vec::new();
    let mut i: usize = 0;
    while i < nodes.len()
        invariant
            i <= nodes.len(),
            incl@ == included_flags(nodes_view(nodes@.take(i as int))),
        decreases nodes.len() - i,
    {
        incl.push(nodes[i].included);
        i += 1;
        assert(incl@ =~= included_flags(nodes_view(nodes@.take(i as int))));
    }
    assert(nodes@.take(nodes.len() as int) =~= nodes@);
    element_xpath_with(nodes, &incl)
}

/// The simplified element XPath: only the target (last node) and the included
/// nodes that carry an automation id or a name keep their step.
pub fn generate_simplified_elements(nodes: &[HierarchyNode]) -> (s: String)
    ensures
        s@ == element_xpath(nodes_view(nodes@), simplified_flags(nodes_view(nodes@))),
        s@ == element_xpath(
            with_inclusion(nodes_view(nodes@), simplified_flags(nodes_view(nodes@))),
            included_flags(with_inclusion(nodes_view(nodes@), simplified_flags(nodes_view(nodes@)))),
        ),
        nodes@.len() == 0 ==> s@.len() == 0,
{
    let ghost ns = nodes_view(nodes@);
    proof {
        lemma_simplified_is_masked(ns);
    }
    let mut incl: Vec<bool> = Vec::new();
    let mut i: usize = 0;
    while i < nodes.len()
        invariant
            i <= nodes.len(),
            ns == nodes_view(nodes@),
            incl@ == simplified_flags(ns).take(i as int),
        decreases nodes.len() - i,
    {
        let n = &nodes[i];
        let keep = i == nodes.len() - 1 || (n.included && (!n.automation_id.as_str().is_empty()
            || !n.name.as_str().is_empty()));
        incl.push(keep);
        i += 1;
        assert(incl@ =~= simplified_flags(ns).take(i as int));
    }
    assert(simplified_flags(ns).take(nodes.len() as int) =~= simplified_flags(ns));
    element_xpath_with(nodes, &incl)
}

/// `ns[i..]` with each node's step introduced by a single `/`.
pub open spec fn single_slash_path(ns: Seq<NodeView>, i: int) -> Seq<char>
    decreases ns.len() - i,
{
    if i < 0 || i >= ns.len() {
        seq![]
    } else {
        "/"@ + node_segment(ns[i]) + single_slash_path(ns, i + 1)
    }
}

proof fn lemma_consecutive_from(ns: Seq<NodeView>, incl: Seq<bool>, i: int, prev: Option<int>)
    requires
        incl.len() == ns.len(),
        forall|k: int| 0 <= k < incl.len() ==> incl[k],
        0 <= i,
        prev is None || prev == Some(i - 1),
    ensures
        xpath_from(ns, incl, i, prev) == single_slash_path(ns, i),
    decreases ns.len() - i,
{
    if i < ns.len() {
        lemma_consecutive_from(ns, incl, i + 1, Some(i));
        assert(axis_before(prev, i) == "/"@);
    }
}

/// With every node included, no step is skipped: each node's step is
/// introduced by a single `/` and the path holds no `//` axis.
pub proof fn lemma_all_included_single_slashes(ns: Seq<NodeView>)
    requires
        forall|i: int| 0 <= i < ns.len() ==> (#[trigger] ns[i]).included,
    ensures
        element_xpath(ns, included_flags(ns)) == single_slash_path(ns, 0),
{
    lemma_consecutive_from(ns, included_flags(ns), 0, None);
}

proof fn lemma_suffix_after_prefix(a: Seq<char>, b: Seq<char>, t: Seq<char>)
    requires
        t.is_suffix_of(b),
    ensures
        t.is_suffix_of(a + b),
{
    assert((a + b).subrange((a + b).len() - t.len(), (a + b).len() as int) =~= b.subrange(
        b.len() - t.len(),
        b.len() as int,
    ));
}

proof fn lemma_last_step_kept(ns: Seq<NodeView>, incl: Seq<bool>, i: int, prev: Option<int>)
    requires
        incl.len() == ns.len(),
        ns.len() > 0,
        incl[ns.len() - 1],
        0 <= i < ns.len(),
        prev matches Some(p) ==> p < i,
    ensures
        node_segment(ns.last()).is_suffix_of(xpath_from(ns, incl, i, prev)),
    decreases ns.len() - i,
{
    let seg = node_segment(ns.last());
    if i == ns.len() - 1 {
        let x = axis_before(prev, i) + seg;
        assert(xpath_from(ns, incl, i + 1, Some(i)) == Seq::<char>::empty());
        assert(xpath_from(ns, incl, i, prev) =~= x);
        assert(x.subrange(x.len() - seg.len(), x.len() as int) =~= seg);
    } else if incl[i] {
        lemma_last_step_kept(ns, incl, i + 1, Some(i));
        lemma_suffix_after_prefix(
            axis_before(prev, i) + node_segment(ns[i]),
            xpath_from(ns, incl, i + 1, Some(i)),
            seg,
        );
    } else {
        lemma_last_step_kept(ns, incl, i + 1, prev);
    }
}

/// The simplified XPath always keeps the target: it ends with the step of
/// the last node.
pub proof fn lemma_simplified_keeps_target(ns: Seq<NodeView>)
    requires
        ns.len() > 0,
    ensures
        node_segment(ns.last()).is_suffix_of(element_xpath(ns, simplified_flags(ns))),
{
    lemma_last_step_kept(ns, simplified_flags(ns), 0, None);
}

/// The positions from `from` on whose flag is set, in order.
pub open spec fn included_positions(incl: Seq<bool>, from: int) -> Seq<int>
    decreases incl.len() - from,
{
    if from < 0 || from >= incl.len() {
        seq![]
    } else if incl[from] {
        seq![from] + included_positions(incl, from + 1)
    } else {
        included_positions(incl, from + 1)
    }
}

/// The step of each included node, at positions `pos`: the axis from the
/// included node before it (`prev` before the first) and its segment.
pub open spec fn path_steps(ns: Seq<NodeView>, pos: Seq<int>, prev: Option<int>) -> Seq<Seq<char>> {
    pos.map(
        |k: int, p: int|
            axis_before(
                if k == 0 {
                    prev
                } else {
                    Some(pos[k - 1])
                },
                p,
            ) + node_segment(ns[p]),
    )
}

proof fn lemma_path_steps_flatten(ns: Seq<NodeView>, incl: Seq<bool>, i: int, prev: Option<int>)
    requires
        0 <= i,
        incl.len() == ns.len(),
    ensures
        xpath_from(ns, incl, i, prev) == path_steps(ns, included_positions(incl, i), prev).flatten(),
    decreases ns.len() - i,
{
    let pos = included_positions(incl, i);
    if i < ns.len() {
        if incl[i] {
            lemma_path_steps_flatten(ns, incl, i + 1, Some(i));
            let rest = included_positions(incl, i + 1);
            let q = path_steps(ns, pos, prev);
            assert(pos == seq![i] + rest);
            assert(q.drop_first() =~= path_steps(ns, rest, Some(i)));
            assert(q[0] == axis_before(prev, i) + node_segment(ns[i]));
        } else {
            lemma_path_steps_flatten(ns, incl, i + 1, prev);
        }
    } else {
        assert(path_steps(ns, pos, prev) =~= Seq::<Seq<char>>::empty());
    }
}

/// The element XPath is the concatenation of the included nodes' steps, in
/// order: each node's segment, introduced by `/` when it is the first or
/// follows the previous included node directly, by `//` when nodes in
/// between were left out. The positions taken are exactly those of the
/// included nodes, increasing.
pub proof fn lemma_element_xpath_closed_form(ns: Seq<NodeView>, incl: Seq<bool>)
    requires
        incl.len() == ns.len(),
    ensures
        element_xpath(ns, incl) == path_steps(ns, included_positions(incl, 0), None).flatten(),
        forall|k: int|
            0 <= k < included_positions(incl, 0).len() ==> (#[trigger] path_steps(ns, included_positions(incl, 0), None)[k])
                == (if k == 0 || included_positions(incl, 0)[k] == included_positions(incl, 0)[k - 1] + 1 {
                "/"@
            } else {
                "//"@
            }) + node_segment(ns[included_positions(incl, 0)[k]]),
        forall|k: int|
            0 <= k < included_positions(incl, 0).len() ==> 0 <= #[trigger] included_positions(incl, 0)[k] < incl.len()
                && incl[included_positions(incl, 0)[k]],
        forall|k: int|
            0 < k < included_positions(incl, 0).len() ==> included_positions(incl, 0)[k - 1]
                < #[trigger] included_positions(incl, 0)[k],
        forall|i: int| 0 <= i < incl.len() && #[trigger] incl[i] ==> included_positions(incl, 0).contains(i),
{
    lemma_path_steps_flatten(ns, incl, 0, None);
    lemma_positions_increase(incl, 0);
}

proof fn lemma_positions_increase(incl: Seq<bool>, from: int)
    requires
        0 <= from,
    ensures
        forall|k: int|
            0 < k < included_positions(incl, from).len() ==> included_positions(incl, from)[k - 1] < #[trigger] included_positions(
                incl,
                from,
            )[k],
        forall|k: int|
            0 <= k < included_positions(incl, from).len() ==> from <= #[trigger] included_positions(incl, from)[k] < incl.len()
                && incl[included_positions(incl, from)[k]],
        forall|i: int| from <= i < incl.len() && #[trigger] incl[i] ==> included_positions(incl, from).contains(i),
    decreases incl.len() - from,
{
    if from < incl.len() {
        lemma_positions_increase(incl, from + 1);
        let rest = included_positions(incl, from + 1);
        if incl[from] {
            let pos = included_positions(incl, from);
            assert forall|k: int| 0 < k < pos.len() implies pos[k - 1] < #[trigger] pos[k] by {
                assert(pos[k] == rest[k - 1]);
                if k > 1 {
                    assert(pos[k - 1] == rest[k - 2]);
                }
            }
            assert forall|k: int| 0 <= k < pos.len() implies from <= #[trigger] pos[k] < incl.len() && incl[pos[k]] by {
                if k > 0 {
                    assert(pos[k] == rest[k - 1]);
                }
            }
            assert forall|i: int| from <= i < incl.len() && #[trigger] incl[i] implies pos.contains(i) by {
                if i == from {
                    assert(pos[0] == from);
                } else {
                    assert(rest.contains(i));
                    let k = choose|k: int| 0 <= k < rest.len() && rest[k] == i;
                    assert(pos[k + 1] == rest[k]);
                }
            }
        } else {
            assert forall|i: int| from <= i < incl.len() && #[trigger] incl[i] implies included_positions(incl, from).contains(i) by {
                assert(i != from);
                assert(rest.contains(i));
            }
        }
    }
}

/// The nodes with their inclusion flags replaced by `incl`.
pub open spec fn with_inclusion(ns: Seq<NodeView>, incl: Seq<bool>) -> Seq<NodeView> {
    ns.map(|i: int, n: NodeView| NodeView { included: incl[i], ..n })
}

proof fn lemma_same_segments(ns: Seq<NodeView>, ms: Seq<NodeView>, incl: Seq<bool>, i: int, prev: Option<int>)
    requires
        ns.len() == ms.len(),
        forall|k: int| 0 <= k < ns.len() ==> node_segment(#[trigger] ns[k]) == node_segment(ms[k]),
    ensures
        xpath_from(ns, incl, i, prev) == xpath_from(ms, incl, i, prev),
    decreases ns.len() - i,
{
    if 0 <= i < ns.len() {
        assert(node_segment(ns[i]) == node_segment(ms[i]));
        lemma_same_segments(ns, ms, incl, i + 1, Some(i));
        lemma_same_segments(ns, ms, incl, i + 1, prev);
    }
}

/// The simplified XPath is the element XPath of the same nodes with the
/// simplification's flags as their inclusion flags.
pub proof fn lemma_simplified_is_masked(ns: Seq<NodeView>)
    ensures
        element_xpath(ns, simplified_flags(ns)) == element_xpath(
            with_inclusion(ns, simplified_flags(ns)),
            included_flags(with_inclusion(ns, simplified_flags(ns))),
        ),
{
    let flags = simplified_flags(ns);
    let ms = with_inclusion(ns, flags);
    assert(included_flags(ms) =~= flags);
    assert forall|k: int| 0 <= k < ns.len() implies node_segment(#[trigger] ns[k]) == node_segment(ms[k]) by {
        assert(ms[k] == NodeView { included: flags[k], ..ns[k] });
    }
    lemma_same_segments(ns, ms, flags, 0, None);
}

/// Which nodes the simplified XPath writes: the target (last node) always,
/// and besides it only nodes the user left included that carry an
/// automation id or a name; every such node is written, each in order,
/// joined as the full XPath joins its steps. So a node the user excluded is
/// never written unless it is the target, whatever it carries.
pub proof fn lemma_simplified_nodes(ns: Seq<NodeView>)
    ensures
        forall|k: int|
            0 <= k < included_positions(simplified_flags(ns), 0).len() && #[trigger] included_positions(
                simplified_flags(ns),
                0,
            )[k] != ns.len() - 1 ==> {
                let n = ns[included_positions(simplified_flags(ns), 0)[k]];
                n.included && (n.automation_id.len() > 0 || n.name.len() > 0)
            },
        ns.len() > 0 ==> included_positions(simplified_flags(ns), 0).contains(ns.len() - 1),
        forall|i: int|
            0 <= i < ns.len() && (#[trigger] ns[i]).included && (ns[i].automation_id.len() > 0 || ns[i].name.len() > 0)
                ==> included_positions(simplified_flags(ns), 0).contains(i),
        element_xpath(ns, simplified_flags(ns)) == element_xpath(
            ns.map(
                |i: int, n: NodeView|
                    NodeView {
                        included: i == ns.len() - 1 || (n.included && (n.automation_id.len() > 0 || n.name.len() > 0)),
                        ..n
                    },
            ),
            ns.map(
                |i: int, n: NodeView| i == ns.len() - 1 || (n.included && (n.automation_id.len() > 0 || n.name.len() > 0)),
            ),
        ),
{
    let flags = simplified_flags(ns);
    lemma_element_xpath_closed_form(ns, flags);
    let pos = included_positions(flags, 0);
    assert forall|k: int| 0 <= k < pos.len() && #[trigger] pos[k] != ns.len() - 1 implies {
        let n = ns[pos[k]];
        n.included && (n.automation_id.len() > 0 || n.name.len() > 0)
    } by {
        assert(flags[pos[k]]);
    }
    if ns.len() > 0 {
        assert(flags[ns.len() - 1]);
    }
    assert forall|i: int|
        0 <= i < ns.len() && (#[trigger] ns[i]).included && (ns[i].automation_id.len() > 0 || ns[i].name.len() > 0)
        implies pos.contains(i) by {
        assert(flags[i]);
    }
    let ms = ns.map(
        |i: int, n: NodeView|
            NodeView { included: i == ns.len() - 1 || (n.included && (n.automation_id.len() > 0 || n.name.len() > 0)), ..n },
    );
    let fl = ns.map(|i: int, n: NodeView| i == ns.len() - 1 || (n.included && (n.automation_id.len() > 0 || n.name.len() > 0)));
    assert(fl =~= flags);
    assert forall|k: int| 0 <= k < ns.len() implies node_segment(#[trigger] ns[k]) == node_segment(ms[k]) by {
        assert(ms[k] == NodeView { included: flags[k], ..ns[k] });
    }
    lemma_same_segments(ns, ms, flags, 0, None);
}

/// Whether a filter contributes to the window selector: enabled, non-empty,
/// and on the class name or the name.
pub open spec fn window_filter(f: FilterView) -> bool {
    f.enabled && f.value.len() > 0 && (f.name == "ClassName"@ || f.name == "Name"@)
}

/// The predicates the window selector takes from the window node's filters.
pub open spec fn window_filter_preds(fs: Seq<FilterView>) -> Seq<Seq<char>>
    decreases fs.len(),
{
    if fs.len() == 0 {
        seq![]
    } else {
        let rest = window_filter_preds(fs.drop_last());
        let f = fs.last();
        if window_filter(f) {
            rest.push(operator_predicate(f.operator, f.name, f.value))
        } else {
            rest
        }
    }
}

/// All predicates of the window selector: the node's class name and name
/// filters, then the process name when it is known.
pub open spec fn window_selector_preds(n: NodeView, process_name: Option<Seq<char>>) -> Seq<Seq<char>> {
    window_filter_preds(n.filters) + match process_name {
        Some(p) => if p.len() > 0 {
            seq!["@ProcessName='"@ + p + "'"@]
        } else {
            seq![]
        },
        None => seq![],
    }
}

/// `Window`, or `Window[p1 and p2 ...]` when there are predicates.
pub open spec fn window_selector(n: NodeView, process_name: Option<Seq<char>>) -> Seq<char> {
    let preds = window_selector_preds(n, process_name);
    if preds.len() == 0 {
        "Window"@
    } else {
        "Window["@ + join_with(preds, " and "@) + "]"@
    }
}

/// A generated window selector is `Window` or `Window[...]`, and names the
/// process whenever a non-empty process name is known.
pub proof fn lemma_window_selector_shape(n: NodeView, process_name: Option<Seq<char>>)
    ensures
        window_selector(n, process_name) == "Window"@ || ("Window["@.is_prefix_of(
            window_selector(n, process_name),
        ) && window_selector(n, process_name).last() == ']'),
        process_name is Some && process_name->0.len() > 0 ==> contains_seq(
            window_selector(n, process_name),
            "@ProcessName='"@ + process_name->0 + "'"@,
        ),
{
    let preds = window_selector_preds(n, process_name);
    let ws = window_selector(n, process_name);
    if preds.len() > 0 {
        let j = join_with(preds, " and "@);
        reveal_strlit("Window[");
        reveal_strlit("]");
        assert(ws == "Window["@ + j + "]"@);
        assert(("Window["@ + j + "]"@).take(7) =~= "Window["@);
        assert(ws.last() == ']');
        if process_name is Some && process_name->0.len() > 0 {
            let q = "@ProcessName='"@ + process_name->0 + "'"@;
            assert(preds.last() == q);
            assert(j.len() >= q.len() && j.subrange(j.len() - q.len(), j.len() as int) =~= q) by {
                if preds.len() > 1 {
                    assert(j == join_with(preds.drop_last(), " and "@) + " and "@ + q);
                } else {
                    assert(j == q);
                }
            }
            let i = 7 + j.len() - q.len();
            assert(ws.subrange(i, i + q.len()) =~= q);
            assert(occurs_at(ws, i, q));
        }
    }
}

fn generate_window_selector(node: &HierarchyNode, window_info: Option<&WindowInfo>) -> (s: String)
    ensures
        s@ == window_selector(node@, match window_info {
            Some(w) => Some(w.process_name@),
            None => None,
        }),
{
    let ghost pn: Option<Seq<char>> = match window_info {
        Some(w) => Some(w.process_name@),
        None => None,
    };
    let mut body = String::new();
    let mut count: usize = 0;
    let mut i: usize = 0;
    while i < node.filters.len()
        invariant
            i <= node.filters.len(),
            body@ == join_with(window_filter_preds(filters_view(node.filters@.take(i as int))), " and "@),
            count == window_filter_preds(filters_view(node.filters@.take(i as int))).len(),
            count <= i,
        decreases node.filters.len() - i,
    {
        let f = &node.filters[i];
        let ghost fv = filters_view(node.filters@.take(i as int));
        let ghost fv1 = filters_view(node.filters@.take(i + 1));
        assert(fv1.drop_last() =~= fv);
        assert(fv1.last() == f@);
        if f.enabled && !f.value.as_str().is_empty() && (str_eq(f.name.as_str(), "ClassName")
            || str_eq(f.name.as_str(), "Name")) {
            proof {
                lemma_join_push(window_filter_preds(fv), " and "@, operator_predicate(f.operator, f@.name, f@.value));
            }
            if count > 0 {
                body.push_str(" and ");
            }
            f.operator.push_predicate(&mut body, f.name.as_str(), f.value.as_str());
            count += 1;
        }
        i += 1;
    }
    assert(node.filters@.take(node.filters.len() as int) =~= node.filters@);
    let ghost fp = window_filter_preds(node@.filters);
    assert(fp + seq![] =~= fp);
    match window_info {
        Some(info) => {
            if !info.process_name.as_str().is_empty() {
                let ghost item = "@ProcessName='"@ + info.process_name@ + "'"@;
                proof {
                    lemma_join_push(fp, " and "@, item);
                }
                if count > 0 {
                    body.push_str(" and ");
                }
                body.push_str("@ProcessName='");
                body.push_str(info.process_name.as_str());
                body.push_str("'");
                count = 1;
                assert(fp + seq![item] =~= fp.push(item));
                assert(body@ =~= join_with(fp.push(item), " and "@));
            }
        },
        None => {},
    }
    assert(body@ == join_with(window_selector_preds(node@, pn), " and "@));
    assert(count == 0 <==> window_selector_preds(node@, pn).len() == 0);
    if count == 0 {
        "Window".to_owned()
    } else {
        let mut s = String::new();
        s.push_str("Window[");
        s.push_str(body.as_str());
        s.push_str("]");
        assert(s@ =~= window_selector(node@, pn));
        s
    }
}

/// Builds the selector of a captured hierarchy: the first node is the window,
/// the rest form the element XPath.
pub fn generate(nodes: &[HierarchyNode], window_info: Option<&WindowInfo>) -> (r: XPathResult)
    requires
        nodes@.len() > 0,
    ensures
        r.window_selector@ == window_selector(nodes@[0]@, match window_info {
            Some(w) => Some(w.process_name@),
            None => None,
        }),
        r.element_xpath@ == element_xpath(
            nodes_view(nodes@.skip(1)),
            included_flags(nodes_view(nodes@.skip(1))),
        ),
{
    let window_selector = generate_window_selector(&nodes[0], window_info);
    let mut rest: Vec<HierarchyNode> = Vec::new();
    let mut i: usize = 1;
    while i < nodes.len()
        invariant
            1 <= i <= nodes.len(),
            nodes_view(rest@) == nodes_view(nodes@.subrange(1, i as int)),
        decreases nodes.len() - i,
    {
        let ghost before = rest@;
        let c = nodes[i].clone();
        rest.push(c);
        assert(rest@ == before.push(c));
        assert(nodes_view(before.push(c)) =~= nodes_view(before).push(c@));
        assert(nodes@.subrange(1, i + 1) == nodes@.subrange(1, i as int).push(nodes@[i as int]));
        assert(nodes_view(nodes@.subrange(1, i as int).push(nodes@[i as int])) =~= nodes_view(
            nodes@.subrange(1, i as int),
        ).push(nodes@[i as int]@));
        i += 1;
    }
    assert(nodes@.subrange(1, nodes.len() as int) =~= nodes@.skip(1));
    let element_xpath = generate_elements(rest.as_slice());
    XPathResult { window_selector, element_xpath }
}


/// The error reported for brackets that are still open at the end.
pub open spec fn missing_close_message(depth: nat) -> Seq<char> {
    "方括号不匹配（缺少 "@ + decimal(depth) + " 个 ]）"@
}

/// Scans `s[i..]` for bracket balance, skipping quoted strings; `depth` is the
/// number of open brackets, `in_str` whether a string quoted by `q` is open.
/// The result is the first problem found, or `None`.
pub open spec fn bracket_scan(s: Seq<char>, i: int, depth: nat, in_str: bool, q: char) -> Option<Seq<char>>
    decreases s.len() - i,
{
    if i < 0 || i >= s.len() {
        if depth != 0 {
            Some(missing_close_message(depth))
        } else if in_str {
            Some("字符串引号未闭合"@)
        } else {
            None
        }
    } else {
        let ch = s[i];
        if in_str {
            bracket_scan(s, i + 1, depth, ch != q, q)
        } else if ch == '\'' || ch == '"' {
            bracket_scan(s, i + 1, depth, true, ch)
        } else if ch == '[' {
            bracket_scan(s, i + 1, depth + 1, false, q)
        } else if ch == ']' {
            if depth == 0 {
                Some("方括号不匹配（多余的 ]）"@)
            } else {
                bracket_scan(s, i + 1, (depth - 1) as nat, false, q)
            }
        } else {
            bracket_scan(s, i + 1, depth, false, q)
        }
    }
}

/// The bracket problem of `s`, if any.
pub open spec fn bracket_error(s: Seq<char>) -> Option<Seq<char>> {
    bracket_scan(s, 0, 0, false, ' ')
}

fn check_brackets(v: &[char]) -> (r: Option<String>)
    ensures
        r matches Some(e) ==> bracket_error(v@) == Some(e@),
        r is None ==> bracket_error(v@) is None,
{
    let mut depth: usize = 0;
    let mut in_str = false;
    let mut str_ch = ' ';
    let mut i: usize = 0;
    while i < v.len()
        invariant
            i <= v.len(),
            depth <= i,
            bracket_error(v@) == bracket_scan(v@, i as int, depth as nat, in_str, str_ch),
        decreases v.len() - i,
    {
        let ch = v[i];
        if in_str {
            if ch == str_ch {
                in_str = false;
            }
        } else if ch == '\'' || ch == '"' {
            in_str = true;
            str_ch = ch;
        } else if ch == '[' {
            depth += 1;
        } else if ch == ']' {
            if depth == 0 {
                return Some("方括号不匹配（多余的 ]）".to_owned());
            }
            depth -= 1;
        }
        i += 1;
    }
    if depth != 0 {
        let mut m = String::new();
        m.push_str("方括号不匹配（缺少 ");
        push_decimal(&mut m, depth as u64);
        m.push_str(" 个 ]）");
        assert(m@ =~= missing_close_message(depth as nat));
        return Some(m);
    }
    if in_str {
        return Some("字符串引号未闭合".to_owned());
    }
    None
}

/// The root control types a window selector may start with.
pub open spec fn has_root_prefix(w: Seq<char>) -> bool {
    ||| "Window"@.is_prefix_of(w)
    ||| "Pane"@.is_prefix_of(w)
    ||| "Document"@.is_prefix_of(w)
    ||| "Application"@.is_prefix_of(w)
    ||| "Desktop"@.is_prefix_of(w)
}

/// The lint verdict on an XPath: `None` when it is well-formed enough to
/// search with, otherwise the problem. Two forms are accepted:
/// `window_selector, /element_xpath` and `//element_xpath`.
pub open spec fn lint_result(x: Seq<char>) -> Option<Seq<char>> {
    let s = trim(x);
    if s.len() == 0 {
        Some("XPath 不能为空"@)
    } else {
        match first_occurrence(s, ", "@) {
            Some(pos) => lint_two_part(s, pos),
            None => if !"//"@.is_prefix_of(s) {
                Some("XPath 必须以 // 开头（或使用新格式：窗口选择器, 元素XPath）"@)
            } else {
                bracket_error(s)
            },
        }
    }
}

/// Linting reads only the trimmed text: white space around an XPath never
/// changes the verdict.
pub proof fn lemma_lint_ignores_surrounding_space(x: Seq<char>)
    ensures
        lint_result(x) == lint_result(trim(x)),
{
    lemma_trim_idempotent(x);
}

/// The lint verdict on the two-part form, split at `pos` (the first `, `).
pub open spec fn lint_two_part(s: Seq<char>, pos: int) -> Option<Seq<char>> {
    let w = s.take(pos);
    let e = trim(s.skip(pos + 2));
    if !has_root_prefix(w) {
        Some("窗口选择器必须以 Window/Pane/Document 等类型开头"@)
    } else if !(e.len() > 0 && e[0] == '/') {
        Some("元素 XPath 必须以 / 开头"@)
    } else if bracket_error(w) is Some {
        Some("窗口选择器"@ + " "@ + bracket_error(w)->0)
    } else if bracket_error(e) is Some {
        Some("元素 XPath"@ + " "@ + bracket_error(e)->0)
    } else {
        None
    }
}

fn lint_two_part_exec(sv: &[char], pos: usize) -> (r: Option<String>)
    requires
        occurs_at(sv@, pos as int, ", "@),
    ensures
        r matches Some(e) ==> lint_two_part(sv@, pos as int) == Some(e@),
        r is None ==> lint_two_part(sv@, pos as int) is None,
{
    proof {
        reveal_strlit(", ");
    }
    assert(", "@.len() == 2);
    let n = sv.len();
    assert(pos + 2 <= n);
    let w = copy_range(sv, 0, pos);
    let tail = copy_range(sv, pos + 2, sv.len());
    let (ea, eb) = trim_bounds(tail.as_slice());
    let e = copy_range(tail.as_slice(), ea, eb);
    assert(w@ == sv@.take(pos as int));
    assert(tail@ == sv@.skip(pos + 2));
    let has_root = starts_with_lit(w.as_slice(), "Window") || starts_with_lit(w.as_slice(), "Pane")
        || starts_with_lit(w.as_slice(), "Document") || starts_with_lit(w.as_slice(), "Application")
        || starts_with_lit(w.as_slice(), "Desktop");
    if !has_root {
        return Some("窗口选择器必须以 Window/Pane/Document 等类型开头".to_owned());
    }
    if !(e.len() > 0 && e[0] == '/') {
        return Some("元素 XPath 必须以 / 开头".to_owned());
    }
    match check_brackets(w.as_slice()) {
        Some(err) => {
            let mut m = String::new();
            m.push_str("窗口选择器");
            m.push_str(" ");
            m.push_str(err.as_str());
            return Some(m);
        },
        None => {},
    }
    match check_brackets(e.as_slice()) {
        Some(err) => {
            let mut m = String::new();
            m.push_str("元素 XPath");
            m.push_str(" ");
            m.push_str(err.as_str());
            return Some(m);
        },
        None => {},
    }
    None
}

/// Checks that `xpath` is syntactically well-formed enough to attempt a search:
/// `None` when it is, otherwise a message describing the problem.
pub fn lint(xpath: &str) -> (r: Option<String>)
    ensures
        r matches Some(e) ==> lint_result(xpath@) == Some(e@),
        r is None ==> lint_result(xpath@) is None,
{
    let all = chars_of(xpath);
    let (a, b) = trim_bounds(all.as_slice());
    let sv = copy_range(all.as_slice(), a, b);
    assert(sv@ == trim(xpath@));
    if sv.len() == 0 {
        return Some("XPath 不能为空".to_owned());
    }
    let sep = chars_of(", ");
    match find_first(sv.as_slice(), sep.as_slice()) {
        Some(pos) => {
            proof {
                lemma_first_occurrence_occurs(sv@, ", "@);
            }
            lint_two_part_exec(sv.as_slice(), pos)
        },
        None => {
            if !starts_with_lit(sv.as_slice(), "//") {
                return Some("XPath 必须以 // 开头（或使用新格式：窗口选择器, 元素XPath）".to_owned());
            }
            check_brackets(sv.as_slice())
        },
    }
}


// ── reading a generated window selector back ─────────────────────────────

/// A value that a selector predicate carries and gives back unchanged: no
/// quote, `@` or bracket in it.
#[verifier::opaque]
pub open spec fn plain_value(v: Seq<char>) -> bool {
    forall|i: int| 0 <= i < v.len() ==> v[i] != '\'' && v[i] != '@' && v[i] != '[' && v[i] != ']'
}

proof fn lemma_key_first(s: Seq<char>, key: Seq<char>, q: int)
    requires
        occurs_at(s, q, key),
        key.len() >= 2,
        key[0] == '@',
        forall|j: int| 0 <= j < q ==> #[trigger] s[j] != '@' || s[j + 1] != key[1],
    ensures
        first_occurrence(s, key) == Some(q),
{
    assert forall|j: int| 0 <= j < q implies !occurs_at(s, j, key) by {
        if occurs_at(s, j, key) {
            assert(s.subrange(j, j + key.len())[0] == s[j]);
            assert(s.subrange(j, j + key.len())[1] == s[j + 1]);
        }
    }
    lemma_first_occurrence(s, key, q);
}

proof fn lemma_value_after_key(s: Seq<char>, key: Seq<char>, q: int, v: Seq<char>, tail: Seq<char>)
    requires
        first_occurrence(s, key) == Some(q),
        s.skip(q + key.len()) == v + (seq!['\''] + tail),
        plain_value(v),
    ensures
        selector_value(s, key) == Some(v),
{
    reveal(plain_value);
    let rest = s.skip(q + key.len());
    let quote = seq!['\''];
    assert(rest.subrange(v.len() as int, v.len() + 1 as int) =~= quote);
    assert forall|j: int| 0 <= j < v.len() implies !occurs_at(rest, j, quote) by {
        assert(rest[j] == v[j]);
        if occurs_at(rest, j, quote) {
            assert(rest.subrange(j, j + 1)[0] == rest[j]);
        }
    }
    lemma_first_occurrence(rest, quote, v.len() as int);
    assert(rest.take(v.len() as int) =~= v);
}

proof fn lemma_join_three(a: Seq<char>, b: Seq<char>, c: Seq<char>, sep: Seq<char>)
    ensures
        join_with(seq![a, b, c], sep) == a + sep + b + sep + c,
{
    assert(seq![a, b, c].drop_last() =~= seq![a, b]);
    assert(seq![a, b].drop_last() =~= seq![a]);
    assert(join_with(seq![a], sep) == a);
    assert(join_with(seq![a, b], sep) == a + sep + b);
}

/// The predicate list of `Window[t]` is `t`.
proof fn lemma_window_predicates(t: Seq<char>)
    ensures
        crate::window::selector_predicates("Window["@ + t + "]"@) == Some(t),
{
    reveal_strlit("Window[");
    reveal_strlit("]");
    let s = "Window["@ + t + "]"@;
    let open = seq!['['];
    assert(s.subrange(6, 7) =~= open);
    assert forall|j: int| 0 <= j < 6 implies !occurs_at(s, j, open) by {
        assert(s[j] == "Window["@[j]);
        if occurs_at(s, j, open) {
            assert(s.subrange(j, j + 1)[0] == s[j]);
        }
    }
    lemma_first_occurrence(s, open, 6);
    assert(s.last() == ']');
    assert(crate::window::last_char(s, ']') == Some(s.len() - 1));
    assert(s.subrange(7, s.len() - 1) =~= t);
}

/// Every `@` in `x` is followed, within `x`, by a character other than `c`.
#[verifier::opaque]
pub open spec fn at_not_before(x: Seq<char>, c: char) -> bool {
    forall|j: int| 0 <= j < x.len() ==> #[trigger] x[j] != '@' || (j + 1 < x.len() && x[j + 1] != c)
}

proof fn lemma_at_not_before_concat(x: Seq<char>, y: Seq<char>, c: char)
    requires
        at_not_before(x, c),
        at_not_before(y, c),
    ensures
        at_not_before(x + y, c),
{
    reveal(at_not_before);
    let s = x + y;
    assert forall|j: int| 0 <= j < s.len() implies #[trigger] s[j] != '@' || (j + 1 < s.len() && s[j + 1] != c) by {
        if j < x.len() {
            assert(s[j] == x[j]);
            if x[j] == '@' {
                assert(s[j + 1] == x[j + 1]);
            }
        } else {
            assert(s[j] == y[j - x.len()]);
            if y[j - x.len()] == '@' {
                assert(s[j + 1] == y[j + 1 - x.len()]);
            }
        }
    }
}

proof fn lemma_plain_at_not_before(v: Seq<char>, c: char)
    requires
        plain_value(v),
    ensures
        at_not_before(v, c),
{
    reveal(at_not_before);
    reveal(plain_value);
}

/// The fixed parts of a window selector's predicate list, character by character.
proof fn lemma_selector_literals()
    ensures
        "@ClassName='"@.len() == 12,
        "@Name='"@.len() == 7,
        "@ProcessName='"@.len() == 14,
        "@ClassName='"@[0] == '@' && "@Name='"@[0] == '@' && "@ProcessName='"@[0] == '@',
        "@Name='"@[1] == 'N' && "@ProcessName='"@[1] == 'P',
        "'"@ =~= seq!['\''],
        at_not_before("@ClassName='"@, 'N'),
        at_not_before("@ClassName='"@, 'P'),
        at_not_before("@Name='"@, 'P'),
        at_not_before("'"@, 'N'),
        at_not_before("'"@, 'P'),
        at_not_before(" and "@, 'N'),
        at_not_before(" and "@, 'P'),
{
    reveal_strlit("@ClassName='");
    reveal_strlit("@Name='");
    reveal_strlit("@ProcessName='");
    reveal_strlit("'");
    reveal_strlit(" and ");
    reveal(at_not_before);
    let ka = "@ClassName='"@;
    let kb = "@Name='"@;
    assert forall|j: int| 0 <= j < 12 implies #[trigger] ka[j] != '@' || (j + 1 < 12 && ka[j + 1] != 'N' && ka[j
        + 1] != 'P') by {
        assert(j == 0 || j == 1 || j == 2 || j == 3 || j == 4 || j == 5 || j == 6 || j == 7 || j == 8 || j == 9 || j
            == 10 || j == 11);
    }
    assert forall|j: int| 0 <= j < 7 implies #[trigger] kb[j] != '@' || (j + 1 < 7 && kb[j + 1] != 'P') by {
        assert(j == 0 || j == 1 || j == 2 || j == 3 || j == 4 || j == 5 || j == 6);
    }
    assert forall|j: int| 0 <= j < 5 implies #[trigger] " and "@[j] != '@' by {
        assert(j == 0 || j == 1 || j == 2 || j == 3 || j == 4);
    }
}

/// The first `key` in `x + y` is the one that starts `y`, when no `@` in
/// `x` starts the key.
proof fn lemma_key_after(x: Seq<char>, y: Seq<char>, key: Seq<char>)
    requires
        key.len() >= 2,
        key[0] == '@',
        key.len() <= y.len(),
        y.subrange(0, key.len() as int) == key,
        at_not_before(x, key[1]),
    ensures
        first_occurrence(x + y, key) == Some(x.len() as int),
{
    reveal(at_not_before);
    let s = x + y;
    let q = x.len() as int;
    assert(s.subrange(q, q + key.len()) =~= y.subrange(0, key.len() as int));
    assert forall|j: int| 0 <= j < q implies #[trigger] s[j] != '@' || s[j + 1] != key[1] by {
        assert(s[j] == x[j]);
        if x[j] == '@' {
            assert(s[j + 1] == x[j + 1]);
        }
    }
    lemma_key_first(s, key, q);
}

proof fn lemma_skip_prefix(a: Seq<char>, b: Seq<char>)
    ensures
        (a + b).skip(a.len() as int) == b,
{
    assert((a + b).skip(a.len() as int) =~= b);
}

/// The value after the first `key` that follows `x`, when no earlier `@`
/// in `x` starts the key.
proof fn lemma_read_after(x: Seq<char>, key: Seq<char>, v: Seq<char>, rest: Seq<char>)
    requires
        key.len() >= 2,
        key[0] == '@',
        at_not_before(x, key[1]),
        plain_value(v),
    ensures
        selector_value(x + (key + (v + (seq!['\''] + rest))), key) == Some(v),
{
    let tail = v + (seq!['\''] + rest);
    let y = key + tail;
    let s = x + y;
    assert(y.subrange(0, key.len() as int) =~= key);
    lemma_key_after(x, y, key);
    lemma_skip_prefix(x, y);
    lemma_skip_prefix(key, tail);
    assert(s.skip((x.len() + key.len()) as int) =~= s.skip(x.len() as int).skip(key.len() as int));
    lemma_value_after_key(s, key, x.len() as int, v, rest);
}

proof fn lemma_read_first_value(ka: Seq<char>, class: Seq<char>, q: Seq<char>, rest: Seq<char>)
    requires
        ka.len() >= 2,
        ka[0] == '@',
        q == seq!['\''],
        plain_value(class),
    ensures
        selector_value(ka + class + q + rest, ka) == Some(class),
{
    assert(at_not_before(Seq::<char>::empty(), ka[1])) by {
        reveal(at_not_before);
    }
    assert(ka + class + q + rest =~= Seq::<char>::empty() + (ka + (class + (seq!['\''] + rest))));
    lemma_read_after(Seq::<char>::empty(), ka, class, rest);
}

proof fn lemma_read_second_value(
    ka: Seq<char>,
    class: Seq<char>,
    q: Seq<char>,
    and: Seq<char>,
    kb: Seq<char>,
    name: Seq<char>,
    rest: Seq<char>,
)
    requires
        kb.len() >= 2,
        kb[0] == '@',
        q == seq!['\''],
        at_not_before(ka, kb[1]),
        at_not_before(q, kb[1]),
        at_not_before(and, kb[1]),
        plain_value(class),
        plain_value(name),
    ensures
        selector_value(ka + class + q + and + (kb + name + q) + rest, kb) == Some(name),
{
    lemma_plain_at_not_before(class, kb[1]);
    lemma_at_not_before_concat(ka, class, kb[1]);
    lemma_at_not_before_concat(ka + class, q, kb[1]);
    lemma_at_not_before_concat(ka + class + q, and, kb[1]);
    let x = ka + class + q + and;
    assert(x + (kb + name + q) + rest =~= x + (kb + (name + (seq!['\''] + rest))));
    lemma_read_after(x, kb, name, rest);
}

proof fn lemma_read_third_value(x: Seq<char>, kp: Seq<char>, process: Seq<char>, q: Seq<char>)
    requires
        kp.len() >= 2,
        kp[0] == '@',
        q == seq!['\''],
        at_not_before(x, kp[1]),
        plain_value(process),
    ensures
        selector_value(x + (kp + process + q), kp) == Some(process),
{
    assert(x + (kp + process + q) =~= x + (kp + (process + (seq!['\''] + Seq::<char>::empty()))));
    lemma_read_after(x, kp, process, Seq::<char>::empty());
}

/// The three values of `@ClassName='c' and @Name='n' and @ProcessName='p'`.
proof fn lemma_read_three(class: Seq<char>, name: Seq<char>, process: Seq<char>)
    requires
        plain_value(class),
        plain_value(name),
        plain_value(process),
    ensures
        ({
            let t = "@ClassName='"@ + class + "'"@ + " and "@ + ("@Name='"@ + name + "'"@) + " and "@ + (
            "@ProcessName='"@ + process + "'"@);
            &&& selector_value(t, "@ClassName='"@) == Some(class)
            &&& selector_value(t, "@Name='"@) == Some(name)
            &&& selector_value(t, "@ProcessName='"@) == Some(process)
        }),
{
    lemma_selector_literals();
    let ka = "@ClassName='"@;
    let kb = "@Name='"@;
    let kp = "@ProcessName='"@;
    let q = "'"@;
    let and = " and "@;
    let pb = kb + name + q;
    let pp = kp + process + q;
    let t = ka + class + q + and + pb + and + pp;
    // the class name
    let ra = and + pb + and + pp;
    assert(t =~= ka + class + q + ra);
    lemma_read_first_value(ka, class, q, ra);
    // the name
    lemma_concat_associative(ka + class + q + and + pb, and, pp);
    lemma_read_second_value(ka, class, q, and, kb, name, and + pp);
    // the process name
    let xp = ka + class + q + and + pb + and;
    lemma_plain_at_not_before(class, 'P');
    lemma_plain_at_not_before(name, 'P');
    lemma_at_not_before_concat(ka, class, 'P');
    lemma_at_not_before_concat(ka + class, q, 'P');
    lemma_at_not_before_concat(ka + class + q, and, 'P');
    lemma_at_not_before_concat(kb, name, 'P');
    lemma_at_not_before_concat(kb + name, q, 'P');
    lemma_at_not_before_concat(ka + class + q + and, pb, 'P');
    lemma_at_not_before_concat(ka + class + q + and + pb, and, 'P');
    lemma_read_third_value(xp, kp, process, q);
}

/// A generated window selector reads back as what it was made from: for a
/// window node whose selector filters are the `=` filters of its class name
/// and its name, and a known process name, parsing the selector gives that
/// class name, name and process name, when none of them holds a quote, an
/// `@` or a bracket.
pub proof fn lemma_window_selector_read_back(n: NodeView, class: Seq<char>, name: Seq<char>, process: Seq<char>)
    requires
        window_filter_preds(n.filters) == seq![
            operator_predicate(Operator::Equals, "ClassName"@, class),
            operator_predicate(Operator::Equals, "Name"@, name),
        ],
        plain_value(class),
        plain_value(name),
        plain_value(process),
        process.len() > 0,
    ensures
        selector_part(window_selector(n, Some(process)), "@ClassName='"@) == Some(class),
        selector_part(window_selector(n, Some(process)), "@Name='"@) == Some(name),
        selector_part(window_selector(n, Some(process)), "@ProcessName='"@) == Some(process),
{
    reveal_strlit("@ClassName='");
    reveal_strlit("@Name='");
    reveal_strlit("@ProcessName='");
    reveal_strlit("'");
    reveal_strlit("@");
    reveal_strlit("ClassName");
    reveal_strlit("Name");
    reveal_strlit("='");
    let pa = "@ClassName='"@ + class + "'"@;
    let pb = "@Name='"@ + name + "'"@;
    let pp = "@ProcessName='"@ + process + "'"@;
    assert(operator_predicate(Operator::Equals, "ClassName"@, class) =~= pa);
    assert(operator_predicate(Operator::Equals, "Name"@, name) =~= pb);
    assert(window_selector_preds(n, Some(process)) =~= seq![pa, pb, pp]);
    lemma_join_three(pa, pb, pp, " and "@);
    let t = pa + " and "@ + pb + " and "@ + pp;
    assert(window_selector(n, Some(process)) == "Window["@ + t + "]"@);
    lemma_window_predicates(t);
    lemma_read_three(class, name, process);
}

} // verus!
