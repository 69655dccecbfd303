//! XPath optimisation of a captured hierarchy: the path handed to the
//! optimiser, and how its answer (an anchor node and a shortened path) is
//! applied back to the hierarchy's inclusion flags and filters.
use vstd::prelude::*;
use crate::model::{
    clone_filters, filters_view, node_segment, nodes_view, str_eq, FilterView, HierarchyNode, NodeView, Operator,
    PropertyFilter,
};
use crate::query::all_digits;
use crate::step::digits_value;
use crate::text::{chars_of, starts_with_lit};

verus! {

/// The optimiser of captured hierarchies.
pub struct XPathOptimizer;

/// The byte length of a string in UTF-8, as `str::len` reports it.
pub open spec fn utf8_len(s: Seq<char>) -> nat {
    (vstd::utf8::encode_utf8(s).len() as usize) as nat
}

/// Whether `v` reads as an `i32` (optional sign, decimal digits) greater than 0.
pub open spec fn positive_i32(v: Seq<char>) -> bool {
    let d = if v.len() > 0 && v[0] == '+' {
        v.drop_first()
    } else {
        v
    };
    d.len() > 0 && all_digits(d) && 0 < digits_value(d) <= i32::MAX
}

/// A filter as the optimiser leaves it: the automation id kept when set; a
/// class name kept when stable, replaced by `starts-with` its stable prefix
/// when dynamic (dropped when that prefix is shorter than 4 bytes); a name
/// kept when set and short (30 bytes on the target, 20 elsewhere); the
/// control type dropped (the node test carries it); the index kept when
/// positive; the extended text attributes kept when set; the boolean
/// attributes left as they were; anything else dropped. `dynamic` is the
/// stable prefix of the filter's value when that value is a dynamic class name.
pub open spec fn optimized_filter(f: FilterView, is_target: bool, dynamic: Option<Seq<char>>) -> FilterView {
    if f.name == "AutomationId"@ {
        FilterView { enabled: f.value.len() > 0, ..f }
    } else if f.name == "ClassName"@ {
        match dynamic {
            Some(p) => if utf8_len(p) >= 4 {
                FilterView { operator: Operator::StartsWith, value: p, enabled: true, ..f }
            } else {
                FilterView { enabled: false, ..f }
            },
            None => FilterView { enabled: f.value.len() > 0, ..f },
        }
    } else if f.name == "Name"@ {
        FilterView {
            enabled: utf8_len(f.value) <= (if is_target {
                30nat
            } else {
                20nat
            }) && f.value.len() > 0,
            ..f
        }
    } else if f.name == "ControlType"@ {
        FilterView { enabled: false, ..f }
    } else if f.name == "Index"@ {
        FilterView { enabled: positive_i32(f.value), ..f }
    } else if f.name == "FrameworkId"@ || f.name == "HelpText"@ || f.name == "LocalizedControlType"@ || f.name
        == "AcceleratorKey"@ || f.name == "AccessKey"@ || f.name == "ItemType"@ || f.name == "ItemStatus"@ {
        FilterView { enabled: f.value.len() > 0, ..f }
    } else if f.name == "IsPassword"@ || f.name == "IsEnabled"@ || f.name == "IsOffscreen"@ {
        f
    } else {
        FilterView { enabled: false, ..f }
    }
}

pub open spec fn opt_strings_view(v: Seq<Option<String>>) -> Seq<Option<Seq<char>>> {
    v.map_values(|o: Option<String>| match o {
        Some(s) => Some(s@),
        None => None,
    })
}

fn is_positive_i32(v: &str) -> (b: bool)
    ensures
        b == positive_i32(v@),
{
    let c = chars_of(v);
    let n = c.len();
    let start: usize = if n > 0 && c[0] == '+' {
        1
    } else {
        0
    };
    let d = crate::text::copy_range(c.as_slice(), start, n);
    assert(d@ =~= (if c@.len() > 0 && c@[0] == '+' { c@.drop_first() } else { c@ }));
    if d.len() == 0 {
        return false;
    }
    let mut val: u64 = 0;
    let mut over = false;
    let mut k: usize = 0;
    while k < d.len()
        invariant
            k <= d.len(),
            c@ == v@,
            d@ == (if v@.len() > 0 && v@[0] == '+' { v@.drop_first() } else { v@ }),
            forall|q: int| 0 <= q < k ==> crate::text::is_ascii_digit(#[trigger] d@[q]),
            !over ==> val == digits_value(d@.take(k as int)) && val <= i32::MAX,
            over ==> digits_value(d@.take(k as int)) > i32::MAX,
        decreases d.len() - k,
    {
        let ch = d[k];
        if !('0' <= ch && ch <= '9') {
            assert(!crate::text::is_ascii_digit(d@[k as int]));
            assert(!all_digits(d@));
            return false;
        }
        assert(d@.take(k + 1).drop_last() =~= d@.take(k as int));
        assert(d@.take(k + 1).last() == ch);
        if !over {
            let dv: u64 = (ch as u64) - ('0' as u64);
            let nv = val * 10 + dv;
            if nv > 2147483647u64 {
                over = true;
            } else {
                val = nv;
            }
        }
        k += 1;
    }
    assert(d@.take(d.len() as int) =~= d@);
    !over && val > 0
}

/// The filters of a node as the optimiser leaves them (see `optimized_filter`).
pub fn optimize_node_filters(node: &HierarchyNode, is_target: bool, dynamic: &Vec<Option<String>>) -> (r: Vec<PropertyFilter>)
    requires
        dynamic@.len() == node.filters@.len(),
    ensures
        filters_view(r@) == filters_view(node.filters@).map(
            |k: int, f: FilterView| optimized_filter(f, is_target, opt_strings_view(dynamic@)[k]),
        ),
{
    let ghost fv = filters_view(node.filters@);
    let ghost dv = opt_strings_view(dynamic@);
    let mut out: Vec<PropertyFilter> = Vec::new();
    let mut i: usize = 0;
    while i < node.filters.len()
        invariant
            i <= node.filters.len(),
            dynamic@.len() == node.filters@.len(),
            fv == filters_view(node.filters@),
            dv == opt_strings_view(dynamic@),
            filters_view(out@) == fv.take(i as int).map(|k: int, f: FilterView| optimized_filter(f, is_target, dv[k])),
        decreases node.filters.len() - i,
    {
        let f = &node.filters[i];
        assert(fv[i as int] == f@);
        assert(dv[i as int] == match dynamic@[i as int] {
            Some(s) => Some(s@),
            None => None::<Seq<char>>,
        });
        let name = f.name.as_str();
        let (operator, value, enabled) = if str_eq(name, "AutomationId") {
            (f.operator, f.value.clone(), !f.value.as_str().is_empty())
        } else if str_eq(name, "ClassName") {
            match &dynamic[i] {
                Some(p) => {
                    if p.as_str().len() >= 4 {
                        (Operator::StartsWith, p.clone(), true)
                    } else {
                        (f.operator, f.value.clone(), false)
                    }
                },
                None => (f.operator, f.value.clone(), !f.value.as_str().is_empty()),
            }
        } else if str_eq(name, "Name") {
            let limit: usize = if is_target {
                30
            } else {
                20
            };
            (f.operator, f.value.clone(), f.value.as_str().len() <= limit && !f.value.as_str().is_empty())
        } else if str_eq(name, "ControlType") {
            (f.operator, f.value.clone(), false)
        } else if str_eq(name, "Index") {
            (f.operator, f.value.clone(), is_positive_i32(f.value.as_str()))
        } else if str_eq(name, "FrameworkId") || str_eq(name, "HelpText") || str_eq(name, "LocalizedControlType")
            || str_eq(name, "AcceleratorKey") || str_eq(name, "AccessKey") || str_eq(name, "ItemType") || str_eq(
            name,
            "ItemStatus",
        ) {
            (f.operator, f.value.clone(), !f.value.as_str().is_empty())
        } else if str_eq(name, "IsPassword") || str_eq(name, "IsEnabled") || str_eq(name, "IsOffscreen") {
            (f.operator, f.value.clone(), f.enabled)
        } else {
            (f.operator, f.value.clone(), false)
        };
        let nf = PropertyFilter { name: f.name.clone(), operator, value, enabled };
        assert(nf@ == optimized_filter(fv[i as int], is_target, dv[i as int]));
        let ghost before = out@;
        out.push(nf);
        assert(filters_view(out@) =~= filters_view(before).push(nf@));
        assert(fv.take(i + 1).map(|k: int, f: FilterView| optimized_filter(f, is_target, dv[k])) =~= fv.take(
            i as int,
        ).map(|k: int, f: FilterView| optimized_filter(f, is_target, dv[k])).push(optimized_filter(fv[i as int], is_target, dv[i as int])));
        i += 1;
    }
    assert(fv.take(node.filters.len() as int) =~= fv);
    out
}

/// The first node at or after `i` marked as the target.
pub open spec fn first_target(h: Seq<NodeView>, i: int) -> Option<int>
    decreases h.len() - i,
{
    if i < 0 || i >= h.len() {
        None
    } else if h[i].is_target {
        Some(i)
    } else {
        first_target(h, i + 1)
    }
}

/// The target of an optimisation: the first node marked as the target, or
/// the last node.
pub open spec fn target_index_of(h: Seq<NodeView>) -> int {
    match first_target(h, 0) {
        Some(i) => i,
        None => h.len() - 1,
    }
}

/// The included nodes among the first `k`, in order.
pub open spec fn included_upto(h: Seq<NodeView>, k: int) -> Seq<int>
    decreases k,
{
    if k <= 0 {
        seq![]
    } else {
        let r = included_upto(h, k - 1);
        if h[k - 1].included {
            r.push(k - 1)
        } else {
            r
        }
    }
}

/// A step of the path handed to the optimiser: the node's segment, after `/`
/// unless it already starts with one.
pub open spec fn path_step(n: NodeView) -> Seq<char> {
    let seg = node_segment(n);
    if seg.len() > 0 && seg[0] == '/' {
        seg
    } else {
        "/"@ + seg
    }
}

/// The steps of the nodes at `idxs`, joined.
pub open spec fn joined_steps(h: Seq<NodeView>, idxs: Seq<int>) -> Seq<char>
    decreases idxs.len(),
{
    if idxs.len() == 0 {
        seq![]
    } else {
        joined_steps(h, idxs.drop_last()) + path_step(h[idxs.last()])
    }
}

/// Replaces the first `/` by `//`.
pub open spec fn first_slash_doubled(s: Seq<char>) -> Seq<char> {
    match crate::text::first_occurrence(s, "/"@) {
        Some(p) => s.take(p) + "//"@ + s.skip(p + 1),
        None => s,
    }
}

/// The path handed to the optimiser: the included nodes up to the target;
/// absolute when it starts at the first node, otherwise its first `/`
/// doubled so that it matches anywhere.
pub open spec fn full_path(h: Seq<NodeView>, idxs: Seq<int>) -> Seq<char> {
    if idxs.len() > 0 && idxs[0] == 0 {
        joined_steps(h, idxs)
    } else {
        first_slash_doubled(joined_steps(h, idxs))
    }
}

/// The path an optimisation works on.
pub struct PreparedPath {
    /// The target node.
    pub target_index: usize,
    /// The nodes of the path, by position in the hierarchy.
    pub node_indices: Vec<usize>,
    /// The path handed to the optimiser.
    pub full_xpath: String,
}

/// What an optimisation can start from.
pub enum OptimizationPlan {
    /// The hierarchy is empty.
    Empty,
    /// The target is excluded from the path, so there is nothing to optimise.
    TargetExcluded { target_index: usize },
    Ready(PreparedPath),
}

impl XPathOptimizer {
    pub fn new() -> (r: Self) {
        XPathOptimizer
    }

    /// The path of a hierarchy that the optimiser is given (see `full_path`).
    pub fn prepare(&self, hierarchy: &[HierarchyNode]) -> (r: OptimizationPlan)
        ensures
            hierarchy@.len() == 0 <==> r is Empty,
            r matches OptimizationPlan::TargetExcluded { target_index } ==> target_index == target_index_of(
                nodes_view(hierarchy@),
            ) && !hierarchy@[target_index as int].included,
            r matches OptimizationPlan::Ready(p) ==> ({
                let hv = nodes_view(hierarchy@);
                let t = target_index_of(hv);
                &&& p.target_index == t
                &&& hierarchy@[t].included
                &&& p.node_indices@.map_values(|i: usize| i as int) == included_upto(hv, t + 1)
                &&& p.full_xpath@ == full_path(hv, included_upto(hv, t + 1))
            }),
    {
        let ghost hv = nodes_view(hierarchy@);
        let n = hierarchy.len();
        if n == 0 {
            return OptimizationPlan::Empty;
        }
        let mut t = n - 1;
        let mut i: usize = 0;
        let mut found = false;
        while i < n && !found
            invariant
                i <= n,
                n == hierarchy@.len(),
                hv == nodes_view(hierarchy@),
                !found ==> first_target(hv, 0) == first_target(hv, i as int),
                !found ==> t == n - 1,
                found ==> first_target(hv, 0) == Some(t as int) && t < n,
            decreases n - i + (if found { 0int } else { 1int }),
        {
            assert(hv[i as int] == hierarchy@[i as int]@);
            if hierarchy[i].is_target {
                t = i;
                found = true;
            } else {
                i += 1;
            }
        }
        assert(t as int == target_index_of(hv));
        assert(hv[t as int] == hierarchy@[t as int]@);
        if !hierarchy[t].included {
            return OptimizationPlan::TargetExcluded { target_index: t };
        }
        let mut idxs: Vec<usize> = Vec::new();
        let mut path = String::new();
        let mut k: usize = 0;
        while k <= t
            invariant
                k <= t + 1,
                t < n,
                n == hierarchy@.len(),
                hv == nodes_view(hierarchy@),
                idxs@.map_values(|i: usize| i as int) == included_upto(hv, k as int),
                path@ == joined_steps(hv, included_upto(hv, k as int)),
            decreases t + 1 - k,
        {
            assert(hv[k as int] == hierarchy@[k as int]@);
            if hierarchy[k].included {
                let seg = hierarchy[k].xpath_segment();
                let sv = chars_of(seg.as_str());
                if !(sv.len() > 0 && sv[0] == '/') {
                    path.push_str("/");
                }
                path.push_str(seg.as_str());
                proof {
                    reveal_strlit("/");
                    assert(path_step(hv[k as int]) == (if seg@.len() > 0 && seg@[0] == '/' { seg@ } else { "/"@ + seg@ }));
                    let prev = included_upto(hv, k as int);
                    assert(included_upto(hv, k + 1) == prev.push(k as int));
                    assert(prev.push(k as int).drop_last() =~= prev);
                }
                let ghost before = idxs@;
                idxs.push(k);
                assert(idxs@.map_values(|i: usize| i as int) =~= before.map_values(|i: usize| i as int).push(k as int));
            }
            k += 1;
        }
        let ghost idv = included_upto(hv, t + 1);
        let first_is_root = idxs.len() > 0 && idxs[0] == 0;
        assert(first_is_root == (idv.len() > 0 && idv[0] == 0)) by {
            if idxs@.len() > 0 {
                assert(idv[0] == idxs@[0] as int);
            }
        }
        let full_xpath = if first_is_root {
            path
        } else {
            double_first_slash(path.as_str())
        };
        OptimizationPlan::Ready(PreparedPath { target_index: t, node_indices: idxs, full_xpath })
    }
}

/// Replaces the first `/` of `s` by `//`.
fn double_first_slash(s: &str) -> (r: String)
    ensures
        r@ == first_slash_doubled(s@),
{
    let v = chars_of(s);
    let slash = chars_of("/");
    match crate::text::find_first(v.as_slice(), slash.as_slice()) {
        Some(p) => {
            proof {
                crate::text::lemma_first_occurrence_occurs(v@, "/"@);
                reveal_strlit("/");
            }
            let n = v.len();
            assert(p + 1 <= n);
            let mut r = crate::step::string_of_range(v.as_slice(), 0, p);
            r.push_str("//");
            crate::text::push_range(&mut r, v.as_slice(), p + 1, v.len());
            assert(r@ =~= first_slash_doubled(s@));
            r
        },
        None => crate::step::string_of_range(v.as_slice(), 0, v.len()),
    }
}

impl PreparedPath {
    /// The hierarchy position of the path node the optimiser chose as anchor.
    pub fn anchor_in_hierarchy(&self, anchor_position: Option<usize>) -> (r: Option<usize>)
        ensures
            r == (match anchor_position {
                Some(a) => if a < self.node_indices@.len() {
                    Some(self.node_indices@[a as int])
                } else {
                    None
                },
                None => None,
            }),
    {
        match anchor_position {
            Some(a) => {
                if a < self.node_indices.len() {
                    Some(self.node_indices[a])
                } else {
                    None
                }
            },
            None => None,
        }
    }
}

/// A node after optimisation with the given anchor and target: included from
/// the anchor to the target (only the target without an anchor), and an
/// included node's filters optimised (see `optimized_filter`).
pub open spec fn optimized_node(n: NodeView, i: int, anchor: Option<usize>, target: usize, dynamic: Seq<Option<Seq<char>>>) -> NodeView {
    let inc = match anchor {
        Some(a) => a <= i <= target,
        None => i == target,
    };
    if inc {
        NodeView {
            included: true,
            filters: n.filters.map(|k: int, f: FilterView| optimized_filter(f, i == target, dynamic[k])),
            ..n
        }
    } else {
        NodeView { included: false, ..n }
    }
}

pub open spec fn nested_view(d: Seq<Vec<Option<String>>>) -> Seq<Seq<Option<Seq<char>>>> {
    d.map_values(|v: Vec<Option<String>>| opt_strings_view(v@))
}

impl XPathOptimizer {
    /// Applies an optimisation to a hierarchy (see `optimized_node`);
    /// `dynamic[i][k]` is the stable prefix of the value of filter `k` of
    /// node `i` when that value is a dynamic class name.
    pub fn apply_optimization_to_hierarchy(
        &self,
        hierarchy: &[HierarchyNode],
        anchor_index: Option<usize>,
        target_index: usize,
        dynamic: &Vec<Vec<Option<String>>>,
    ) -> (r: Vec<HierarchyNode>)
        requires
            dynamic@.len() == hierarchy@.len(),
            forall|i: int| 0 <= i < hierarchy@.len() ==> (#[trigger] dynamic@[i])@.len() == hierarchy@[i].filters@.len(),
        ensures
            nodes_view(r@) == nodes_view(hierarchy@).map(
                |i: int, n: NodeView| optimized_node(n, i, anchor_index, target_index, nested_view(dynamic@)[i]),
            ),
    {
        let ghost hv = nodes_view(hierarchy@);
        let ghost dv = nested_view(dynamic@);
        let mut out: Vec<HierarchyNode> = Vec::new();
        let mut i: usize = 0;
        while i < hierarchy.len()
            invariant
                i <= hierarchy.len(),
                hv == nodes_view(hierarchy@),
                dv == nested_view(dynamic@),
                dynamic@.len() == hierarchy@.len(),
                forall|j: int| 0 <= j < hierarchy@.len() ==> (#[trigger] dynamic@[j])@.len() == hierarchy@[j].filters@.len(),
                nodes_view(out@) == hv.take(i as int).map(
                    |j: int, n: NodeView| optimized_node(n, j, anchor_index, target_index, dv[j]),
                ),
            decreases hierarchy.len() - i,
        {
            let node = &hierarchy[i];
            let mut c = node.clone();
            let inc = match anchor_index {
                Some(a) => i >= a && i <= target_index,
                None => i == target_index,
            };
            c.included = inc;
            if inc {
                assert(dynamic@[i as int]@.len() == node.filters@.len());
                c.filters = optimize_node_filters(node, i == target_index, &dynamic[i]);
            }
            assert(hv[i as int] == node@);
            assert(dv[i as int] == opt_strings_view(dynamic@[i as int]@));
            assert(c@ == optimized_node(hv[i as int], i as int, anchor_index, target_index, dv[i as int])) by {
                if inc {
                    assert(filters_view(c.filters@) =~= hv[i as int].filters.map(
                        |k: int, f: FilterView| optimized_filter(f, i == target_index, dv[i as int][k]),
                    ));
                }
            }
            let ghost before = out@;
            out.push(c);
            assert(nodes_view(out@) =~= nodes_view(before).push(c@));
            assert(hv.take(i + 1).map(|j: int, n: NodeView| optimized_node(n, j, anchor_index, target_index, dv[j]))
                =~= hv.take(i as int).map(|j: int, n: NodeView| optimized_node(n, j, anchor_index, target_index, dv[j])).push(
                optimized_node(hv[i as int], i as int, anchor_index, target_index, dv[i as int])));
            i += 1;
        }
        assert(hv.take(hierarchy.len() as int) =~= hv);
        out
    }
}

/// The number of nodes whose long class name (over 30 bytes) or automation
/// id the optimisation stops relying on.
pub open spec fn removed_attr_count(h: Seq<NodeView>) -> nat
    decreases h.len(),
{
    if h.len() == 0 {
        0
    } else {
        removed_attr_count(h.drop_last()) + if utf8_len(h.last().class_name) > 30 || h.last().automation_id.len() > 0 {
            1nat
        } else {
            0nat
        }
    }
}

impl XPathOptimizer {
    pub fn count_removed_attrs(&self, original: &[HierarchyNode]) -> (r: usize)
        ensures
            r == removed_attr_count(nodes_view(original@)),
    {
        let ghost hv = nodes_view(original@);
        let mut count: usize = 0;
        let mut i: usize = 0;
        while i < original.len()
            invariant
                i <= original.len(),
                hv == nodes_view(original@),
                count == removed_attr_count(hv.take(i as int)),
                count <= i,
            decreases original.len() - i,
        {
            assert(hv.take(i + 1).drop_last() =~= hv.take(i as int));
            assert(hv[i as int] == original@[i as int]@);
            let n = &original[i];
            if n.class_name.as_str().len() > 30 || !n.automation_id.as_str().is_empty() {
                count += 1;
            }
            i += 1;
        }
        assert(hv.take(original.len() as int) =~= hv);
        count
    }
}

/// The optimised path with its leading slashes fixed: `/` for an anchor at
/// the first node (an absolute path), `//` otherwise.
pub open spec fn fixed_prefix(x: Seq<char>, anchor: Option<usize>) -> Seq<char> {
    if anchor == Some(0usize) {
        if "//"@.is_prefix_of(x) {
            "/"@ + x.skip(2)
        } else if "/"@.is_prefix_of(x) {
            x
        } else {
            "/"@ + x
        }
    } else {
        if "//"@.is_prefix_of(x) {
            x
        } else if "/"@.is_prefix_of(x) {
            "//"@ + x.skip(1)
        } else {
            "//"@ + x
        }
    }
}

impl XPathOptimizer {
    /// Fixes the leading slashes of an optimised path (see `fixed_prefix`).
    pub fn fix_xpath_prefix(&self, xpath: &str, original_anchor_index: Option<usize>) -> (r: String)
        ensures
            r@ == fixed_prefix(xpath@, original_anchor_index),
            original_anchor_index == Some(0usize) ==> "/"@.is_prefix_of(r@),
            original_anchor_index != Some(0usize) ==> "//"@.is_prefix_of(r@),
    {
        proof {
            reveal_strlit("/");
            reveal_strlit("//");
        }
        let v = chars_of(xpath);
        let n = v.len();
        let dbl = starts_with_lit(v.as_slice(), "//");
        let single = starts_with_lit(v.as_slice(), "/");
        let mut r = String::new();
        let is_root = match original_anchor_index {
            Some(a) => a == 0,
            None => false,
        };
        if is_root {
            if dbl {
                r.push_str("/");
                crate::text::push_range(&mut r, v.as_slice(), 2, n);
                assert(v@.subrange(2, n as int) =~= v@.skip(2));
            } else if single {
                crate::text::push_range(&mut r, v.as_slice(), 0, n);
                assert(v@.subrange(0, n as int) =~= v@);
            } else {
                r.push_str("/");
                r.push_str(xpath);
            }
        } else {
            if dbl {
                crate::text::push_range(&mut r, v.as_slice(), 0, n);
                assert(v@.subrange(0, n as int) =~= v@);
            } else if single {
                r.push_str("//");
                crate::text::push_range(&mut r, v.as_slice(), 1, n);
                assert(v@.subrange(1, n as int) =~= v@.skip(1));
            } else {
                r.push_str("//");
                r.push_str(xpath);
            }
        }
        assert(r@ =~= fixed_prefix(xpath@, original_anchor_index));
        proof {
            let x = xpath@;
            if is_root {
                assert(r@.subrange(0, 1) =~= "/"@);
            } else if dbl {
                assert(r@.subrange(0, 2) =~= x.subrange(0, 2));
            } else {
                assert(r@.subrange(0, 2) =~= "//"@);
            }
        }
        r
    }
}

/// A node after minimal optimisation: only the target is included, and the
/// target keeps only its class name and automation id filters enabled.
pub open spec fn minimal_node(n: NodeView, i: int, target: usize) -> NodeView {
    if i == target {
        NodeView {
            included: true,
            filters: n.filters.map_values(|f: FilterView| FilterView { enabled: f.name == "ClassName"@ || f.name == "AutomationId"@, ..f }),
            ..n
        }
    } else {
        NodeView { included: false, ..n }
    }
}

/// The number of enabled filters of the nodes.
pub open spec fn enabled_filter_count(h: Seq<NodeView>) -> nat
    decreases h.len(),
{
    if h.len() == 0 {
        0
    } else {
        enabled_filter_count(h.drop_last()) + h.last().filters.filter(|f: FilterView| f.enabled).len()
    }
}

fn count_enabled(fs: &Vec<PropertyFilter>) -> (r: usize)
    ensures
        r == filters_view(fs@).filter(|f: FilterView| f.enabled).len(),
{
    let ghost fv = filters_view(fs@);
    let mut c: usize = 0;
    let mut i: usize = 0;
    while i < fs.len()
        invariant
            i <= fs.len(),
            fv == filters_view(fs@),
            c == fv.take(i as int).filter(|f: FilterView| f.enabled).len(),
            c <= i,
        decreases fs.len() - i,
    {
        assert(fv.take(i + 1).drop_last() =~= fv.take(i as int));
        assert(fv.take(i + 1).last() == fs@[i as int]@);
        proof {
            broadcast use vstd::seq_lib::group_filter_ensures;
            reveal(Seq::filter);
        }
        if fs[i].enabled {
            c += 1;
        }
        i += 1;
    }
    assert(fv.take(fs.len() as int) =~= fv);
    c
}

impl XPathOptimizer {
    /// Applies a minimal optimisation (see `minimal_node`).
    pub fn apply_minimal_optimization_to_hierarchy(&self, hierarchy: &[HierarchyNode], _minimal_xpath: &str, target_index: usize) -> (r: Vec<HierarchyNode>)
        ensures
            nodes_view(r@) == nodes_view(hierarchy@).map(|i: int, n: NodeView| minimal_node(n, i, target_index)),
    {
        let ghost hv = nodes_view(hierarchy@);
        let mut out: Vec<HierarchyNode> = Vec::new();
        let mut i: usize = 0;
        while i < hierarchy.len()
            invariant
                i <= hierarchy.len(),
                hv == nodes_view(hierarchy@),
                nodes_view(out@) == hv.take(i as int).map(|j: int, n: NodeView| minimal_node(n, j, target_index)),
            decreases hierarchy.len() - i,
        {
            let node = &hierarchy[i];
            let mut c = node.clone();
            c.included = i == target_index;
            if i == target_index {
                let mut fs: Vec<PropertyFilter> = Vec::new();
                let mut k: usize = 0;
                let ghost nf = filters_view(node.filters@);
                while k < node.filters.len()
                    invariant
                        k <= node.filters.len(),
                        nf == filters_view(node.filters@),
                        filters_view(fs@) == nf.take(k as int).map_values(
                            |f: FilterView| FilterView { enabled: f.name == "ClassName"@ || f.name == "AutomationId"@, ..f },
                        ),
                    decreases node.filters.len() - k,
                {
                    let f = &node.filters[k];
                    let keep = str_eq(f.name.as_str(), "ClassName") || str_eq(f.name.as_str(), "AutomationId");
                    let g = PropertyFilter { name: f.name.clone(), operator: f.operator, value: f.value.clone(), enabled: keep };
                    let ghost before = fs@;
                    fs.push(g);
                    assert(nf[k as int] == f@);
                    assert(filters_view(fs@) =~= filters_view(before).push(g@));
                    assert(nf.take(k + 1).map_values(
                        |f: FilterView| FilterView { enabled: f.name == "ClassName"@ || f.name == "AutomationId"@, ..f },
                    ) =~= nf.take(k as int).map_values(
                        |f: FilterView| FilterView { enabled: f.name == "ClassName"@ || f.name == "AutomationId"@, ..f },
                    ).push(g@));
                    k += 1;
                }
                assert(nf.take(node.filters.len() as int) =~= nf);
                c.filters = fs;
            }
            assert(hv[i as int] == node@);
            assert(c@ =~= minimal_node(hv[i as int], i as int, target_index));
            let ghost before = out@;
            out.push(c);
            assert(nodes_view(out@) =~= nodes_view(before).push(c@));
            assert(hv.take(i + 1).map(|j: int, n: NodeView| minimal_node(n, j, target_index)) =~= hv.take(i as int).map(
                |j: int, n: NodeView| minimal_node(n, j, target_index),
            ).push(minimal_node(hv[i as int], i as int, target_index)));
            i += 1;
        }
        assert(hv.take(hierarchy.len() as int) =~= hv);
        out
    }

    /// How many enabled filters the minimal optimisation removed (none when
    /// it enabled more).
    pub fn count_removed_attrs_for_minimal(&self, original: &[HierarchyNode], optimized: &[HierarchyNode]) -> (r: usize)
        requires
            enabled_filter_count(nodes_view(original@)) <= usize::MAX,
            enabled_filter_count(nodes_view(optimized@)) <= usize::MAX,
        ensures
            r == (if enabled_filter_count(nodes_view(original@)) >= enabled_filter_count(nodes_view(optimized@)) {
                enabled_filter_count(nodes_view(original@)) - enabled_filter_count(nodes_view(optimized@))
            } else {
                0
            }),
    {
        let a = total_enabled(original);
        let b = total_enabled(optimized);
        if a >= b {
            a - b
        } else {
            0
        }
    }
}

fn total_enabled(h: &[HierarchyNode]) -> (r: usize)
    requires
        enabled_filter_count(nodes_view(h@)) <= usize::MAX,
    ensures
        r == enabled_filter_count(nodes_view(h@)),
{
    let ghost hv = nodes_view(h@);
    let mut total: usize = 0;
    let mut i: usize = 0;
    while i < h.len()
        invariant
            i <= h.len(),
            hv == nodes_view(h@),
            enabled_filter_count(hv) <= usize::MAX,
            total == enabled_filter_count(hv.take(i as int)),
        decreases h.len() - i,
    {
        assert(hv.take(i + 1).drop_last() =~= hv.take(i as int));
        assert(hv[i as int] == h@[i as int]@);
        proof {
            lemma_enabled_count_prefix(hv, i + 1);
        }
        let c = count_enabled(&h[i].filters);
        total = total + c;
        i += 1;
    }
    assert(hv.take(h.len() as int) =~= hv);
    total
}

pub proof fn lemma_enabled_count_prefix(h: Seq<NodeView>, k: int)
    requires
        0 <= k <= h.len(),
    ensures
        enabled_filter_count(h.take(k)) <= enabled_filter_count(h),
    decreases h.len() - k,
{
    if k < h.len() {
        lemma_enabled_count_prefix(h, k + 1);
        assert(h.take(k + 1).drop_last() =~= h.take(k));
    } else {
        assert(h.take(k) =~= h);
    }
}

} // verus!
