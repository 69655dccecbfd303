//! Capturing the element under the cursor: choosing the deepest element at a
//! point, and turning the captured ancestor chain into a hierarchy with its
//! window identity and the search context it should be located with.
use vstd::prelude::*;
use crate::geometry::{inside, point_in_rect, SimpleRect};
use crate::model::{filters_view, nodes_view, str_eq, ElementRect, FilterView, HierarchyNode, NodeView, PropertyFilter, WindowInfo};
use crate::query::{ChildHwndHint, LocateMode};
use crate::select::{extract_window_info, is_leaf_control_type, is_leaf_type, set_walker_hints, with_hint};
use crate::text::{chars_of, contains_chars, contains_seq, push_signed_decimal, signed_decimal};

verus! {

/// How a capture was made.
#[derive(Debug, Clone, Copy, PartialEq, Eq, Structural)]
pub enum CaptureMode {
    /// Control-view walk from `ElementFromPoint`.
    Normal,
    /// Raw-view search for the deepest element at the point.
    Enhanced,
    /// Capture at the cursor position.
    Fast,
}

/// Where a search for the captured element starts.
#[derive(Debug)]
pub enum SearchRoot {
    /// The top-level window.
    Window,
    /// A child window of the top-level window, by class and title.
    ChildHwnd { class: String, title: String },
}

/// How the captured element should be located again.
#[derive(Debug)]
pub struct SearchContext {
    pub locate_mode: LocateMode,
    pub child_hwnd_hint: Option<ChildHwndHint>,
    pub search_root: SearchRoot,
}

impl SearchContext {
    /// Fast mode from the window.
    pub fn default_fast() -> (c: Self)
        ensures
            c.locate_mode == LocateMode::Fast,
            c.child_hwnd_hint is None,
            c.search_root is Window,
    {
        SearchContext { locate_mode: LocateMode::Fast, child_hwnd_hint: None, search_root: SearchRoot::Window }
    }

    /// Full mode from the window.
    pub fn default_full() -> (c: Self)
        ensures
            c.locate_mode == LocateMode::Full,
            c.child_hwnd_hint is None,
            c.search_root is Window,
    {
        SearchContext { locate_mode: LocateMode::Full, child_hwnd_hint: None, search_root: SearchRoot::Window }
    }
}

/// The result of a capture.
pub struct CaptureResult {
    /// Root (desktop) to target.
    pub hierarchy: Vec<HierarchyNode>,
    pub cursor_x: i32,
    pub cursor_y: i32,
    pub error: Option<String>,
    pub window_info: Option<WindowInfo>,
    pub capture_mode: CaptureMode,
    pub locate_mode: LocateMode,
    pub search_context: SearchContext,
}

// ─── choosing the element at a point ─────────────────────────────────────

/// The area of a rectangle that has positive width and height and contains
/// the point, or `None`.
pub open spec fn hit_area(r: SimpleRect, x: int, y: int) -> Option<int> {
    let w = r.right - r.left;
    let h = r.bottom - r.top;
    if w > 0 && h > 0 && inside(x, y, r) {
        Some(w * h)
    } else {
        None
    }
}

/// The width and height of `r` fit in `i32`.
pub open spec fn size_fits(r: SimpleRect) -> bool {
    i32::MIN <= r.right - r.left <= i32::MAX && i32::MIN <= r.bottom - r.top <= i32::MAX
}

/// A rectangle, when present, has a width and height that fit in `i32`.
pub open spec fn rect_ok(r: Option<SimpleRect>) -> bool {
    match r {
        Some(rr) => size_fits(rr),
        None => true,
    }
}

pub fn rect_hit_area(r: &SimpleRect, x: i32, y: i32) -> (a: Option<i64>)
    requires
        size_fits(*r),
    ensures
        match hit_area(*r, x as int, y as int) {
            Some(v) => a is Some && a->0 as int == v,
            None => a is None,
        },
{
    let w = r.width();
    let h = r.height();
    if w > 0 && h > 0 && point_in_rect(x, y, r) {
        assert(0 < w * h <= i32::MAX * i32::MAX) by (nonlinear_arith)
            requires
                0 < w <= i32::MAX,
                0 < h <= i32::MAX,
        ;
        Some((w as i64) * (h as i64))
    } else {
        None
    }
}

/// Whether a rectangle read from an element, if any, has a width and height
/// that fit in `i32` (see `rect_ok`).
pub fn rect_fits(r: &Option<SimpleRect>) -> (b: bool)
    ensures
        b == rect_ok(*r),
{
    match r {
        Some(rr) => {
            let w = rr.right as i64 - rr.left as i64;
            let h = rr.bottom as i64 - rr.top as i64;
            -2147483648i64 <= w && w <= 2147483647i64 && -2147483648i64 <= h && h <= 2147483647i64
        },
        None => true,
    }
}

/// What a descent reads of one child element.
pub struct ChildProbe {
    pub process_id: u32,
    pub is_offscreen: bool,
    /// The element was already visited on this descent.
    pub visited: bool,
    /// The bounding rectangle, when it could be read.
    pub rect: Option<SimpleRect>,
    pub control_type: String,
    pub name: String,
}

pub struct ProbeView {
    pub process_id: u32,
    pub is_offscreen: bool,
    pub visited: bool,
    pub rect: Option<SimpleRect>,
    pub control_type: Seq<char>,
    pub name: Seq<char>,
}

impl View for ChildProbe {
    type V = ProbeView;

    open spec fn view(&self) -> ProbeView {
        ProbeView {
            process_id: self.process_id,
            is_offscreen: self.is_offscreen,
            visited: self.visited,
            rect: self.rect,
            control_type: self.control_type@,
            name: self.name@,
        }
    }
}

pub open spec fn probes_view(v: Seq<ChildProbe>) -> Seq<ProbeView> {
    v.map_values(|p: ChildProbe| p@)
}

/// The area at which a child takes part in the choice: children of the
/// excluded process (the capturing one, where given), off-screen, already visited, without a rectangle, or not
/// containing the point take no part.
pub open spec fn probe_area(p: ProbeView, x: int, y: int, own_pid: Option<u32>) -> Option<int> {
    if own_pid == Some(p.process_id) || p.is_offscreen || p.visited {
        None
    } else {
        match p.rect {
            Some(r) => hit_area(r, x, y),
            None => None,
        }
    }
}

/// Whether a child is preferred as a leaf: under the named-leaf rule a leaf
/// with a name, otherwise any leaf.
pub open spec fn preferred(p: ProbeView, named_leaf_rule: bool) -> bool {
    if named_leaf_rule {
        is_leaf_type(p.control_type) && p.name.len() > 0
    } else {
        is_leaf_type(p.control_type)
    }
}

/// The choice among `ps[..n]`: the position of the chosen child, its area and
/// whether it is preferred. A preferred child replaces one that is not;
/// one that is not never replaces a preferred one; otherwise the smaller area
/// replaces.
pub open spec fn deepest_choice(ps: Seq<ProbeView>, x: int, y: int, own_pid: Option<u32>, named_leaf_rule: bool) -> (Option<int>, int, bool)
    decreases ps.len(),
{
    if ps.len() == 0 {
        (None, i64::MAX as int, false)
    } else {
        let prev = deepest_choice(ps.drop_last(), x, y, own_pid, named_leaf_rule);
        let p = ps.last();
        match probe_area(p, x, y, own_pid) {
            Some(a) => {
                let c = preferred(p, named_leaf_rule);
                let replace = if c && !prev.2 {
                    true
                } else if !c && prev.2 {
                    false
                } else {
                    a < prev.1
                };
                if replace {
                    (Some(ps.len() - 1), a, c)
                } else {
                    prev
                }
            },
            None => prev,
        }
    }
}

/// Whether child `i` is the one a descent goes on with: it takes part in
/// the choice; it is preferred whenever some child taking part is; and among
/// the children taking part that are as preferred as it, it has the smallest
/// area, and is the first of those with that area.
pub open spec fn best_child(ps: Seq<ProbeView>, x: int, y: int, own_pid: Option<u32>, named_leaf_rule: bool, i: int) -> bool {
    &&& 0 <= i < ps.len()
    &&& probe_area(ps[i], x, y, own_pid) is Some
    &&& (exists|k: int|
        0 <= k < ps.len() && #[trigger] probe_area(ps[k], x, y, own_pid) is Some && preferred(ps[k], named_leaf_rule))
        ==> preferred(ps[i], named_leaf_rule)
    &&& forall|k: int|
        0 <= k < ps.len() && #[trigger] probe_area(ps[k], x, y, own_pid) is Some && preferred(ps[k], named_leaf_rule)
            == preferred(ps[i], named_leaf_rule) ==> {
            &&& probe_area(ps[i], x, y, own_pid)->0 <= probe_area(ps[k], x, y, own_pid)->0
            &&& probe_area(ps[k], x, y, own_pid)->0 == probe_area(ps[i], x, y, own_pid)->0 ==> i <= k
        }
}

/// The choice made child by child is the best child, when there is a child
/// taking part; otherwise there is none.
pub proof fn lemma_deepest_choice_is_best(ps: Seq<ProbeView>, x: int, y: int, own_pid: Option<u32>, named_leaf_rule: bool)
    requires
        forall|k: int|
            0 <= k < ps.len() ==> (#[trigger] probe_area(ps[k], x, y, own_pid) matches Some(a) ==> a < i64::MAX),
    ensures
        match deepest_choice(ps, x, y, own_pid, named_leaf_rule) {
            (Some(i), a, c) => best_child(ps, x, y, own_pid, named_leaf_rule, i) && a == probe_area(ps[i], x, y, own_pid)->0
                && c == preferred(ps[i], named_leaf_rule),
            (None, a, c) => a == i64::MAX && !c && forall|k: int|
                0 <= k < ps.len() ==> #[trigger] probe_area(ps[k], x, y, own_pid) is None,
        },
    decreases ps.len(),
{
    if ps.len() > 0 {
        let q = ps.drop_last();
        let n = ps.len() - 1;
        assert forall|k: int| 0 <= k < q.len() implies q[k] == ps[k] by {}
        assert forall|k: int| 0 <= k < q.len() implies (#[trigger] probe_area(q[k], x, y, own_pid) matches Some(a)
            ==> a < i64::MAX) by {
            assert(q[k] == ps[k]);
            assert(probe_area(ps[k], x, y, own_pid) matches Some(a) ==> a < i64::MAX);
        }
        lemma_deepest_choice_is_best(q, x, y, own_pid, named_leaf_rule);
        let prev = deepest_choice(q, x, y, own_pid, named_leaf_rule);
        let p = ps.last();
        assert(p == ps[n]);
        assert(probe_area(ps[n], x, y, own_pid) matches Some(a) ==> a < i64::MAX);
        match prev.0 {
            Some(i) => {
                assert(q[i] == ps[i]);
                assert(best_child(q, x, y, own_pid, named_leaf_rule, i));
                if (exists|k: int|
                    0 <= k < q.len() && #[trigger] probe_area(q[k], x, y, own_pid) is Some && preferred(
                        q[k],
                        named_leaf_rule,
                    )) {
                    assert(preferred(ps[i], named_leaf_rule));
                }
            },
            None => {},
        }
        let r = deepest_choice(ps, x, y, own_pid, named_leaf_rule);
        match r.0 {
            Some(j) => {
                assert forall|k: int|
                    0 <= k < ps.len() && #[trigger] probe_area(ps[k], x, y, own_pid) is Some && preferred(
                        ps[k],
                        named_leaf_rule,
                    ) == preferred(ps[j], named_leaf_rule) implies {
                    &&& probe_area(ps[j], x, y, own_pid)->0 <= probe_area(ps[k], x, y, own_pid)->0
                    &&& probe_area(ps[k], x, y, own_pid)->0 == probe_area(ps[j], x, y, own_pid)->0 ==> j <= k
                } by {
                    if k < n {
                        assert(q[k] == ps[k]);
                        assert(probe_area(q[k], x, y, own_pid) is Some);
                    }
                }
                if (exists|k: int|
                    0 <= k < ps.len() && #[trigger] probe_area(ps[k], x, y, own_pid) is Some && preferred(
                        ps[k],
                        named_leaf_rule,
                    )) {
                    let k = choose|k: int|
                        0 <= k < ps.len() && #[trigger] probe_area(ps[k], x, y, own_pid) is Some && preferred(
                            ps[k],
                            named_leaf_rule,
                        );
                    if k < n {
                        assert(q[k] == ps[k]);
                        assert(probe_area(q[k], x, y, own_pid) is Some);
                    }
                }
            },
            None => {
                assert forall|k: int| 0 <= k < ps.len() implies #[trigger] probe_area(ps[k], x, y, own_pid) is None by {
                    if k < n {
                        assert(q[k] == ps[k]);
                        assert(probe_area(q[k], x, y, own_pid) is None);
                    }
                }
            },
        }
    }
}

/// Picks the child a descent towards the point goes on with, going through
/// the children in order.
pub fn pick_deepest_child(probes: &[ChildProbe], x: i32, y: i32, own_pid: Option<u32>, named_leaf_rule: bool) -> (r: Option<usize>)
    requires
        forall|i: int| 0 <= i < probes@.len() ==> rect_ok(#[trigger] probes@[i].rect),
    ensures
        match deepest_choice(probes_view(probes@), x as int, y as int, own_pid, named_leaf_rule).0 {
            Some(i) => r == Some(i as usize) && i < probes@.len(),
            None => r is None,
        },
        r matches Some(i) ==> best_child(probes_view(probes@), x as int, y as int, own_pid, named_leaf_rule, i as int),
        r is None ==> forall|k: int|
            0 <= k < probes@.len() ==> #[trigger] probe_area(probes_view(probes@)[k], x as int, y as int, own_pid) is None,
{
    let ghost pv = probes_view(probes@);
    let mut best: Option<usize> = None;
    let mut best_area: i64 = i64::MAX;
    let mut best_pref = false;
    let mut i: usize = 0;
    while i < probes.len()
        invariant
            i <= probes.len(),
            pv == probes_view(probes@),
            forall|k: int| 0 <= k < probes@.len() ==> rect_ok(#[trigger] probes@[k].rect),
            deepest_choice(pv.take(i as int), x as int, y as int, own_pid, named_leaf_rule) == (
                match best {
                    Some(b) => Some(b as int),
                    None => None::<int>,
                },
                best_area as int,
                best_pref,
            ),
            best matches Some(b) ==> b < i,
        decreases probes.len() - i,
    {
        let p = &probes[i];
        assert(pv.take(i + 1).drop_last() =~= pv.take(i as int));
        assert(pv.take(i + 1).last() == p@);
        let own = match own_pid {
            Some(o) => o == p.process_id,
            None => false,
        };
        if !own && !p.is_offscreen && !p.visited {
            match p.rect {
                Some(r) => {
                    assert(rect_ok(probes@[i as int].rect));
                    match rect_hit_area(&r, x, y) {
                        Some(area) => {
                            let pref = if named_leaf_rule {
                                is_leaf_control_type(p.control_type.as_str()) && !p.name.as_str().is_empty()
                            } else {
                                is_leaf_control_type(p.control_type.as_str())
                            };
                            let replace = if pref && !best_pref {
                                true
                            } else if !pref && best_pref {
                                false
                            } else {
                                area < best_area
                            };
                            if replace {
                                best = Some(i);
                                best_area = area;
                                best_pref = pref;
                            }
                        },
                        None => {},
                    }
                },
                None => {},
            }
        }
        i += 1;
    }
    assert(pv.take(probes.len() as int) =~= pv);
    proof {
        assert forall|k: int| 0 <= k < pv.len() implies (#[trigger] probe_area(pv[k], x as int, y as int, own_pid) matches Some(
            a,
        ) ==> a < i64::MAX) by {
            assert(rect_ok(probes@[k].rect));
            if let Some(rr) = pv[k].rect {
                lemma_hit_area_fits(rr, x as int, y as int);
            }
        }
        lemma_deepest_choice_is_best(pv, x as int, y as int, own_pid, named_leaf_rule);
    }
    best
}

proof fn lemma_hit_area_fits(r: SimpleRect, x: int, y: int)
    requires
        size_fits(r),
    ensures
        hit_area(r, x, y) matches Some(a) ==> a < i64::MAX,
{
    let w = r.right - r.left;
    let h = r.bottom - r.top;
    if w > 0 && h > 0 {
        assert(w * h <= i32::MAX * i32::MAX) by (nonlinear_arith)
            requires
                0 < w <= i32::MAX,
                0 < h <= i32::MAX,
        ;
    }
}

/// What a probe of a window reads: its process, framework and rectangle.
pub struct WindowProbe {
    pub process_id: u32,
    pub framework_id: String,
    pub rect: Option<SimpleRect>,
}

/// The first window that contains the point (with positive size), skipping
/// windows of `skip_pid` and windows of framework `skip_framework`.
pub open spec fn first_window_hit(ws: Seq<WindowProbe>, x: int, y: int, skip_pid: Option<u32>, skip_framework: Option<Seq<char>>) -> Option<int>
    decreases ws.len(),
{
    if ws.len() == 0 {
        None
    } else {
        match first_window_hit(ws.drop_last(), x, y, skip_pid, skip_framework) {
            Some(i) => Some(i),
            None => {
                let w = ws.last();
                let skipped = (skip_pid matches Some(p) && w.process_id == p) || (skip_framework matches Some(f)
                    && w.framework_id@ == f);
                if !skipped && (w.rect matches Some(r) && hit_area(r, x, y) is Some) {
                    Some(ws.len() - 1)
                } else {
                    None
                }
            },
        }
    }
}

/// Finds the first window containing the point (see `first_window_hit`).
pub fn first_window_at(windows: &[WindowProbe], x: i32, y: i32, skip_pid: Option<u32>, skip_framework: Option<&str>) -> (r: Option<usize>)
    requires
        forall|i: int| 0 <= i < windows@.len() ==> rect_ok(#[trigger] windows@[i].rect),
    ensures
        match first_window_hit(windows@, x as int, y as int, skip_pid, match skip_framework {
            Some(f) => Some(f@),
            None => None,
        }) {
            Some(i) => r == Some(i as usize),
            None => r is None,
        },
{
    let ghost sf: Option<Seq<char>> = match skip_framework {
        Some(f) => Some(f@),
        None => None,
    };
    let mut i: usize = 0;
    while i < windows.len()
        invariant
            i <= windows.len(),
            forall|k: int| 0 <= k < windows@.len() ==> rect_ok(#[trigger] windows@[k].rect),
            sf == (match skip_framework {
                Some(f) => Some(f@),
                None => None::<Seq<char>>,
            }),
            first_window_hit(windows@.take(i as int), x as int, y as int, skip_pid, sf) is None,
        decreases windows.len() - i,
    {
        let w = &windows[i];
        assert(windows@.take(i + 1).drop_last() =~= windows@.take(i as int));
        assert(windows@.take(i + 1).last() == *w);
        let skipped = (match skip_pid {
            Some(p) => w.process_id == p,
            None => false,
        }) || (match skip_framework {
            Some(f) => str_eq(w.framework_id.as_str(), f),
            None => false,
        });
        if !skipped {
            match w.rect {
                Some(r) => {
                    assert(rect_ok(windows@[i as int].rect));
                    if rect_hit_area(&r, x, y).is_some() {
                        proof {
                            lemma_first_window_hit_prefix(windows@, i as int + 1, x as int, y as int, skip_pid, sf);
                        }
                        return Some(i);
                    }
                },
                None => {},
            }
        }
        i += 1;
    }
    assert(windows@.take(windows.len() as int) =~= windows@);
    None
}

/// A hit found in a prefix is the hit of the whole sequence.
pub proof fn lemma_first_window_hit_prefix(ws: Seq<WindowProbe>, n: int, x: int, y: int, skip_pid: Option<u32>, skip_framework: Option<Seq<char>>)
    requires
        0 <= n <= ws.len(),
        first_window_hit(ws.take(n), x, y, skip_pid, skip_framework) is Some,
    ensures
        first_window_hit(ws, x, y, skip_pid, skip_framework) == first_window_hit(ws.take(n), x, y, skip_pid, skip_framework),
    decreases ws.len() - n,
{
    if n < ws.len() {
        assert(ws.take(n + 1).drop_last() =~= ws.take(n));
        lemma_first_window_hit_prefix(ws, n + 1, x, y, skip_pid, skip_framework);
    } else {
        assert(ws.take(n) =~= ws);
    }
}

// ─── turning a captured chain into a hierarchy ───────────────────────────

pub open spec fn opt_nodes_view(v: Seq<Option<HierarchyNode>>) -> Seq<Option<NodeView>> {
    v.map_values(|o: Option<HierarchyNode>| match o {
        Some(n) => Some(n@),
        None => None,
    })
}

/// The depth below the window of the chain element at position `k` (the
/// desktop is position 0, the window position 1).
pub open spec fn chain_depth(k: int) -> usize {
    if k >= 1 {
        (k - 1) as usize
    } else {
        0
    }
}

/// The hierarchy of a captured chain (desktop first): the elements that
/// could be read, each with its depth below the window.
pub open spec fn assembled(chain: Seq<Option<NodeView>>) -> Seq<NodeView>
    decreases chain.len(),
{
    if chain.len() == 0 {
        seq![]
    } else {
        let rest = assembled(chain.drop_last());
        match chain.last() {
            Some(n) => rest.push(NodeView { depth_from_window: chain_depth(chain.len() - 1), ..n }),
            None => rest,
        }
    }
}

/// Builds the hierarchy of a captured chain (see `assembled`).
pub fn assemble_hierarchy(chain: &Vec<Option<HierarchyNode>>) -> (r: Vec<HierarchyNode>)
    ensures
        nodes_view(r@) == assembled(opt_nodes_view(chain@)),
{
    let ghost cv = opt_nodes_view(chain@);
    let mut out: Vec<HierarchyNode> = Vec::new();
    let mut i: usize = 0;
    while i < chain.len()
        invariant
            i <= chain.len(),
            cv == opt_nodes_view(chain@),
            nodes_view(out@) == assembled(cv.take(i as int)),
        decreases chain.len() - i,
    {
        assert(cv.take(i + 1).drop_last() =~= cv.take(i as int));
        assert(cv.take(i + 1).last() == cv[i as int]);
        match &chain[i] {
            Some(n) => {
                let mut c = n.clone();
                c.depth_from_window = if i >= 1 {
                    i - 1
                } else {
                    0
                };
                let ghost before = out@;
                out.push(c);
                assert(nodes_view(out@) =~= nodes_view(before).push(c@));
                assert(c@ == NodeView { depth_from_window: chain_depth(i as int), ..n@ });
            },
            None => {},
        }
        i += 1;
    }
    assert(cv.take(chain.len() as int) =~= cv);
    out
}

/// The position of the first filter named `name`.
pub open spec fn first_named(fs: Seq<FilterView>, name: Seq<char>) -> Option<int>
    decreases fs.len(),
{
    if fs.len() == 0 {
        None
    } else {
        match first_named(fs.drop_last(), name) {
            Some(k) => Some(k),
            None => if fs.last().name == name {
                Some(fs.len() - 1)
            } else {
                None
            },
        }
    }
}

/// The filters with the first `Index` filter set to `value` and enabled.
pub open spec fn with_index_filter(fs: Seq<FilterView>, value: Seq<char>) -> Seq<FilterView> {
    match first_named(fs, "Index"@) {
        Some(k) => fs.update(k, FilterView { value, enabled: true, ..fs[k] }),
        None => fs,
    }
}

/// The target node after its sibling position is recorded: it is marked as
/// the target; with a known position, the index is set and, when positive,
/// the `Index` filter and the sibling count too.
pub open spec fn targeted(n: NodeView, sibling: Option<(i32, i32)>) -> NodeView {
    match sibling {
        Some((index, count)) => if index > 0 {
            NodeView {
                is_target: true,
                index,
                sibling_count: count,
                filters: with_index_filter(n.filters, signed_decimal(index as int)),
                ..n
            }
        } else {
            NodeView { is_target: true, index, ..n }
        },
        None => NodeView { is_target: true, ..n },
    }
}

fn set_index_filter(fs: &mut Vec<PropertyFilter>, value: &str)
    ensures
        filters_view(final(fs)@) == with_index_filter(filters_view(old(fs)@), value@),
{
    let ghost fv = filters_view(fs@);
    let mut i: usize = 0;
    while i < fs.len()
        invariant
            i <= fs.len(),
            fv == filters_view(fs@),
            fs@ == old(fs)@,
            first_named(fv.take(i as int), "Index"@) is None,
        decreases fs.len() - i,
    {
        assert(fv.take(i + 1).drop_last() =~= fv.take(i as int));
        if str_eq(fs[i].name.as_str(), "Index") {
            let f = PropertyFilter { name: fs[i].name.clone(), operator: fs[i].operator, value: value.to_owned(), enabled: true };
            proof {
                assert(fv[i as int] == fs@[i as int]@);
                assert(fv.take(i + 1).last() == fv[i as int]);
                assert(first_named(fv.take(i + 1), "Index"@) == Some(i as int));
                lemma_first_named_prefix(fv, i + 1, "Index"@);
            }
            fs.set(i, f);
            assert(filters_view(fs@) =~= fv.update(i as int, FilterView { value: value@, enabled: true, ..fv[i as int] }));
            return;
        }
        i += 1;
    }
    assert(fv.take(fs.len() as int) =~= fv);
}

pub proof fn lemma_first_named_prefix(fs: Seq<FilterView>, n: int, name: Seq<char>)
    requires
        0 <= n <= fs.len(),
        first_named(fs.take(n), name) is Some,
    ensures
        first_named(fs, name) == first_named(fs.take(n), name),
    decreases fs.len() - n,
{
    if n < fs.len() {
        assert(fs.take(n + 1).drop_last() =~= fs.take(n));
        lemma_first_named_prefix(fs, n + 1, name);
    } else {
        assert(fs.take(n) =~= fs);
    }
}

/// Marks the last node as the target and records its sibling position
/// (`index`, `count`) when it is known (see `targeted`).
pub fn set_target(hierarchy: &mut Vec<HierarchyNode>, sibling: Option<(i32, i32)>)
    ensures
        old(hierarchy)@.len() == 0 ==> final(hierarchy)@ == old(hierarchy)@,
        old(hierarchy)@.len() > 0 ==> nodes_view(final(hierarchy)@) == nodes_view(old(hierarchy)@).update(
            old(hierarchy)@.len() - 1,
            targeted(old(hierarchy)@.last()@, sibling),
        ),
{
    let n = hierarchy.len();
    if n == 0 {
        return;
    }
    let ghost before = hierarchy@;
    let mut last = hierarchy[n - 1].clone();
    last.is_target = true;
    match sibling {
        Some((index, count)) => {
            last.index = index;
            if index > 0 {
                let mut text = String::new();
                push_signed_decimal(&mut text, index as i64);
                assert(text@ =~= signed_decimal(index as int));
                set_index_filter(&mut last.filters, text.as_str());
                last.sibling_count = count;
            }
        },
        None => {},
    }
    assert(last@ == targeted(before.last()@, sibling));
    hierarchy.set(n - 1, last);
    assert(nodes_view(hierarchy@) =~= nodes_view(before).update(n - 1, last@));
}

/// Whether the target's parent is an embedded browser (Chrome framework, or a
/// class name holding `Chrome_` or `WebView`), where counting siblings is
/// slow and meaningless.
pub open spec fn parent_is_browser(h: Seq<NodeView>) -> bool {
    h.len() >= 2 && {
        let p = h[h.len() - 2];
        p.framework_id == "Chrome"@ || contains_seq(p.class_name, "Chrome_"@) || contains_seq(p.class_name, "WebView"@)
    }
}

pub fn parent_is_embedded_browser(hierarchy: &[HierarchyNode]) -> (b: bool)
    ensures
        b == parent_is_browser(nodes_view(hierarchy@)),
{
    if hierarchy.len() < 2 {
        return false;
    }
    let p = &hierarchy[hierarchy.len() - 2];
    let cls = chars_of(p.class_name.as_str());
    let chrome = chars_of("Chrome_");
    let webview = chars_of("WebView");
    str_eq(p.framework_id.as_str(), "Chrome") || contains_chars(cls.as_slice(), chrome.as_slice()) || contains_chars(
        cls.as_slice(),
        webview.as_slice(),
    )
}

/// The process of the window node (the node after the desktop), 0 if none.
pub open spec fn window_pid_of(h: Seq<NodeView>) -> u32 {
    if h.len() > 1 {
        h[1].process_id
    } else {
        0
    }
}

/// The first position at or after `i` whose node runs in process `pid`.
pub open spec fn first_with_pid(h: Seq<NodeView>, i: int, pid: u32) -> Option<int>
    decreases h.len() - i,
{
    if i < 0 || i >= h.len() {
        None
    } else if h[i].process_id == pid {
        Some(i)
    } else {
        first_with_pid(h, i + 1, pid)
    }
}

/// The first position at or after `i` whose node runs in a known process
/// other than `pid`.
pub open spec fn first_foreign(h: Seq<NodeView>, i: int, pid: u32) -> Option<int>
    decreases h.len() - i,
{
    if i < 0 || i >= h.len() {
        None
    } else if h[i].process_id != pid && h[i].process_id != 0 {
        Some(i)
    } else {
        first_foreign(h, i + 1, pid)
    }
}

/// Where the hierarchy crosses into another process below the window: the
/// first node of another (known) process after the first window-process node.
pub open spec fn cross_boundary(h: Seq<NodeView>, pid: u32) -> Option<int> {
    match first_with_pid(h, 1, pid) {
        Some(w) => first_foreign(h, w + 1, pid),
        None => None,
    }
}

pub proof fn lemma_first_with_pid(h: Seq<NodeView>, i: int, pid: u32)
    ensures
        first_with_pid(h, i, pid) matches Some(k) ==> i <= k < h.len() && 0 <= k,
    decreases h.len() - i,
{
    if 0 <= i < h.len() && h[i].process_id != pid {
        lemma_first_with_pid(h, i + 1, pid);
    }
}

pub proof fn lemma_first_foreign(h: Seq<NodeView>, i: int, pid: u32)
    ensures
        first_foreign(h, i, pid) matches Some(k) ==> i <= k < h.len() && 0 <= k,
    decreases h.len() - i,
{
    if 0 <= i < h.len() && !(h[i].process_id != pid && h[i].process_id != 0) {
        lemma_first_foreign(h, i + 1, pid);
    }
}

fn find_window_node(hierarchy: &[HierarchyNode], window_pid: u32) -> (r: Option<usize>)
    ensures
        match first_with_pid(nodes_view(hierarchy@), 1, window_pid) {
            Some(k) => r is Some && r->0 as int == k,
            None => r is None,
        },
{
    let ghost hv = nodes_view(hierarchy@);
    let mut i: usize = 1;
    if hierarchy.len() == 0 {
        return None;
    }
    while i < hierarchy.len()
        invariant
            1 <= i <= hierarchy.len(),
            hv == nodes_view(hierarchy@),
            first_with_pid(hv, 1, window_pid) == first_with_pid(hv, i as int, window_pid),
        decreases hierarchy.len() - i,
    {
        assert(hv[i as int] == hierarchy@[i as int]@);
        if hierarchy[i].process_id == window_pid {
            return Some(i);
        }
        i += 1;
    }
    None
}

/// Finds where the hierarchy crosses into another process (see `cross_boundary`).
pub fn find_cross_boundary_index(hierarchy: &[HierarchyNode], window_pid: u32) -> (r: Option<usize>)
    ensures
        match cross_boundary(nodes_view(hierarchy@), window_pid) {
            Some(k) => r is Some && r->0 as int == k,
            None => r is None,
        },
        r matches Some(b) ==> b < hierarchy@.len(),
{
    let ghost hv = nodes_view(hierarchy@);
    let w = match find_window_node(hierarchy, window_pid) {
        Some(w) => w,
        None => return None,
    };
    proof {
        lemma_first_with_pid(hv, 1, window_pid);
        assert(hv.len() == hierarchy@.len());
    }
    let n = hierarchy.len();
    assert(w < n);
    let mut i: usize = w + 1;
    while i < hierarchy.len()
        invariant
            w + 1 <= i <= hierarchy.len(),
            hv == nodes_view(hierarchy@),
            first_with_pid(hv, 1, window_pid) == Some(w as int),
            first_foreign(hv, w + 1, window_pid) == first_foreign(hv, i as int, window_pid),
        decreases hierarchy.len() - i,
    {
        assert(hv[i as int] == hierarchy@[i as int]@);
        if hierarchy[i].process_id != window_pid && hierarchy[i].process_id != 0 {
            return Some(i);
        }
        i += 1;
    }
    None
}

/// The hierarchy cut at a process boundary `b`: the window node (the first
/// window-process node after the desktop, or the first node), then the
/// boundary node at depth 0 and the nodes below it at depths 1, 2, ...;
/// only the window node when nothing lies below the boundary.
pub open spec fn truncated(h: Seq<NodeView>, b: int, pid: u32) -> Seq<NodeView> {
    let w = match first_with_pid(h, 1, pid) {
        Some(k) => k,
        None => 0,
    };
    if h.len() <= b + 1 {
        seq![h[w]]
    } else {
        seq![h[w], NodeView { depth_from_window: 0, ..h[b] }] + h.skip(b + 1).map(
            |i: int, n: NodeView| NodeView { depth_from_window: (i + 1) as usize, ..n },
        )
    }
}

/// Cuts the hierarchy at a process boundary (see `truncated`).
#[verifier::rlimit(50)]
pub fn truncate_hierarchy_to_child(hierarchy: Vec<HierarchyNode>, boundary_idx: usize, window_pid: u32) -> (r: Vec<HierarchyNode>)
    requires
        boundary_idx < hierarchy@.len(),
    ensures
        nodes_view(r@) == truncated(nodes_view(hierarchy@), boundary_idx as int, window_pid),
{
    let ghost hv = nodes_view(hierarchy@);
    let w = match find_window_node(hierarchy.as_slice(), window_pid) {
        Some(k) => k,
        None => 0,
    };
    proof {
        lemma_first_with_pid(hv, 1, window_pid);
    }
    let window_node = hierarchy[w].clone();
    let mut out: Vec<HierarchyNode> = Vec::new();
    out.push(window_node);
    if hierarchy.len() <= boundary_idx + 1 {
        assert(nodes_view(out@) =~= seq![hv[w as int]]);
        return out;
    }
    let mut b = hierarchy[boundary_idx].clone();
    b.depth_from_window = 0;
    out.push(b);
    let ghost head = nodes_view(out@);
    let ghost tail = hv.skip(boundary_idx + 1).map(|i: int, n: NodeView| NodeView { depth_from_window: (i + 1) as usize, ..n });
    let mut i: usize = boundary_idx + 1;
    while i < hierarchy.len()
        invariant
            boundary_idx + 1 <= i <= hierarchy.len(),
            hv == nodes_view(hierarchy@),
            tail == hv.skip(boundary_idx + 1).map(|i: int, n: NodeView| NodeView { depth_from_window: (i + 1) as usize, ..n }),
            nodes_view(out@) == head + tail.take(i - boundary_idx - 1),
        decreases hierarchy.len() - i,
    {
        let mut c = hierarchy[i].clone();
        c.depth_from_window = i - boundary_idx;
        let ghost before = out@;
        out.push(c);
        assert(tail[i - boundary_idx - 1] == c@);
        assert(nodes_view(out@) =~= nodes_view(before).push(c@));
        assert(tail.take(i - boundary_idx) =~= tail.take(i - boundary_idx - 1).push(tail[i - boundary_idx - 1]));
        i += 1;
    }
    assert(tail.take(hierarchy.len() - boundary_idx - 1) =~= tail);
    assert(nodes_view(out@) =~= truncated(hv, boundary_idx as int, window_pid));
    out
}

// ─── finishing a capture ────────────────────────────────────────────────

/// The hierarchy with walker hints filled in and every node but the first
/// (the desktop) included in the element XPath.
pub open spec fn prepared(h: Seq<NodeView>, pid: u32) -> Seq<NodeView> {
    h.map(|i: int, n: NodeView| NodeView { included: i != 0, ..with_hint(n, pid) })
}

/// The hierarchy a capture reports: prepared, and cut at a process boundary
/// when there is one.
pub open spec fn captured_hierarchy(h: Seq<NodeView>) -> Seq<NodeView> {
    let pid = window_pid_of(h);
    let p = prepared(h, pid);
    match cross_boundary(p, pid) {
        Some(b) => truncated(p, b, pid),
        None => p,
    }
}

/// The locate mode of a capture: full (raw view) for enhanced captures, fast
/// otherwise; the child variant when the hierarchy crosses into another process.
pub open spec fn capture_locate_mode(mode: CaptureMode, crosses: bool) -> LocateMode {
    if mode == CaptureMode::Enhanced {
        if crosses {
            LocateMode::FullChild
        } else {
            LocateMode::Full
        }
    } else {
        if crosses {
            LocateMode::FastChild
        } else {
            LocateMode::Fast
        }
    }
}

fn mark_included(hierarchy: &mut Vec<HierarchyNode>)
    ensures
        nodes_view(final(hierarchy)@) == nodes_view(old(hierarchy)@).map(
            |i: int, n: NodeView| NodeView { included: i != 0, ..n },
        ),
{
    let ghost start = nodes_view(hierarchy@);
    let mut i: usize = 0;
    while i < hierarchy.len()
        invariant
            i <= hierarchy.len(),
            start.len() == hierarchy@.len(),
            forall|k: int| 0 <= k < i ==> #[trigger] nodes_view(hierarchy@)[k] == (NodeView { included: k != 0, ..start[k] }),
            forall|k: int| i <= k < hierarchy@.len() ==> #[trigger] nodes_view(hierarchy@)[k] == start[k],
        decreases hierarchy.len() - i,
    {
        let mut c = hierarchy[i].clone();
        c.included = i != 0;
        let ghost before = hierarchy@;
        assert(nodes_view(before)[i as int] == before[i as int]@);
        hierarchy.set(i, c);
        assert forall|k: int| 0 <= k < hierarchy@.len() && k != i implies #[trigger] nodes_view(hierarchy@)[k]
            == nodes_view(before)[k] by {
            assert(hierarchy@[k] == before[k]);
        }
        assert(nodes_view(hierarchy@)[i as int] == c@);
        i += 1;
    }
    assert(nodes_view(hierarchy@) =~= start.map(|i: int, n: NodeView| NodeView { included: i != 0, ..n }));
}

/// A capture completed from the hierarchy `h` (desktop first) taken at
/// `(x, y)` in `mode`, the window node's process being `process_name`
/// (see `finish_capture`).
pub open spec fn finished_capture(r: CaptureResult, h: Seq<HierarchyNode>, x: i32, y: i32, process_name: Seq<char>, mode: CaptureMode) -> bool {
    &&& nodes_view(r.hierarchy@) == captured_hierarchy(nodes_view(h))
    &&& r.cursor_x == x && r.cursor_y == y
    &&& r.error is None
    &&& r.capture_mode == mode
    &&& (h.len() < 2 <==> r.window_info is None)
    &&& (r.window_info matches Some(w) ==> (w.title@ == h[1].name@ && w.class_name@ == h[1].class_name@
        && w.process_id == h[1].process_id && w.process_name@ == process_name))
    &&& r.locate_mode == capture_locate_mode(mode, cross_boundary(nodes_view(h), window_pid_of(nodes_view(h))) is Some)
    &&& r.search_context.locate_mode == r.locate_mode
    &&& match cross_boundary(nodes_view(h), window_pid_of(nodes_view(h))) {
        Some(b) => (r.search_context.child_hwnd_hint matches Some(hint) && hint.hwnd_class@ == h[b].class_name@
            && hint.hwnd_title@ == h[b].name@) && (r.search_context.search_root matches SearchRoot::ChildHwnd { class, title }
            && class@ == h[b].class_name@ && title@ == h[b].name@),
        None => r.search_context.child_hwnd_hint is None && r.search_context.search_root is Window,
    }
}

/// Completes a capture from its hierarchy (desktop first): walker hints,
/// included flags, the window's identity (`process_name` is the name of the
/// window node's process), and, when the hierarchy crosses into another
/// process below the window, the cut at the boundary and a child-window
/// search context.
pub fn finish_capture(hierarchy: Vec<HierarchyNode>, x: i32, y: i32, process_name: &str, mode: CaptureMode) -> (r: CaptureResult)
    ensures
        finished_capture(r, hierarchy@, x, y, process_name@, mode),
{
    let ghost hv = nodes_view(hierarchy@);
    let mut h = hierarchy;
    let window_pid = if h.len() > 1 {
        h[1].process_id
    } else {
        0
    };
    assert(window_pid == window_pid_of(hv));
    let window_info = extract_window_info(h.as_slice(), process_name);
    set_walker_hints(&mut h, window_pid);
    mark_included(&mut h);
    let ghost p = prepared(hv, window_pid);
    assert(nodes_view(h@) =~= p);
    proof {
        lemma_cross_boundary_prepared(hv, window_pid);
    }
    match find_cross_boundary_index(h.as_slice(), window_pid) {
        Some(b) => {
            let class = h[b].class_name.clone();
            let title = h[b].name.clone();
            assert(p[b as int].class_name == hv[b as int].class_name && p[b as int].name == hv[b as int].name);
            let hint = ChildHwndHint { hwnd_class: class.clone(), hwnd_title: title.clone() };
            let cut = truncate_hierarchy_to_child(h, b, window_pid);
            let locate_mode = if mode == CaptureMode::Enhanced {
                LocateMode::FullChild
            } else {
                LocateMode::FastChild
            };
            CaptureResult {
                hierarchy: cut,
                cursor_x: x,
                cursor_y: y,
                error: None,
                window_info,
                capture_mode: mode,
                locate_mode,
                search_context: SearchContext {
                    locate_mode,
                    child_hwnd_hint: Some(hint),
                    search_root: SearchRoot::ChildHwnd { class, title },
                },
            }
        },
        None => {
            let locate_mode = if mode == CaptureMode::Enhanced {
                LocateMode::Full
            } else {
                LocateMode::Fast
            };
            CaptureResult {
                hierarchy: h,
                cursor_x: x,
                cursor_y: y,
                error: None,
                window_info,
                capture_mode: mode,
                locate_mode,
                search_context: SearchContext { locate_mode, child_hwnd_hint: None, search_root: SearchRoot::Window },
            }
        },
    }
}

/// Filling in hints and flags leaves the process boundary where it was.
pub proof fn lemma_cross_boundary_prepared(h: Seq<NodeView>, pid: u32)
    ensures
        cross_boundary(prepared(h, pid), pid) == cross_boundary(h, pid),
{
    let p = prepared(h, pid);
    assert forall|i: int| 0 <= i < h.len() implies #[trigger] p[i].process_id == h[i].process_id by {}
    lemma_first_with_pid_same(h, p, 1, pid);
    match first_with_pid(h, 1, pid) {
        Some(w) => lemma_first_foreign_same(h, p, w + 1, pid),
        None => {},
    }
}

proof fn lemma_first_with_pid_same(h: Seq<NodeView>, p: Seq<NodeView>, i: int, pid: u32)
    requires
        h.len() == p.len(),
        forall|k: int| 0 <= k < h.len() ==> #[trigger] p[k].process_id == h[k].process_id,
    ensures
        first_with_pid(p, i, pid) == first_with_pid(h, i, pid),
    decreases h.len() - i,
{
    if 0 <= i < h.len() {
        assert(p[i].process_id == h[i].process_id);
        lemma_first_with_pid_same(h, p, i + 1, pid);
    }
}

proof fn lemma_first_foreign_same(h: Seq<NodeView>, p: Seq<NodeView>, i: int, pid: u32)
    requires
        h.len() == p.len(),
        forall|k: int| 0 <= k < h.len() ==> #[trigger] p[k].process_id == h[k].process_id,
    ensures
        first_foreign(p, i, pid) == first_foreign(h, i, pid),
    decreases h.len() - i,
{
    if 0 <= i < h.len() {
        assert(p[i].process_id == h[i].process_id);
        lemma_first_foreign_same(h, p, i + 1, pid);
    }
}

/// A failed capture: no hierarchy, the message as the error, and the
/// default context of the capture mode (full for enhanced captures, fast
/// otherwise).
pub fn capture_failure(x: i32, y: i32, message: &str, mode: CaptureMode) -> (r: CaptureResult)
    ensures
        r.hierarchy@.len() == 0,
        r.cursor_x == x && r.cursor_y == y,
        r.error matches Some(e) && e@ == message@,
        r.window_info is None,
        r.capture_mode == mode,
        r.locate_mode == capture_locate_mode(mode, false),
        r.search_context.locate_mode == r.locate_mode,
        r.search_context.child_hwnd_hint is None,
        r.search_context.search_root is Window,
{
    let (locate_mode, search_context) = if mode == CaptureMode::Enhanced {
        (LocateMode::Full, SearchContext::default_full())
    } else {
        (LocateMode::Fast, SearchContext::default_fast())
    };
    CaptureResult {
        hierarchy: Vec::new(),
        cursor_x: x,
        cursor_y: y,
        error: Some(message.to_owned()),
        window_info: None,
        capture_mode: mode,
        locate_mode,
        search_context,
    }
}

/// What a capture read at a point: the ancestor chain as a hierarchy
/// (desktop first) and the name of the window node's process.
pub struct CapturedChain {
    pub hierarchy: Vec<HierarchyNode>,
    pub process_name: String,
}

/// Where an enhanced capture descends from to find the deepest element.
#[derive(Debug, Clone, Copy, PartialEq, Eq, Structural)]
pub enum DescentStart {
    /// The element hit at the point (after moving to the window beneath or
    /// to a child window of another framework).
    Hit,
    /// The element first hit, when the hit moved to another window.
    FirstHit,
    /// The child windows containing the point of the hit process's
    /// top-level windows, one after another.
    ProcessWindows,
}

/// Where to descend from after the descent from `failed` found nothing:
/// from the first hit when the hit moved to another window, then through
/// the hit process's windows when that process is known and is not the
/// capturing one; `None` when nothing is left to try.
pub open spec fn next_descent_spec(failed: DescentStart, hit_moved: bool, hit_pid: u32, own_pid: u32) -> Option<DescentStart> {
    let process_known = hit_pid != 0 && hit_pid != own_pid;
    match failed {
        DescentStart::Hit => if hit_moved {
            Some(DescentStart::FirstHit)
        } else if process_known {
            Some(DescentStart::ProcessWindows)
        } else {
            None
        },
        DescentStart::FirstHit => if process_known {
            Some(DescentStart::ProcessWindows)
        } else {
            None
        },
        DescentStart::ProcessWindows => None,
    }
}

/// The next descent of an enhanced capture (see `next_descent_spec`).
pub fn next_descent(failed: DescentStart, hit_moved: bool, hit_pid: u32, own_pid: u32) -> (r: Option<DescentStart>)
    ensures
        r == next_descent_spec(failed, hit_moved, hit_pid, own_pid),
{
    let process_known = hit_pid != 0 && hit_pid != own_pid;
    match failed {
        DescentStart::Hit => if hit_moved {
            Some(DescentStart::FirstHit)
        } else if process_known {
            Some(DescentStart::ProcessWindows)
        } else {
            None
        },
        DescentStart::FirstHit => if process_known {
            Some(DescentStart::ProcessWindows)
        } else {
            None
        },
        DescentStart::ProcessWindows => None,
    }
}

/// Whether an enhanced capture keeps the ancestor chain of the element its
/// descent found: only when one was found and its chain has at least three
/// elements (desktop, window, element); otherwise it captures the chain of
/// the element first hit.
pub fn keeps_found_chain(found: bool, chain_len: usize) -> (b: bool)
    ensures
        b == (found && chain_len >= 3),
{
    found && chain_len >= 3
}

/// The descents of an enhanced capture end: each start is tried at most
/// once, in the order hit, first hit, process windows.
pub proof fn lemma_descents_end(hit_moved: bool, hit_pid: u32, own_pid: u32)
    ensures
        next_descent_spec(DescentStart::ProcessWindows, hit_moved, hit_pid, own_pid) is None,
        next_descent_spec(DescentStart::FirstHit, hit_moved, hit_pid, own_pid) != Some(DescentStart::Hit)
            && next_descent_spec(DescentStart::FirstHit, hit_moved, hit_pid, own_pid) != Some(DescentStart::FirstHit),
        next_descent_spec(DescentStart::Hit, hit_moved, hit_pid, own_pid) != Some(DescentStart::Hit),
{
}

/// A capture at a point: the hierarchy read there completed as a normal
/// capture, or, when reading failed with `error`, a normal-mode failure
/// reporting `捕获失败: <error>`.
pub fn capture_at_point(x: i32, y: i32, outcome: Result<CapturedChain, String>) -> (r: CaptureResult)
    ensures
        r.cursor_x == x && r.cursor_y == y,
        r.capture_mode == CaptureMode::Normal,
        r.search_context.locate_mode == r.locate_mode,
        r.locate_mode == LocateMode::Fast || r.locate_mode == LocateMode::FastChild,
        outcome matches Ok(c) ==> finished_capture(r, c.hierarchy@, x, y, c.process_name@, CaptureMode::Normal),
        outcome matches Err(e) ==> (r.hierarchy@.len() == 0 && (r.error matches Some(m) && m@ == "捕获失败: "@ + e@)
            && r.window_info is None && r.locate_mode == LocateMode::Fast && r.search_context.child_hwnd_hint is None),
{
    match outcome {
        Ok(c) => finish_capture(c.hierarchy, x, y, c.process_name.as_str(), CaptureMode::Normal),
        Err(e) => {
            let mut m = String::new();
            m.push_str("捕获失败: ");
            m.push_str(e.as_str());
            capture_failure(x, y, m.as_str(), CaptureMode::Normal)
        },
    }
}

/// Why an enhanced capture failed.
pub enum CaptureFailure {
    /// No UI Automation instance could be had.
    Automation(String),
    /// No tree walker could be had to look beneath this process's own window.
    NoWalker,
    /// The capture itself failed.
    Capture(String),
}

/// An enhanced capture at a point: the hierarchy read there completed as an
/// enhanced capture, or an enhanced-mode failure reporting
/// `COM 初始化失败: <error>`, `无法获取 TreeWalker` or `增强捕获失败: <error>`.
pub fn capture_enhanced_at_point(x: i32, y: i32, outcome: Result<CapturedChain, CaptureFailure>) -> (r: CaptureResult)
    ensures
        r.cursor_x == x && r.cursor_y == y,
        r.capture_mode == CaptureMode::Enhanced,
        r.search_context.locate_mode == r.locate_mode,
        r.locate_mode == LocateMode::Full || r.locate_mode == LocateMode::FullChild,
        outcome matches Ok(c) ==> finished_capture(r, c.hierarchy@, x, y, c.process_name@, CaptureMode::Enhanced),
        outcome is Err ==> r.hierarchy@.len() == 0 && r.window_info is None && r.locate_mode == LocateMode::Full
            && r.search_context.child_hwnd_hint is None,
        outcome matches Err(CaptureFailure::Automation(e)) ==> (r.error matches Some(m) && m@ == "COM 初始化失败: "@ + e@),
        outcome matches Err(CaptureFailure::NoWalker) ==> (r.error matches Some(m) && m@ == "无法获取 TreeWalker"@),
        outcome matches Err(CaptureFailure::Capture(e)) ==> (r.error matches Some(m) && m@ == "增强捕获失败: "@ + e@),
{
    match outcome {
        Ok(c) => finish_capture(c.hierarchy, x, y, c.process_name.as_str(), CaptureMode::Enhanced),
        Err(CaptureFailure::Automation(e)) => {
            let mut m = String::new();
            m.push_str("COM 初始化失败: ");
            m.push_str(e.as_str());
            capture_failure(x, y, m.as_str(), CaptureMode::Enhanced)
        },
        Err(CaptureFailure::NoWalker) => capture_failure(x, y, "无法获取 TreeWalker", CaptureMode::Enhanced),
        Err(CaptureFailure::Capture(e)) => {
            let mut m = String::new();
            m.push_str("增强捕获失败: ");
            m.push_str(e.as_str());
            capture_failure(x, y, m.as_str(), CaptureMode::Enhanced)
        },
    }
}

/// A sample capture (a save button in a tool bar), shown where no capture
/// can be made.
pub fn mock() -> (r: CaptureResult)
    ensures
        r.hierarchy@.len() == 4,
        r.hierarchy@[0]@.control_type == "Window"@,
        r.hierarchy@[1]@.control_type == "Pane"@,
        r.hierarchy@[2]@.control_type == "ToolBar"@,
        r.hierarchy@[3]@.control_type == "Button"@,
        r.hierarchy@[0]@.automation_id == "MainAppWindow"@,
        r.hierarchy@[1]@.class_name == "DockPanel"@,
        r.hierarchy@[2]@.automation_id == "mainToolbar"@,
        r.hierarchy@[3]@.automation_id == "btnSave"@,
        r.hierarchy@[3]@.name == "保存"@,
        forall|i: int| 0 <= i < 4 ==> #[trigger] r.hierarchy@[i]@.process_id == 12345,
        r.hierarchy@[3]@.index == 2,
        r.cursor_x == 160 && r.cursor_y == 48,
        r.error is None,
        r.window_info matches Some(w) && w.process_id == 12345 && w.process_name@ == "MyApp"@,
        r.capture_mode == CaptureMode::Normal,
        r.locate_mode == LocateMode::Fast,
        r.search_context.locate_mode == LocateMode::Fast,
{
    let mut hierarchy: Vec<HierarchyNode> = Vec::new();
    hierarchy.push(
        HierarchyNode::new(
            "Window",
            "MainAppWindow",
            "WpfWindow",
            "My Application  —  文档1",
            0,
            ElementRect { x: 0, y: 0, width: 1280, height: 800 },
            12345,
        ),
    );
    hierarchy.push(HierarchyNode::new("Pane", "", "DockPanel", "", 0, ElementRect { x: 0, y: 30, width: 1280, height: 770 }, 12345));
    hierarchy.push(
        HierarchyNode::new(
            "ToolBar",
            "mainToolbar",
            "ToolBarTray",
            "主工具栏",
            0,
            ElementRect { x: 0, y: 30, width: 1280, height: 36 },
            12345,
        ),
    );
    hierarchy.push(
        HierarchyNode::new("Button", "btnSave", "Button", "保存", 2, ElementRect { x: 120, y: 34, width: 80, height: 28 }, 12345),
    );
    CaptureResult {
        hierarchy,
        cursor_x: 160,
        cursor_y: 48,
        error: None,
        window_info: Some(
            WindowInfo {
                title: "My Application  —  文档1".to_owned(),
                class_name: "WpfWindow".to_owned(),
                process_id: 12345,
                process_name: "MyApp".to_owned(),
            },
        ),
        capture_mode: CaptureMode::Normal,
        locate_mode: LocateMode::Fast,
        search_context: SearchContext::default_fast(),
    }
}

} // verus!
