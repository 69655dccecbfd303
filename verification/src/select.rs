//! Choosing among elements: which candidate under the cursor is the target,
//! which tree walker reaches a node, and how a node is addressed relative to
//! its parent.
use vstd::prelude::*;
use crate::model::{nodes_view, str_eq, HierarchyNode, NodeView, WalkerHint, WindowInfo};
use crate::text::{chars_of, starts_with_lit};

verus! {

/// Control types that are leaves of the UI tree (what a user points at).
pub open spec fn is_leaf_type(ct: Seq<char>) -> bool {
    ||| ct == "Text"@
    ||| ct == "Button"@
    ||| ct == "Hyperlink"@
    ||| ct == "Edit"@
    ||| ct == "CheckBox"@
    ||| ct == "RadioButton"@
    ||| ct == "ComboBox"@
    ||| ct == "ListItem"@
    ||| ct == "TreeItem"@
    ||| ct == "TabItem"@
    ||| ct == "MenuItem"@
    ||| ct == "DataItem"@
    ||| ct == "Image"@
    ||| ct == "ScrollBar"@
    ||| ct == "Slider"@
    ||| ct == "Spinner"@
    ||| ct == "ProgressBar"@
    ||| ct == "Thumb"@
}

pub fn is_leaf_control_type(ct: &str) -> (b: bool)
    ensures
        b == is_leaf_type(ct@),
{
    str_eq(ct, "Text") || str_eq(ct, "Button") || str_eq(ct, "Hyperlink") || str_eq(ct, "Edit")
        || str_eq(ct, "CheckBox") || str_eq(ct, "RadioButton") || str_eq(ct, "ComboBox")
        || str_eq(ct, "ListItem") || str_eq(ct, "TreeItem") || str_eq(ct, "TabItem")
        || str_eq(ct, "MenuItem") || str_eq(ct, "DataItem") || str_eq(ct, "Image")
        || str_eq(ct, "ScrollBar") || str_eq(ct, "Slider") || str_eq(ct, "Spinner")
        || str_eq(ct, "ProgressBar") || str_eq(ct, "Thumb")
}

/// An element found under the cursor by a subtree search.
pub struct CandidateElement {
    /// Position in the search result (later means deeper in the traversal).
    pub index: i32,
    /// Area of the bounding rectangle.
    pub area: i64,
    pub control_type: String,
    pub name: String,
    /// Runtime id (identifies the element; plays no part in the choice).
    pub runtime_id: Vec<i32>,
}

/// What the choice reads of a candidate.
pub struct CandidateView {
    pub index: int,
    pub area: int,
    pub control_type: Seq<char>,
    pub name: Seq<char>,
}

impl View for CandidateElement {
    type V = CandidateView;

    open spec fn view(&self) -> CandidateView {
        CandidateView {
            index: self.index as int,
            area: self.area as int,
            control_type: self.control_type@,
            name: self.name@,
        }
    }
}

/// Whether candidate `c` replaces the current best `b`: a named leaf always
/// replaces an unnamed container, an unnamed container never replaces a
/// named leaf; otherwise the smaller area wins, and on equal areas the later
/// index.
pub open spec fn dominates(c: CandidateView, b: CandidateView) -> bool {
    let cl = is_leaf_type(c.control_type);
    let bl = is_leaf_type(b.control_type);
    let cn = c.name.len() > 0;
    let bn = b.name.len() > 0;
    if cl && cn && !bl && !bn {
        true
    } else if !cl && !cn && bl && bn {
        false
    } else {
        c.area < b.area || (c.area == b.area && c.index > b.index)
    }
}

pub fn candidate_dominates_findall(
    candidate: &CandidateElement,
    best_area: i64,
    best_index: i32,
    best_ct: &str,
    best_name: &str,
) -> (b: bool)
    ensures
        b == dominates(
            candidate@,
            CandidateView { index: best_index as int, area: best_area as int, control_type: best_ct@, name: best_name@ },
        ),
{
    let c_is_leaf = is_leaf_control_type(candidate.control_type.as_str());
    let b_is_leaf = is_leaf_control_type(best_ct);
    let c_has_name = !candidate.name.as_str().is_empty();
    let b_has_name = !best_name.is_empty();
    if c_is_leaf && c_has_name && !b_is_leaf && !b_has_name {
        return true;
    }
    if !c_is_leaf && !c_has_name && b_is_leaf && b_has_name {
        return false;
    }
    candidate.area < best_area || (candidate.area == best_area && candidate.index > best_index)
}

/// Drill-down order: the smaller area wins; on equal areas the longer
/// runtime id (the deeper element).
pub fn candidate_dominates_drilldown(child_area: i64, child_rid_len: usize, deeper_area: i64, deeper_rid_len: usize) -> (b: bool)
    ensures
        b == (child_area < deeper_area || (child_area == deeper_area && child_rid_len > deeper_rid_len)),
{
    child_area < deeper_area || (child_area == deeper_area && child_rid_len > deeper_rid_len)
}

/// The state of the choice before any candidate: area `i64::MAX`, index -1,
/// no control type and no name.
pub open spec fn initial_best() -> CandidateView {
    CandidateView { index: -1, area: i64::MAX as int, control_type: seq![], name: seq![] }
}

/// The running choice over `cs`: the position of the best candidate so far
/// (if any), and what is compared against.
pub open spec fn best_of(cs: Seq<CandidateView>) -> (Option<int>, CandidateView)
    decreases cs.len(),
{
    if cs.len() == 0 {
        (None, initial_best())
    } else {
        let prev = best_of(cs.drop_last());
        if dominates(cs.last(), prev.1) {
            (Some(cs.len() - 1), cs.last())
        } else {
            prev
        }
    }
}

pub open spec fn candidates_view(cs: Seq<CandidateElement>) -> Seq<CandidateView> {
    cs.map_values(|c: CandidateElement| c@)
}

/// Picks the target among the candidates of a subtree search, going through
/// them in order and keeping each one that dominates the best so far.
pub fn select_best_findall(candidates: &[CandidateElement]) -> (r: Option<&CandidateElement>)
    ensures
        match best_of(candidates_view(candidates@)).0 {
            Some(i) => 0 <= i < candidates@.len() && (r matches Some(c) && *c == candidates@[i]),
            None => r is None,
        },
{
    let ghost cs = candidates_view(candidates@);
    let mut best: Option<&CandidateElement> = None;
    let mut best_area: i64 = i64::MAX;
    let mut best_index: i32 = -1;
    let mut best_ct = String::new();
    let mut best_name = String::new();
    let mut i: usize = 0;
    while i < candidates.len()
        invariant
            i <= candidates.len(),
            cs == candidates_view(candidates@),
            best_of(cs.take(i as int)).1 == (CandidateView {
                index: best_index as int,
                area: best_area as int,
                control_type: best_ct@,
                name: best_name@,
            }),
            match best_of(cs.take(i as int)).0 {
                Some(k) => 0 <= k < i && (best matches Some(c) && *c == candidates@[k]),
                None => best is None,
            },
        decreases candidates.len() - i,
    {
        let c = &candidates[i];
        assert(cs.take(i + 1).drop_last() =~= cs.take(i as int));
        assert(cs.take(i + 1).last() == c@);
        if candidate_dominates_findall(c, best_area, best_index, best_ct.as_str(), best_name.as_str()) {
            best = Some(c);
            best_area = c.area;
            best_index = c.index;
            best_ct = c.control_type.clone();
            best_name = c.name.clone();
        }
        i += 1;
    }
    assert(cs.take(candidates.len() as int) =~= cs);
    best
}

/// Every leaf control type has a name.
proof fn lemma_leaf_nonempty(ct: Seq<char>)
    ensures
        is_leaf_type(ct) ==> ct.len() > 0,
{
    reveal_strlit("Text");
    reveal_strlit("Button");
    reveal_strlit("Hyperlink");
    reveal_strlit("Edit");
    reveal_strlit("CheckBox");
    reveal_strlit("RadioButton");
    reveal_strlit("ComboBox");
    reveal_strlit("ListItem");
    reveal_strlit("TreeItem");
    reveal_strlit("TabItem");
    reveal_strlit("MenuItem");
    reveal_strlit("DataItem");
    reveal_strlit("Image");
    reveal_strlit("ScrollBar");
    reveal_strlit("Slider");
    reveal_strlit("Spinner");
    reveal_strlit("ProgressBar");
    reveal_strlit("Thumb");
    assert("Text"@.len() == 4);
    assert("Button"@.len() == 6);
    assert("Hyperlink"@.len() == 9);
    assert("Edit"@.len() == 4);
    assert("CheckBox"@.len() == 8);
    assert("RadioButton"@.len() == 11);
    assert("ComboBox"@.len() == 8);
    assert("ListItem"@.len() == 8);
    assert("TreeItem"@.len() == 8);
    assert("TabItem"@.len() == 7);
    assert("MenuItem"@.len() == 8);
    assert("DataItem"@.len() == 8);
    assert("Image"@.len() == 5);
    assert("ScrollBar"@.len() == 9);
    assert("Slider"@.len() == 6);
    assert("Spinner"@.len() == 7);
    assert("ProgressBar"@.len() == 11);
    assert("Thumb"@.len() == 5);
}

/// When all candidates are leaves, or all are containers, the choice is a
/// candidate of the smallest area; so is it for the candidates so far at
/// every step.
pub proof fn lemma_best_is_smallest_when_uniform(cs: Seq<CandidateView>)
    requires
        forall|i: int, j: int|
            0 <= i < cs.len() && 0 <= j < cs.len() ==> is_leaf_type(#[trigger] cs[i].control_type)
                == is_leaf_type(#[trigger] cs[j].control_type),
        forall|i: int| 0 <= i < cs.len() ==> #[trigger] cs[i].area < i64::MAX,
    ensures
        cs.len() > 0 ==> best_of(cs).0 is Some,
        best_of(cs).0 matches Some(k) ==> 0 <= k < cs.len() && best_of(cs).1 == cs[k] && forall|j: int|
            0 <= j < cs.len() ==> cs[k].area <= #[trigger] cs[j].area,
    decreases cs.len(),
{
    if cs.len() > 0 {
        let init = cs.drop_last();
        assert forall|i: int, j: int|
            0 <= i < init.len() && 0 <= j < init.len() implies is_leaf_type(#[trigger] init[i].control_type)
                == is_leaf_type(#[trigger] init[j].control_type) by {
            assert(init[i] == cs[i] && init[j] == cs[j]);
        }
        assert forall|i: int| 0 <= i < init.len() implies #[trigger] init[i].area < i64::MAX by {
            assert(init[i] == cs[i]);
        }
        lemma_best_is_smallest_when_uniform(init);
        let prev = best_of(init);
        let c = cs.last();
        assert(c == cs[cs.len() - 1]);
        lemma_leaf_nonempty(initial_best().control_type);
        match prev.0 {
            Some(k) => {
                assert(init[k] == cs[k]);
                assert(is_leaf_type(cs[k].control_type) == is_leaf_type(c.control_type));
                assert forall|j: int| 0 <= j < init.len() implies prev.1.area <= #[trigger] cs[j].area by {
                    assert(init[j] == cs[j]);
                }
            },
            None => {
                assert(init.len() == 0);
            },
        }
    }
}

/// Leaf preference: a named leaf replaces an unnamed container whatever the
/// areas, and an unnamed container never replaces a named leaf.
pub proof fn lemma_leaf_preference(c: CandidateView, b: CandidateView)
    ensures
        is_leaf_type(c.control_type) && c.name.len() > 0 && !is_leaf_type(b.control_type) && b.name.len()
            == 0 ==> dominates(c, b),
        !is_leaf_type(c.control_type) && c.name.len() == 0 && is_leaf_type(b.control_type) && b.name.len()
            > 0 ==> !dominates(c, b),
{
}

/// Class-name prefixes of windows that host web content.
pub open spec fn is_webview(class: Seq<char>) -> bool {
    ||| "WRY_WEBVIEW"@.is_prefix_of(class)
    ||| "Chrome_WidgetWin"@.is_prefix_of(class)
    ||| "Chrome_Widget"@.is_prefix_of(class)
    ||| "Intermediate D3D"@.is_prefix_of(class)
    ||| "WebView2"@.is_prefix_of(class)
    ||| "CefBrowserWindow"@.is_prefix_of(class)
    ||| "QtWebEngine"@.is_prefix_of(class)
    ||| "QWebEngine"@.is_prefix_of(class)
}

pub fn is_webview_class(class_name: &str) -> (b: bool)
    ensures
        b == is_webview(class_name@),
{
    let v = chars_of(class_name);
    let s = v.as_slice();
    starts_with_lit(s, "WRY_WEBVIEW") || starts_with_lit(s, "Chrome_WidgetWin") || starts_with_lit(s, "Chrome_Widget")
        || starts_with_lit(s, "Intermediate D3D") || starts_with_lit(s, "WebView2") || starts_with_lit(
        s,
        "CefBrowserWindow",
    ) || starts_with_lit(s, "QtWebEngine") || starts_with_lit(s, "QWebEngine")
}

/// Class names of rendering surfaces (not content).
pub open spec fn is_rendering(class: Seq<char>) -> bool {
    class == "MMUIRenderSubWindowHW"@ || class == "Intermediate D3D"@
}

pub fn is_rendering_layer(class_name: &str) -> (b: bool)
    ensures
        b == is_rendering(class_name@),
{
    str_eq(class_name, "MMUIRenderSubWindowHW") || str_eq(class_name, "Intermediate D3D")
}

/// ASCII lower-casing of one character.
pub open spec fn ascii_lower(c: char) -> char {
    if 'A' <= c && c <= 'Z' {
        ((c as u32) + 32) as char
    } else {
        c
    }
}

/// Equality up to ASCII case (`str::eq_ignore_ascii_case`).
pub open spec fn eq_ascii_ci(a: Seq<char>, b: Seq<char>) -> bool {
    a.len() == b.len() && forall|i: int| 0 <= i < a.len() ==> ascii_lower(#[trigger] a[i]) == ascii_lower(b[i])
}

fn lower_char(c: char) -> (r: char)
    ensures
        r == ascii_lower(c),
{
    if 'A' <= c && c <= 'Z' {
        ((c as u8) + 32) as char
    } else {
        c
    }
}

pub fn eq_ignore_ascii_case(a: &str, b: &str) -> (r: bool)
    ensures
        r == eq_ascii_ci(a@, b@),
{
    let va = chars_of(a);
    let vb = chars_of(b);
    if va.len() != vb.len() {
        return false;
    }
    let mut i: usize = 0;
    while i < va.len()
        invariant
            va@ == a@,
            vb@ == b@,
            va.len() == vb.len(),
            i <= va.len(),
            forall|k: int| 0 <= k < i ==> ascii_lower(#[trigger] va@[k]) == ascii_lower(vb@[k]),
        decreases va.len() - i,
    {
        if lower_char(va[i]) != lower_char(vb[i]) {
            return false;
        }
        i += 1;
    }
    true
}

/// The walker that reaches a node: the child window for web content in
/// another process, the raw view for web content and for Chrome or WebView
/// frameworks, the control view otherwise.
pub open spec fn walker_hint_for(class: Seq<char>, framework: Seq<char>, node_pid: u32, window_pid: u32) -> WalkerHint {
    if node_pid != 0 && window_pid != 0 && node_pid != window_pid && is_webview(class) {
        WalkerHint::ChildHwnd
    } else if is_webview(class) {
        WalkerHint::RawView
    } else if framework.len() > 0 && (eq_ascii_ci(framework, "Chrome"@) || eq_ascii_ci(framework, "WebView"@)) {
        WalkerHint::RawView
    } else {
        WalkerHint::ControlView
    }
}

pub fn determine_walker_hint(class_name: &str, framework_id: &str, node_pid: u32, window_pid: u32) -> (h: WalkerHint)
    ensures
        h == walker_hint_for(class_name@, framework_id@, node_pid, window_pid),
{
    let web = is_webview_class(class_name);
    if node_pid != 0 && window_pid != 0 && node_pid != window_pid && web {
        return WalkerHint::ChildHwnd;
    }
    if web {
        return WalkerHint::RawView;
    }
    if !framework_id.is_empty() {
        if eq_ignore_ascii_case(framework_id, "Chrome") || eq_ignore_ascii_case(framework_id, "WebView") {
            return WalkerHint::RawView;
        }
    }
    WalkerHint::ControlView
}

/// A node with its walker hint filled in, when it was unknown.
pub open spec fn with_hint(n: NodeView, window_pid: u32) -> NodeView {
    if n.walker_hint == WalkerHint::Unknown {
        NodeView { walker_hint: walker_hint_for(n.class_name, n.framework_id, n.process_id, window_pid), ..n }
    } else {
        n
    }
}

/// Fills in the walker hint of every node whose hint is unknown.
pub fn set_walker_hints(hierarchy: &mut Vec<HierarchyNode>, window_pid: u32)
    ensures
        nodes_view(final(hierarchy)@) == nodes_view(old(hierarchy)@).map_values(|n: NodeView| with_hint(n, window_pid)),
{
    let ghost start = nodes_view(hierarchy@);
    let mut i: usize = 0;
    while i < hierarchy.len()
        invariant
            i <= hierarchy.len(),
            start.len() == hierarchy@.len(),
            forall|k: int| 0 <= k < i ==> #[trigger] nodes_view(hierarchy@)[k] == with_hint(start[k], window_pid),
            forall|k: int| i <= k < hierarchy@.len() ==> #[trigger] nodes_view(hierarchy@)[k] == start[k],
        decreases hierarchy.len() - i,
    {
        if hierarchy[i].walker_hint == WalkerHint::Unknown {
            let h = determine_walker_hint(
                hierarchy[i].class_name.as_str(),
                hierarchy[i].framework_id.as_str(),
                hierarchy[i].process_id,
                window_pid,
            );
            let mut node = hierarchy[i].clone();
            node.walker_hint = h;
            let ghost before = hierarchy@;
            hierarchy.set(i, node);
            assert forall|k: int| 0 <= k < hierarchy@.len() && k != i implies #[trigger] nodes_view(hierarchy@)[k]
                == nodes_view(before)[k] by {
                assert(hierarchy@[k] == before[k]);
            }
            assert(nodes_view(hierarchy@)[i as int] == with_hint(start[i as int], window_pid)) by {
                assert(nodes_view(before)[i as int] == start[i as int]);
                assert(hierarchy@[i as int] == node);
            }
        } else {
            assert(nodes_view(hierarchy@)[i as int] == start[i as int]);
        }
        i += 1;
    }
    assert(nodes_view(hierarchy@) =~= start.map_values(|n: NodeView| with_hint(n, window_pid)));
}

/// Control types that respond to a click without an invoke pattern.
pub open spec fn clickable_type(ct: Seq<char>) -> bool {
    ||| ct == "Button"@
    ||| ct == "Hyperlink"@
    ||| ct == "ListItem"@
    ||| ct == "MenuItem"@
    ||| ct == "TabItem"@
    ||| ct == "TreeItem"@
    ||| ct == "RadioButton"@
    ||| ct == "CheckBox"@
    ||| ct == "ComboBox"@
    ||| ct == "Link"@
    ||| ct == "Image"@
    ||| ct == "Document"@
}

pub fn is_control_type_clickable(control_type: &str) -> (b: bool)
    ensures
        b == clickable_type(control_type@),
{
    str_eq(control_type, "Button") || str_eq(control_type, "Hyperlink") || str_eq(control_type, "ListItem")
        || str_eq(control_type, "MenuItem") || str_eq(control_type, "TabItem") || str_eq(control_type, "TreeItem")
        || str_eq(control_type, "RadioButton") || str_eq(control_type, "CheckBox") || str_eq(
        control_type,
        "ComboBox",
    ) || str_eq(control_type, "Link") || str_eq(control_type, "Image") || str_eq(control_type, "Document")
}

/// The predicate that identifies a node to its parent: the automation id if
/// it has one, else the class name, else the name, else none.
pub open spec fn identity_predicate(name: Seq<char>, class: Seq<char>, aid: Seq<char>) -> Seq<char> {
    if aid.len() > 0 {
        "[@AutomationId='"@ + aid + "']"@
    } else if class.len() > 0 {
        "[@ClassName='"@ + class + "']"@
    } else if name.len() > 0 {
        "[@Name='"@ + name + "']"@
    } else {
        seq![]
    }
}

/// The XPath of a child below its parent's XPath.
pub open spec fn relative_xpath(ct: Seq<char>, name: Seq<char>, class: Seq<char>, aid: Seq<char>, parent: Seq<char>) -> Seq<char> {
    parent + "/"@ + ct + identity_predicate(name, class, aid)
}

pub fn build_relative_xpath(control_type: &str, name: &str, class_name: &str, automation_id: &str, parent_xpath: &str) -> (s: String)
    ensures
        s@ == relative_xpath(control_type@, name@, class_name@, automation_id@, parent_xpath@),
{
    let mut s = String::new();
    s.push_str(parent_xpath);
    s.push_str("/");
    s.push_str(control_type);
    if !automation_id.is_empty() {
        s.push_str("[@AutomationId='");
        s.push_str(automation_id);
        s.push_str("']");
    } else if !class_name.is_empty() {
        s.push_str("[@ClassName='");
        s.push_str(class_name);
        s.push_str("']");
    } else if !name.is_empty() {
        s.push_str("[@Name='");
        s.push_str(name);
        s.push_str("']");
    }
    assert(s@ =~= relative_xpath(control_type@, name@, class_name@, automation_id@, parent_xpath@));
    s
}

/// The window a capture belongs to: the node after the desktop, named by its
/// title, class and process; `None` for captures of fewer than two nodes.
/// `process_name` is the name of that node's process.
pub fn extract_window_info(hierarchy: &[HierarchyNode], process_name: &str) -> (r: Option<WindowInfo>)
    ensures
        hierarchy@.len() < 2 <==> r is None,
        r matches Some(w) ==> w.title@ == hierarchy@[1].name@ && w.class_name@ == hierarchy@[1].class_name@
            && w.process_id == hierarchy@[1].process_id && w.process_name@ == process_name@,
{
    if hierarchy.len() < 2 {
        return None;
    }
    let top = &hierarchy[1];
    Some(
        WindowInfo {
            title: top.name.clone(),
            class_name: top.class_name.clone(),
            process_id: top.process_id,
            process_name: process_name.to_owned(),
        },
    )
}

} // verus!
