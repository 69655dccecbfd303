//! Data model of captured UI hierarchies and of XPath predicates.
use vstd::prelude::*;
use crate::text::{chars_of, decimal, push_decimal, push_signed_decimal, signed_decimal};

verus! {

/// Compares two strings by their characters.
pub fn str_eq(a: &str, b: &str) -> (r: bool)
    ensures
        r == (a@ == b@),
{
    let va = chars_of(a);
    let vb = chars_of(b);
    if va.len() != vb.len() {
        return false;
    }
    let mut i: usize = 0;
    while i < va.len()
        invariant
            va@ == a@,
            vb@ == b@,
            va.len() == vb.len(),
            i <= va.len(),
            forall|k: int| 0 <= k < i ==> va@[k] == vb@[k],
        decreases va.len() - i,
    {
        if va[i] != vb[i] {
            return false;
        }
        i += 1;
    }
    assert(va@ =~= vb@);
    true
}

/// Screen rectangle of a captured element (position and size).
#[derive(Clone, Copy, Debug, PartialEq, Eq, Structural, Default)]
pub struct ElementRect {
    pub x: i32,
    pub y: i32,
    pub width: i32,
    pub height: i32,
}

/// Rectangle as exchanged with API clients (position and size).
#[derive(Clone, Copy, Debug, PartialEq, Eq, Structural, Default)]
pub struct Rect {
    pub x: i32,
    pub y: i32,
    pub width: i32,
    pub height: i32,
}

/// How far an element sticks out of the viewport on each side.
#[derive(Clone, Copy, Debug, PartialEq, Eq, Structural, Default)]
pub struct OverflowInfo {
    pub top: i32,
    pub bottom: i32,
    pub left: i32,
    pub right: i32,
}

/// Identity of the top-level window a capture belongs to.
#[derive(Clone, Debug, Default)]
pub struct WindowInfo {
    pub title: String,
    pub class_name: String,
    pub process_id: u32,
    pub process_name: String,
}

/// A generated selector: the window selector and the XPath inside that window.
#[derive(Clone, Debug, Default)]
pub struct XPathResult {
    pub window_selector: String,
    pub element_xpath: String,
}

/// Comparison operator of a property filter.
#[derive(Clone, Copy, Debug, PartialEq, Eq, Structural)]
pub enum Operator {
    Equals,
    NotEquals,
    Contains,
    NotContains,
    StartsWith,
    NotStartsWith,
    EndsWith,
    NotEndsWith,
    Matches,
    NotMatches,
    GreaterThan,
    GreaterThanOrEq,
    LessThan,
    LessThanOrEq,
}

/// The XPath 1.0 expression that tests that `@attr` ends with `v`.
pub open spec fn ends_with_expr(attr: Seq<char>, v: Seq<char>) -> Seq<char> {
    "substring(@"@ + attr + ", string-length(@"@ + attr + ") - string-length('"@ + v
        + "') + 1) = '"@ + v + "'"@
}

/// The XPath predicate text that applies `op` to attribute `attr` and value `v`.
pub open spec fn operator_predicate(op: Operator, attr: Seq<char>, v: Seq<char>) -> Seq<char> {
    match op {
        Operator::Equals => "@"@ + attr + "='"@ + v + "'"@,
        Operator::NotEquals => "@"@ + attr + "!='"@ + v + "'"@,
        Operator::Contains => "contains(@"@ + attr + ", '"@ + v + "')"@,
        Operator::NotContains => "not(contains(@"@ + attr + ", '"@ + v + "'))"@,
        Operator::StartsWith => "starts-with(@"@ + attr + ", '"@ + v + "')"@,
        Operator::NotStartsWith => "not(starts-with(@"@ + attr + ", '"@ + v + "'))"@,
        Operator::EndsWith => ends_with_expr(attr, v),
        Operator::NotEndsWith => "not("@ + ends_with_expr(attr, v) + ")"@,
        Operator::Matches => "matches(@"@ + attr + ", '"@ + v + "')"@,
        Operator::NotMatches => "not(matches(@"@ + attr + ", '"@ + v + "'))"@,
        Operator::GreaterThan => "@"@ + attr + " > "@ + v,
        Operator::GreaterThanOrEq => "@"@ + attr + " >= "@ + v,
        Operator::LessThan => "@"@ + attr + " < "@ + v,
        Operator::LessThanOrEq => "@"@ + attr + " <= "@ + v,
    }
}

fn push_ends_with_expr(out: &mut String, attr: &str, value: &str)
    ensures
        final(out)@ == old(out)@ + ends_with_expr(attr@, value@),
{
    out.push_str("substring(@");
    out.push_str(attr);
    out.push_str(", string-length(@");
    out.push_str(attr);
    out.push_str(") - string-length('");
    out.push_str(value);
    out.push_str("') + 1) = '");
    out.push_str(value);
    out.push_str("'");
    assert(final(out)@ =~= old(out)@ + ends_with_expr(attr@, value@));
}

impl Operator {
    /// Appends the predicate text of this operator applied to `attr` and `value`.
    pub fn push_predicate(&self, out: &mut String, attr: &str, value: &str)
        ensures
            final(out)@ == old(out)@ + operator_predicate(*self, attr@, value@),
    {
        let ghost o = old(out)@;
        match self {
            Operator::Equals => {
                out.push_str("@");
                out.push_str(attr);
                out.push_str("='");
                out.push_str(value);
                out.push_str("'");
            },
            Operator::NotEquals => {
                out.push_str("@");
                out.push_str(attr);
                out.push_str("!='");
                out.push_str(value);
                out.push_str("'");
            },
            Operator::Contains => {
                out.push_str("contains(@");
                out.push_str(attr);
                out.push_str(", '");
                out.push_str(value);
                out.push_str("')");
            },
            Operator::NotContains => {
                out.push_str("not(contains(@");
                out.push_str(attr);
                out.push_str(", '");
                out.push_str(value);
                out.push_str("'))");
            },
            Operator::StartsWith => {
                out.push_str("starts-with(@");
                out.push_str(attr);
                out.push_str(", '");
                out.push_str(value);
                out.push_str("')");
            },
            Operator::NotStartsWith => {
                out.push_str("not(starts-with(@");
                out.push_str(attr);
                out.push_str(", '");
                out.push_str(value);
                out.push_str("'))");
            },
            Operator::EndsWith => {
                push_ends_with_expr(out, attr, value);
            },
            Operator::NotEndsWith => {
                out.push_str("not(");
                push_ends_with_expr(out, attr, value);
                out.push_str(")");
            },
            Operator::Matches => {
                out.push_str("matches(@");
                out.push_str(attr);
                out.push_str(", '");
                out.push_str(value);
                out.push_str("')");
            },
            Operator::NotMatches => {
                out.push_str("not(matches(@");
                out.push_str(attr);
                out.push_str(", '");
                out.push_str(value);
                out.push_str("'))");
            },
            Operator::GreaterThan => {
                out.push_str("@");
                out.push_str(attr);
                out.push_str(" > ");
                out.push_str(value);
            },
            Operator::GreaterThanOrEq => {
                out.push_str("@");
                out.push_str(attr);
                out.push_str(" >= ");
                out.push_str(value);
            },
            Operator::LessThan => {
                out.push_str("@");
                out.push_str(attr);
                out.push_str(" < ");
                out.push_str(value);
            },
            Operator::LessThanOrEq => {
                out.push_str("@");
                out.push_str(attr);
                out.push_str(" <= ");
                out.push_str(value);
            },
        }
        assert(out@ =~= o + operator_predicate(*self, attr@, value@));
    }

    /// The XPath predicate text of this operator applied to `attr` and `value`,
    /// e.g. `@Index > 5` or `not(contains(@Name, 'x'))`.
    pub fn to_predicate(&self, attr: &str, value: &str) -> (s: String)
        ensures
            s@ == operator_predicate(*self, attr@, value@),
    {
        let mut s = String::new();
        self.push_predicate(&mut s, attr, value);
        assert(s@ =~= operator_predicate(*self, attr@, value@));
        s
    }
}

/// One property condition of a hierarchy node (`@name <op> value`).
#[derive(Debug)]
pub struct PropertyFilter {
    pub name: String,
    pub operator: Operator,
    pub value: String,
    pub enabled: bool,
}

impl Clone for PropertyFilter {
    fn clone(&self) -> (r: Self)
        ensures
            r == *self,
    {
        PropertyFilter {
            name: self.name.clone(),
            operator: self.operator,
            value: self.value.clone(),
            enabled: self.enabled,
        }
    }
}

/// The mathematical value of a property filter.
pub struct FilterView {
    pub name: Seq<char>,
    pub operator: Operator,
    pub value: Seq<char>,
    pub enabled: bool,
}

impl View for PropertyFilter {
    type V = FilterView;

    open spec fn view(&self) -> FilterView {
        FilterView {
            name: self.name@,
            operator: self.operator,
            value: self.value@,
            enabled: self.enabled,
        }
    }
}

/// The views of a sequence of filters.
pub open spec fn filters_view(fs: Seq<PropertyFilter>) -> Seq<FilterView> {
    fs.map_values(|f: PropertyFilter| f@)
}

/// The predicate text of a filter, or `None` when its value is empty.
pub open spec fn filter_predicate(f: FilterView) -> Option<Seq<char>> {
    if f.value.len() == 0 {
        None
    } else {
        Some(operator_predicate(f.operator, f.name, f.value))
    }
}

impl PropertyFilter {
    /// A filter comparing attribute `name` with `value` by `operator`.
    pub fn new(name: &str, operator: Operator, value: &str, enabled: bool) -> (r: Self)
        ensures
            r.name@ == name@,
            r.operator == operator,
            r.value@ == value@,
            r.enabled == enabled,
    {
        PropertyFilter { name: name.to_owned(), operator, value: value.to_owned(), enabled }
    }

    /// The XPath predicate of this filter (without brackets), or `None` when
    /// the value is empty.
    pub fn predicate(&self) -> (r: Option<String>)
        ensures
            r matches Some(s) ==> filter_predicate(self@) == Some(s@),
            r is None ==> filter_predicate(self@) is None,
    {
        if self.value.as_str().is_empty() {
            None
        } else {
            Some(self.operator.to_predicate(self.name.as_str(), self.value.as_str()))
        }
    }
}

/// Which tree walker a node is best reached with when locating it again.
#[derive(Clone, Copy, Debug, PartialEq, Eq, Structural)]
pub enum WalkerHint {
    Unknown,
    ControlView,
    RawView,
    ChildHwnd,
}

/// One node of a captured ancestor chain, from the window down to the target.
#[derive(Debug)]
pub struct HierarchyNode {
    pub control_type: String,
    pub automation_id: String,
    pub class_name: String,
    pub name: String,
    /// 1-based position among same-type siblings (0: unknown).
    pub index: i32,
    /// Number of same-type siblings (0: unknown).
    pub sibling_count: i32,
    pub rect: ElementRect,
    pub process_id: u32,
    pub framework_id: String,
    pub acc_role: String,
    pub help_text: String,
    pub localized_control_type: String,
    pub accelerator_key: String,
    pub access_key: String,
    pub item_type: String,
    pub item_status: String,
    pub is_enabled: bool,
    pub is_offscreen: bool,
    pub is_password: bool,
    pub is_checkable: bool,
    pub is_clickable: bool,
    pub is_scrollable: bool,
    pub is_checked: Option<bool>,
    pub is_selected: Option<bool>,
    /// Property conditions offered for this node.
    pub filters: Vec<PropertyFilter>,
    /// Whether the node takes part in the generated XPath.
    pub included: bool,
    /// Whether this is the captured target element.
    pub is_target: bool,
    /// `"auto"`, `"index"`, `"first"` or `"last"`: how the position is written.
    pub position_mode: String,
    pub walker_hint: WalkerHint,
    /// Distance below the window node.
    pub depth_from_window: usize,
}

/// The mathematical value of a hierarchy node.
pub struct NodeView {
    pub control_type: Seq<char>,
    pub automation_id: Seq<char>,
    pub class_name: Seq<char>,
    pub name: Seq<char>,
    pub index: i32,
    pub sibling_count: i32,
    pub rect: ElementRect,
    pub process_id: u32,
    pub framework_id: Seq<char>,
    pub acc_role: Seq<char>,
    pub help_text: Seq<char>,
    pub localized_control_type: Seq<char>,
    pub accelerator_key: Seq<char>,
    pub access_key: Seq<char>,
    pub item_type: Seq<char>,
    pub item_status: Seq<char>,
    pub is_enabled: bool,
    pub is_offscreen: bool,
    pub is_password: bool,
    pub is_checkable: bool,
    pub is_clickable: bool,
    pub is_scrollable: bool,
    pub is_checked: Option<bool>,
    pub is_selected: Option<bool>,
    pub filters: Seq<FilterView>,
    pub included: bool,
    pub is_target: bool,
    pub position_mode: Seq<char>,
    pub walker_hint: WalkerHint,
    pub depth_from_window: usize,
}

impl View for HierarchyNode {
    type V = NodeView;

    open spec fn view(&self) -> NodeView {
        NodeView {
            control_type: self.control_type@,
            automation_id: self.automation_id@,
            class_name: self.class_name@,
            name: self.name@,
            index: self.index,
            sibling_count: self.sibling_count,
            rect: self.rect,
            process_id: self.process_id,
            framework_id: self.framework_id@,
            acc_role: self.acc_role@,
            help_text: self.help_text@,
            localized_control_type: self.localized_control_type@,
            accelerator_key: self.accelerator_key@,
            access_key: self.access_key@,
            item_type: self.item_type@,
            item_status: self.item_status@,
            is_enabled: self.is_enabled,
            is_offscreen: self.is_offscreen,
            is_password: self.is_password,
            is_checkable: self.is_checkable,
            is_clickable: self.is_clickable,
            is_scrollable: self.is_scrollable,
            is_checked: self.is_checked,
            is_selected: self.is_selected,
            filters: filters_view(self.filters@),
            included: self.included,
            is_target: self.is_target,
            position_mode: self.position_mode@,
            walker_hint: self.walker_hint,
            depth_from_window: self.depth_from_window,
        }
    }
}

/// The views of a sequence of nodes.
pub open spec fn nodes_view(ns: Seq<HierarchyNode>) -> Seq<NodeView> {
    ns.map_values(|n: HierarchyNode| n@)
}

/// A copy of a filter list.
pub fn clone_filters(fs: &Vec<PropertyFilter>) -> (r: Vec<PropertyFilter>)
    ensures
        filters_view(r@) == filters_view(fs@),
{
    let mut r: Vec<PropertyFilter> = Vec::new();
    let mut i: usize = 0;
    while i < fs.len()
        invariant
            i <= fs.len(),
            filters_view(r@) == filters_view(fs@.take(i as int)),
        decreases fs.len() - i,
    {
        let c = fs[i].clone();
        assert(c == fs@[i as int]);
        let ghost prev = r@;
        r.push(c);
        assert(r@ == prev.push(c));
        assert(fs@.take(i + 1) == fs@.take(i as int).push(fs@[i as int]));
        assert(filters_view(prev.push(c)) =~= filters_view(prev).push(c@));
        assert(filters_view(fs@.take(i as int).push(fs@[i as int])) =~= filters_view(
            fs@.take(i as int),
        ).push(fs@[i as int]@));
        i += 1;
    }
    assert(fs@.take(fs.len() as int) =~= fs@);
    r
}

impl Clone for HierarchyNode {
    fn clone(&self) -> (r: Self)
        ensures
            r@ == self@,
    {
        let filters = clone_filters(&self.filters);
        HierarchyNode {
            control_type: self.control_type.clone(),
            automation_id: self.automation_id.clone(),
            class_name: self.class_name.clone(),
            name: self.name.clone(),
            index: self.index,
            sibling_count: self.sibling_count,
            rect: self.rect,
            process_id: self.process_id,
            framework_id: self.framework_id.clone(),
            acc_role: self.acc_role.clone(),
            help_text: self.help_text.clone(),
            localized_control_type: self.localized_control_type.clone(),
            accelerator_key: self.accelerator_key.clone(),
            access_key: self.access_key.clone(),
            item_type: self.item_type.clone(),
            item_status: self.item_status.clone(),
            is_enabled: self.is_enabled,
            is_offscreen: self.is_offscreen,
            is_password: self.is_password,
            is_checkable: self.is_checkable,
            is_clickable: self.is_clickable,
            is_scrollable: self.is_scrollable,
            is_checked: self.is_checked,
            is_selected: self.is_selected,
            filters,
            included: self.included,
            is_target: self.is_target,
            position_mode: self.position_mode.clone(),
            walker_hint: self.walker_hint,
            depth_from_window: self.depth_from_window,
        }
    }
}


/// The node test of a segment: the control type, or `*` when it is unknown.
pub open spec fn node_tag(n: NodeView) -> Seq<char> {
    if n.control_type.len() == 0 {
        "*"@
    } else {
        n.control_type
    }
}

/// Whether a filter contributes a predicate to the node's XPath segment:
/// enabled, non-empty, and not one of the two attributes written otherwise
/// (the control type is the node test, the index the positional predicate).
pub open spec fn renders_filter(f: FilterView) -> bool {
    f.enabled && f.value.len() > 0 && f.name != "ControlType"@ && f.name != "Index"@
}

/// The predicates contributed by a list of filters, in order.
pub open spec fn filter_preds(fs: Seq<FilterView>) -> Seq<Seq<char>>
    decreases fs.len(),
{
    if fs.len() == 0 {
        seq![]
    } else {
        let rest = filter_preds(fs.drop_last());
        let f = fs.last();
        if renders_filter(f) {
            rest.push(operator_predicate(f.operator, f.name, f.value))
        } else {
            rest
        }
    }
}

/// `parts` joined with `sep` between consecutive parts.
pub open spec fn join_with(parts: Seq<Seq<char>>, sep: Seq<char>) -> Seq<char>
    decreases parts.len(),
{
    if parts.len() == 0 {
        seq![]
    } else if parts.len() == 1 {
        parts[0]
    } else {
        join_with(parts.drop_last(), sep) + sep + parts.last()
    }
}

pub proof fn lemma_join_push(parts: Seq<Seq<char>>, sep: Seq<char>, x: Seq<char>)
    ensures
        join_with(parts.push(x), sep) == if parts.len() == 0 {
            x
        } else {
            join_with(parts, sep) + sep + x
        },
{
    assert(parts.push(x).drop_last() =~= parts);
    if parts.len() == 0 {
        assert(parts.push(x)[0] == x);
    }
}

/// `parts` joined with `sep` between consecutive parts.
pub fn join_strings(parts: &Vec<String>, sep: &str) -> (s: String)
    ensures
        s@ == join_with(parts@.map_values(|p: String| p@), sep@),
{
    let ghost views = parts@.map_values(|p: String| p@);
    let mut s = String::new();
    let mut i: usize = 0;
    while i < parts.len()
        invariant
            i <= parts.len(),
            views == parts@.map_values(|p: String| p@),
            s@ == join_with(views.take(i as int), sep@),
        decreases parts.len() - i,
    {
        proof {
            lemma_join_push(views.take(i as int), sep@, views[i as int]);
            assert(views.take(i + 1) =~= views.take(i as int).push(views[i as int]));
        }
        if i > 0 {
            s.push_str(sep);
        }
        s.push_str(parts[i].as_str());
        i += 1;
    }
    assert(views.take(parts.len() as int) =~= views);
    s
}

/// Whether the node writes its position as an `@Index` attribute.
pub open spec fn is_index_mode(n: NodeView) -> bool {
    n.position_mode == "index"@
}

/// All predicates inside the bracket of a node's segment.
pub open spec fn segment_preds(n: NodeView) -> Seq<Seq<char>> {
    filter_preds(n.filters) + if is_index_mode(n) && n.index > 0 {
        seq!["@Index='"@ + decimal(n.index as nat) + "'"@]
    } else {
        seq![]
    }
}

/// `[p1 and p2 ...]`, or nothing when there is no predicate.
pub open spec fn bracketed(parts: Seq<Seq<char>>) -> Seq<char> {
    if parts.len() == 0 {
        seq![]
    } else {
        "["@ + join_with(parts, " and "@) + "]"@
    }
}

/// The positional predicate of a node: `[first()]`, `[last()]` or
/// `[position()=N]`, chosen by the position mode, the index and the sibling count.
pub open spec fn position_suffix(n: NodeView) -> Seq<char> {
    if is_index_mode(n) {
        seq![]
    } else if n.position_mode == "first"@ {
        "[first()]"@
    } else if n.position_mode == "last"@ {
        "[last()]"@
    } else if n.index <= 0 {
        seq![]
    } else if n.index == 1 {
        "[first()]"@
    } else if n.index == n.sibling_count {
        "[last()]"@
    } else {
        "[position()="@ + decimal(n.index as nat) + "]"@
    }
}

/// The XPath step that selects a node (without the leading axis).
pub open spec fn node_segment(n: NodeView) -> Seq<char> {
    node_tag(n) + bracketed(segment_preds(n)) + position_suffix(n)
}

/// Label of a node in a tree view: the control type, followed by the name when there is one.
pub open spec fn node_label(n: NodeView) -> Seq<char> {
    if n.name.len() == 0 {
        n.control_type
    } else {
        n.control_type + " \""@ + n.name + "\""@
    }
}

impl HierarchyNode {
    /// A node with the given identity; its filters offer the control type,
    /// the automation id, the class name, the name and the index, each enabled
    /// when it carries information.
    pub fn new(
        control_type: &str,
        automation_id: &str,
        class_name: &str,
        name: &str,
        index: i32,
        rect: ElementRect,
        process_id: u32,
    ) -> (r: Self)
        ensures
            r@.control_type == control_type@,
            r@.automation_id == automation_id@,
            r@.class_name == class_name@,
            r@.name == name@,
            r@.index == index,
            r@.sibling_count == 0,
            r@.rect == rect,
            r@.process_id == process_id,
            r@.framework_id.len() == 0,
            r@.acc_role.len() == 0,
            r@.help_text.len() == 0,
            r@.localized_control_type.len() == 0,
            r@.accelerator_key.len() == 0,
            r@.access_key.len() == 0,
            r@.item_type.len() == 0,
            r@.item_status.len() == 0,
            r@.is_enabled,
            !r@.is_offscreen,
            !r@.is_password,
            !r@.is_checkable,
            !r@.is_clickable,
            !r@.is_scrollable,
            r@.is_checked is None,
            r@.is_selected is None,
            r@.filters == seq![
                FilterView { name: "ControlType"@, operator: Operator::Equals, value: control_type@, enabled: false },
                FilterView { name: "AutomationId"@, operator: Operator::Equals, value: automation_id@, enabled: automation_id@.len() > 0 },
                FilterView { name: "ClassName"@, operator: Operator::Equals, value: class_name@, enabled: class_name@.len() > 0 },
                FilterView { name: "Name"@, operator: Operator::Equals, value: name@, enabled: name@.len() > 0 },
                FilterView { name: "Index"@, operator: Operator::Equals, value: signed_decimal(index as int), enabled: index > 0 },
            ],
            r@.included,
            !r@.is_target,
            r@.position_mode == "auto"@,
            r@.walker_hint == WalkerHint::Unknown,
            r@.depth_from_window == 0,
    {
        let mut index_text = String::new();
        push_signed_decimal(&mut index_text, index as i64);
        let mut filters: Vec<PropertyFilter> = Vec::new();
        filters.push(PropertyFilter::new("ControlType", Operator::Equals, control_type, false));
        filters.push(PropertyFilter::new("AutomationId", Operator::Equals, automation_id, !automation_id.is_empty()));
        filters.push(PropertyFilter::new("ClassName", Operator::Equals, class_name, !class_name.is_empty()));
        filters.push(PropertyFilter::new("Name", Operator::Equals, name, !name.is_empty()));
        filters.push(PropertyFilter::new("Index", Operator::Equals, index_text.as_str(), index > 0));
        let r = HierarchyNode {
            control_type: control_type.to_owned(),
            automation_id: automation_id.to_owned(),
            class_name: class_name.to_owned(),
            name: name.to_owned(),
            index,
            sibling_count: 0,
            rect,
            process_id,
            framework_id: String::new(),
            acc_role: String::new(),
            help_text: String::new(),
            localized_control_type: String::new(),
            accelerator_key: String::new(),
            access_key: String::new(),
            item_type: String::new(),
            item_status: String::new(),
            is_enabled: true,
            is_offscreen: false,
            is_password: false,
            is_checkable: false,
            is_clickable: false,
            is_scrollable: false,
            is_checked: None,
            is_selected: None,
            filters,
            included: true,
            is_target: false,
            position_mode: "auto".to_owned(),
            walker_hint: WalkerHint::Unknown,
            depth_from_window: 0,
        };
        assert(r@.filters =~= seq![
            FilterView { name: "ControlType"@, operator: Operator::Equals, value: control_type@, enabled: false },
            FilterView { name: "AutomationId"@, operator: Operator::Equals, value: automation_id@, enabled: automation_id@.len() > 0 },
            FilterView { name: "ClassName"@, operator: Operator::Equals, value: class_name@, enabled: class_name@.len() > 0 },
            FilterView { name: "Name"@, operator: Operator::Equals, value: name@, enabled: name@.len() > 0 },
            FilterView { name: "Index"@, operator: Operator::Equals, value: signed_decimal(index as int), enabled: index > 0 },
        ]);
        r
    }

    /// Appends the predicates of the enabled filters, joined by ` and `, and
    /// returns how many there are.
    fn push_filter_preds(&self, body: &mut String) -> (count: usize)
        requires
            old(body)@.len() == 0,
        ensures
            final(body)@ == join_with(filter_preds(self@.filters), " and "@),
            count == filter_preds(self@.filters).len(),
    {
        let mut count: usize = 0;
        let mut i: usize = 0;
        while i < self.filters.len()
            invariant
                i <= self.filters.len(),
                body@ == join_with(filter_preds(filters_view(self.filters@.take(i as int))), " and "@),
                count == filter_preds(filters_view(self.filters@.take(i as int))).len(),
                count <= i,
            decreases self.filters.len() - i,
        {
            let f = &self.filters[i];
            let ghost fv = filters_view(self.filters@.take(i as int));
            let ghost fv1 = filters_view(self.filters@.take(i + 1));
            assert(fv1.drop_last() =~= fv);
            assert(fv1.last() == f@);
            if f.enabled && !f.value.as_str().is_empty() && !str_eq(f.name.as_str(), "ControlType")
                && !str_eq(f.name.as_str(), "Index") {
                proof {
                    lemma_join_push(filter_preds(fv), " and "@, operator_predicate(f.operator, f@.name, f@.value));
                }
                if count > 0 {
                    body.push_str(" and ");
                }
                f.operator.push_predicate(body, f.name.as_str(), f.value.as_str());
                count += 1;
            }
            i += 1;
        }
        assert(self.filters@.take(self.filters.len() as int) =~= self.filters@);
        count
    }

    /// Appends the XPath step selecting this node.
    #[verifier::spinoff_prover]
    #[verifier::rlimit(40)]
    pub fn push_segment(&self, out: &mut String)
        ensures
            final(out)@ == old(out)@ + node_segment(self@),
    {
        let ghost o = old(out)@;
        if self.control_type.as_str().is_empty() {
            out.push_str("*");
        } else {
            out.push_str(self.control_type.as_str());
        }
        assert(out@ == o + node_tag(self@));
        let mut body = String::new();
        let mut count = self.push_filter_preds(&mut body);
        let index_mode = str_eq(self.position_mode.as_str(), "index");
        let ghost fp = filter_preds(self@.filters);
        assert(fp + seq![] =~= fp);
        if index_mode && self.index > 0 {
            let ghost item = "@Index='"@ + decimal(self.index as nat) + "'"@;
            proof {
                lemma_join_push(fp, " and "@, item);
            }
            if count > 0 {
                body.push_str(" and ");
            }
            body.push_str("@Index='");
            push_decimal(&mut body, self.index as u64);
            body.push_str("'");
            count = 1;
            assert(fp + seq![item] =~= fp.push(item));
            assert(segment_preds(self@) == fp.push(item));
        } else {
            assert(segment_preds(self@) == fp);
        }
        assert(body@ == join_with(segment_preds(self@), " and "@));
        assert(count > 0 <==> segment_preds(self@).len() > 0);
        if count > 0 {
            out.push_str("[");
            out.push_str(body.as_str());
            out.push_str("]");
        }
        assert(out@ =~= o + node_tag(self@) + bracketed(segment_preds(self@)));
        let ghost mid = out@;
        if index_mode {
        } else if str_eq(self.position_mode.as_str(), "first") {
            out.push_str("[first()]");
        } else if str_eq(self.position_mode.as_str(), "last") {
            out.push_str("[last()]");
        } else if self.index <= 0 {
        } else if self.index == 1 {
            out.push_str("[first()]");
        } else if self.index == self.sibling_count {
            out.push_str("[last()]");
        } else {
            out.push_str("[position()=");
            push_decimal(out, self.index as u64);
            out.push_str("]");
        }
        assert(out@ =~= mid + position_suffix(self@));
        assert(out@ =~= o + node_segment(self@));
    }

    /// The XPath step selecting this node, e.g. `Button[@AutomationId='ok'][first()]`.
    pub fn xpath_segment(&self) -> (s: String)
        ensures
            s@ == node_segment(self@),
    {
        let mut s = String::new();
        self.push_segment(&mut s);
        assert(s@ =~= node_segment(self@));
        s
    }

    /// Label of the node in a tree view.
    pub fn tree_label(&self) -> (s: String)
        ensures
            s@ == node_label(self@),
    {
        let mut s = String::new();
        s.push_str(self.control_type.as_str());
        if !self.name.as_str().is_empty() {
            s.push_str(" \"");
            s.push_str(self.name.as_str());
            s.push_str("\"");
        }
        assert(s@ =~= node_label(self@));
        s
    }
}

} // verus!
