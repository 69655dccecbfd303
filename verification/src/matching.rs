//! Whether an element, given by the attribute values read from it, matches
//! a parsed XPath step; the attribute filters and the geometric filters a
//! `FindAll` result goes through.
use vstd::prelude::*;
use crate::geometry::SimpleRect;
use crate::pattern::{regex_compiles, regex_matches, CompiledPattern};
use crate::select::{ascii_lower, eq_ascii_ci, eq_ignore_ascii_case};
use crate::step::{
    opt_view, patterns_view, props_view, property_kind, ParsedXPathStep, PropertyKind, ReverseAxisKind,
    ReverseAxisPredicate, ReverseView, XPathProperty,
};
use crate::text::{chars_of, contains_chars, contains_seq, occurs_at};

verus! {

/// The lower-case form of a text (`str::to_lowercase`, full Unicode mapping).
pub uninterp spec fn to_lower(s: Seq<char>) -> Seq<char>;

/// Calls `str::to_lowercase`. Claimed: the result is the Unicode lower-case
/// mapping of the text, which depends on the text alone.
#[verifier::external_body]
pub(crate) fn lowercase(s: &str) -> (r: String)
    ensures
        r@ == to_lower(s@),
{
    s.to_lowercase()
}

/// The attribute values read from an element (empty where a read failed).
#[derive(Debug, Clone)]
pub struct ElementAttributes {
    /// The control type's name, such as `Button`.
    pub control_type: String,
    /// The control type's numeric id, when it could be read.
    pub control_type_id: Option<i32>,
    pub name: String,
    pub automation_id: String,
    pub class_name: String,
    pub framework_id: String,
}

/// The mathematical value of an element's attributes.
pub struct AttrView {
    pub control_type: Seq<char>,
    pub control_type_id: Option<i32>,
    pub name: Seq<char>,
    pub automation_id: Seq<char>,
    pub class_name: Seq<char>,
    pub framework_id: Seq<char>,
}

impl View for ElementAttributes {
    type V = AttrView;

    open spec fn view(&self) -> AttrView {
        AttrView {
            control_type: self.control_type@,
            control_type_id: self.control_type_id,
            name: self.name@,
            automation_id: self.automation_id@,
            class_name: self.class_name@,
            framework_id: self.framework_id@,
        }
    }
}

pub open spec fn attrs_view(s: Seq<ElementAttributes>) -> Seq<AttrView> {
    s.map_values(|a: ElementAttributes| a@)
}

/// The value of a property of an element; empty for unknown properties.
pub open spec fn attr_value(a: AttrView, p: PropertyKind) -> Seq<char> {
    match p {
        PropertyKind::Name => a.name,
        PropertyKind::AutomationId => a.automation_id,
        PropertyKind::ClassName => a.class_name,
        PropertyKind::FrameworkId => a.framework_id,
        PropertyKind::ControlType => a.control_type,
        PropertyKind::Other(_) => seq![],
    }
}

/// Reads a property of an element.
pub fn property_value(a: &ElementAttributes, p: &XPathProperty) -> (r: String)
    ensures
        r@ == attr_value(a@, p@),
{
    match p {
        XPathProperty::Name => a.name.clone(),
        XPathProperty::AutomationId => a.automation_id.clone(),
        XPathProperty::ClassName => a.class_name.clone(),
        XPathProperty::FrameworkId => a.framework_id.clone(),
        XPathProperty::ControlType => a.control_type.clone(),
        XPathProperty::Other(_) => String::new(),
    }
}

/// Whether an element has the control type a node test names: its type
/// name equals it ignoring ASCII case, or the name's numeric id (`type_id`,
/// where the name is a known control type) is the element's.
pub open spec fn type_ok(a: AttrView, node_type: Option<Seq<char>>, type_id: Option<i32>) -> bool {
    match node_type {
        None => true,
        Some(t) => eq_ascii_ci(a.control_type, t) || (type_id matches Some(id) && a.control_type_id == Some(id)),
    }
}

/// Whether every `@Attr='value'` test holds, ignoring ASCII case.
pub open spec fn props_ok(a: AttrView, props: Seq<(PropertyKind, Seq<char>)>) -> bool {
    forall|i: int| 0 <= i < props.len() ==> eq_ascii_ci(attr_value(a, #[trigger] props[i].0), props[i].1)
}

/// Whether every `starts-with` test holds, in lower case.
pub open spec fn starts_ok(a: AttrView, props: Seq<(PropertyKind, Seq<char>)>) -> bool {
    forall|i: int| 0 <= i < props.len() ==> to_lower(#[trigger] props[i].1).is_prefix_of(to_lower(attr_value(a, props[i].0)))
}

/// Whether every `contains` test holds, in lower case.
pub open spec fn contains_ok(a: AttrView, props: Seq<(PropertyKind, Seq<char>)>) -> bool {
    forall|i: int| 0 <= i < props.len() ==> contains_seq(to_lower(attr_value(a, #[trigger] props[i].0)), to_lower(props[i].1))
}

/// Whether every `matches` test holds.
pub open spec fn patterns_ok(a: AttrView, pats: Seq<(PropertyKind, Seq<char>)>) -> bool {
    forall|i: int| 0 <= i < pats.len() ==> regex_matches(#[trigger] pats[i].1, attr_value(a, pats[i].0))
}

/// Whether an element has a node test's control type and exact attributes.
pub open spec fn node_ok(a: AttrView, node_type: Option<Seq<char>>, type_id: Option<i32>, props: Seq<(PropertyKind, Seq<char>)>) -> bool {
    type_ok(a, node_type, type_id) && props_ok(a, props)
}

fn type_matches(a: &ElementAttributes, node_type: &Option<String>, type_id: Option<i32>) -> (b: bool)
    ensures
        b == type_ok(a@, opt_view(*node_type), type_id),
{
    match node_type {
        None => true,
        Some(t) => {
            if eq_ignore_ascii_case(a.control_type.as_str(), t.as_str()) {
                true
            } else {
                match type_id {
                    Some(id) => match a.control_type_id {
                        Some(actual) => actual == id,
                        None => false,
                    },
                    None => false,
                }
            }
        },
    }
}

fn props_match(a: &ElementAttributes, props: &Vec<(XPathProperty, String)>) -> (b: bool)
    ensures
        b == props_ok(a@, props_view(props@)),
{
    let ghost pv = props_view(props@);
    let mut i: usize = 0;
    while i < props.len()
        invariant
            i <= props.len(),
            pv == props_view(props@),
            forall|k: int| 0 <= k < i ==> eq_ascii_ci(attr_value(a@, #[trigger] pv[k].0), pv[k].1),
        decreases props.len() - i,
    {
        let actual = property_value(a, &props[i].0);
        assert(pv[i as int] == (props@[i as int].0@, props@[i as int].1@));
        if !eq_ignore_ascii_case(actual.as_str(), props[i].1.as_str()) {
            assert(!eq_ascii_ci(attr_value(a@, pv[i as int].0), pv[i as int].1));
            return false;
        }
        i += 1;
    }
    true
}

fn starts_match(a: &ElementAttributes, props: &Vec<(XPathProperty, String)>) -> (b: bool)
    ensures
        b == starts_ok(a@, props_view(props@)),
{
    let ghost pv = props_view(props@);
    let mut i: usize = 0;
    while i < props.len()
        invariant
            i <= props.len(),
            pv == props_view(props@),
            forall|k: int| 0 <= k < i ==> to_lower(#[trigger] pv[k].1).is_prefix_of(to_lower(attr_value(a@, pv[k].0))),
        decreases props.len() - i,
    {
        let actual = lowercase(property_value(a, &props[i].0).as_str());
        let expected = lowercase(props[i].1.as_str());
        assert(pv[i as int] == (props@[i as int].0@, props@[i as int].1@));
        let av = chars_of(actual.as_str());
        let ev = chars_of(expected.as_str());
        if !crate::validation::chars_prefix(ev.as_slice(), av.as_slice()) {
            assert(!to_lower(pv[i as int].1).is_prefix_of(to_lower(attr_value(a@, pv[i as int].0))));
            return false;
        }
        i += 1;
    }
    true
}

fn contains_match(a: &ElementAttributes, props: &Vec<(XPathProperty, String)>) -> (b: bool)
    ensures
        b == contains_ok(a@, props_view(props@)),
{
    let ghost pv = props_view(props@);
    let mut i: usize = 0;
    while i < props.len()
        invariant
            i <= props.len(),
            pv == props_view(props@),
            forall|k: int| 0 <= k < i ==> contains_seq(to_lower(attr_value(a@, #[trigger] pv[k].0)), to_lower(pv[k].1)),
        decreases props.len() - i,
    {
        let actual = lowercase(property_value(a, &props[i].0).as_str());
        let expected = lowercase(props[i].1.as_str());
        assert(pv[i as int] == (props@[i as int].0@, props@[i as int].1@));
        let av = chars_of(actual.as_str());
        let ev = chars_of(expected.as_str());
        if !contains_chars(av.as_slice(), ev.as_slice()) {
            assert(!contains_seq(to_lower(attr_value(a@, pv[i as int].0)), to_lower(pv[i as int].1)));
            return false;
        }
        i += 1;
    }
    true
}

fn patterns_match(a: &ElementAttributes, pats: &Vec<(XPathProperty, CompiledPattern)>) -> (b: bool)
    ensures
        b == patterns_ok(a@, patterns_view(pats@)),
{
    let ghost pv = patterns_view(pats@);
    let mut i: usize = 0;
    while i < pats.len()
        invariant
            i <= pats.len(),
            pv == patterns_view(pats@),
            forall|k: int| 0 <= k < i ==> regex_matches(#[trigger] pv[k].1, attr_value(a@, pv[k].0)),
        decreases pats.len() - i,
    {
        let actual = property_value(a, &pats[i].0);
        assert(pv[i as int] == (pats@[i as int].0@, pats@[i as int].1.pattern()));
        if !pats[i].1.is_match(actual.as_str()) {
            assert(!regex_matches(pv[i as int].1, attr_value(a@, pv[i as int].0)));
            return false;
        }
        i += 1;
    }
    true
}

/// Whether an element has the control type and the exact attributes of a
/// node test (`type_id`: the numeric id of the named type, where known).
pub fn element_matches_node_spec(
    a: &ElementAttributes,
    node_type: &Option<String>,
    type_id: Option<i32>,
    required_props: &Vec<(XPathProperty, String)>,
) -> (b: bool)
    ensures
        b == node_ok(a@, opt_view(*node_type), type_id, props_view(required_props@)),
{
    type_matches(a, node_type, type_id) && props_match(a, required_props)
}

/// What can be read around an element for its reverse-axis predicates.
#[derive(Debug)]
pub struct AxisContext {
    /// The element's ancestors, parent first, as far up as they could be read.
    pub ancestors: Vec<ElementAttributes>,
    /// The children of the element's parent, in order; `None` when the
    /// parent, the element's runtime id or the children could not be read.
    pub siblings: Option<Vec<ElementAttributes>>,
    /// The position of the element among those children (runtime ids are
    /// unique among siblings); `None` when it is not among them.
    pub self_index: Option<usize>,
}

/// Whether some related node from `lo` up to (not including) `hi` of `nodes`
/// has the node test.
pub open spec fn some_node_ok(nodes: Seq<AttrView>, hi: int, r: ReverseView, type_id: Option<i32>) -> bool {
    exists|k: int| 0 <= k < hi && k < nodes.len() && node_ok(#[trigger] nodes[k], r.control_type, type_id, r.required_props)
}

/// Whether a reverse-axis predicate holds of an element with attributes
/// `me` in the context read around it.
pub open spec fn axis_ok(me: AttrView, ancestors: Seq<AttrView>, siblings: Option<Seq<AttrView>>, self_index: Option<usize>, r: ReverseView, type_id: Option<i32>) -> bool {
    match r.axis {
        ReverseAxisKind::Parent => ancestors.len() > 0 && node_ok(ancestors[0], r.control_type, type_id, r.required_props),
        ReverseAxisKind::Ancestor => some_node_ok(ancestors, ancestors.len() as int, r, type_id),
        ReverseAxisKind::AncestorOrSelf => node_ok(me, r.control_type, type_id, r.required_props) || some_node_ok(
            ancestors,
            ancestors.len() as int,
            r,
            type_id,
        ),
        ReverseAxisKind::PrecedingSibling => siblings matches Some(sib) && self_index matches Some(s)
            && some_node_ok(sib, s as int, r, type_id),
        ReverseAxisKind::Preceding => siblings matches Some(sib) && some_node_ok(
            sib,
            match self_index {
                Some(s) => s as int,
                None => sib.len() as int,
            },
            r,
            type_id,
        ),
    }
}

pub open spec fn opt_attrs(o: Option<Vec<ElementAttributes>>) -> Option<Seq<AttrView>> {
    match o {
        Some(v) => Some(attrs_view(v@)),
        None => None,
    }
}

fn any_node_matches(nodes: &Vec<ElementAttributes>, hi: usize, r: &ReverseAxisPredicate, type_id: Option<i32>) -> (b: bool)
    ensures
        b == some_node_ok(attrs_view(nodes@), hi as int, r@, type_id),
{
    let ghost nv = attrs_view(nodes@);
    let mut k: usize = 0;
    while k < hi && k < nodes.len()
        invariant
            k <= nodes.len(),
            nv == attrs_view(nodes@),
            forall|j: int| 0 <= j < k ==> !node_ok(#[trigger] nv[j], r@.control_type, type_id, r@.required_props),
        decreases nodes.len() - k,
    {
        assert(nv[k as int] == nodes@[k as int]@);
        if element_matches_node_spec(&nodes[k], &r.control_type, type_id, &r.required_props) {
            return true;
        }
        k += 1;
    }
    false
}

/// Whether a reverse-axis predicate holds of the element in its context.
pub fn element_matches_reverse_axis(
    me: &ElementAttributes,
    ctx: &AxisContext,
    r: &ReverseAxisPredicate,
    type_id: Option<i32>,
) -> (b: bool)
    ensures
        b == axis_ok(me@, attrs_view(ctx.ancestors@), opt_attrs(ctx.siblings), ctx.self_index, r@, type_id),
{
    match r.axis {
        ReverseAxisKind::Parent => {
            if ctx.ancestors.len() == 0 {
                false
            } else {
                element_matches_node_spec(&ctx.ancestors[0], &r.control_type, type_id, &r.required_props)
            }
        },
        ReverseAxisKind::Ancestor => any_node_matches(&ctx.ancestors, ctx.ancestors.len(), r, type_id),
        ReverseAxisKind::AncestorOrSelf => {
            element_matches_node_spec(me, &r.control_type, type_id, &r.required_props) || any_node_matches(
                &ctx.ancestors,
                ctx.ancestors.len(),
                r,
                type_id,
            )
        },
        ReverseAxisKind::PrecedingSibling => match &ctx.siblings {
            Some(sib) => match ctx.self_index {
                Some(s) => any_node_matches(sib, s, r, type_id),
                None => false,
            },
            None => false,
        },
        ReverseAxisKind::Preceding => match &ctx.siblings {
            Some(sib) => {
                let hi = match ctx.self_index {
                    Some(s) => s,
                    None => sib.len(),
                };
                any_node_matches(sib, hi, r, type_id)
            },
            None => false,
        },
    }
}

/// Whether every reverse-axis predicate holds (`type_ids[i]`: the numeric id
/// of the type that predicate `i` names, where known).
pub open spec fn axes_ok(me: AttrView, ancestors: Seq<AttrView>, siblings: Option<Seq<AttrView>>, self_index: Option<usize>, rs: Seq<ReverseView>, type_ids: Seq<Option<i32>>) -> bool {
    forall|i: int| 0 <= i < rs.len() ==> axis_ok(me, ancestors, siblings, self_index, #[trigger] rs[i], type_ids[i])
}

/// Whether an element matches every test of a parsed step: its node test,
/// exact attributes, `starts-with`, `contains` and `matches` tests, and its
/// reverse-axis predicates.
pub open spec fn step_ok(
    a: AttrView,
    s: crate::step::StepView,
    type_id: Option<i32>,
    ancestors: Seq<AttrView>,
    siblings: Option<Seq<AttrView>>,
    self_index: Option<usize>,
    axis_type_ids: Seq<Option<i32>>,
) -> bool {
    &&& type_ok(a, s.control_type, type_id)
    &&& props_ok(a, s.required_props)
    &&& starts_ok(a, s.require_starts_with)
    &&& contains_ok(a, s.require_contains)
    &&& patterns_ok(a, s.require_matches)
    &&& axes_ok(a, ancestors, siblings, self_index, s.reverse_axis_predicates, axis_type_ids)
}

/// What matching a step means, test by test: an element matches exactly
/// when it has the step's control type (no node test, the type name up to
/// ASCII case, or the type's numeric id); each `@A='v'` value equals `v` up to
/// ASCII case, character by character; for each `starts-with(@A, p)`, `p`
/// in lower case is the opening of A's value in lower case (so a value that
/// holds `p` only further in fails); for each `contains(@A, p)`, `p` in lower
/// case occurs at some position `j` of A's value in lower case (the
/// characters from `j` on are those of `p`); each pattern matches; and the
/// reverse-axis predicates hold.
pub proof fn lemma_step_match_meaning(
    a: AttrView,
    s: crate::step::StepView,
    type_id: Option<i32>,
    ancestors: Seq<AttrView>,
    siblings: Option<Seq<AttrView>>,
    self_index: Option<usize>,
    axis_type_ids: Seq<Option<i32>>,
)
    ensures
        step_ok(a, s, type_id, ancestors, siblings, self_index, axis_type_ids) <==> ((s.control_type is None
            || agrees_ascii_ci(a.control_type, s.control_type->0) || (type_id is Some && a.control_type_id == type_id))
            && exact_tests_hold(a, s.required_props) && opening_tests_hold(a, s.require_starts_with)
            && inner_tests_hold(a, s.require_contains) && (forall|i: int|
            0 <= i < s.require_matches.len() ==> regex_matches(
                (#[trigger] s.require_matches[i]).1,
                attr_value(a, s.require_matches[i].0),
            )) && axes_ok(a, ancestors, siblings, self_index, s.reverse_axis_predicates, axis_type_ids)),
{
    lemma_exact_tests(a, s.required_props);
    lemma_opening_tests(a, s.require_starts_with);
    lemma_inner_tests(a, s.require_contains);
}

/// `v` has the length of `e` and agrees with it character by character up
/// to ASCII case.
pub open spec fn agrees_ascii_ci(v: Seq<char>, e: Seq<char>) -> bool {
    v.len() == e.len() && forall|k: int| 0 <= k < v.len() ==> ascii_lower(#[trigger] v[k]) == ascii_lower(e[k])
}

/// `p` is no longer than `v` and agrees with its first characters.
pub open spec fn opens_with(v: Seq<char>, p: Seq<char>) -> bool {
    p.len() <= v.len() && forall|k: int| 0 <= k < p.len() ==> #[trigger] v[k] == p[k]
}

/// `p` stands in `v` at some position.
pub open spec fn stands_in(v: Seq<char>, p: Seq<char>) -> bool {
    exists|j: int| 0 <= j && j + p.len() <= v.len() && #[trigger] v.subrange(j, j + p.len()) == p
}

/// Each `@A='v'` test: A's value agrees with `v` up to ASCII case.
pub open spec fn exact_tests_hold(a: AttrView, props: Seq<(PropertyKind, Seq<char>)>) -> bool {
    forall|i: int| 0 <= i < props.len() ==> agrees_ascii_ci(attr_value(a, (#[trigger] props[i]).0), props[i].1)
}

/// Each `starts-with(@A, p)` test: A's value in lower case opens with `p`
/// in lower case.
pub open spec fn opening_tests_hold(a: AttrView, props: Seq<(PropertyKind, Seq<char>)>) -> bool {
    forall|i: int| 0 <= i < props.len() ==> opens_with(to_lower(attr_value(a, (#[trigger] props[i]).0)), to_lower(props[i].1))
}

/// Each `contains(@A, p)` test: `p` in lower case stands in A's value in
/// lower case.
pub open spec fn inner_tests_hold(a: AttrView, props: Seq<(PropertyKind, Seq<char>)>) -> bool {
    forall|i: int| 0 <= i < props.len() ==> stands_in(to_lower(attr_value(a, (#[trigger] props[i]).0)), to_lower(props[i].1))
}

proof fn lemma_exact_tests(a: AttrView, props: Seq<(PropertyKind, Seq<char>)>)
    ensures
        props_ok(a, props) <==> exact_tests_hold(a, props),
{
    assert forall|i: int| 0 <= i < props.len() implies (eq_ascii_ci(attr_value(a, (#[trigger] props[i]).0), props[i].1)
        <==> agrees_ascii_ci(attr_value(a, props[i].0), props[i].1)) by {}
}

proof fn lemma_opening_tests(a: AttrView, props: Seq<(PropertyKind, Seq<char>)>)
    ensures
        starts_ok(a, props) <==> opening_tests_hold(a, props),
{
    assert forall|i: int| 0 <= i < props.len() implies (to_lower((#[trigger] props[i]).1).is_prefix_of(
        to_lower(attr_value(a, props[i].0)),
    ) <==> opens_with(to_lower(attr_value(a, props[i].0)), to_lower(props[i].1))) by {
        lemma_prefix_opens(to_lower(attr_value(a, props[i].0)), to_lower(props[i].1));
    }
}

/// A prefix is exactly a text's opening characters.
pub proof fn lemma_prefix_opens(v: Seq<char>, p: Seq<char>)
    ensures
        p.is_prefix_of(v) <==> opens_with(v, p),
{
    if p.is_prefix_of(v) {
        assert forall|k: int| 0 <= k < p.len() implies #[trigger] v[k] == p[k] by {
            assert(v.subrange(0, p.len() as int)[k] == v[k]);
        }
    }
    if opens_with(v, p) {
        assert(p =~= v.subrange(0, p.len() as int));
    }
}

proof fn lemma_inner_tests(a: AttrView, props: Seq<(PropertyKind, Seq<char>)>)
    ensures
        contains_ok(a, props) <==> inner_tests_hold(a, props),
{
    assert forall|i: int| 0 <= i < props.len() implies (contains_seq(
        to_lower(attr_value(a, (#[trigger] props[i]).0)),
        to_lower(props[i].1),
    ) <==> stands_in(to_lower(attr_value(a, props[i].0)), to_lower(props[i].1))) by {
        lemma_contains_stands(to_lower(attr_value(a, props[i].0)), to_lower(props[i].1));
    }
}

/// Containment is exactly standing at some position.
pub proof fn lemma_contains_stands(v: Seq<char>, p: Seq<char>)
    ensures
        contains_seq(v, p) <==> stands_in(v, p),
{
    if contains_seq(v, p) {
        let j = choose|j: int| occurs_at(v, j, p);
        assert(v.subrange(j, j + p.len()) == p);
    }
    if stands_in(v, p) {
        let j = choose|j: int| 0 <= j && j + p.len() <= v.len() && #[trigger] v.subrange(j, j + p.len()) == p;
        assert(occurs_at(v, j, p));
    }
}

/// Whether an element matches a parsed step. `type_id` is the numeric id of
/// the step's control type and `axis_type_ids` those of the types its
/// reverse-axis predicates name, where known.
pub fn element_matches_parsed_step(
    a: &ElementAttributes,
    step: &ParsedXPathStep,
    type_id: Option<i32>,
    ctx: &AxisContext,
    axis_type_ids: &Vec<Option<i32>>,
) -> (b: bool)
    requires
        axis_type_ids@.len() == step.reverse_axis_predicates@.len(),
    ensures
        b == step_ok(
            a@,
            step@,
            type_id,
            attrs_view(ctx.ancestors@),
            opt_attrs(ctx.siblings),
            ctx.self_index,
            axis_type_ids@,
        ),
{
    if !type_matches(a, &step.control_type, type_id) {
        return false;
    }
    if !props_match(a, &step.required_props) {
        return false;
    }
    if !starts_match(a, &step.require_starts_with) {
        return false;
    }
    if !contains_match(a, &step.require_contains) {
        return false;
    }
    if !patterns_match(a, &step.require_matches) {
        return false;
    }
    let ghost rs = step@.reverse_axis_predicates;
    let mut i: usize = 0;
    while i < step.reverse_axis_predicates.len()
        invariant
            i <= step.reverse_axis_predicates.len(),
            axis_type_ids@.len() == step.reverse_axis_predicates@.len(),
            rs == step@.reverse_axis_predicates,
            forall|k: int| 0 <= k < i ==> axis_ok(
                a@,
                attrs_view(ctx.ancestors@),
                opt_attrs(ctx.siblings),
                ctx.self_index,
                #[trigger] rs[k],
                axis_type_ids@[k],
            ),
        decreases step.reverse_axis_predicates.len() - i,
    {
        assert(rs[i as int] == step.reverse_axis_predicates@[i as int]@);
        if !element_matches_reverse_axis(a, ctx, &step.reverse_axis_predicates[i], axis_type_ids[i]) {
            return false;
        }
        i += 1;
    }
    true
}

/// The comparison of an attribute filter.
#[derive(Debug, Clone, Copy, PartialEq, Eq, Structural)]
pub enum FilterOp {
    /// Equal, ignoring ASCII case.
    Eq,
    /// Not equal, ignoring ASCII case.
    NotEq,
    /// Contains the value, in lower case.
    Contains,
    /// Matches the value as a case-insensitive regular expression.
    Regex,
    /// The attribute is not empty.
    Exists,
}

/// A condition on an attribute of the elements a `FindAll` returns.
#[derive(Debug, Clone)]
pub struct AttributeFilter {
    pub property: String,
    pub operator: FilterOp,
    pub value: String,
}

/// What a `FindAll` result is cut down by.
#[derive(Debug, Clone)]
pub struct FindAllFilter {
    pub exclude_offscreen: bool,
    pub exclude_zero_size: bool,
    pub exclude_out_of_bounds: bool,
    pub attribute_filters: Vec<AttributeFilter>,
}

impl Default for FindAllFilter {
    fn default() -> (f: Self)
        ensures
            !f.exclude_offscreen && !f.exclude_zero_size && !f.exclude_out_of_bounds,
            f.attribute_filters@.len() == 0,
    {
        FindAllFilter {
            exclude_offscreen: false,
            exclude_zero_size: false,
            exclude_out_of_bounds: false,
            attribute_filters: Vec::new(),
        }
    }
}

impl FindAllFilter {
    pub open spec fn all_disabled(&self) -> bool {
        !self.exclude_offscreen && !self.exclude_zero_size && !self.exclude_out_of_bounds
            && self.attribute_filters@.len() == 0
    }

    /// Whether the filter lets everything through.
    pub fn is_all_disabled(&self) -> (b: bool)
        ensures
            b == self.all_disabled(),
    {
        !self.exclude_offscreen && !self.exclude_zero_size && !self.exclude_out_of_bounds
            && self.attribute_filters.len() == 0
    }
}

/// The case-insensitive expression an attribute filter's value stands for.
pub open spec fn insensitive(v: Seq<char>) -> Seq<char> {
    "(?i)"@ + v
}

/// Whether an element passes one attribute filter.
pub open spec fn attribute_ok(a: AttrView, f: AttributeFilter) -> bool {
    let actual = attr_value(a, property_kind(f.property@));
    let v = f.value@;
    match f.operator {
        FilterOp::Eq => eq_ascii_ci(actual, v),
        FilterOp::NotEq => !eq_ascii_ci(actual, v),
        FilterOp::Contains => contains_seq(to_lower(actual), to_lower(v)),
        FilterOp::Regex => v.len() > 0 && regex_compiles(insensitive(v)) && regex_matches(insensitive(v), actual),
        FilterOp::Exists => actual.len() > 0,
    }
}

/// Whether an element passes every attribute filter.
pub open spec fn attributes_ok(a: AttrView, fs: Seq<AttributeFilter>) -> bool {
    forall|i: int| 0 <= i < fs.len() ==> attribute_ok(a, #[trigger] fs[i])
}

/// Whether an element passes one attribute filter.
pub fn attribute_filter_passes(a: &ElementAttributes, f: &AttributeFilter) -> (b: bool)
    ensures
        b == attribute_ok(a@, *f),
{
    let prop = XPathProperty::from_attr_name(f.property.as_str());
    let actual = property_value(a, &prop);
    match f.operator {
        FilterOp::Eq => eq_ignore_ascii_case(actual.as_str(), f.value.as_str()),
        FilterOp::NotEq => !eq_ignore_ascii_case(actual.as_str(), f.value.as_str()),
        FilterOp::Contains => {
            let al = lowercase(actual.as_str());
            let vl = lowercase(f.value.as_str());
            let av = chars_of(al.as_str());
            let vv = chars_of(vl.as_str());
            contains_chars(av.as_slice(), vv.as_slice())
        },
        FilterOp::Regex => {
            if f.value.as_str().is_empty() {
                return false;
            }
            let mut pattern = String::new();
            pattern.push_str("(?i)");
            pattern.push_str(f.value.as_str());
            proof {
                reveal_strlit("(?i)");
            }
            assert(pattern@ == insensitive(f.value@));
            match CompiledPattern::compile(pattern.as_str()) {
                Some(re) => re.is_match(actual.as_str()),
                None => false,
            }
        },
        FilterOp::Exists => !actual.as_str().is_empty(),
    }
}

/// Whether an element passes every attribute filter.
pub fn attribute_filters_pass(a: &ElementAttributes, filters: &Vec<AttributeFilter>) -> (b: bool)
    ensures
        b == attributes_ok(a@, filters@),
{
    let mut i: usize = 0;
    while i < filters.len()
        invariant
            i <= filters.len(),
            forall|k: int| 0 <= k < i ==> attribute_ok(a@, #[trigger] filters@[k]),
        decreases filters.len() - i,
    {
        if !attribute_filter_passes(a, &filters[i]) {
            return false;
        }
        i += 1;
    }
    true
}

/// The items of `s` whose mark in `keep` is set, in order.
pub open spec fn keep_marked<T>(s: Seq<T>, keep: Seq<bool>) -> Seq<T>
    decreases s.len(),
{
    if s.len() == 0 || keep.len() == 0 {
        seq![]
    } else {
        let rest = keep_marked(s.drop_first(), keep.drop_first());
        if keep[0] {
            seq![s[0]] + rest
        } else {
            rest
        }
    }
}

/// Keeps the items whose mark is set, in order.
pub fn filter_marked<T>(items: Vec<T>, keep: &Vec<bool>) -> (r: Vec<T>)
    requires
        keep@.len() == items@.len(),
    ensures
        r@ == keep_marked(items@, keep@),
{
    let ghost whole = items@;
    let n = items.len();
    let mut rest = items;
    let mut out: Vec<T> = Vec::new();
    let mut i: usize = 0;
    assert(rest@ =~= whole.skip(0));
    assert(keep@ =~= keep@.skip(0));
    assert(out@ + keep_marked(rest@, keep@.skip(0)) =~= keep_marked(whole, keep@));
    while i < n
        invariant
            i <= n,
            n == keep@.len(),
            rest@ == whole.skip(i as int),
            whole.len() == n,
            out@ + keep_marked(rest@, keep@.skip(i as int)) == keep_marked(whole, keep@),
        decreases n - i,
    {
        let ghost before = rest@;
        let ghost ks = keep@.skip(i as int);
        let x = rest.remove(0);
        assert(rest@ =~= whole.skip(i + 1));
        assert(ks.drop_first() =~= keep@.skip(i + 1));
        assert(before.drop_first() =~= rest@);
        assert(ks[0] == keep@[i as int]);
        if keep[i] {
            assert(out@.push(x) + keep_marked(rest@, keep@.skip(i + 1)) =~= out@ + (seq![x] + keep_marked(
                rest@,
                keep@.skip(i + 1),
            )));
            out.push(x);
        }
        i += 1;
    }
    assert(keep_marked(rest@, keep@.skip(n as int)) =~= seq![]);
    assert(out@ + seq![] =~= out@);
    out
}

/// What is read from an element to filter it: whether it is off screen and
/// its rectangle (each `None` when it could not be read), and its attributes.
#[derive(Debug, Clone)]
pub struct ElementProbe {
    pub is_offscreen: Option<bool>,
    pub rect: Option<SimpleRect>,
    pub attributes: ElementAttributes,
}

/// Whether an element passes the geometric part of a filter, given the
/// rectangle of the window searched (where it could be read). An element
/// whose rectangle cannot be read passes the size and bounds tests.
pub open spec fn geometry_ok(f: FindAllFilter, p: ElementProbe, window: Option<SimpleRect>) -> bool {
    if f.exclude_offscreen && p.is_offscreen == Some(true) {
        false
    } else if !(f.exclude_zero_size || f.exclude_out_of_bounds) {
        true
    } else {
        match p.rect {
            None => true,
            Some(r) => {
                &&& !(f.exclude_zero_size && (r.right - r.left <= 0 || r.bottom - r.top <= 0))
                &&& !(f.exclude_out_of_bounds && (window matches Some(w) && (r.right < w.left || r.bottom < w.top
                    || r.left > w.right || r.top > w.bottom)))
            },
        }
    }
}

/// Whether a `FindAll` filter keeps an element.
pub open spec fn filter_keeps(f: FindAllFilter, p: ElementProbe, window: Option<SimpleRect>) -> bool {
    geometry_ok(f, p, window) && attributes_ok(p.attributes@, f.attribute_filters@)
}

fn geometry_passes(f: &FindAllFilter, p: &ElementProbe, window: Option<SimpleRect>) -> (b: bool)
    ensures
        b == geometry_ok(*f, *p, window),
{
    if f.exclude_offscreen {
        if let Some(true) = p.is_offscreen {
            return false;
        }
    }
    if !(f.exclude_zero_size || f.exclude_out_of_bounds) {
        return true;
    }
    match p.rect {
        None => true,
        Some(r) => {
            let w: i64 = (r.right as i64) - (r.left as i64);
            let h: i64 = (r.bottom as i64) - (r.top as i64);
            if f.exclude_zero_size && (w <= 0 || h <= 0) {
                return false;
            }
            if f.exclude_out_of_bounds {
                if let Some(wr) = window {
                    if r.right < wr.left || r.bottom < wr.top || r.left > wr.right || r.top > wr.bottom {
                        return false;
                    }
                }
            }
            true
        },
    }
}

/// Cuts a `FindAll` result down by a filter: nothing is removed when the
/// filter is all disabled; otherwise the elements that pass the off-screen,
/// size and bounds tests and every attribute filter stay, in order.
/// `probes[i]` is what was read from `candidates[i]`.
/// The candidates a `FindAll` filter keeps: all of them when the filter is
/// switched off, else those whose probe passes it, in order.
pub open spec fn findall_kept<T>(candidates: Seq<T>, probes: Seq<ElementProbe>, window_rect: Option<SimpleRect>, filter: FindAllFilter) -> Seq<T> {
    if filter.all_disabled() {
        candidates
    } else {
        keep_marked(candidates, Seq::new(candidates.len(), |i: int| filter_keeps(filter, probes[i], window_rect)))
    }
}

/// Searching with no filter is searching with the default filter: the
/// default filter has every check switched off, and such a filter keeps
/// every candidate, in order.
pub proof fn lemma_default_filter_keeps_all<T>(
    candidates: Seq<T>,
    probes: Seq<ElementProbe>,
    window_rect: Option<SimpleRect>,
    filter: FindAllFilter,
)
    requires
        !filter.exclude_offscreen && !filter.exclude_zero_size && !filter.exclude_out_of_bounds,
        filter.attribute_filters@.len() == 0,
    ensures
        findall_kept(candidates, probes, window_rect, filter) == candidates,
{
}

pub fn filter_findall_results<T>(
    candidates: Vec<T>,
    probes: &Vec<ElementProbe>,
    window_rect: Option<SimpleRect>,
    filter: &FindAllFilter,
) -> (r: Vec<T>)
    requires
        probes@.len() == candidates@.len(),
    ensures
        r@ == findall_kept(candidates@, probes@, window_rect, *filter),
{
    if filter.is_all_disabled() {
        return candidates;
    }
    let n = candidates.len();
    let mut keep: Vec<bool> = Vec::new();
    let mut i: usize = 0;
    while i < n
        invariant
            i <= n,
            n == probes@.len(),
            keep@.len() == i,
            forall|k: int| 0 <= k < i ==> keep@[k] == filter_keeps(*filter, #[trigger] probes@[k], window_rect),
        decreases n - i,
    {
        let ok = geometry_passes(filter, &probes[i], window_rect) && attribute_filters_pass(
            &probes[i].attributes,
            &filter.attribute_filters,
        );
        keep.push(ok);
        i += 1;
    }
    assert(keep@ =~= Seq::new(n as nat, |i: int| filter_keeps(*filter, probes@[i], window_rect)));
    filter_marked(candidates, &keep)
}

} // verus!
