//! XPath steps: the axis prefix of a step, its node test and predicates, and
//! the execution strategy each prefix selects.
use vstd::prelude::*;
use crate::model::{join_strings, join_with};
use crate::grammar::{
    all_tests, char_at, char_end, lead_run_len, scan_all, scanned_as, skip_to_char, trail_run_end,
    trim_end_char, trim_start_char, PredMatch, ScanMatch,
};
use crate::pattern::{regex_compiles, CompiledPattern};
use crate::text::{
    char_is_uppercase, chars_of, contains_chars, is_uppercase, contains_seq, copy_range, is_ascii_digit, push_range, starts_with_lit,
    string_of,
};

verus! {

/// The axis prefix of a step.
#[derive(Debug, Clone, Copy, PartialEq, Eq, Structural)]
pub enum XPathStepPrefix {
    /// `/A`: direct children.
    Child,
    /// `//A` (or no prefix): all descendants.
    Descendant,
    /// `/*n/A`: descendants down to `max_depth` levels.
    DepthLimited { max_depth: u32 },
}

/// How a step is executed.
#[derive(Debug, Clone, Copy, PartialEq, Eq, Structural)]
pub enum StepExecutionStrategy {
    DirectChild,
    Descendant,
    DepthLimitedBfs { max_depth: u32 },
}

pub open spec fn strategy_for(p: XPathStepPrefix) -> StepExecutionStrategy {
    match p {
        XPathStepPrefix::Child => StepExecutionStrategy::DirectChild,
        XPathStepPrefix::Descendant => StepExecutionStrategy::Descendant,
        XPathStepPrefix::DepthLimited { max_depth } => StepExecutionStrategy::DepthLimitedBfs {
            max_depth,
        },
    }
}

impl StepExecutionStrategy {
    /// The strategy a step prefix selects.
    pub fn from(prefix: &XPathStepPrefix) -> (r: Self)
        ensures
            r == strategy_for(*prefix),
    {
        match prefix {
            XPathStepPrefix::Child => StepExecutionStrategy::DirectChild,
            XPathStepPrefix::Descendant => StepExecutionStrategy::Descendant,
            XPathStepPrefix::DepthLimited { max_depth } => StepExecutionStrategy::DepthLimitedBfs {
                max_depth: *max_depth,
            },
        }
    }
}

/// An element property named in a predicate.
#[derive(Debug, Clone, PartialEq, Eq)]
pub enum XPathProperty {
    Name,
    AutomationId,
    ClassName,
    FrameworkId,
    ControlType,
    Other(String),
}

/// The mathematical value of an `XPathProperty`.
pub enum PropertyKind {
    Name,
    AutomationId,
    ClassName,
    FrameworkId,
    ControlType,
    Other(Seq<char>),
}

impl View for XPathProperty {
    type V = PropertyKind;

    open spec fn view(&self) -> PropertyKind {
        match self {
            XPathProperty::Name => PropertyKind::Name,
            XPathProperty::AutomationId => PropertyKind::AutomationId,
            XPathProperty::ClassName => PropertyKind::ClassName,
            XPathProperty::FrameworkId => PropertyKind::FrameworkId,
            XPathProperty::ControlType => PropertyKind::ControlType,
            XPathProperty::Other(s) => PropertyKind::Other(s@),
        }
    }
}

/// The property an attribute name denotes.
pub open spec fn property_kind(name: Seq<char>) -> PropertyKind {
    if name == "Name"@ {
        PropertyKind::Name
    } else if name == "AutomationId"@ {
        PropertyKind::AutomationId
    } else if name == "ClassName"@ {
        PropertyKind::ClassName
    } else if name == "FrameworkId"@ {
        PropertyKind::FrameworkId
    } else if name == "ControlType"@ {
        PropertyKind::ControlType
    } else {
        PropertyKind::Other(name)
    }
}

/// The attribute name of a property.
pub open spec fn kind_name(k: PropertyKind) -> Seq<char> {
    match k {
        PropertyKind::Name => "Name"@,
        PropertyKind::AutomationId => "AutomationId"@,
        PropertyKind::ClassName => "ClassName"@,
        PropertyKind::FrameworkId => "FrameworkId"@,
        PropertyKind::ControlType => "ControlType"@,
        PropertyKind::Other(s) => s,
    }
}

impl XPathProperty {
    /// The property named `name` (`Other` for names outside the known five).
    pub fn from_attr_name(name: &str) -> (r: Self)
        ensures
            r@ == property_kind(name@),
    {
        if crate::model::str_eq(name, "Name") {
            XPathProperty::Name
        } else if crate::model::str_eq(name, "AutomationId") {
            XPathProperty::AutomationId
        } else if crate::model::str_eq(name, "ClassName") {
            XPathProperty::ClassName
        } else if crate::model::str_eq(name, "FrameworkId") {
            XPathProperty::FrameworkId
        } else if crate::model::str_eq(name, "ControlType") {
            XPathProperty::ControlType
        } else {
            XPathProperty::Other(name.to_string())
        }
    }

    /// The attribute name of the property.
    pub fn as_attr_name(&self) -> (s: &str)
        ensures
            s@ == kind_name(self@),
    {
        match self {
            XPathProperty::Name => "Name",
            XPathProperty::AutomationId => "AutomationId",
            XPathProperty::ClassName => "ClassName",
            XPathProperty::FrameworkId => "FrameworkId",
            XPathProperty::ControlType => "ControlType",
            XPathProperty::Other(s) => s.as_str(),
        }
    }
}

/// The value of an ASCII digit string.
pub open spec fn digits_value(d: Seq<char>) -> nat
    decreases d.len(),
{
    if d.len() == 0 {
        0
    } else {
        digits_value(d.drop_last()) * 10 + ((d.last() as int) - ('0' as int)) as nat
    }
}

/// The first position at or after `i` that does not hold an ASCII digit.
pub open spec fn digit_end(s: Seq<char>, i: int) -> int
    decreases s.len() - i,
{
    if 0 <= i < s.len() && is_ascii_digit(s[i]) {
        digit_end(s, i + 1)
    } else {
        i
    }
}

/// The depth limit written in a `/*n` prefix: `n + 1` when `n` is a number
/// that fits in `u32`, 2 otherwise (also when no digits are written).
pub open spec fn depth_limit(s: Seq<char>) -> u32 {
    let d = digit_end(s, 2);
    if d > 2 && digits_value(s.subrange(2, d)) <= u32::MAX {
        (digits_value(s.subrange(2, d)) + 1) as u32
    } else {
        2
    }
}

/// The digits of a `/*n` prefix spell `u32::MAX`, where adding one overflows.
pub open spec fn depth_overflows(s: Seq<char>) -> bool {
    &&& "/*"@.is_prefix_of(s)
    &&& digit_end(s, 2) > 2
    &&& digits_value(s.subrange(2, digit_end(s, 2))) == u32::MAX
}

/// The axis prefix of a step and the position where the rest begins:
/// `//`, then `/*` with optional digits and an optional `/`, then `/`;
/// a step without any of these is a descendant step.
pub open spec fn step_prefix(s: Seq<char>) -> (XPathStepPrefix, int) {
    if "//"@.is_prefix_of(s) {
        (XPathStepPrefix::Descendant, 2)
    } else if "/*"@.is_prefix_of(s) {
        let d = digit_end(s, 2);
        (
            XPathStepPrefix::DepthLimited { max_depth: depth_limit(s) },
            if char_at(s, d, '/') {
                d + 1
            } else {
                d
            },
        )
    } else if "/"@.is_prefix_of(s) {
        (XPathStepPrefix::Child, 1)
    } else {
        (XPathStepPrefix::Descendant, 0)
    }
}

proof fn lemma_digit_end(s: Seq<char>, i: int)
    requires
        0 <= i <= s.len(),
    ensures
        i <= digit_end(s, i) <= s.len(),
        forall|k: int| i <= k < digit_end(s, i) ==> is_ascii_digit(#[trigger] s[k]),
    decreases s.len() - i,
{
    if i < s.len() && is_ascii_digit(s[i]) {
        lemma_digit_end(s, i + 1);
    }
}

/// Parses the axis prefix of `v`: the prefix and where the rest begins.
pub fn parse_step_prefix(v: &[char]) -> (r: (XPathStepPrefix, usize))
    requires
        !depth_overflows(v@),
    ensures
        r.0 == step_prefix(v@).0,
        r.1 as int == step_prefix(v@).1,
        r.1 <= v.len(),
{
    proof {
        reveal_strlit("//");
        reveal_strlit("/*");
        reveal_strlit("/");
    }
    let n = v.len();
    if n >= 2 && v[0] == '/' && v[1] == '/' {
        assert("//"@.is_prefix_of(v@)) by {
            assert(v@.subrange(0, 2) =~= "//"@);
        }
        return (XPathStepPrefix::Descendant, 2);
    }
    assert(!"//"@.is_prefix_of(v@)) by {
        if "//"@.is_prefix_of(v@) {
            assert(v@[0] == "//"@[0] && v@[1] == "//"@[1]);
        }
    }
    if n >= 2 && v[0] == '/' && v[1] == '*' {
        assert("/*"@.is_prefix_of(v@)) by {
            assert(v@.subrange(0, 2) =~= "/*"@);
        }
        let mut j: usize = 2;
        let mut val: u64 = 0;
        let mut over = false;
        while j < n && '0' <= v[j] && v[j] <= '9'
            invariant
                2 <= j <= n,
                n == v.len(),
                digit_end(v@, j as int) == digit_end(v@, 2),
                !over ==> val == digits_value(v@.subrange(2, j as int)),
                !over ==> val <= u32::MAX,
                over ==> digits_value(v@.subrange(2, j as int)) > u32::MAX,
            decreases n - j,
        {
            let d = v[j];
            let ghost before = v@.subrange(2, j as int);
            assert(v@.subrange(2, j + 1).drop_last() =~= before);
            assert(v@.subrange(2, j + 1).last() == d);
            if !over {
                let dv: u64 = (d as u64) - ('0' as u64);
                let nv = val * 10 + dv;
                if nv > 4294967295u64 {
                    over = true;
                } else {
                    val = nv;
                }
            }
            j += 1;
        }
        proof {
            lemma_digit_end(v@, 2);
        }
        let max_depth: u32 = if j > 2 && !over {
            assert(val < u32::MAX) by {
                assert(digit_end(v@, 2) == j);
            }
            (val + 1) as u32
        } else {
            2
        };
        let rest = if j < n && v[j] == '/' {
            j + 1
        } else {
            j
        };
        return (XPathStepPrefix::DepthLimited { max_depth }, rest);
    }
    assert(!"/*"@.is_prefix_of(v@)) by {
        if "/*"@.is_prefix_of(v@) {
            assert(v@[0] == "/*"@[0] && v@[1] == "/*"@[1]);
        }
    }
    if n >= 1 && v[0] == '/' {
        assert("/"@.is_prefix_of(v@)) by {
            assert(v@.subrange(0, 1) =~= "/"@);
        }
        return (XPathStepPrefix::Child, 1);
    }
    assert(!"/"@.is_prefix_of(v@)) by {
        if "/"@.is_prefix_of(v@) {
            assert(v@[0] == "/"@[0]);
        }
    }
    (XPathStepPrefix::Descendant, 0)
}

/// The node test and predicate text after a step's prefix: a leading `[`
/// means no node test; otherwise the node test runs to the first `[`.
pub open spec fn split_type(rest: Seq<char>) -> (Option<Seq<char>>, Seq<char>) {
    if char_at(rest, 0, '[') {
        (None, rest)
    } else {
        let b = char_end(rest, 0, '[');
        if b < rest.len() {
            (Some(rest.take(b)), rest.skip(b))
        } else if rest.len() == 0 {
            (None, seq![])
        } else {
            (Some(rest), seq![])
        }
    }
}

/// A `String` holding `v[from..to]`.
pub fn string_of_range(v: &[char], from: usize, to: usize) -> (s: String)
    requires
        from <= to <= v.len(),
    ensures
        s@ == v@.subrange(from as int, to as int),
{
    let mut s = String::new();
    push_range(&mut s, v, from, to);
    assert(s@ =~= v@.subrange(from as int, to as int));
    s
}

/// Splits `v[from..]` into its node test and the start of its predicate text.
pub fn split_type_at(v: &[char], from: usize) -> (r: (Option<String>, usize))
    requires
        from <= v.len(),
    ensures
        from <= r.1 <= v.len(),
        split_type(v@.skip(from as int)).1 == v@.skip(r.1 as int),
        split_type(v@.skip(from as int)).0 == match r.0 {
            Some(t) => Some(t@),
            None => None::<Seq<char>>,
        },
{
    let ghost rest = v@.skip(from as int);
    if from < v.len() && v[from] == '[' {
        return (None, from);
    }
    let b = skip_to_char(v, from, '[');
    proof {
        crate::grammar::lemma_char_end(v@, from as int, '[');
        crate::grammar::lemma_char_end(rest, 0, '[');
        assert forall|k: int| 0 <= k < rest.len() implies rest[k] == v@[k + from] by {}
        // the first `[` of the rest is the first `[` of `v` after `from`
        let br = char_end(rest, 0, '[');
        if br + from < b {
            assert(v@[br + from] == rest[br]);
        }
        if b - from < br {
            assert(rest[b - from] == v@[b as int]);
        }
        assert(br == b - from);
    }
    if b < v.len() {
        assert(rest.take(b - from) =~= v@.subrange(from as int, b as int));
        assert(rest.skip(b - from) =~= v@.skip(b as int));
        (Some(string_of_range(v, from, b)), b)
    } else if from == v.len() {
        (None, v.len())
    } else {
        assert(rest =~= v@.subrange(from as int, v.len() as int));
        assert(v@.skip(v.len() as int) =~= Seq::<char>::empty());
        (Some(string_of_range(v, from, v.len())), v.len())
    }
}

/// A reverse axis named in a predicate.
#[derive(Debug, Clone, Copy, PartialEq, Eq, Structural)]
pub enum ReverseAxisKind {
    Parent,
    Ancestor,
    AncestorOrSelf,
    PrecedingSibling,
    Preceding,
}

/// A reverse-axis predicate such as `parent::Group[@AutomationId='x']`.
pub struct ReverseAxisPredicate {
    pub axis: ReverseAxisKind,
    /// The control type the related node must have.
    pub control_type: Option<String>,
    /// The exact attribute values the related node must have.
    pub required_props: Vec<(XPathProperty, String)>,
}

pub struct ReverseView {
    pub axis: ReverseAxisKind,
    pub control_type: Option<Seq<char>>,
    pub required_props: Seq<(PropertyKind, Seq<char>)>,
}

pub open spec fn opt_view(o: Option<String>) -> Option<Seq<char>> {
    match o {
        Some(t) => Some(t@),
        None => None,
    }
}

pub open spec fn props_view(v: Seq<(XPathProperty, String)>) -> Seq<(PropertyKind, Seq<char>)> {
    v.map_values(|p: (XPathProperty, String)| (p.0@, p.1@))
}

impl View for ReverseAxisPredicate {
    type V = ReverseView;

    open spec fn view(&self) -> ReverseView {
        ReverseView {
            axis: self.axis,
            control_type: opt_view(self.control_type),
            required_props: props_view(self.required_props@),
        }
    }
}

pub open spec fn reverse_views(v: Seq<ReverseAxisPredicate>) -> Seq<ReverseView> {
    v.map_values(|p: ReverseAxisPredicate| p@)
}

/// The `@Attr='value'` tests of predicate text, as property and value.
pub open spec fn eq_props(s: Seq<char>) -> Seq<(PropertyKind, Seq<char>)> {
    all_tests(s, None).map_values(|m: PredMatch| (property_kind(m.attr), m.value))
}

/// The tests of one function kind, as property and value.
pub open spec fn func_props(s: Seq<char>, call: Seq<char>) -> Seq<(PropertyKind, Seq<char>)> {
    all_tests(s, Some((call, false))).map_values(|m: PredMatch| (property_kind(m.attr), m.value))
}

/// Turns scanned tests into property/value pairs.
fn collect_props(v: &[char], ms: &Vec<ScanMatch>, Ghost(found): Ghost<Seq<PredMatch>>) -> (r: Vec<(XPathProperty, String)>)
    requires
        scanned_as(ms@, v@, found),
    ensures
        props_view(r@) == found.map_values(|m: PredMatch| (property_kind(m.attr), m.value)),
{
    let mut r: Vec<(XPathProperty, String)> = Vec::new();
    let mut i: usize = 0;
    while i < ms.len()
        invariant
            i <= ms.len(),
            scanned_as(ms@, v@, found),
            props_view(r@) == found.take(i as int).map_values(|m: PredMatch| (property_kind(m.attr), m.value)),
        decreases ms.len() - i,
    {
        let m = ms[i];
        assert(ms@[i as int].wf(v@.len()));
        let name = string_of_range(v, m.attr_start, m.attr_end);
        let value = string_of_range(v, m.value_start, m.value_end);
        let prop = XPathProperty::from_attr_name(name.as_str());
        let ghost before = r@;
        let ghost pair = (prop@, value@);
        assert(m.in_text(v@) == found[i as int]);
        assert(pair == (property_kind(found[i as int].attr), found[i as int].value));
        r.push((prop, value));
        assert(props_view(r@) =~= props_view(before).push(pair));
        i += 1;
        assert(found.take(i as int) =~= found.take(i - 1).push(found[i - 1]));
        assert(props_view(r@) =~= found.take(i as int).map_values(|m: PredMatch| (property_kind(m.attr), m.value)));
    }
    assert(found.take(ms.len() as int) =~= found);
    r
}

/// The reverse-axis kind and target text of a predicate `[axis::target]`
/// (outer brackets removed first), or `None` when it names no reverse axis.
pub open spec fn detect_axis(pred: Seq<char>) -> Option<(ReverseAxisKind, Seq<char>)> {
    let inner = trim_end_char(trim_start_char(pred, '['), ']');
    if "parent::"@.is_prefix_of(inner) {
        Some((ReverseAxisKind::Parent, inner.skip("parent::"@.len() as int)))
    } else if "ancestor-or-self::"@.is_prefix_of(inner) {
        Some((ReverseAxisKind::AncestorOrSelf, inner.skip("ancestor-or-self::"@.len() as int)))
    } else if "ancestor::"@.is_prefix_of(inner) {
        Some((ReverseAxisKind::Ancestor, inner.skip("ancestor::"@.len() as int)))
    } else if "preceding-sibling::"@.is_prefix_of(inner) {
        Some((ReverseAxisKind::PrecedingSibling, inner.skip("preceding-sibling::"@.len() as int)))
    } else if "preceding::"@.is_prefix_of(inner) {
        Some((ReverseAxisKind::Preceding, inner.skip("preceding::"@.len() as int)))
    } else {
        None
    }
}

/// The node named by a reverse-axis target such as `Group[@AutomationId='x']`.
pub open spec fn reverse_node(axis: ReverseAxisKind, body: Seq<char>) -> ReverseView {
    let (tn, preds) = split_type(body);
    ReverseView { axis, control_type: tn, required_props: eq_props(preds) }
}

/// Finds the reverse axis of a predicate `pred`: its kind and target text.
fn detect_reverse_axis(pred: &[char]) -> (r: Option<(ReverseAxisKind, Vec<char>)>)
    ensures
        match detect_axis(pred@) {
            Some((k, body)) => r matches Some((rk, rb)) && rk == k && rb@ == body,
            None => r is None,
        },
{
    let a = lead_run_len(pred, '[');
    let b = trail_run_end(pred, a, ']');
    let inner = copy_range(pred, a, b);
    assert(inner@ == trim_end_char(trim_start_char(pred@, '['), ']')) by {
        assert(pred@.skip(a as int) =~= pred@.subrange(a as int, pred@.len() as int));
    }
    proof {
        reveal_strlit("parent::");
        reveal_strlit("ancestor-or-self::");
        reveal_strlit("ancestor::");
        reveal_strlit("preceding-sibling::");
        reveal_strlit("preceding::");
    }
    let n = inner.len();
    if starts_with_lit(inner.as_slice(), "parent::") {
        Some((ReverseAxisKind::Parent, copy_range(inner.as_slice(), 8, n)))
    } else if starts_with_lit(inner.as_slice(), "ancestor-or-self::") {
        Some((ReverseAxisKind::AncestorOrSelf, copy_range(inner.as_slice(), 18, n)))
    } else if starts_with_lit(inner.as_slice(), "ancestor::") {
        Some((ReverseAxisKind::Ancestor, copy_range(inner.as_slice(), 10, n)))
    } else if starts_with_lit(inner.as_slice(), "preceding-sibling::") {
        Some((ReverseAxisKind::PrecedingSibling, copy_range(inner.as_slice(), 19, n)))
    } else if starts_with_lit(inner.as_slice(), "preceding::") {
        Some((ReverseAxisKind::Preceding, copy_range(inner.as_slice(), 11, n)))
    } else {
        None
    }
}

/// The `@Attr='value'` tests of `v[from..]`.
fn eq_props_from(v: &[char], from: usize) -> (r: Vec<(XPathProperty, String)>)
    requires
        from <= v.len(),
    ensures
        props_view(r@) == eq_props(v@.skip(from as int)),
{
    let preds = copy_range(v, from, v.len());
    assert(preds@ =~= v@.skip(from as int));
    let ms = scan_all(preds.as_slice(), None);
    collect_props(preds.as_slice(), &ms, Ghost(all_tests(preds@, None)))
}

/// Parses the target of a reverse-axis predicate.
fn parse_reverse_axis_node(axis: ReverseAxisKind, body: &[char]) -> (r: ReverseAxisPredicate)
    ensures
        r@ == reverse_node(axis, body@),
{
    let (control_type, ps) = split_type_at(body, 0);
    assert(body@.skip(0) =~= body@);
    let required_props = eq_props_from(body, ps);
    ReverseAxisPredicate { axis, control_type, required_props }
}

/// Scans predicate text `s[i..]` bracket by bracket: `depth` counts open
/// brackets and `start` is where the current top-level predicate began.
/// Top-level predicates that name a reverse axis are collected; the others
/// are kept as text.
pub open spec fn strip_scan(s: Seq<char>, i: int, depth: int, start: int) -> (Seq<char>, Seq<ReverseView>)
    decreases s.len() - i,
{
    if i < 0 || i >= s.len() {
        (seq![], seq![])
    } else {
        let c = s[i];
        let nd = if c == '[' {
            depth + 1
        } else if c == ']' {
            depth - 1
        } else {
            depth
        };
        let ns = if c == '[' && depth == 0 {
            i
        } else {
            start
        };
        let tail = strip_scan(s, i + 1, nd, ns);
        if nd == 0 && c == ']' {
            let pred = s.subrange(ns, i + 1);
            match detect_axis(pred) {
                Some((axis, body)) => (tail.0, seq![reverse_node(axis, body)] + tail.1),
                None => (pred + tail.0, tail.1),
            }
        } else {
            tail
        }
    }
}

/// The predicate text without its reverse-axis predicates, and those predicates.
pub open spec fn strip_reverse(s: Seq<char>) -> (Seq<char>, Seq<ReverseView>) {
    strip_scan(s, 0, 0, 0)
}

fn strip_and_collect_reverse_axis_predicates(v: &[char]) -> (r: (String, Vec<ReverseAxisPredicate>))
    ensures
        r.0@ == strip_reverse(v@).0,
        reverse_views(r.1@) == strip_reverse(v@).1,
{
    let mut kept = String::new();
    let mut found: Vec<ReverseAxisPredicate> = Vec::new();
    let mut depth: i128 = 0;
    let mut start: usize = 0;
    let mut i: usize = 0;
    while i < v.len()
        invariant
            i <= v.len(),
            -(i as int) <= depth <= i,
            depth >= 1 ==> start < i,
            kept@ + strip_scan(v@, i as int, depth as int, start as int).0 == strip_reverse(v@).0,
            reverse_views(found@) + strip_scan(v@, i as int, depth as int, start as int).1 == strip_reverse(v@).1,
        decreases v.len() - i,
    {
        let c = v[i];
        let ghost tail_before = strip_scan(v@, i as int, depth as int, start as int);
        if c == '[' {
            if depth == 0 {
                start = i;
            }
            depth += 1;
        } else if c == ']' {
            depth -= 1;
        }
        let ghost tail = strip_scan(v@, i + 1, depth as int, start as int);
        if depth == 0 && c == ']' {
            let pred = copy_range(v, start, i + 1);
            match detect_reverse_axis(pred.as_slice()) {
                Some((axis, body)) => {
                    let node = parse_reverse_axis_node(axis, body.as_slice());
                    let ghost before = found@;
                    found.push(node);
                    assert(reverse_views(found@) =~= reverse_views(before).push(node@));
                    assert(reverse_views(found@) + tail.1 =~= reverse_views(before) + (seq![node@] + tail.1));
                },
                None => {
                    let ghost before = kept@;
                    push_range(&mut kept, v, start, i + 1);
                    assert(kept@ + tail.0 =~= before + (v@.subrange(start as int, i + 1) + tail.0));
                },
            }
        }
        i += 1;
    }
    assert(kept@ + Seq::<char>::empty() =~= kept@);
    assert(reverse_views(found@) + Seq::<ReverseView>::empty() =~= reverse_views(found@));
    (kept, found)
}

/// A parsed XPath step.
pub struct ParsedXPathStep {
    pub prefix: XPathStepPrefix,
    /// The node test (control type), absent for `[...]` and wildcard steps.
    pub control_type: Option<String>,
    /// `@Attr='value'` tests.
    pub required_props: Vec<(XPathProperty, String)>,
    /// `starts-with` tests.
    pub require_starts_with: Vec<(XPathProperty, String)>,
    /// `contains` tests.
    pub require_contains: Vec<(XPathProperty, String)>,
    /// `matches` tests whose pattern compiled.
    pub require_matches: Vec<(XPathProperty, CompiledPattern)>,
    /// The predicates use `or`, `not(` or a reverse axis.
    pub is_complex: bool,
    /// The reverse-axis predicates taken out of the step.
    pub reverse_axis_predicates: Vec<ReverseAxisPredicate>,
}

pub struct StepView {
    pub prefix: XPathStepPrefix,
    pub control_type: Option<Seq<char>>,
    pub required_props: Seq<(PropertyKind, Seq<char>)>,
    pub require_starts_with: Seq<(PropertyKind, Seq<char>)>,
    pub require_contains: Seq<(PropertyKind, Seq<char>)>,
    /// Property and full pattern of each compiled `matches` test.
    pub require_matches: Seq<(PropertyKind, Seq<char>)>,
    pub is_complex: bool,
    pub reverse_axis_predicates: Seq<ReverseView>,
}

pub open spec fn patterns_view(v: Seq<(XPathProperty, CompiledPattern)>) -> Seq<(PropertyKind, Seq<char>)> {
    v.map_values(|p: (XPathProperty, CompiledPattern)| (p.0@, p.1.pattern()))
}

impl View for ParsedXPathStep {
    type V = StepView;

    open spec fn view(&self) -> StepView {
        StepView {
            prefix: self.prefix,
            control_type: opt_view(self.control_type),
            required_props: props_view(self.required_props@),
            require_starts_with: props_view(self.require_starts_with@),
            require_contains: props_view(self.require_contains@),
            require_matches: patterns_view(self.require_matches@),
            is_complex: self.is_complex,
            reverse_axis_predicates: reverse_views(self.reverse_axis_predicates@),
        }
    }
}

/// The regular expression a `matches` test compiles: case-insensitive when no
/// flags are given, otherwise with the given flags.
pub open spec fn full_pattern(m: PredMatch) -> Seq<char> {
    if m.flags.len() == 0 {
        "(?i)"@ + m.value
    } else {
        "(?"@ + m.flags + ")"@ + m.value
    }
}

/// The `matches` tests whose full pattern compiles, as property and pattern.
pub open spec fn compiled_matches(ms: Seq<PredMatch>) -> Seq<(PropertyKind, Seq<char>)>
    decreases ms.len(),
{
    if ms.len() == 0 {
        seq![]
    } else {
        let rest = compiled_matches(ms.drop_last());
        let m = ms.last();
        if regex_compiles(full_pattern(m)) {
            rest.push((property_kind(m.attr), full_pattern(m)))
        } else {
            rest
        }
    }
}

/// The predicate text names a reverse axis.
pub open spec fn has_reverse_axis(p: Seq<char>) -> bool {
    ||| contains_seq(p, "ancestor::"@)
    ||| contains_seq(p, "ancestor-or-self::"@)
    ||| contains_seq(p, "parent::"@)
    ||| contains_seq(p, "preceding-sibling::"@)
    ||| contains_seq(p, "preceding::"@)
}

/// The predicate text uses `or` or `not(`, which attribute tests cannot express.
pub open spec fn has_or_not(p: Seq<char>) -> bool {
    contains_seq(p, " or "@) || contains_seq(p, "not("@)
}

/// The parse of step `s`.
pub open spec fn parsed_step(s: Seq<char>) -> StepView {
    let (prefix, k) = step_prefix(s);
    let (ct, preds) = split_type(s.skip(k));
    let rev = has_reverse_axis(preds);
    let (eff, revs) = if rev {
        strip_reverse(preds)
    } else {
        (preds, seq![])
    };
    if has_or_not(preds) {
        StepView {
            prefix,
            control_type: ct,
            required_props: seq![],
            require_starts_with: seq![],
            require_contains: seq![],
            require_matches: seq![],
            is_complex: true,
            reverse_axis_predicates: revs,
        }
    } else {
        StepView {
            prefix,
            control_type: ct,
            required_props: eq_props(eff),
            require_starts_with: func_props(eff, "starts-with("@),
            require_contains: func_props(eff, "contains("@),
            require_matches: compiled_matches(all_tests(eff, Some(("matches("@, true)))),
            is_complex: rev,
            reverse_axis_predicates: revs,
        }
    }
}

/// Whether `v` contains the characters of the literal `p`.
fn contains_lit(v: &[char], p: &str) -> (b: bool)
    ensures
        b == contains_seq(v@, p@),
{
    let pv = chars_of(p);
    contains_chars(v, pv.as_slice())
}

/// Compiles the `matches` tests.
fn collect_patterns(v: &[char], ms: &Vec<ScanMatch>, Ghost(found): Ghost<Seq<PredMatch>>) -> (r: Vec<(XPathProperty, CompiledPattern)>)
    requires
        scanned_as(ms@, v@, found),
    ensures
        patterns_view(r@) == compiled_matches(found),
{
    proof {
        reveal_strlit("(?i)");
        reveal_strlit("(?");
        reveal_strlit(")");
    }
    let mut r: Vec<(XPathProperty, CompiledPattern)> = Vec::new();
    let mut i: usize = 0;
    while i < ms.len()
        invariant
            i <= ms.len(),
            scanned_as(ms@, v@, found),
            patterns_view(r@) == compiled_matches(found.take(i as int)),
        decreases ms.len() - i,
    {
        let m = ms[i];
        assert(ms@[i as int].wf(v@.len()));
        assert(m.in_text(v@) == found[i as int]);
        let mut full = String::new();
        if m.flags_start == m.flags_end {
            full.push_str("(?i)");
        } else {
            full.push_str("(?");
            push_range(&mut full, v, m.flags_start, m.flags_end);
            full.push_str(")");
        }
        push_range(&mut full, v, m.value_start, m.value_end);
        assert(full@ =~= full_pattern(found[i as int]));
        let name = string_of_range(v, m.attr_start, m.attr_end);
        let prop = XPathProperty::from_attr_name(name.as_str());
        assert(found.take(i + 1).drop_last() =~= found.take(i as int));
        assert(found.take(i + 1).last() == found[i as int]);
        match CompiledPattern::compile(full.as_str()) {
            Some(p) => {
                let ghost before = r@;
                let ghost pair = (prop@, p.pattern());
                r.push((prop, p));
                assert(patterns_view(r@) =~= patterns_view(before).push(pair));
            },
            None => {},
        }
        i += 1;
    }
    assert(found.take(ms.len() as int) =~= found);
    r
}

/// The tests of one function kind in `v`, as property and value.
fn func_props_of(v: &[char], call: &str) -> (r: Vec<(XPathProperty, String)>)
    ensures
        props_view(r@) == func_props(v@, call@),
{
    let cv = chars_of(call);
    let ms = scan_all(v, Some((cv.as_slice(), false)));
    collect_props(v, &ms, Ghost(all_tests(v@, Some((call@, false)))))
}

/// Parses one XPath step (`/A[...]`, `//A[...]`, `/*n/A[...]` or `A[...]`).
pub fn parse_xpath_step(step: &str) -> (r: ParsedXPathStep)
    requires
        !depth_overflows(step@),
    ensures
        r@ == parsed_step(step@),
{
    let v = chars_of(step);
    let (prefix, k) = parse_step_prefix(v.as_slice());
    let (control_type, ps) = split_type_at(v.as_slice(), k);
    let preds = copy_range(v.as_slice(), ps, v.len());
    assert(preds@ =~= v@.skip(ps as int));
    let rev = contains_lit(preds.as_slice(), "ancestor::") || contains_lit(preds.as_slice(), "ancestor-or-self::")
        || contains_lit(preds.as_slice(), "parent::") || contains_lit(preds.as_slice(), "preceding-sibling::")
        || contains_lit(preds.as_slice(), "preceding::");
    let (eff, reverse_axis_predicates) = if rev {
        let (kept, found) = strip_and_collect_reverse_axis_predicates(preds.as_slice());
        (chars_of(kept.as_str()), found)
    } else {
        let e = copy_range(preds.as_slice(), 0, preds.len());
        assert(e@ =~= preds@);
        let none: Vec<ReverseAxisPredicate> = Vec::new();
        assert(reverse_views(none@) =~= Seq::<ReverseView>::empty());
        (e, none)
    };
    if contains_lit(preds.as_slice(), " or ") || contains_lit(preds.as_slice(), "not(") {
        let r = ParsedXPathStep {
            prefix,
            control_type,
            required_props: Vec::new(),
            require_starts_with: Vec::new(),
            require_contains: Vec::new(),
            require_matches: Vec::new(),
            is_complex: true,
            reverse_axis_predicates,
        };
        assert(r@ =~= parsed_step(step@)) by {
            assert(props_view(r.required_props@) =~= Seq::<(PropertyKind, Seq<char>)>::empty());
            assert(props_view(r.require_starts_with@) =~= Seq::<(PropertyKind, Seq<char>)>::empty());
            assert(props_view(r.require_contains@) =~= Seq::<(PropertyKind, Seq<char>)>::empty());
            assert(patterns_view(r.require_matches@) =~= Seq::<(PropertyKind, Seq<char>)>::empty());
        }
        return r;
    }
    let eq_ms = scan_all(eff.as_slice(), None);
    let required_props = collect_props(eff.as_slice(), &eq_ms, Ghost(all_tests(eff@, None)));
    let require_starts_with = func_props_of(eff.as_slice(), "starts-with(");
    let require_contains = func_props_of(eff.as_slice(), "contains(");
    let mcall = chars_of("matches(");
    let m_ms = scan_all(eff.as_slice(), Some((mcall.as_slice(), true)));
    let require_matches = collect_patterns(eff.as_slice(), &m_ms, Ghost(all_tests(eff@, Some(("matches("@, true)))));
    ParsedXPathStep {
        prefix,
        control_type,
        required_props,
        require_starts_with,
        require_contains,
        require_matches,
        is_complex: rev,
        reverse_axis_predicates,
    }
}

/// The step has tests that a plain property condition cannot express.
pub open spec fn complex_predicates(s: StepView) -> bool {
    s.is_complex || s.require_starts_with.len() > 0 || s.require_contains.len() > 0
        || s.require_matches.len() > 0
}

pub fn step_has_complex_predicates(step: &ParsedXPathStep) -> (b: bool)
    ensures
        b == complex_predicates(step@),
{
    step.is_complex || step.require_starts_with.len() > 0 || step.require_contains.len() > 0
        || step.require_matches.len() > 0
}

/// The first position at or after `i` that holds `/` (or the end).
pub open spec fn slash_end(s: Seq<char>, i: int) -> int {
    char_end(s, i, '/')
}

/// The step that starts at `i`, as the position where it ends: an axis
/// (`//` or `/`) followed by at least one character other than `/`. A
/// depth prefix `/*N` is a step of its own.
pub open spec fn step_match_at(s: Seq<char>, i: int) -> Option<int> {
    if !char_at(s, i, '/') {
        None
    } else if char_at(s, i + 1, '/') {
        let e = slash_end(s, i + 2);
        if e > i + 2 {
            Some(e)
        } else {
            None
        }
    } else {
        let e = slash_end(s, i + 1);
        if e > i + 1 {
            Some(e)
        } else {
            None
        }
    }
}

/// The steps of `s[i..]`, leftmost first; `first` marks that no step was
/// found yet. The first step loses a lone leading `/` (a path starting at
/// the root searches descendants); later steps keep their axis.
pub open spec fn split_from(s: Seq<char>, i: int, first: bool) -> Seq<Seq<char>>
    decreases s.len() - i,
{
    if i < 0 || i >= s.len() {
        seq![]
    } else {
        match step_match_at(s, i) {
            Some(e) => if i < e <= s.len() {
                let full = s.subrange(i, e);
                let piece = if first && !char_at(s, i + 1, '/') && !char_at(s, i + 1, '*') {
                    full.drop_first()
                } else {
                    full
                };
                seq![piece] + split_from(s, e, false)
            } else {
                seq![]
            },
            None => split_from(s, i + 1, first),
        }
    }
}

/// The steps of an XPath, each with its axis prefix.
pub open spec fn split_steps(s: Seq<char>) -> Seq<Seq<char>> {
    split_from(s, 0, true)
}

proof fn lemma_digit_end_mono(s: Seq<char>, i: int)
    requires
        0 <= i,
    ensures
        digit_end(s, i) >= i,
    decreases s.len() - i,
{
    if 0 <= i < s.len() && is_ascii_digit(s[i]) {
        lemma_digit_end_mono(s, i + 1);
    }
}

/// Digits counted in a suffix are those counted in the whole, shifted.
proof fn lemma_digit_end_shift(s: Seq<char>, k: int, j: int)
    requires
        0 <= k <= s.len(),
        0 <= j,
    ensures
        digit_end(s.skip(k), j) == digit_end(s, k + j) - k,
    decreases s.len() - k - j,
{
    if k + j < s.len() && is_ascii_digit(s[k + j]) {
        assert(s.skip(k)[j] == s[k + j]);
        lemma_digit_end_shift(s, k, j + 1);
    } else if j < s.len() - k {
        assert(s.skip(k)[j] == s[k + j]);
    }
}

fn skip_digits(v: &[char], i: usize) -> (r: usize)
    requires
        i <= v.len(),
    ensures
        r as int == digit_end(v@, i as int),
        i <= r <= v.len(),
{
    let mut j = i;
    while j < v.len() && '0' <= v[j] && v[j] <= '9'
        invariant
            i <= j <= v.len(),
            digit_end(v@, j as int) == digit_end(v@, i as int),
        decreases v.len() - j,
    {
        j += 1;
    }
    j
}

fn scan_step_at(v: &[char], i: usize) -> (r: Option<usize>)
    requires
        i < v.len(),
    ensures
        match step_match_at(v@, i as int) {
            Some(e) => r == Some(e as usize) && i < e <= v.len(),
            None => r is None,
        },
{
    if v[i] != '/' {
        return None;
    }
    let n = v.len();
    if i + 1 < n && v[i + 1] == '/' {
        let e = skip_to_char(v, i + 2, '/');
        return if e > i + 2 {
            Some(e)
        } else {
            None
        };
    }
    let e = skip_to_char(v, i + 1, '/');
    if e > i + 1 {
        Some(e)
    } else {
        None
    }
}

/// Splits an XPath into its steps, keeping each step's axis prefix:
/// `//Button/Text` gives `//Button`, `/Text`; `/Pane/Button` gives `Pane`,
/// `/Button`; `/*9/Text[@Name='x']` gives `/*9`, `/Text[@Name='x']`.
pub fn split_xpath_steps(xpath: &str) -> (r: Vec<String>)
    ensures
        r@.map_values(|p: String| p@) == split_steps(xpath@),
{
    let v = chars_of(xpath);
    let n = v.len();
    let mut out: Vec<String> = Vec::new();
    let mut i: usize = 0;
    let mut first = true;
    while i < n
        invariant
            n == v.len(),
            v@ == xpath@,
            i <= n,
            out@.map_values(|p: String| p@) + split_from(v@, i as int, first) == split_steps(xpath@),
        decreases n - i,
    {
        match scan_step_at(v.as_slice(), i) {
            Some(e) => {
                let strip = first && !(i + 1 < n && v[i + 1] == '/') && !(i + 1 < n && v[i + 1] == '*');
                let piece = if strip {
                    string_of_range(v.as_slice(), i + 1, e)
                } else {
                    string_of_range(v.as_slice(), i, e)
                };
                let ghost full = v@.subrange(i as int, e as int);
                assert(piece@ == (if strip { full.drop_first() } else { full }));
                let ghost before = out@;
                let ghost tail = split_from(v@, e as int, false);
                out.push(piece);
                assert(out@.map_values(|p: String| p@) =~= before.map_values(|p: String| p@).push(piece@));
                assert(out@.map_values(|p: String| p@) + tail =~= before.map_values(|p: String| p@) + (seq![piece@] + tail));
                i = e;
                first = false;
            },
            None => {
                i += 1;
            },
        }
    }
    assert(out@.map_values(|p: String| p@) + Seq::<Seq<char>>::empty() =~= out@.map_values(|p: String| p@));
    out
}

/// Characters that begin a node test: upper-case letters and `*`.
pub open spec fn starts_node_test(c: char) -> bool {
    is_uppercase(c) || c == '*'
}

/// The first position at or after `i` that begins a node test (or the end).
pub open spec fn node_test_from(s: Seq<char>, i: int) -> int
    decreases s.len() - i,
{
    if 0 <= i < s.len() && !starts_node_test(s[i]) {
        node_test_from(s, i + 1)
    } else {
        i
    }
}

/// A node test with a depth prefix `*N/` (or `*/`) in front loses it.
pub open spec fn without_depth(r: Seq<char>) -> Seq<char> {
    let d = digit_end(r, 1);
    if r.len() > 0 && r[0] == '*' && char_at(r, d, '/') {
        r.skip(d + 1)
    } else {
        r
    }
}

/// A step without its axis prefix (`//`, `/*N/` or `/`): from the first
/// character that begins a node test, past a depth prefix; or, when there
/// is no such character, without its leading slashes.
pub open spec fn strip_axis(step: Seq<char>) -> Seq<char> {
    let k = node_test_from(step, 0);
    if k < step.len() {
        without_depth(step.skip(k))
    } else {
        trim_start_char(step, '/')
    }
}

fn node_test_start(v: &[char]) -> (r: usize)
    ensures
        r as int == node_test_from(v@, 0),
        r <= v.len(),
{
    let mut j: usize = 0;
    while j < v.len() && !(char_is_uppercase(v[j]) || v[j] == '*')
        invariant
            j <= v.len(),
            node_test_from(v@, j as int) == node_test_from(v@, 0),
        decreases v.len() - j,
    {
        j += 1;
    }
    j
}

/// A step without its axis prefix (`//Group[@Name='x']` gives `Group[@Name='x']`,
/// `/*9/Text` gives `Text`, `/Button` gives `Button`).
pub fn strip_step_prefix(step: &str) -> (r: String)
    ensures
        r@ == strip_axis(step@),
{
    let v = chars_of(step);
    let k = node_test_start(v.as_slice());
    if k < v.len() {
        let ghost r = v@.skip(k as int);
        if v[k] == '*' {
            let d = skip_digits(v.as_slice(), k + 1);
            proof {
                lemma_digit_end_shift(v@, k as int, 1);
            }
            if d < v.len() && v[d] == '/' {
                assert(v@.skip(d + 1) =~= r.skip(d + 1 - k));
                assert(v@.skip(d + 1) =~= v@.subrange(d + 1, v@.len() as int));
                return string_of_range(v.as_slice(), d + 1, v.len());
            }
        }
        assert(v@.skip(k as int) =~= v@.subrange(k as int, v@.len() as int));
        string_of_range(v.as_slice(), k, v.len())
    } else {
        let a = lead_run_len(v.as_slice(), '/');
        assert(v@.skip(a as int) =~= v@.subrange(a as int, v@.len() as int));
        string_of_range(v.as_slice(), a, v.len())
    }
}

/// The concatenation of `parts`.
pub open spec fn concat_all(parts: Seq<Seq<char>>) -> Seq<char>
    decreases parts.len(),
{
    if parts.len() == 0 {
        seq![]
    } else {
        concat_all(parts.drop_last()) + parts.last()
    }
}

/// The steps rejoined as one descendant search: the first step's axis is
/// replaced by `//`, the others keep theirs.
pub open spec fn descendant_xpath(parts: Seq<Seq<char>>) -> Seq<char> {
    if parts.len() == 0 {
        seq![]
    } else {
        "//"@ + strip_axis(parts[0]) + concat_all(parts.skip(1))
    }
}

/// Rejoins steps produced by `split_xpath_steps` into a descendant XPath:
/// `//Group[@AutomationId='x']`, `//Button` gives `//Group[@AutomationId='x']//Button`.
pub fn reconstruct_descendant_xpath(parts: &[String]) -> (r: String)
    ensures
        r@ == descendant_xpath(parts@.map_values(|p: String| p@)),
{
    let ghost views = parts@.map_values(|p: String| p@);
    if parts.len() == 0 {
        return String::new();
    }
    let mut result = String::new();
    result.push_str("//");
    let body = strip_step_prefix(parts[0].as_str());
    result.push_str(body.as_str());
    let ghost head = result@;
    let mut i: usize = 1;
    while i < parts.len()
        invariant
            1 <= i <= parts.len(),
            views == parts@.map_values(|p: String| p@),
            result@ == head + concat_all(views.subrange(1, i as int)),
        decreases parts.len() - i,
    {
        result.push_str(parts[i].as_str());
        assert(views.subrange(1, i + 1).drop_last() =~= views.subrange(1, i as int));
        i += 1;
    }
    assert(views.subrange(1, parts.len() as int) =~= views.skip(1));
    result
}

/// How a test is written when a step is printed back.
pub open spec fn eq_text(p: (PropertyKind, Seq<char>)) -> Seq<char> {
    "@"@ + kind_name(p.0) + "='"@ + p.1 + "'"@
}

pub open spec fn starts_with_text(p: (PropertyKind, Seq<char>)) -> Seq<char> {
    "starts-with(@"@ + kind_name(p.0) + ", '"@ + p.1 + "')"@
}

pub open spec fn contains_text(p: (PropertyKind, Seq<char>)) -> Seq<char> {
    "contains(@"@ + kind_name(p.0) + ", '"@ + p.1 + "')"@
}

/// A `matches` test is printed with its pattern elided.
pub open spec fn matches_text(p: (PropertyKind, Seq<char>)) -> Seq<char> {
    "matches(@"@ + kind_name(p.0) + ", '...')"@
}

/// The tests of a step, printed in order: equalities, `starts-with`,
/// `contains`, then `matches`.
pub open spec fn step_tests_text(s: StepView) -> Seq<Seq<char>> {
    s.required_props.map_values(|p: (PropertyKind, Seq<char>)| eq_text(p))
        + s.require_starts_with.map_values(|p: (PropertyKind, Seq<char>)| starts_with_text(p))
        + s.require_contains.map_values(|p: (PropertyKind, Seq<char>)| contains_text(p))
        + s.require_matches.map_values(|p: (PropertyKind, Seq<char>)| matches_text(p))
}

/// A step printed back as node test and bracketed tests (without axis).
pub open spec fn step_text(s: StepView) -> Seq<char> {
    let tn = match s.control_type {
        Some(t) => t,
        None => seq![],
    };
    let parts = step_tests_text(s);
    if parts.len() > 0 {
        tn + "["@ + join_with(parts, " and "@) + "]"@
    } else {
        tn
    }
}

/// The printed form of a test of kind 0 (equality), 1 (`starts-with`) or
/// 2 (`contains`).
pub open spec fn kind_text(kind: u8, p: (PropertyKind, Seq<char>)) -> Seq<char> {
    if kind == 0 {
        eq_text(p)
    } else if kind == 1 {
        starts_with_text(p)
    } else {
        contains_text(p)
    }
}

/// Appends the printed tests of one kind to `out`.
fn push_test_texts(out: &mut Vec<String>, ps: &Vec<(XPathProperty, String)>, kind: u8)
    requires
        kind < 3,
    ensures
        final(out)@.map_values(|p: String| p@) == old(out)@.map_values(|p: String| p@)
            + props_view(ps@).map_values(|p: (PropertyKind, Seq<char>)| kind_text(kind, p)),
{
    let ghost f = |p: (PropertyKind, Seq<char>)| kind_text(kind, p);
    let ghost start = out@.map_values(|p: String| p@);
    let ghost pv = props_view(ps@);
    proof {
        reveal_strlit("@");
        reveal_strlit("='");
        reveal_strlit("'");
        reveal_strlit("starts-with(@");
        reveal_strlit("contains(@");
        reveal_strlit(", '");
        reveal_strlit("')");
    }
    let mut i: usize = 0;
    while i < ps.len()
        invariant
            i <= ps.len(),
            pv == props_view(ps@),
            kind < 3,
            f == (|p: (PropertyKind, Seq<char>)| kind_text(kind, p)),
            out@.map_values(|p: String| p@) == start + pv.take(i as int).map_values(f),
        decreases ps.len() - i,
    {
        let (k, v) = (&ps[i].0, &ps[i].1);
        let name = k.as_attr_name();
        let mut t = String::new();
        if kind == 0 {
            t.push_str("@");
            t.push_str(name);
            t.push_str("='");
            t.push_str(v.as_str());
            t.push_str("'");
            assert(t@ =~= eq_text((k@, v@)));
        } else if kind == 1 {
            t.push_str("starts-with(@");
            t.push_str(name);
            t.push_str(", '");
            t.push_str(v.as_str());
            t.push_str("')");
            assert(t@ =~= starts_with_text((k@, v@)));
        } else {
            t.push_str("contains(@");
            t.push_str(name);
            t.push_str(", '");
            t.push_str(v.as_str());
            t.push_str("')");
            assert(t@ =~= contains_text((k@, v@)));
        }
        assert(pv[i as int] == (k@, v@));
        assert(t@ =~= kind_text(kind, pv[i as int]));
        assert(f(pv[i as int]) == kind_text(kind, pv[i as int]));
        let ghost before = out@;
        out.push(t);
        assert(out@.map_values(|p: String| p@) =~= before.map_values(|p: String| p@).push(t@));
        assert(pv.take(i + 1).map_values(f) =~= pv.take(i as int).map_values(f).push(f(pv[i as int])));
        assert(out@.map_values(|p: String| p@) =~= start + pv.take(i + 1).map_values(f));
        i += 1;
    }
    assert(pv.take(ps.len() as int) =~= pv);
}

/// Prints a parsed step back (node test and tests, without the axis).
pub fn step_to_xpath_str(parsed: &ParsedXPathStep) -> (s: String)
    ensures
        s@ == step_text(parsed@),
{
    let mut parts: Vec<String> = Vec::new();
    push_test_texts(&mut parts, &parsed.required_props, 0);
    push_test_texts(&mut parts, &parsed.require_starts_with, 1);
    push_test_texts(&mut parts, &parsed.require_contains, 2);
    let ghost sv = parsed@;
    let ghost mid = parts@.map_values(|p: String| p@);
    proof {
        reveal_strlit("matches(@");
        reveal_strlit(", '...')");
    }
    let mut i: usize = 0;
    while i < parsed.require_matches.len()
        invariant
            i <= parsed.require_matches.len(),
            sv == parsed@,
            parts@.map_values(|p: String| p@) == mid + sv.require_matches.take(i as int).map_values(
                |p: (PropertyKind, Seq<char>)| matches_text(p),
            ),
        decreases parsed.require_matches.len() - i,
    {
        let name = parsed.require_matches[i].0.as_attr_name();
        let mut t = String::new();
        t.push_str("matches(@");
        t.push_str(name);
        t.push_str(", '...')");
        assert(sv.require_matches[i as int].0 == parsed.require_matches@[i as int].0@);
        assert(t@ =~= matches_text(sv.require_matches[i as int]));
        let ghost before = parts@;
        parts.push(t);
        assert(parts@.map_values(|p: String| p@) =~= before.map_values(|p: String| p@).push(t@));
        assert(sv.require_matches.take(i + 1).map_values(|p: (PropertyKind, Seq<char>)| matches_text(p))
            =~= sv.require_matches.take(i as int).map_values(|p: (PropertyKind, Seq<char>)| matches_text(p)).push(
            matches_text(sv.require_matches[i as int])));
        i += 1;
    }
    assert(sv.require_matches.take(parsed.require_matches.len() as int) =~= sv.require_matches);
    assert(parts@.map_values(|p: String| p@) =~= step_tests_text(sv));
    let mut s = String::new();
    match &parsed.control_type {
        Some(t) => s.push_str(t.as_str()),
        None => {},
    }
    if parts.len() > 0 {
        s.push_str("[");
        let body = join_strings(&parts, " and ");
        s.push_str(body.as_str());
        s.push_str("]");
    }
    proof {
        reveal_strlit("[");
        reveal_strlit("]");
    }
    assert(s@ =~= step_text(sv));
    s
}

/// A longer digit string is worth at least as much as its prefix.
pub proof fn lemma_digits_value_prefix(d: Seq<char>, k: int)
    requires
        0 <= k <= d.len(),
    ensures
        digits_value(d.take(k)) <= digits_value(d),
    decreases d.len() - k,
{
    if k < d.len() {
        lemma_digits_value_prefix(d, k + 1);
        assert(d.take(k + 1).drop_last() =~= d.take(k));
    } else {
        assert(d.take(k) =~= d);
    }
}

} // verus!
