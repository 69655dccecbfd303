//! The decisions of the chained descendant search (one `FindFirst` per
//! step), of the item-container shortcut, and the step records a descendant
//! search reports.
use vstd::prelude::*;
use crate::model::{join_strings, join_with};
use crate::step::{kind_name, props_view, ParsedXPathStep, PropertyKind, XPathProperty, XPathStepPrefix};
use crate::text::{chars_of, contains_chars, contains_seq, find_first, first_occurrence, is_ascii_digit, string_of};
use crate::step::{digit_end, digits_value};
use crate::validation::{SegmentValidationResult, SegmentView};

verus! {

/// A position predicate of a step.
#[derive(Debug, Clone, Copy, PartialEq, Eq, Structural)]
pub enum PositionPredicate {
    /// `position()=n` or `[n]`.
    Index(i32),
    /// `last()`.
    Last,
}

/// The highest position a chained step picks with `FindAll` (at most this
/// many elements are enumerated); above it the chain gives up.
pub const FINDFIRST_NEXT_MAX_N: i32 = 1;

/// How a chained search goes on at a step.
#[derive(Debug, Clone, Copy, PartialEq, Eq, Structural)]
pub enum ChainStep {
    /// Take the `n`-th (from 1) element of the step's scope; `1` is a
    /// plain `FindFirst`.
    Pick(i32),
    /// The chain cannot take this step: it stops with the steps before.
    GiveUp,
}

/// What a chained search ends with.
#[derive(Debug, Clone, Copy, PartialEq, Eq, Structural)]
pub enum ChainEnd {
    /// Go on with the next step from the element found.
    Next,
    /// The chain is complete; `found` says whether the last step found its
    /// element (before filtering).
    Complete { found: bool },
    /// The steps up to and including this one succeeded; the rest is left
    /// to another search from the last element found.
    Partial { last_successful_step: usize },
    /// The chain could not start.
    NotApplicable,
}

/// The position a chained step picks, or `None` when the chain gives up.
pub open spec fn chain_position(position: Option<PositionPredicate>) -> Option<i32> {
    match position {
        None => Some(1),
        Some(PositionPredicate::Index(n)) => if n == 1 {
            Some(1)
        } else if 2 <= n <= FINDFIRST_NEXT_MAX_N {
            Some(n)
        } else if n > FINDFIRST_NEXT_MAX_N {
            None
        } else {
            Some(1)
        },
        Some(PositionPredicate::Last) => None,
    }
}

/// How a chained step is taken: given up when its predicates are complex,
/// its position is out of reach, or no search condition can be built from
/// it; else the position it picks.
pub fn chain_step_plan(complex: bool, position: Option<PositionPredicate>, has_condition: bool) -> (r: ChainStep)
    ensures
        r == (if complex || chain_position(position) is None || !has_condition {
            ChainStep::GiveUp
        } else {
            ChainStep::Pick(chain_position(position)->0)
        }),
{
    if complex {
        return ChainStep::GiveUp;
    }
    let n: i32 = match position {
        None => 1,
        Some(PositionPredicate::Index(n)) => {
            if n == 1 {
                1
            } else if 2 <= n && n <= FINDFIRST_NEXT_MAX_N {
                n
            } else if n > FINDFIRST_NEXT_MAX_N {
                return ChainStep::GiveUp;
            } else {
                1
            }
        },
        Some(PositionPredicate::Last) => {
            return ChainStep::GiveUp;
        },
    };
    if !has_condition {
        return ChainStep::GiveUp;
    }
    ChainStep::Pick(n)
}

/// A number written in decimal, capped at `i32::MAX`.
pub open spec fn capped_i32(n: nat) -> i32 {
    if n <= i32::MAX {
        n as i32
    } else {
        i32::MAX
    }
}

/// The number after the first `position()=` of a step, when digits follow it.
pub open spec fn position_number(s: Seq<char>) -> Option<i32> {
    match first_occurrence(s, "position()="@) {
        Some(p) => {
            let b = p + 11;
            let d = digit_end(s, b);
            if d > b {
                Some(capped_i32(digits_value(s.subrange(b, d))))
            } else {
                None
            }
        },
        None => None,
    }
}

/// The position predicate a step's text carries: `last()` (also in
/// `position()=last()`) asks for the last element; `position()=N` for the
/// `N`-th; `first()` for the first; otherwise there is none.
pub open spec fn step_position(s: Seq<char>) -> Option<PositionPredicate> {
    if contains_seq(s, "last()"@) {
        Some(PositionPredicate::Last)
    } else {
        match position_number(s) {
            Some(n) => Some(PositionPredicate::Index(n)),
            None => if contains_seq(s, "first()"@) {
                Some(PositionPredicate::Index(1))
            } else {
                None
            },
        }
    }
}

fn read_decimal(v: &[char], b: usize, d: usize) -> (r: i32)
    requires
        b <= d <= v.len(),
        forall|k: int| b <= k < d ==> is_ascii_digit(#[trigger] v@[k]),
    ensures
        r == capped_i32(digits_value(v@.subrange(b as int, d as int))),
{
    let mut val: u64 = 0;
    let mut over = false;
    let mut k: usize = b;
    while k < d
        invariant
            b <= k <= d <= v.len(),
            forall|q: int| b <= q < d ==> is_ascii_digit(#[trigger] v@[q]),
            !over ==> val == digits_value(v@.subrange(b as int, k as int)) && val <= i32::MAX,
            over ==> digits_value(v@.subrange(b as int, k as int)) > i32::MAX,
        decreases d - k,
    {
        assert(v@.subrange(b as int, k + 1).drop_last() =~= v@.subrange(b as int, k as int));
        assert(v@.subrange(b as int, k + 1).last() == v@[k as int]);
        let c = v[k];
        if !over {
            let dv: u64 = (c as u64) - ('0' as u64);
            let nv = val * 10 + dv;
            if nv > 2147483647u64 {
                over = true;
            } else {
                val = nv;
            }
        }
        k += 1;
    }
    if over {
        i32::MAX
    } else {
        val as i32
    }
}

proof fn lemma_digit_run(s: Seq<char>, i: int)
    requires
        0 <= i <= s.len(),
    ensures
        i <= digit_end(s, i) <= s.len(),
        forall|k: int| i <= k < digit_end(s, i) ==> is_ascii_digit(#[trigger] s[k]),
    decreases s.len() - i,
{
    if i < s.len() && is_ascii_digit(s[i]) {
        lemma_digit_run(s, i + 1);
    }
}

fn digits_from(v: &[char], i: usize) -> (r: usize)
    requires
        i <= v.len(),
    ensures
        r as int == digit_end(v@, i as int),
        i <= r <= v.len(),
{
    let mut j = i;
    while j < v.len() && '0' <= v[j] && v[j] <= '9'
        invariant
            i <= j <= v.len(),
            digit_end(v@, j as int) == digit_end(v@, i as int),
        decreases v.len() - j,
    {
        j += 1;
    }
    j
}

/// Reads the position predicate a step carries (see `step_position`).
pub fn step_position_of(step: &str) -> (r: Option<PositionPredicate>)
    ensures
        r == step_position(step@),
{
    proof {
        reveal_strlit("position()=");
    }
    let v = chars_of(step);
    let last = chars_of("last()");
    if contains_chars(v.as_slice(), last.as_slice()) {
        return Some(PositionPredicate::Last);
    }
    let key = chars_of("position()=");
    let number: Option<i32> = match find_first(v.as_slice(), key.as_slice()) {
        Some(p) => {
            proof {
                crate::text::lemma_first_occurrence_occurs(v@, key@);
            }
            let b = p + 11;
            let d = digits_from(v.as_slice(), b);
            if d > b {
                proof {
                    lemma_digit_run(v@, b as int);
                }
                Some(read_decimal(v.as_slice(), b, d))
            } else {
                None
            }
        },
        None => None,
    };
    assert(number == position_number(step@));
    match number {
        Some(n) => Some(PositionPredicate::Index(n)),
        None => {
            let first = chars_of("first()");
            if contains_chars(v.as_slice(), first.as_slice()) {
                Some(PositionPredicate::Index(1))
            } else {
                None
            }
        },
    }
}

/// How the chain takes the step with this text: given up when its
/// predicates are complex, when its position is `last()` or beyond
/// `FINDFIRST_NEXT_MAX_N`, or when no search condition can be built;
/// else the position it picks.
pub fn chain_step_for(step: &str, complex: bool, has_condition: bool) -> (r: ChainStep)
    ensures
        r == (if complex || chain_position(step_position(step@)) is None || !has_condition {
            ChainStep::GiveUp
        } else {
            ChainStep::Pick(chain_position(step_position(step@))->0)
        }),
{
    chain_step_plan(complex, step_position_of(step), has_condition)
}

/// The chained search takes only steps it can answer with `FindFirst`: a
/// step that asks for `last()`, or for `position()=N` with `N` beyond
/// `FINDFIRST_NEXT_MAX_N`, makes it give up (and the search falls back to
/// the XPath engine); a step with no position, or `position()=1`, is taken
/// with `FindFirst`.
pub proof fn lemma_chain_position_fallback(s: Seq<char>)
    ensures
        contains_seq(s, "last()"@) ==> chain_position(step_position(s)) is None,
        (!contains_seq(s, "last()"@) && (position_number(s) matches Some(n) && n > FINDFIRST_NEXT_MAX_N))
            ==> chain_position(step_position(s)) is None,
        (!contains_seq(s, "last()"@) && position_number(s) is None && !contains_seq(s, "first()"@))
            ==> chain_position(step_position(s)) == Some(1i32),
        (!contains_seq(s, "last()"@) && position_number(s) == Some(1i32)) ==> chain_position(step_position(s))
            == Some(1i32),
{
}

/// Where a chain stops when it gives up at step `step_idx`: with the steps
/// before it, or not at all at the first step.
pub fn chain_give_up(step_idx: usize) -> (r: ChainEnd)
    ensures
        r == (if step_idx > 0 {
            ChainEnd::Partial { last_successful_step: (step_idx - 1) as usize }
        } else {
            ChainEnd::NotApplicable
        }),
{
    if step_idx > 0 {
        ChainEnd::Partial { last_successful_step: step_idx - 1 }
    } else {
        ChainEnd::NotApplicable
    }
}

/// How a chain goes on after step `step_idx` searched for its element: on
/// to the next step when found before the last; complete at the last step;
/// when not found before the last, partial with the steps before (complete
/// with nothing at the first step).
pub fn chain_after_find(step_idx: usize, found: bool, is_last: bool) -> (r: ChainEnd)
    ensures
        r == (if is_last {
            ChainEnd::Complete { found }
        } else if found {
            ChainEnd::Next
        } else if step_idx > 0 {
            ChainEnd::Partial { last_successful_step: (step_idx - 1) as usize }
        } else {
            ChainEnd::Complete { found: false }
        }),
{
    if is_last {
        ChainEnd::Complete { found }
    } else if found {
        ChainEnd::Next
    } else if step_idx > 0 {
        ChainEnd::Partial { last_successful_step: step_idx - 1 }
    } else {
        ChainEnd::Complete { found: false }
    }
}

/// The tree scope a step searches.
#[derive(Debug, Clone, Copy, PartialEq, Eq, Structural)]
pub enum StepScope {
    Children,
    Descendants,
}

/// A child step searches the children; the others all descendants.
pub fn step_scope(prefix: &XPathStepPrefix) -> (s: StepScope)
    ensures
        s == (if *prefix is Child {
            StepScope::Children
        } else {
            StepScope::Descendants
        }),
{
    match prefix {
        XPathStepPrefix::Child => StepScope::Children,
        _ => StepScope::Descendants,
    }
}

/// The index of the first exact test on the attribute named `name`.
pub open spec fn first_test_on(props: Seq<(PropertyKind, Seq<char>)>, name: Seq<char>) -> Option<int>
    decreases props.len(),
{
    if props.len() == 0 {
        None
    } else if kind_name(props[0].0) == name {
        Some(0)
    } else {
        match first_test_on(props.drop_first(), name) {
            Some(i) => Some(i + 1),
            None => None,
        }
    }
}

/// The attribute an item-container lookup uses for a step: its first
/// `AutomationId` test, else its first `Name` test, else its first
/// `ClassName` test.
pub open spec fn container_key(props: Seq<(PropertyKind, Seq<char>)>) -> Option<(PropertyKind, Seq<char>)> {
    match first_test_on(props, "AutomationId"@) {
        Some(i) => Some(props[i]),
        None => match first_test_on(props, "Name"@) {
            Some(i) => Some(props[i]),
            None => match first_test_on(props, "ClassName"@) {
                Some(i) => Some(props[i]),
                None => None,
            },
        },
    }
}

proof fn lemma_first_test_on(props: Seq<(PropertyKind, Seq<char>)>, name: Seq<char>)
    ensures
        match first_test_on(props, name) {
            Some(i) => 0 <= i < props.len() && kind_name(props[i].0) == name && forall|k: int|
                0 <= k < i ==> kind_name(#[trigger] props[k].0) != name,
            None => forall|k: int| 0 <= k < props.len() ==> kind_name(#[trigger] props[k].0) != name,
        },
    decreases props.len(),
{
    if props.len() > 0 && kind_name(props[0].0) != name {
        lemma_first_test_on(props.drop_first(), name);
        assert forall|k: int| 1 <= k < props.len() implies props.drop_first()[k - 1] == #[trigger] props[k] by {}
    }
}

fn find_test_on(props: &Vec<(XPathProperty, String)>, name: &str) -> (r: Option<usize>)
    ensures
        r matches Some(i) ==> first_test_on(props_view(props@), name@) == Some(i as int),
        r is None ==> first_test_on(props_view(props@), name@) is None,
{
    let ghost pv = props_view(props@);
    proof {
        lemma_first_test_on(pv, name@);
    }
    let mut i: usize = 0;
    while i < props.len()
        invariant
            i <= props.len(),
            pv == props_view(props@),
            forall|k: int| 0 <= k < i ==> kind_name(#[trigger] pv[k].0) != name@,
        decreases props.len() - i,
    {
        assert(pv[i as int].0 == props@[i as int].0@);
        if crate::model::str_eq(props[i].0.as_attr_name(), name) {
            proof {
                lemma_first_test_on(pv, name@);
                match first_test_on(pv, name@) {
                    Some(j) => {
                        if j > i {
                            assert(kind_name(pv[i as int].0) == name@);
                        }
                    },
                    None => {
                        assert(kind_name(pv[i as int].0) == name@);
                    },
                }
            }
            return Some(i);
        }
        i += 1;
    }
    proof {
        lemma_first_test_on(pv, name@);
        if let Some(j) = first_test_on(pv, name@) {
            assert(kind_name(pv[j].0) != name@);
        }
    }
    None
}

fn copy_prop(p: &XPathProperty) -> (r: XPathProperty)
    ensures
        r@ == p@,
{
    match p {
        XPathProperty::Name => XPathProperty::Name,
        XPathProperty::AutomationId => XPathProperty::AutomationId,
        XPathProperty::ClassName => XPathProperty::ClassName,
        XPathProperty::FrameworkId => XPathProperty::FrameworkId,
        XPathProperty::ControlType => XPathProperty::ControlType,
        XPathProperty::Other(s) => XPathProperty::Other(s.clone()),
    }
}

/// The attribute and value an item-container lookup searches by for a step.
pub fn item_container_key(step: &ParsedXPathStep) -> (r: Option<(XPathProperty, String)>)
    ensures
        match container_key(props_view(step.required_props@)) {
            Some((k, v)) => r matches Some(x) && x.0@ == k && x.1@ == v,
            None => r is None,
        },
{
    let props = &step.required_props;
    let ghost pv = props_view(props@);
    proof {
        lemma_first_test_on(pv, "AutomationId"@);
        lemma_first_test_on(pv, "Name"@);
        lemma_first_test_on(pv, "ClassName"@);
    }
    let by_id = find_test_on(props, "AutomationId");
    let by_name = find_test_on(props, "Name");
    let by_class = find_test_on(props, "ClassName");
    let found = if by_id.is_some() {
        by_id
    } else if by_name.is_some() {
        by_name
    } else {
        by_class
    };
    assert(match container_key(pv) {
        Some(kv) => found matches Some(i) && i < pv.len() && pv[i as int] == kv,
        None => found is None,
    });
    match found {
        Some(i) => {
            assert(pv[i as int] == (props@[i as int].0@, props@[i as int].1@));
            Some((copy_prop(&props[i].0), props[i].1.clone()))
        },
        None => None,
    }
}

// ── step records ─────────────────────────────────────────────────────────

/// The components of a path split at `/`, empty ones left out.
pub open spec fn path_components(s: Seq<char>) -> Seq<Seq<char>>
    decreases s.len(),
{
    if s.len() == 0 {
        seq![]
    } else if s[0] == '/' {
        path_components(s.drop_first())
    } else {
        let rest = path_components(s.drop_first());
        if s.len() > 1 && s[1] != '/' {
            seq![seq![s[0]] + rest[0]] + rest.drop_first()
        } else {
            seq![seq![s[0]]] + rest
        }
    }
}

proof fn lemma_path_components_first(s: Seq<char>)
    requires
        s.len() > 0,
        s[0] != '/',
    ensures
        path_components(s).len() > 0,
    decreases s.len(),
{
    if s.len() > 1 && s[1] != '/' {
        lemma_path_components_first(s.drop_first());
    }
}

/// Splits a path at `/`, leaving out empty components.
pub fn split_path_components(path: &str) -> (r: Vec<String>)
    ensures
        r@.map_values(|p: String| p@) == path_components(path@),
{
    let v = chars_of(path);
    let n = v.len();
    let mut out: Vec<String> = Vec::new();
    let mut i = n;
    // Walk from the end so each step prepends to the components.
    let mut comps: Vec<Vec<char>> = Vec::new();
    proof {
        assert(v@.skip(n as int) =~= Seq::<char>::empty());
    }
    while i > 0
        invariant
            i <= n,
            n == v@.len(),
            v@ == path@,
            comps@.map_values(|c: Vec<char>| c@) == path_components(v@.skip(i as int)),
        decreases i,
    {
        let ghost tail = v@.skip(i as int);
        let ghost s = v@.skip(i - 1);
        assert(s.drop_first() =~= tail);
        assert(s[0] == v@[i - 1]);
        let c = v[i - 1];
        if c == '/' {
        } else if i < n && v[i] != '/' {
            assert(s[1] == v@[i as int]);
            proof {
                lemma_path_components_first(tail);
            }
            let mut first = Vec::new();
            first.push(c);
            let old_first = comps.remove(0);
            let mut k: usize = 0;
            while k < old_first.len()
                invariant
                    k <= old_first.len(),
                    first@ == seq![c] + old_first@.take(k as int),
                decreases old_first.len() - k,
            {
                first.push(old_first[k]);
                assert(old_first@.take(k + 1) =~= old_first@.take(k as int).push(old_first@[k as int]));
                k += 1;
            }
            assert(old_first@.take(old_first@.len() as int) =~= old_first@);
            comps.insert(0, first);
            assert(comps@.map_values(|x: Vec<char>| x@) =~= path_components(s));
        } else {
            let mut single = Vec::new();
            single.push(c);
            comps.insert(0, single);
            assert(comps@.map_values(|x: Vec<char>| x@) =~= path_components(s));
        }
        i -= 1;
    }
    assert(v@.skip(0) =~= v@);
    let mut j: usize = 0;
    while j < comps.len()
        invariant
            j <= comps@.len(),
            out@.map_values(|p: String| p@) == comps@.map_values(|c: Vec<char>| c@).take(j as int),
        decreases comps@.len() - j,
    {
        let piece = string_of(comps[j].as_slice());
        assert(piece@ == comps@[j as int]@);
        assert(comps@.map_values(|c: Vec<char>| c@)[j as int] == comps@[j as int]@);
        let ghost before = out@;
        out.push(piece);
        assert(out@.map_values(|p: String| p@) =~= before.map_values(|p: String| p@).push(piece@));
        assert(out@.map_values(|p: String| p@) =~= comps@.map_values(|c: Vec<char>| c@).take(j + 1));
        j += 1;
    }
    assert(comps@.map_values(|c: Vec<char>| c@).take(comps@.len() as int) =~= comps@.map_values(
        |c: Vec<char>| c@,
    ));
    out
}

/// The records of a search whose steps all matched, `result_count` elements
/// found by the last one, which took `last_ms`.
pub open spec fn all_matched_records(parts: Seq<Seq<char>>, result_count: usize, last_ms: u64) -> Seq<SegmentView> {
    Seq::new(
        parts.len(),
        |i: int|
            SegmentView {
                segment_index: i as usize,
                segment_text: parts[i],
                matched: true,
                match_count: if i == parts.len() - 1 {
                    result_count
                } else {
                    0
                },
                duration_ms: if i == parts.len() - 1 {
                    last_ms
                } else {
                    0
                },
                predicate_failures: seq![],
            },
    )
}

pub open spec fn records(s: Seq<SegmentValidationResult>) -> Seq<SegmentView> {
    s.map_values(|x: SegmentValidationResult| x@)
}

/// The records of a search whose steps (`parts`) all matched, the last one
/// finding `result_count` elements in `last_ms`.
pub fn all_matched_segments(parts: &Vec<String>, result_count: usize, last_ms: u64) -> (r: Vec<SegmentValidationResult>)
    ensures
        records(r@) == all_matched_records(parts@.map_values(|p: String| p@), result_count, last_ms),
{
    let ghost pv = parts@.map_values(|p: String| p@);
    let n = parts.len();
    let mut r: Vec<SegmentValidationResult> = Vec::new();
    let mut i: usize = 0;
    while i < n
        invariant
            i <= n,
            n == parts@.len(),
            pv == parts@.map_values(|p: String| p@),
            records(r@) == all_matched_records(pv, result_count, last_ms).take(i as int),
        decreases n - i,
    {
        let (count, ms) = if i == n - 1 {
            (result_count, last_ms)
        } else {
            (0, 0)
        };
        let seg = SegmentValidationResult::matched(i, parts[i].as_str(), count, ms);
        let ghost before = r@;
        r.push(seg);
        assert(records(r@) =~= records(before).push(seg@));
        assert(records(r@) =~= all_matched_records(pv, result_count, last_ms).take(i + 1));
        i += 1;
    }
    assert(all_matched_records(pv, result_count, last_ms).take(n as int) =~= all_matched_records(pv, result_count, last_ms));
    r
}

/// The records of a search run from an intermediate element, moved `offset`
/// steps further on.
pub fn shift_segments(sub: Vec<SegmentValidationResult>, offset: usize) -> (r: Vec<SegmentValidationResult>)
    requires
        forall|i: int| 0 <= i < sub@.len() ==> #[trigger] sub@[i].segment_index + offset <= usize::MAX,
    ensures
        r@.len() == sub@.len(),
        forall|i: int|
            0 <= i < sub@.len() ==> (#[trigger] records(r@)[i]) == (SegmentView {
                segment_index: (sub@[i].segment_index + offset) as usize,
                ..sub@[i]@
            }),
{
    let ghost orig = sub@;
    let n = sub.len();
    let mut rest = sub;
    let mut r: Vec<SegmentValidationResult> = Vec::new();
    let mut i: usize = 0;
    while i < n
        invariant
            i <= n,
            n == orig.len(),
            rest@ == orig.skip(i as int),
            r@.len() == i,
            forall|k: int| 0 <= k < orig.len() ==> #[trigger] orig[k].segment_index + offset <= usize::MAX,
            forall|k: int|
                0 <= k < i ==> (#[trigger] records(r@)[k]) == (SegmentView {
                    segment_index: (orig[k].segment_index + offset) as usize,
                    ..orig[k]@
                }),
        decreases n - i,
    {
        let mut s = rest.remove(0);
        assert(s == orig[i as int]);
        assert(rest@ =~= orig.skip(i + 1));
        s.segment_index = s.segment_index + offset;
        assert(s@ == (SegmentView { segment_index: (orig[i as int].segment_index + offset) as usize, ..orig[i as int]@ }));
        let ghost before = r@;
        r.push(s);
        assert(records(r@) =~= records(before).push(s@));
        i += 1;
    }
    r
}

/// The rest of a path after its first component, written `/a/b/...` (empty
/// when there is nothing after the first).
pub open spec fn remaining_path(parts: Seq<Seq<char>>) -> Seq<char> {
    if parts.len() <= 1 {
        seq![]
    } else {
        "/"@ + join_with(parts.drop_first(), "/"@)
    }
}

/// The rest of a path after its first component.
pub fn remaining_path_text(parts: &Vec<String>) -> (s: String)
    ensures
        s@ == remaining_path(parts@.map_values(|p: String| p@)),
{
    if parts.len() <= 1 {
        return String::new();
    }
    let mut rest: Vec<String> = Vec::new();
    let mut i: usize = 1;
    while i < parts.len()
        invariant
            1 <= i <= parts@.len(),
            rest@.map_values(|p: String| p@) == parts@.map_values(|p: String| p@).subrange(1, i as int),
        decreases parts@.len() - i,
    {
        let ghost before = rest@;
        let piece = parts[i].clone();
        assert(piece@ == parts@[i as int]@);
        rest.push(piece);
        assert(rest@.map_values(|p: String| p@) =~= before.map_values(|p: String| p@).push(piece@));
        assert(rest@.map_values(|p: String| p@) =~= parts@.map_values(|p: String| p@).subrange(1, i + 1));
        i += 1;
    }
    assert(parts@.map_values(|p: String| p@).drop_first() =~= parts@.map_values(|p: String| p@).subrange(
        1,
        parts@.len() as int,
    ));
    let joined = join_strings(&rest, "/");
    let mut s = String::new();
    s.push_str("/");
    s.push_str(joined.as_str());
    s
}

/// Whether a search for the first step looks up a single element: a
/// one-step path without complex predicates, in a mode that keeps at most
/// one element.
pub fn use_find_first(step_count: usize, complex: bool, mode: crate::query::SearchMode) -> (b: bool)
    ensures
        b == (step_count == 1 && !complex && mode != crate::query::SearchMode::All),
{
    step_count == 1 && !complex && mode != crate::query::SearchMode::All
}

/// Components are non-empty and hold no `/`.
pub open spec fn clean_parts(ps: Seq<Seq<char>>) -> bool {
    &&& forall|i: int| 0 <= i < ps.len() ==> (#[trigger] ps[i]).len() > 0
    &&& forall|i: int, k: int| 0 <= i < ps.len() && 0 <= k < ps[i].len() ==> #[trigger] ps[i][k] != '/'
}

/// A text with no two `/` in a row.
pub open spec fn no_double_slash(t: Seq<char>) -> bool {
    forall|k: int| 0 <= k < t.len() - 1 ==> !(#[trigger] t[k] == '/' && t[k + 1] == '/')
}

proof fn lemma_components_clean(s: Seq<char>)
    ensures
        clean_parts(path_components(s)),
    decreases s.len(),
{
    if s.len() > 0 {
        lemma_components_clean(s.drop_first());
        let rest = path_components(s.drop_first());
        let cs = path_components(s);
        if s[0] != '/' {
            if s.len() > 1 && s[1] != '/' {
                lemma_path_components_first(s.drop_first());
                let head = seq![s[0]] + rest[0];
                assert(cs == seq![head] + rest.drop_first());
                assert forall|i: int| 0 <= i < cs.len() implies (#[trigger] cs[i]).len() > 0 by {
                    if i > 0 {
                        assert(cs[i] == rest[i]);
                    }
                }
                assert forall|i: int, k: int| 0 <= i < cs.len() && 0 <= k < cs[i].len() implies #[trigger] cs[i][k]
                    != '/' by {
                    if i > 0 {
                        assert(cs[i] == rest[i]);
                    } else if k > 0 {
                        assert(cs[0][k] == rest[0][k - 1]);
                    }
                }
            } else {
                assert(cs == seq![seq![s[0]]] + rest);
                assert forall|i: int| 0 <= i < cs.len() implies (#[trigger] cs[i]).len() > 0 by {
                    if i > 0 {
                        assert(cs[i] == rest[i - 1]);
                    }
                }
                assert forall|i: int, k: int| 0 <= i < cs.len() && 0 <= k < cs[i].len() implies #[trigger] cs[i][k]
                    != '/' by {
                    if i > 0 {
                        assert(cs[i] == rest[i - 1]);
                    }
                }
            }
        }
    }
}

proof fn lemma_join_clean(ps: Seq<Seq<char>>)
    requires
        ps.len() > 0,
        clean_parts(ps),
    ensures
        join_with(ps, "/"@).len() > 0,
        join_with(ps, "/"@)[0] != '/',
        join_with(ps, "/"@).last() != '/',
        no_double_slash(join_with(ps, "/"@)),
    decreases ps.len(),
{
    reveal_strlit("/");
    let j = join_with(ps, "/"@);
    if ps.len() == 1 {
        assert(j == ps[0]);
        assert(ps[0][0] != '/');
        assert(ps[0][ps[0].len() - 1] != '/');
    } else {
        let front = ps.drop_last();
        assert forall|i: int| 0 <= i < front.len() implies #[trigger] front[i] == ps[i] by {}
        lemma_join_clean(front);
        let jf = join_with(front, "/"@);
        let last = ps.last();
        assert(j == jf + "/"@ + last);
        assert(last.len() > 0 && last[0] != '/' && last[last.len() - 1] != '/');
        assert(j[0] == jf[0]);
        assert(j.last() == last[last.len() - 1]);
        assert forall|k: int| 0 <= k < j.len() - 1 implies !(#[trigger] j[k] == '/' && j[k + 1] == '/') by {
            if k < jf.len() - 1 {
                assert(j[k] == jf[k] && j[k + 1] == jf[k + 1]);
            } else if k == jf.len() - 1 {
                assert(j[k] == jf.last());
            } else if k == jf.len() {
                assert(j[k + 1] == last[0]);
            } else {
                assert(j[k] == last[k - jf.len() - 1]);
                assert(j[k + 1] == last[k + 1 - jf.len() - 1]);
            }
        }
    }
}

/// What follows the first component of a path split at `/` never holds
/// `//`: the remaining steps are always rejoined as child steps.
pub proof fn lemma_remaining_path_has_no_double_slash(path: Seq<char>)
    ensures
        !crate::text::contains_seq(remaining_path(path_components(path)), "//"@),
{
    reveal_strlit("/");
    reveal_strlit("//");
    let ps = path_components(path);
    let r = remaining_path(ps);
    lemma_components_clean(path);
    if ps.len() > 1 {
        let rest = ps.drop_first();
        assert forall|i: int| 0 <= i < rest.len() implies #[trigger] rest[i] == ps[i + 1] by {}
        lemma_join_clean(rest);
        let j = join_with(rest, "/"@);
        assert(r == "/"@ + j);
        assert forall|k: int| 0 <= k < r.len() - 1 implies !(#[trigger] r[k] == '/' && r[k + 1] == '/') by {
            if k == 0 {
                assert(r[1] == j[0]);
            } else {
                assert(r[k] == j[k - 1] && r[k + 1] == j[k]);
            }
        }
        assert forall|i: int| !crate::text::occurs_at(r, i, "//"@) by {
            if crate::text::occurs_at(r, i, "//"@) {
                assert(r.subrange(i, i + 2)[0] == r[i]);
                assert(r.subrange(i, i + 2)[1] == r[i + 1]);
            }
        }
    } else {
        assert forall|i: int| !crate::text::occurs_at(r, i, "//"@) by {}
    }
}

} // verus!
