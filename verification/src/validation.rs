//! Judging an XPath validation: the per-step records a search leaves, the
//! reason given when nothing was found, the time budget, the order and the
//! choice of the windows that are tried, and the layer-by-layer comparison of
//! a captured hierarchy with the element found.
use vstd::prelude::*;
use crate::capture::SearchContext;
use crate::model::{ElementRect, HierarchyNode, NodeView, node_label, Operator, PropertyFilter};
use crate::pattern::{regex_compiles, regex_matches, CompiledPattern};
use crate::query::{all_digits, locate_prefix, ChildHwndHint, LocateMode};
use crate::step::digits_value;
use crate::text::{
    chars_of, contains_chars, contains_seq, decimal, is_white_space, lead_ws, push_decimal, trim_bounds,
    white_space,
};

verus! {

/// A predicate of a step that an element failed, with what was expected and
/// what was found.
#[derive(Debug)]
pub struct PredicateFailure {
    pub attr_name: String,
    pub expected_value: String,
    pub actual_value: Option<String>,
}

/// What happened to one step of an XPath during a search.
#[derive(Debug)]
pub struct SegmentValidationResult {
    /// Position of the step, from 0.
    pub segment_index: usize,
    /// The step as written.
    pub segment_text: String,
    pub matched: bool,
    pub match_count: usize,
    pub duration_ms: u64,
    pub predicate_failures: Vec<PredicateFailure>,
}

/// Why a validation found nothing.
#[derive(Debug)]
pub enum NotFoundReason {
    /// No window matched the window selector.
    WindowNotFound,
    /// No child window matched the child-window hint of the given class.
    ChildHwndNotFound { class: String },
    /// The element is no longer there.
    ElementGone,
    /// The given step (from 1) matched nothing.
    StepNotFound { step: usize, xpath_step: String },
    /// The last step matched more than one element where one was required.
    LeafNotUnique { candidates: usize },
    /// The search ran out of its time budget.
    Timeout { budget_ms: u64, elapsed_ms: u64 },
    /// The parent element given by runtime id is not cached.
    InvalidParent { runtime_id: String },
}

/// The mathematical value of a predicate failure.
pub struct FailureView {
    pub attr_name: Seq<char>,
    pub expected_value: Seq<char>,
    pub actual_value: Option<Seq<char>>,
}

/// The mathematical value of a step record.
pub struct SegmentView {
    pub segment_index: usize,
    pub segment_text: Seq<char>,
    pub matched: bool,
    pub match_count: usize,
    pub duration_ms: u64,
    pub predicate_failures: Seq<FailureView>,
}

/// The mathematical value of a not-found reason.
pub enum ReasonView {
    WindowNotFound,
    ChildHwndNotFound { class: Seq<char> },
    ElementGone,
    StepNotFound { step: usize, xpath_step: Seq<char> },
    LeafNotUnique { candidates: usize },
    Timeout { budget_ms: u64, elapsed_ms: u64 },
    InvalidParent { runtime_id: Seq<char> },
}

pub open spec fn opt_chars(o: Option<String>) -> Option<Seq<char>> {
    match o {
        Some(s) => Some(s@),
        None => None,
    }
}

impl View for PredicateFailure {
    type V = FailureView;

    open spec fn view(&self) -> FailureView {
        FailureView {
            attr_name: self.attr_name@,
            expected_value: self.expected_value@,
            actual_value: opt_chars(self.actual_value),
        }
    }
}

impl View for SegmentValidationResult {
    type V = SegmentView;

    open spec fn view(&self) -> SegmentView {
        SegmentView {
            segment_index: self.segment_index,
            segment_text: self.segment_text@,
            matched: self.matched,
            match_count: self.match_count,
            duration_ms: self.duration_ms,
            predicate_failures: self.predicate_failures@.map_values(|f: PredicateFailure| f@),
        }
    }
}

impl View for NotFoundReason {
    type V = ReasonView;

    open spec fn view(&self) -> ReasonView {
        match self {
            NotFoundReason::WindowNotFound => ReasonView::WindowNotFound,
            NotFoundReason::ChildHwndNotFound { class } => ReasonView::ChildHwndNotFound { class: class@ },
            NotFoundReason::ElementGone => ReasonView::ElementGone,
            NotFoundReason::StepNotFound { step, xpath_step } => ReasonView::StepNotFound {
                step: *step,
                xpath_step: xpath_step@,
            },
            NotFoundReason::LeafNotUnique { candidates } => ReasonView::LeafNotUnique { candidates: *candidates },
            NotFoundReason::Timeout { budget_ms, elapsed_ms } => ReasonView::Timeout {
                budget_ms: *budget_ms,
                elapsed_ms: *elapsed_ms,
            },
            NotFoundReason::InvalidParent { runtime_id } => ReasonView::InvalidParent { runtime_id: runtime_id@ },
        }
    }
}

pub open spec fn segments_view(s: Seq<SegmentValidationResult>) -> Seq<SegmentView> {
    s.map_values(|x: SegmentValidationResult| x@)
}

pub open spec fn opt_reason(o: Option<NotFoundReason>) -> Option<ReasonView> {
    match o {
        Some(r) => Some(r@),
        None => None,
    }
}

impl NotFoundReason {
    /// A copy of the reason.
    pub fn duplicate(&self) -> (r: Self)
        ensures
            r@ == self@,
    {
        match self {
            NotFoundReason::WindowNotFound => NotFoundReason::WindowNotFound,
            NotFoundReason::ChildHwndNotFound { class } => NotFoundReason::ChildHwndNotFound { class: class.clone() },
            NotFoundReason::ElementGone => NotFoundReason::ElementGone,
            NotFoundReason::StepNotFound { step, xpath_step } => NotFoundReason::StepNotFound {
                step: *step,
                xpath_step: xpath_step.clone(),
            },
            NotFoundReason::LeafNotUnique { candidates } => NotFoundReason::LeafNotUnique { candidates: *candidates },
            NotFoundReason::Timeout { budget_ms, elapsed_ms } => NotFoundReason::Timeout {
                budget_ms: *budget_ms,
                elapsed_ms: *elapsed_ms,
            },
            NotFoundReason::InvalidParent { runtime_id } => NotFoundReason::InvalidParent {
                runtime_id: runtime_id.clone(),
            },
        }
    }
}

/// The text `"<n>ms"`.
pub open spec fn millis_text(n: u64) -> Seq<char> {
    decimal(n as nat) + "ms"@
}

/// The text `"<n> candidates"`.
pub open spec fn candidates_text(n: usize) -> Seq<char> {
    decimal(n as nat) + " candidates"@
}

fn millis_string(n: u64) -> (s: String)
    ensures
        s@ == millis_text(n),
{
    let mut s = String::new();
    push_decimal(&mut s, n);
    s.push_str("ms");
    proof {
        reveal_strlit("ms");
    }
    s
}

impl SegmentValidationResult {
    /// A step that matched `match_count` elements.
    pub fn matched(segment_index: usize, segment_text: &str, match_count: usize, duration_ms: u64) -> (r: Self)
        ensures
            r@ == (SegmentView {
                segment_index,
                segment_text: segment_text@,
                matched: true,
                match_count,
                duration_ms,
                predicate_failures: seq![],
            }),
    {
        let r = SegmentValidationResult {
            segment_index,
            segment_text: segment_text.to_string(),
            matched: true,
            match_count,
            duration_ms,
            predicate_failures: Vec::new(),
        };
        assert(r@.predicate_failures =~= seq![]);
        r
    }

    /// A step that matched nothing; `attr_name` names what failed and
    /// `detail` says how.
    pub fn not_found(segment_index: usize, segment_text: &str, attr_name: &str, detail: &str, duration_ms: u64) -> (r: Self)
        ensures
            r@ == (SegmentView {
                segment_index,
                segment_text: segment_text@,
                matched: false,
                match_count: 0,
                duration_ms,
                predicate_failures: seq![FailureView {
                    attr_name: attr_name@,
                    expected_value: segment_text@,
                    actual_value: Some(detail@),
                }],
            }),
    {
        let mut failures = Vec::new();
        failures.push(PredicateFailure {
            attr_name: attr_name.to_string(),
            expected_value: segment_text.to_string(),
            actual_value: Some(detail.to_string()),
        });
        let r = SegmentValidationResult {
            segment_index,
            segment_text: segment_text.to_string(),
            matched: false,
            match_count: 0,
            duration_ms,
            predicate_failures: failures,
        };
        assert(r@.predicate_failures =~= seq![FailureView {
            attr_name: attr_name@,
            expected_value: segment_text@,
            actual_value: Some(detail@),
        }]);
        r
    }

    /// A step the search did not reach before its budget ran out.
    pub fn timeout(segment_index: usize, segment_text: &str, budget_ms: u64, elapsed_ms: u64) -> (r: Self)
        ensures
            r@ == (SegmentView {
                segment_index,
                segment_text: segment_text@,
                matched: false,
                match_count: 0,
                duration_ms: elapsed_ms,
                predicate_failures: seq![FailureView {
                    attr_name: "Timeout"@,
                    expected_value: millis_text(budget_ms),
                    actual_value: Some(millis_text(elapsed_ms)),
                }],
            }),
    {
        let mut failures = Vec::new();
        failures.push(PredicateFailure {
            attr_name: "Timeout".to_string(),
            expected_value: millis_string(budget_ms),
            actual_value: Some(millis_string(elapsed_ms)),
        });
        let r = SegmentValidationResult {
            segment_index,
            segment_text: segment_text.to_string(),
            matched: false,
            match_count: 0,
            duration_ms: elapsed_ms,
            predicate_failures: failures,
        };
        proof {
            reveal_strlit("Timeout");
        }
        assert(r@.predicate_failures =~= seq![FailureView {
            attr_name: "Timeout"@,
            expected_value: millis_text(budget_ms),
            actual_value: Some(millis_text(elapsed_ms)),
        }]);
        r
    }

    /// A last step that matched `match_count` elements where exactly one was
    /// required.
    pub fn leaf_not_unique(segment_index: usize, segment_text: &str, match_count: usize, duration_ms: u64) -> (r: Self)
        ensures
            r@ == (SegmentView {
                segment_index,
                segment_text: segment_text@,
                matched: false,
                match_count,
                duration_ms,
                predicate_failures: seq![FailureView {
                    attr_name: "findOne"@,
                    expected_value: "1"@,
                    actual_value: Some(candidates_text(match_count)),
                }],
            }),
    {
        let mut actual = String::new();
        push_decimal(&mut actual, match_count as u64);
        actual.push_str(" candidates");
        let mut failures = Vec::new();
        failures.push(PredicateFailure {
            attr_name: "findOne".to_string(),
            expected_value: "1".to_string(),
            actual_value: Some(actual),
        });
        let r = SegmentValidationResult {
            segment_index,
            segment_text: segment_text.to_string(),
            matched: false,
            match_count,
            duration_ms,
            predicate_failures: failures,
        };
        proof {
            reveal_strlit("findOne");
            reveal_strlit("1");
            reveal_strlit(" candidates");
        }
        assert(r@.predicate_failures =~= seq![FailureView {
            attr_name: "findOne"@,
            expected_value: "1"@,
            actual_value: Some(candidates_text(match_count)),
        }]);
        r
    }
}

/// The end of the run of non-white-space characters that starts at `i`.
pub open spec fn token_end(s: Seq<char>, i: int) -> int
    decreases s.len() - i,
{
    if 0 <= i < s.len() && !is_white_space(s[i]) {
        token_end(s, i + 1)
    } else {
        i
    }
}

/// The first white-space separated word of `s` (`split_whitespace().next()`),
/// empty when there is none.
pub open spec fn first_token(s: Seq<char>) -> Seq<char> {
    s.subrange(lead_ws(s) as int, token_end(s, lead_ws(s) as int))
}

/// The digits of an unsigned number as `str::parse` reads it: an optional
/// leading `+` is dropped.
pub open spec fn unsigned_digits(t: Seq<char>) -> Seq<char> {
    if t.len() > 0 && t[0] == '+' {
        t.drop_first()
    } else {
        t
    }
}

/// `t.parse::<usize>()`: a non-empty run of ASCII digits, after an optional
/// `+`, whose value fits in a `usize`.
pub open spec fn parse_usize(t: Seq<char>) -> Option<usize> {
    let d = unsigned_digits(t);
    if d.len() > 0 && all_digits(d) && digits_value(d) <= usize::MAX {
        Some(digits_value(d) as usize)
    } else {
        None
    }
}

proof fn lemma_token_end(s: Seq<char>, i: int)
    requires
        0 <= i <= s.len(),
    ensures
        i <= token_end(s, i) <= s.len(),
    decreases s.len() - i,
{
    if i < s.len() && !is_white_space(s[i]) {
        lemma_token_end(s, i + 1);
    }
}

/// Reads the leading number of a text such as `"3 candidates"`.
fn leading_count(text: &str) -> (r: Option<usize>)
    ensures
        r == parse_usize(first_token(text@)),
{
    let v = chars_of(text);
    let n = v.len();
    let (start, _) = trim_bounds(v.as_slice());
    let mut end = start;
    proof {
        crate::text::lemma_lead_ws_bound(v@);
    }
    while end < n && !white_space(v[end])
        invariant
            start <= end <= n,
            n == v.len(),
            token_end(v@, end as int) == token_end(v@, start as int),
        decreases n - end,
    {
        end += 1;
    }
    proof {
        lemma_token_end(v@, start as int);
    }
    let ghost tok = v@.subrange(start as int, end as int);
    assert(tok == first_token(text@));
    let mut i = start;
    if i < end && v[i] == '+' {
        i += 1;
    }
    let ghost d = v@.subrange(i as int, end as int);
    assert(d =~= unsigned_digits(tok));
    if i == end {
        return None;
    }
    let mut val: usize = 0;
    let mut k = i;
    while k < end
        invariant
            i <= k <= end <= n,
            n == v.len(),
            d == v@.subrange(i as int, end as int),
            d == unsigned_digits(first_token(text@)),
            forall|j: int| i <= j < k ==> crate::text::is_ascii_digit(#[trigger] v@[j]),
            val == digits_value(v@.subrange(i as int, k as int)),
        decreases end - k,
    {
        let c = v[k];
        if c < '0' || c > '9' {
            assert(d[k - i] == c);
            assert(!crate::text::is_ascii_digit(d[k - i]));
            assert(!all_digits(d));
            return None;
        }
        assert(v@.subrange(i as int, k + 1).drop_last() =~= v@.subrange(i as int, k as int));
        assert(v@.subrange(i as int, k + 1).last() == c);
        let dv: usize = ((c as u32) - ('0' as u32)) as usize;
        match val.checked_mul(10) {
            Some(m) => match m.checked_add(dv) {
                Some(nv) => {
                    val = nv;
                },
                None => {
                    proof {
                        crate::step::lemma_digits_value_prefix(d, (k + 1 - i) as int);
                        assert(d.take((k + 1 - i) as int) =~= v@.subrange(i as int, k + 1));
                        assert(digits_value(v@.subrange(i as int, k + 1)) == val * 10 + dv);
                    }
                    return None;
                },
            },
            None => {
                proof {
                    crate::step::lemma_digits_value_prefix(d, (k + 1 - i) as int);
                    assert(d.take((k + 1 - i) as int) =~= v@.subrange(i as int, k + 1));
                    assert(digits_value(v@.subrange(i as int, k + 1)) == val * 10 + dv);
                }
                return None;
            },
        }
        k += 1;
    }
    assert(all_digits(d)) by {
        assert forall|j: int| 0 <= j < d.len() implies crate::text::is_ascii_digit(#[trigger] d[j]) by {
            assert(d[j] == v@[i + j]);
        }
    }
    assert(v@.subrange(i as int, k as int) =~= d);
    Some(val)
}

/// The index of the last step record that did not match.
pub open spec fn last_failed(segs: Seq<SegmentView>) -> Option<int>
    decreases segs.len(),
{
    if segs.len() == 0 {
        None
    } else if !segs.last().matched {
        Some(segs.len() - 1)
    } else {
        last_failed(segs.drop_last())
    }
}

/// Whether a predicate failure is one of those that name their own reason.
pub open spec fn is_special_failure(f: FailureView) -> bool {
    f.attr_name == "findOne"@ || f.attr_name == "Timeout"@
}

/// The index of the first failure that names its own reason.
pub open spec fn first_special(fs: Seq<FailureView>) -> Option<int>
    decreases fs.len(),
{
    if fs.len() == 0 {
        None
    } else if is_special_failure(fs[0]) {
        Some(0)
    } else {
        match first_special(fs.drop_first()) {
            Some(j) => Some(j + 1),
            None => None,
        }
    }
}

/// The number of candidates a `findOne` failure reports: the number its
/// text starts with, else the step's match count but at least two.
pub open spec fn reported_candidates(f: FailureView, match_count: usize) -> usize {
    let fallback = if match_count > 2 { match_count } else { 2 };
    match f.actual_value {
        Some(v) => match parse_usize(first_token(v)) {
            Some(n) => n,
            None => fallback,
        },
        None => fallback,
    }
}

/// The reason a search's step records give for finding nothing: taken from
/// the last step that did not match.
pub open spec fn reason_from_segments(segs: Seq<SegmentView>) -> Option<ReasonView> {
    match last_failed(segs) {
        None => None,
        Some(i) => {
            let s = segs[i];
            match first_special(s.predicate_failures) {
                Some(j) => {
                    let f = s.predicate_failures[j];
                    if f.attr_name == "findOne"@ {
                        Some(ReasonView::LeafNotUnique { candidates: reported_candidates(f, s.match_count) })
                    } else {
                        Some(ReasonView::Timeout { budget_ms: 0, elapsed_ms: s.duration_ms })
                    }
                },
                None => Some(ReasonView::StepNotFound {
                    step: (s.segment_index + 1) as usize,
                    xpath_step: s.segment_text,
                }),
            }
        },
    }
}

/// The step reported as not found, if any, leaves room for counting from 1:
/// the position of the last step that did not match, where no `findOne` or
/// `Timeout` failure decides, is below the largest `usize`.
pub open spec fn indices_countable(segs: Seq<SegmentView>) -> bool {
    match last_failed(segs) {
        Some(i) => first_special(segs[i].predicate_failures) is None ==> segs[i].segment_index < usize::MAX,
        None => true,
    }
}

proof fn lemma_last_failed(segs: Seq<SegmentView>)
    ensures
        match last_failed(segs) {
            Some(i) => 0 <= i < segs.len() && !segs[i].matched && forall|k: int|
                i < k < segs.len() ==> #[trigger] segs[k].matched,
            None => forall|k: int| 0 <= k < segs.len() ==> #[trigger] segs[k].matched,
        },
    decreases segs.len(),
{
    if segs.len() > 0 && segs.last().matched {
        lemma_last_failed(segs.drop_last());
        assert forall|k: int| 0 <= k < segs.len() - 1 implies segs.drop_last()[k] == #[trigger] segs[k] by {}
    }
}

proof fn lemma_first_special(fs: Seq<FailureView>)
    ensures
        match first_special(fs) {
            Some(j) => 0 <= j < fs.len() && is_special_failure(fs[j]) && forall|k: int|
                0 <= k < j ==> !is_special_failure(#[trigger] fs[k]),
            None => forall|k: int| 0 <= k < fs.len() ==> !is_special_failure(#[trigger] fs[k]),
        },
    decreases fs.len(),
{
    if fs.len() > 0 && !is_special_failure(fs[0]) {
        lemma_first_special(fs.drop_first());
        assert forall|k: int| 1 <= k < fs.len() implies fs.drop_first()[k - 1] == #[trigger] fs[k] by {}
    }
}

/// The reason the step records of a search give for finding nothing: the
/// last step that did not match decides. A `findOne` failure there means the
/// leaf was not unique, a `Timeout` failure that time ran out; otherwise that
/// step was not found. `None` when every step matched.
pub fn extract_not_found_reason_from_segments(segments: &[SegmentValidationResult]) -> (r: Option<NotFoundReason>)
    requires
        indices_countable(segments@.map_values(|x: SegmentValidationResult| x@)),
    ensures
        opt_reason(r) == reason_from_segments(segments@.map_values(|x: SegmentValidationResult| x@)),
{
    let ghost segs = segments@.map_values(|x: SegmentValidationResult| x@);
    proof {
        lemma_last_failed(segs);
        reveal_strlit("findOne");
        reveal_strlit("Timeout");
    }
    let n = segments.len();
    let mut i = n;
    while i > 0 && segments[i - 1].matched
        invariant
            i <= n,
            n == segments.len(),
            segs == segments@.map_values(|x: SegmentValidationResult| x@),
            forall|k: int| i <= k < n ==> #[trigger] segs[k].matched,
        decreases i,
    {
        assert(segs[i - 1] == segments@[i - 1]@);
        i -= 1;
    }
    if i == 0 {
        return None;
    }
    let s = &segments[i - 1];
    assert(segs[i - 1] == segments@[i - 1]@);
    assert(!segs[i - 1].matched);
    assert(last_failed(segs) == Some((i - 1) as int)) by {
        match last_failed(segs) {
            Some(j) => {
                if j > i - 1 {
                    assert(segs[j].matched);
                }
            },
            None => {},
        }
    }
    assert(segs[i - 1] == s@);
    let ghost fs = s@.predicate_failures;
    proof {
        lemma_first_special(fs);
    }
    let m = s.predicate_failures.len();
    let mut j: usize = 0;
    while j < m
        invariant
            j <= m,
            m == s.predicate_failures.len(),
            fs == s@.predicate_failures,
            forall|k: int| 0 <= k < j ==> !is_special_failure(#[trigger] fs[k]),
            segs == segments@.map_values(|x: SegmentValidationResult| x@),
            last_failed(segs) == Some((i - 1) as int),
            1 <= i <= segments.len(),
            segs[i - 1] == s@,
        decreases m - j,
    {
        proof {
            reveal_strlit("findOne");
            reveal_strlit("Timeout");
        }
        let pf = &s.predicate_failures[j];
        assert(fs[j as int] == pf@);
        if crate::model::str_eq(pf.attr_name.as_str(), "findOne") {
            assert(first_special(fs) == Some(j as int)) by {
                lemma_first_special(fs);
                match first_special(fs) {
                    Some(x) => {
                        if x > j {
                            assert(is_special_failure(fs[j as int]));
                        }
                    },
                    None => {
                        assert(is_special_failure(fs[j as int]));
                    },
                }
            }
            let fallback = if s.match_count > 2 {
                s.match_count
            } else {
                2
            };
            let candidates = match &pf.actual_value {
                Some(v) => match leading_count(v.as_str()) {
                    Some(c) => c,
                    None => fallback,
                },
                None => fallback,
            };
            return Some(NotFoundReason::LeafNotUnique { candidates });
        }
        if crate::model::str_eq(pf.attr_name.as_str(), "Timeout") {
            assert(first_special(fs) == Some(j as int)) by {
                lemma_first_special(fs);
                match first_special(fs) {
                    Some(x) => {
                        if x > j {
                            assert(is_special_failure(fs[j as int]));
                        }
                    },
                    None => {
                        assert(is_special_failure(fs[j as int]));
                    },
                }
            }
            return Some(NotFoundReason::Timeout { budget_ms: 0, elapsed_ms: s.duration_ms });
        }
        j += 1;
    }
    assert(segs[i - 1].segment_index < usize::MAX);
    Some(NotFoundReason::StepNotFound { step: s.segment_index + 1, xpath_step: s.segment_text.clone() })
}

/// The verdict of a validation.
#[derive(Debug)]
pub enum ValidationResult {
    /// Elements were found, with the rectangles of those that have one.
    Found { count: usize, first_rect: Option<ElementRect>, rects: Vec<ElementRect> },
    /// Nothing was found, for the reason given if one is known.
    NotFound { reason: Option<NotFoundReason> },
    /// The search itself failed.
    Error(String),
}

/// The verdict for `count` elements found, with the rectangles read from them.
pub fn found_result(count: usize, rects: Vec<ElementRect>) -> (r: ValidationResult)
    ensures
        r matches ValidationResult::Found { count: c, first_rect, rects: rs } && c == count && rs@ == rects@
            && first_rect == (if rects@.len() > 0 {
            Some(rects@[0])
        } else {
            None
        }),
{
    let first_rect = if rects.len() > 0 {
        Some(rects[0])
    } else {
        None
    };
    ValidationResult::Found { count, first_rect, rects }
}

/// The not-found reason a verdict carries, if any.
pub fn not_found_reason_of(r: &ValidationResult) -> (o: Option<NotFoundReason>)
    ensures
        opt_reason(o) == match r {
            ValidationResult::NotFound { reason } => opt_reason(*reason),
            _ => None,
        },
{
    match r {
        ValidationResult::NotFound { reason } => match reason {
            Some(x) => Some(x.duplicate()),
            None => None,
        },
        _ => None,
    }
}

/// The time budget of a validation: the one given, else by locate mode
/// 1500 ms for the control view, 3000 ms for the raw view, and 5000 ms when
/// no mode is known.
pub open spec fn timeout_budget(timeout_ms: Option<u64>, mode: Option<LocateMode>) -> u64 {
    match timeout_ms {
        Some(t) => t,
        None => match mode {
            Some(LocateMode::Fast) => 1500,
            Some(LocateMode::FastChild) => 1500,
            Some(LocateMode::Full) => 3000,
            Some(LocateMode::FullChild) => 3000,
            None => 5000,
        },
    }
}

pub open spec fn context_mode(ctx: Option<&SearchContext>) -> Option<LocateMode> {
    match ctx {
        Some(c) => Some(c.locate_mode),
        None => None,
    }
}

/// The time budget of a validation.
pub fn effective_timeout(timeout_ms: Option<u64>, search_context: Option<&SearchContext>) -> (t: u64)
    ensures
        t == timeout_budget(timeout_ms, context_mode(search_context)),
{
    match timeout_ms {
        Some(t) => t,
        None => match search_context {
            Some(ctx) => match ctx.locate_mode {
                LocateMode::Fast | LocateMode::FastChild => 1500,
                LocateMode::Full | LocateMode::FullChild => 3000,
            },
            None => 5000,
        },
    }
}

/// The order in which `n` matched windows are tried: the foreground window
/// first when it is among them, the others in their order.
pub open spec fn try_order(n: nat, foreground: Option<usize>) -> Seq<usize> {
    match foreground {
        Some(i) => if 0 < i < n {
            seq![i] + Seq::new(i as nat, |k: int| k as usize) + Seq::new((n - i - 1) as nat, |k: int| (k + i + 1) as usize)
        } else {
            Seq::new(n, |k: int| k as usize)
        },
        None => Seq::new(n, |k: int| k as usize),
    }
}

/// The positions of the matched windows in the order they are tried.
pub fn window_try_order(window_count: usize, foreground: Option<usize>) -> (v: Vec<usize>)
    ensures
        v@ == try_order(window_count as nat, foreground),
{
    let mut v: Vec<usize> = Vec::new();
    let fg: usize = match foreground {
        Some(i) => if 0 < i && i < window_count {
            i
        } else {
            0
        },
        None => 0,
    };
    if fg > 0 {
        v.push(fg);
    }
    let mut k: usize = 0;
    while k < window_count
        invariant
            k <= window_count,
            fg == 0 || (0 < fg < window_count),
            fg == 0 ==> v@ == Seq::new(k as nat, |j: int| j as usize),
            fg > 0 && k <= fg ==> v@ == seq![fg] + Seq::new(k as nat, |j: int| j as usize),
            fg > 0 && k > fg ==> v@ == seq![fg] + Seq::new(fg as nat, |j: int| j as usize) + Seq::new(
                (k - fg - 1) as nat,
                |j: int| (j + fg + 1) as usize,
            ),
        decreases window_count - k,
    {
        if k != fg || fg == 0 {
            v.push(k);
        }
        proof {
            if fg == 0 {
                assert(v@ =~= Seq::new((k + 1) as nat, |j: int| j as usize));
            } else if k < fg {
                assert(v@ =~= seq![fg] + Seq::new((k + 1) as nat, |j: int| j as usize));
            } else if k == fg {
                assert(v@ =~= seq![fg] + Seq::new(fg as nat, |j: int| j as usize) + Seq::new(
                    0,
                    |j: int| (j + fg + 1) as usize,
                ));
            } else {
                assert(v@ =~= seq![fg] + Seq::new(fg as nat, |j: int| j as usize) + Seq::new(
                    (k + 1 - fg - 1) as nat,
                    |j: int| (j + fg + 1) as usize,
                ));
            }
        }
        k += 1;
    }
    proof {
        if fg == 0 {
            assert(try_order(window_count as nat, foreground) =~= Seq::new(window_count as nat, |j: int| j as usize));
        }
    }
    v
}

/// Every matched window is tried exactly once, and the foreground window,
/// when it is among them, first.
pub proof fn lemma_try_order_is_permutation(window_count: usize, foreground: Option<usize>)
    ensures
        try_order(window_count as nat, foreground).len() == window_count,
        forall|j: int| 0 <= j < window_count ==> #[trigger] try_order(window_count as nat, foreground)[j] < window_count,
        forall|j1: int, j2: int|
            0 <= j1 < j2 < window_count ==> #[trigger] try_order(window_count as nat, foreground)[j1]
                != #[trigger] try_order(window_count as nat, foreground)[j2],
        (foreground matches Some(i) && i < window_count) ==> try_order(window_count as nat, foreground)[0]
            == foreground->0,
{
    let n = window_count as nat;
    let s = try_order(n, foreground);
    match foreground {
        Some(i) => {
            if 0 < i < n {
                let a: Seq<usize> = seq![i];
                let b = Seq::new(i as nat, |k: int| k as usize);
                let c = Seq::new((n - i - 1) as nat, |k: int| (k + i + 1) as usize);
                assert(s == a + b + c);
                assert forall|j: int| 0 <= j < n implies #[trigger] s[j] == (if j == 0 {
                    i as int
                } else if j <= i {
                    j - 1
                } else {
                    j
                }) by {
                    if j == 0 {
                        assert((a + b)[0] == a[0]);
                    } else if j <= i {
                        assert((a + b)[j] == b[j - 1]);
                    } else {
                        assert(s[j] == c[j - 1 - i]);
                    }
                }
            }
        },
        None => {},
    }
}

/// The locate mode of a validation and its child-window hint: those of the
/// search context where given, else those of the XPath's prefix.
pub fn resolve_locate_mode(search_context: Option<&SearchContext>, element_xpath: &str) -> (r: (
    Option<LocateMode>,
    Option<ChildHwndHint>,
))
    ensures
        r.0 == match context_mode(search_context) {
            Some(m) => Some(m),
            None => locate_prefix(element_xpath@).0,
        },
        match search_context {
            Some(c) if c.child_hwnd_hint is Some => r.1 matches Some(h) && h.hwnd_class@
                == c.child_hwnd_hint->0.hwnd_class@ && h.hwnd_title@ == c.child_hwnd_hint->0.hwnd_title@,
            _ => match locate_prefix(element_xpath@).1 {
                Some((cl, t)) => r.1 matches Some(h) && h.hwnd_class@ == cl && h.hwnd_title@ == t,
                None => r.1 is None,
            },
        },
{
    let (prefix_mode, prefix_hint, _) = LocateMode::strip_xpath_prefix(element_xpath);
    let mode = match search_context {
        Some(ctx) => Some(ctx.locate_mode),
        None => prefix_mode,
    };
    let hint = match search_context {
        Some(ctx) => match &ctx.child_hwnd_hint {
            Some(h) => Some(ChildHwndHint { hwnd_class: h.hwnd_class.clone(), hwnd_title: h.hwnd_title.clone() }),
            None => prefix_hint,
        },
        None => prefix_hint,
    };
    (mode, hint)
}

/// Whether a child window (its class name and name, where they could be
/// read) matches a hint: its class contains the hint's class, and its name
/// contains the hint's title unless that is empty.
pub open spec fn hint_matches(hint_class: Seq<char>, hint_title: Seq<char>, class_name: Option<Seq<char>>, name: Option<Seq<char>>) -> bool {
    &&& class_name matches Some(c) && contains_seq(c, hint_class)
    &&& hint_title.len() == 0 || (name matches Some(nm) && contains_seq(nm, hint_title))
}

pub open spec fn opt_str_view(o: Option<&str>) -> Option<Seq<char>> {
    match o {
        Some(s) => Some(s@),
        None => None,
    }
}

/// Whether a child window matches the hint of a child-mode search.
pub fn child_hint_matches(hint: &ChildHwndHint, class_name: Option<&str>, name: Option<&str>) -> (b: bool)
    ensures
        b == hint_matches(hint.hwnd_class@, hint.hwnd_title@, opt_str_view(class_name), opt_str_view(name)),
{
    let class_ok = match class_name {
        Some(c) => {
            let cv = chars_of(c);
            let hv = chars_of(hint.hwnd_class.as_str());
            contains_chars(cv.as_slice(), hv.as_slice())
        },
        None => false,
    };
    let title_ok = if hint.hwnd_title.as_str().is_empty() {
        true
    } else {
        match name {
            Some(nm) => {
                let nv = chars_of(nm);
                let tv = chars_of(hint.hwnd_title.as_str());
                contains_chars(nv.as_slice(), tv.as_slice())
            },
            None => false,
        }
    };
    class_ok && title_ok
}

/// The verdict when a child-mode search found no child window that matches
/// its hint: the hint's class is reported. `None` when there is no hint or
/// some child window matched.
pub fn missing_child_window(hint: Option<&ChildHwndHint>, matching_windows: usize) -> (r: Option<NotFoundReason>)
    ensures
        match hint {
            Some(h) if matching_windows == 0 => r matches Some(x) && x@ == (ReasonView::ChildHwndNotFound {
                class: h.hwnd_class@,
            }),
            _ => r is None,
        },
{
    match hint {
        Some(h) => if matching_windows == 0 {
            Some(NotFoundReason::ChildHwndNotFound { class: h.hwnd_class.clone() })
        } else {
            None
        },
        None => None,
    }
}

/// At most this many matched windows are tried.
pub const MAX_WINDOWS_TO_TRY: usize = 5;

/// What searching one window gave: how many elements, and the step records.
#[derive(Debug)]
pub struct WindowOutcome {
    pub result_count: usize,
    pub segments: Vec<SegmentValidationResult>,
}

/// What to do with the next window in order.
#[derive(Debug, Clone, Copy, PartialEq, Eq, Structural)]
pub enum WindowStep {
    /// Stop trying windows.
    Stop,
    /// Leave this window out and go on.
    Skip,
    /// Search this window.
    Try,
}

/// The state of trying the matched windows one after another.
#[derive(Debug)]
pub struct WindowSearch {
    /// How many windows may be tried.
    pub limit: usize,
    pub timeout_ms: u64,
    /// Whether a WebView window was searched already.
    pub webview_tried: bool,
    /// The error of the last window whose search failed.
    pub last_error: Option<String>,
    /// The window outcome kept: the first one that found elements, else
    /// the first one that found none.
    pub best: Option<WindowOutcome>,
}

/// What to do with the window at position `win_idx` (in trying order).
pub open spec fn step_for(limit: usize, timeout_ms: u64, webview_tried: bool, win_idx: usize, elapsed_ms: u64, is_webview: bool) -> WindowStep {
    if win_idx >= limit {
        WindowStep::Stop
    } else if elapsed_ms > timeout_ms {
        WindowStep::Stop
    } else if is_webview && webview_tried {
        WindowStep::Skip
    } else {
        WindowStep::Try
    }
}

/// The verdict once the windows have been tried.
pub open spec fn search_verdict(best: Option<WindowOutcome>, last_error: Option<String>, timeout_ms: u64, elapsed_ms: u64) -> Option<ReasonView> {
    match best {
        Some(o) => if o.result_count == 0 {
            if elapsed_ms >= timeout_ms {
                Some(ReasonView::Timeout { budget_ms: timeout_ms, elapsed_ms })
            } else {
                reason_from_segments(segments_view(o.segments@))
            }
        } else {
            None
        },
        None => None,
    }
}

impl WindowSearch {
    /// Starts trying `window_count` matched windows within `timeout_ms`.
    pub fn new(window_count: usize, timeout_ms: u64) -> (s: Self)
        ensures
            s.limit == (if window_count < MAX_WINDOWS_TO_TRY {
                window_count
            } else {
                MAX_WINDOWS_TO_TRY
            }),
            s.timeout_ms == timeout_ms,
            !s.webview_tried,
            s.last_error is None,
            s.best is None,
    {
        let limit = if window_count < MAX_WINDOWS_TO_TRY {
            window_count
        } else {
            MAX_WINDOWS_TO_TRY
        };
        WindowSearch { limit, timeout_ms, webview_tried: false, last_error: None, best: None }
    }

    /// Decides on the window at position `win_idx` in trying order, `elapsed_ms`
    /// into the validation: stop past the window limit or the time budget;
    /// skip a WebView window once one was searched; else search it.
    pub fn next_step(&mut self, win_idx: usize, elapsed_ms: u64, is_webview: bool) -> (step: WindowStep)
        ensures
            step == step_for(old(self).limit, old(self).timeout_ms, old(self).webview_tried, win_idx, elapsed_ms, is_webview),
            final(self).webview_tried == (old(self).webview_tried || (step == WindowStep::Try && is_webview)),
            final(self).limit == old(self).limit,
            final(self).timeout_ms == old(self).timeout_ms,
            final(self).last_error == old(self).last_error,
            final(self).best == old(self).best,
    {
        if win_idx >= self.limit {
            return WindowStep::Stop;
        }
        if elapsed_ms > self.timeout_ms {
            return WindowStep::Stop;
        }
        if is_webview {
            if self.webview_tried {
                return WindowStep::Skip;
            }
            self.webview_tried = true;
        }
        WindowStep::Try
    }

    /// Takes in what searching a window gave; `true` when it found elements
    /// and no further window is to be tried. An outcome with elements is
    /// kept; one without is kept only when none was kept before; a failed
    /// search leaves its error as the last one.
    pub fn record(&mut self, outcome: Result<WindowOutcome, String>) -> (found: bool)
        ensures
            final(self).limit == old(self).limit,
            final(self).timeout_ms == old(self).timeout_ms,
            final(self).webview_tried == old(self).webview_tried,
            match outcome {
                Ok(o) => if o.result_count > 0 {
                    found && final(self).best == Some(o) && final(self).last_error == old(self).last_error
                } else {
                    !found && final(self).last_error == old(self).last_error && final(self).best == (
                    if old(self).best is None {
                        Some(o)
                    } else {
                        old(self).best
                    })
                },
                Err(e) => !found && final(self).last_error == Some(e) && final(self).best == old(self).best,
            },
    {
        match outcome {
            Ok(o) => {
                if o.result_count > 0 {
                    self.best = Some(o);
                    true
                } else {
                    if self.best.is_none() {
                        self.best = Some(o);
                    }
                    false
                }
            },
            Err(e) => {
                self.last_error = Some(e);
                false
            },
        }
    }

    /// The verdict after the windows were tried, `elapsed_ms` into the
    /// validation, with the rectangles of the elements found, and the step
    /// records of the outcome kept. With no outcome kept: the last error, or
    /// a general failure. With elements: found. Without: not found, because
    /// time ran out when the budget is spent, else for the reason the step
    /// records give.
    pub fn finish(self, elapsed_ms: u64, rects: Vec<ElementRect>) -> (r: (ValidationResult, Vec<SegmentValidationResult>))
        requires
            self.best matches Some(o) ==> indices_countable(segments_view(o.segments@)),
        ensures
            match self.best {
                None => r.1@.len() == 0 && (r.0 matches ValidationResult::Error(m) && m@ == match self.last_error {
                    Some(e) => e@,
                    None => "XPath 执行失败"@,
                }),
                Some(o) => r.1@ == o.segments@ && if o.result_count == 0 {
                    (r.0 matches ValidationResult::NotFound { reason } && opt_reason(reason) == search_verdict(
                        self.best,
                        self.last_error,
                        self.timeout_ms,
                        elapsed_ms,
                    ))
                } else {
                    (r.0 matches ValidationResult::Found { count, first_rect, rects: rs } && count == o.result_count
                        && rs@ == rects@ && first_rect == (if rects@.len() > 0 {
                        Some(rects@[0])
                    } else {
                        None
                    }))
                },
            },
    {
        let timeout_ms = self.timeout_ms;
        match self.best {
            None => {
                let msg = match self.last_error {
                    Some(e) => e,
                    None => "XPath 执行失败".to_string(),
                };
                (ValidationResult::Error(msg), Vec::new())
            },
            Some(o) => {
                if o.result_count == 0 {
                    let reason = if elapsed_ms >= timeout_ms {
                        Some(NotFoundReason::Timeout { budget_ms: timeout_ms, elapsed_ms })
                    } else {
                        extract_not_found_reason_from_segments(o.segments.as_slice())
                    };
                    (ValidationResult::NotFound { reason }, o.segments)
                } else {
                    (found_result(o.result_count, rects), o.segments)
                }
            },
        }
    }
}

/// Whether a property value found on an element satisfies a filter's
/// operator against the expected value. The ordering operators compare for
/// equality.
pub open spec fn operator_holds(op: Operator, actual: Seq<char>, expected: Seq<char>) -> bool {
    match op {
        Operator::Equals => actual == expected,
        Operator::NotEquals => actual != expected,
        Operator::Contains => contains_seq(actual, expected),
        Operator::NotContains => !contains_seq(actual, expected),
        Operator::StartsWith => expected.is_prefix_of(actual),
        Operator::NotStartsWith => !expected.is_prefix_of(actual),
        Operator::EndsWith => expected.is_suffix_of(actual),
        Operator::NotEndsWith => !expected.is_suffix_of(actual),
        Operator::Matches => regex_compiles(expected) && regex_matches(expected, actual),
        Operator::NotMatches => !regex_compiles(expected) || !regex_matches(expected, actual),
        _ => actual == expected,
    }
}

/// `e` is no longer than `x` and agrees with its last characters.
pub open spec fn closes_with(x: Seq<char>, e: Seq<char>) -> bool {
    e.len() <= x.len() && forall|k: int| 0 <= k < e.len() ==> #[trigger] x[x.len() - e.len() + k] == e[k]
}

/// What each operator tests, in terms of the two texts: equality; `e`
/// standing somewhere in `x`; `x` opening with `e`; `x` closing with `e`;
/// a pattern that compiles and matches; the ordering operators test
/// equality. Each negated operator holds exactly when its positive one
/// does not.
pub proof fn lemma_operator_meaning(x: Seq<char>, e: Seq<char>)
    ensures
        operator_holds(Operator::Equals, x, e) <==> x == e,
        operator_holds(Operator::Contains, x, e) <==> crate::matching::stands_in(x, e),
        operator_holds(Operator::StartsWith, x, e) <==> crate::matching::opens_with(x, e),
        operator_holds(Operator::EndsWith, x, e) <==> closes_with(x, e),
        operator_holds(Operator::Matches, x, e) <==> (regex_compiles(e) && regex_matches(e, x)),
        operator_holds(Operator::NotEquals, x, e) <==> !operator_holds(Operator::Equals, x, e),
        operator_holds(Operator::NotContains, x, e) <==> !operator_holds(Operator::Contains, x, e),
        operator_holds(Operator::NotStartsWith, x, e) <==> !operator_holds(Operator::StartsWith, x, e),
        operator_holds(Operator::NotEndsWith, x, e) <==> !operator_holds(Operator::EndsWith, x, e),
        operator_holds(Operator::NotMatches, x, e) <==> !operator_holds(Operator::Matches, x, e),
        operator_holds(Operator::GreaterThan, x, e) <==> x == e,
        operator_holds(Operator::GreaterThanOrEq, x, e) <==> x == e,
        operator_holds(Operator::LessThan, x, e) <==> x == e,
        operator_holds(Operator::LessThanOrEq, x, e) <==> x == e,
{
    crate::matching::lemma_contains_stands(x, e);
    crate::matching::lemma_prefix_opens(x, e);
    if e.is_suffix_of(x) {
        assert forall|k: int| 0 <= k < e.len() implies #[trigger] x[x.len() - e.len() + k] == e[k] by {
            assert(x.subrange(x.len() - e.len(), x.len() as int)[k] == x[x.len() - e.len() + k]);
        }
    }
    if closes_with(x, e) {
        assert forall|k: int| 0 <= k < e.len() implies x.subrange(x.len() - e.len(), x.len() as int)[k] == e[k] by {
            assert(x[x.len() - e.len() + k] == e[k]);
        }
        assert(e =~= x.subrange(x.len() - e.len(), x.len() as int));
    }
}

pub fn chars_prefix(p: &[char], s: &[char]) -> (b: bool)
    ensures
        b == p@.is_prefix_of(s@),
{
    if p.len() > s.len() {
        return false;
    }
    let mut i: usize = 0;
    while i < p.len()
        invariant
            i <= p.len() <= s.len(),
            forall|k: int| 0 <= k < i ==> p@[k] == s@[k],
        decreases p.len() - i,
    {
        if p[i] != s[i] {
            return false;
        }
        i += 1;
    }
    assert(p@ =~= s@.subrange(0, p@.len() as int));
    true
}

fn chars_suffix(p: &[char], s: &[char]) -> (b: bool)
    ensures
        b == p@.is_suffix_of(s@),
{
    if p.len() > s.len() {
        return false;
    }
    let off = s.len() - p.len();
    let mut i: usize = 0;
    while i < p.len()
        invariant
            i <= p.len() <= s.len(),
            off == s.len() - p.len(),
            forall|k: int| 0 <= k < i ==> p@[k] == s@[off + k],
        decreases p.len() - i,
    {
        if p[i] != s[off + i] {
            assert(s@.subrange(off as int, s@.len() as int)[i as int] == s@[off + i]);
            return false;
        }
        i += 1;
    }
    assert(p@ =~= s@.subrange(off as int, s@.len() as int));
    true
}

/// Whether `actual` satisfies `op` against `expected`; a pattern the
/// `regex` crate rejects matches nothing.
pub fn operator_matches(op: Operator, actual: &str, expected: &str) -> (b: bool)
    ensures
        b == operator_holds(op, actual@, expected@),
{
    let a = chars_of(actual);
    let e = chars_of(expected);
    match op {
        Operator::Equals => crate::model::str_eq(actual, expected),
        Operator::NotEquals => !crate::model::str_eq(actual, expected),
        Operator::Contains => contains_chars(a.as_slice(), e.as_slice()),
        Operator::NotContains => !contains_chars(a.as_slice(), e.as_slice()),
        Operator::StartsWith => chars_prefix(e.as_slice(), a.as_slice()),
        Operator::NotStartsWith => !chars_prefix(e.as_slice(), a.as_slice()),
        Operator::EndsWith => chars_suffix(e.as_slice(), a.as_slice()),
        Operator::NotEndsWith => !chars_suffix(e.as_slice(), a.as_slice()),
        Operator::Matches => match CompiledPattern::compile(expected) {
            Some(p) => p.is_match(actual),
            None => false,
        },
        Operator::NotMatches => match CompiledPattern::compile(expected) {
            Some(p) => !p.is_match(actual),
            None => true,
        },
        _ => crate::model::str_eq(actual, expected),
    }
}

/// Where the element that a layer of the hierarchy is compared with comes from.
#[derive(Debug, Clone, Copy, PartialEq, Eq, Structural)]
pub enum LayerSource {
    /// The element found (the last layer).
    Found,
    /// The found element's ancestor at this position of its ancestor list.
    Ancestor(usize),
    /// No element: the found element has no ancestors to compare with.
    Missing,
}

/// The element layer `layer_idx` of `layer_count` layers is compared with,
/// given the found element's `ancestor_count` ancestors: the last layer with
/// the element itself, layer `i` with ancestor `ancestor_count - (i + 1)`
/// (the first when there are fewer).
pub open spec fn layer_source_of(layer_idx: usize, layer_count: usize, ancestor_count: usize) -> LayerSource {
    if layer_idx + 1 == layer_count {
        LayerSource::Found
    } else {
        let k = if ancestor_count >= layer_idx + 1 {
            ancestor_count - (layer_idx + 1)
        } else {
            0
        };
        if k < ancestor_count {
            LayerSource::Ancestor(k as usize)
        } else {
            LayerSource::Missing
        }
    }
}

/// Which element layer `layer_idx` of the hierarchy is compared with.
pub fn layer_source(layer_idx: usize, layer_count: usize, ancestor_count: usize) -> (r: LayerSource)
    requires
        layer_idx < layer_count,
    ensures
        r == layer_source_of(layer_idx, layer_count, ancestor_count),
{
    if layer_idx == layer_count - 1 {
        LayerSource::Found
    } else {
        let k = ancestor_count.saturating_sub(layer_idx + 1);
        if k < ancestor_count {
            LayerSource::Ancestor(k)
        } else {
            LayerSource::Missing
        }
    }
}

/// How one property filter of a layer fared against the element.
#[derive(Debug)]
pub struct PropertyValidationResult {
    pub attr_name: String,
    pub operator: Operator,
    pub expected_value: String,
    pub actual_value: Option<String>,
    pub matched: bool,
    pub enabled: bool,
}

/// How one layer of the hierarchy fared against the element it was compared with.
#[derive(Debug)]
pub struct LayerValidationResult {
    pub node_index: usize,
    pub control_type: String,
    pub node_label: String,
    /// Every enabled filter matched.
    pub matched: bool,
    pub properties: Vec<PropertyValidationResult>,
    /// 1 when there was an element to compare with, else 0.
    pub match_count: usize,
    pub duration_ms: u64,
}

/// Whether a filter holds of the value read from the element (none when the
/// property could not be read).
pub open spec fn filter_holds(op: Operator, actual: Option<Seq<char>>, expected: Seq<char>) -> bool {
    actual matches Some(a) && operator_holds(op, a, expected)
}

/// A filter record does not fail its layer: it matched, or is disabled.
pub open spec fn record_passes(p: PropertyValidationResult) -> bool {
    p.matched || !p.enabled
}

/// The record of filter `f` against the value read for it.
pub open spec fn property_record_ok(p: PropertyValidationResult, f: PropertyFilter, actual: Option<Seq<char>>) -> bool {
    &&& p.attr_name@ == f.name@
    &&& p.operator == f.operator
    &&& p.expected_value@ == f.value@
    &&& opt_chars(p.actual_value) == actual
    &&& p.matched == filter_holds(f.operator, actual, f.value@)
    &&& p.enabled == f.enabled
}

/// Compares a hierarchy layer with the element found for it: `actuals`
/// holds the value read for each of the layer's filters, or is `None` when
/// there was no element. The layer matches when every enabled filter holds.
pub fn layer_result(layer_idx: usize, node: &HierarchyNode, actuals: Option<&Vec<Option<String>>>) -> (r: LayerValidationResult)
    requires
        actuals matches Some(a) ==> a@.len() == node.filters@.len(),
    ensures
        r.node_index == layer_idx,
        r.control_type@ == node.control_type@,
        r.node_label@ == node_label(node@),
        r.duration_ms == 0,
        r.match_count == (if actuals is Some {
            1usize
        } else {
            0usize
        }),
        r.properties@.len() == node.filters@.len(),
        forall|i: int| 0 <= i < node.filters@.len() ==> property_record_ok(
            #[trigger] r.properties@[i],
            node.filters@[i],
            match actuals {
                Some(a) => opt_chars(a@[i]),
                None => None,
            },
        ),
        r.matched == (actuals is Some && forall|i: int|
            0 <= i < r.properties@.len() ==> record_passes(#[trigger] r.properties@[i])),
{
    let n = node.filters.len();
    let mut props: Vec<PropertyValidationResult> = Vec::new();
    let mut all_ok = true;
    let mut i: usize = 0;
    while i < n
        invariant
            i <= n,
            n == node.filters@.len(),
            actuals matches Some(a) ==> a@.len() == n,
            props@.len() == i,
            forall|k: int| 0 <= k < i ==> property_record_ok(
                #[trigger] props@[k],
                node.filters@[k],
                match actuals {
                    Some(a) => opt_chars(a@[k]),
                    None => None,
                },
            ),
            all_ok == forall|k: int| 0 <= k < i ==> record_passes(#[trigger] props@[k]),
        decreases n - i,
    {
        let f = &node.filters[i];
        let actual: Option<String> = match actuals {
            Some(a) => match &a[i] {
                Some(v) => Some(v.clone()),
                None => None,
            },
            None => None,
        };
        let matched = match &actual {
            Some(v) => operator_matches(f.operator, v.as_str(), f.value.as_str()),
            None => false,
        };
        let p = PropertyValidationResult {
            attr_name: f.name.clone(),
            operator: f.operator,
            expected_value: f.value.clone(),
            actual_value: actual,
            matched,
            enabled: f.enabled,
        };
        let ghost before = props@;
        let ghost was_ok = all_ok;
        all_ok = all_ok && (matched || !f.enabled);
        props.push(p);
        proof {
            assert(props@[i as int] == p);
            assert forall|k: int| 0 <= k < i implies #[trigger] props@[k] == before[k] by {}
            if was_ok && (matched || !f.enabled) {
                assert forall|k: int| 0 <= k < i + 1 implies record_passes(#[trigger] props@[k]) by {
                    if k < i {
                        assert(props@[k] == before[k]);
                    }
                }
            } else if !was_ok {
                let k = choose|k: int| 0 <= k < i && !record_passes(#[trigger] before[k]);
                assert(props@[k] == before[k]);
                assert(!record_passes(props@[k]));
            } else {
                assert(!record_passes(props@[i as int]));
            }
        }
        i += 1;
    }
    assert(props@.len() == n);
    let layer_matched = actuals.is_some() && all_ok;
    assert(layer_matched == (actuals is Some && forall|k: int|
        0 <= k < props@.len() ==> record_passes(#[trigger] props@[k])));
    let r = LayerValidationResult {
        node_index: layer_idx,
        control_type: node.control_type.clone(),
        node_label: node.tree_label(),
        matched: layer_matched,
        properties: props,
        match_count: if actuals.is_some() {
            1
        } else {
            0
        },
        duration_ms: 0,
    };
    assert(r.properties@ == props@);
    r
}

} // verus!
