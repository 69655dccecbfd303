//! The decisions of running an element XPath step by step: how the query is
//! read (search-mode suffix, parenthesized position, locate-mode prefix,
//! steps), what each step's outcome means for the search, how a descendant
//! step's matches are taken, and what a search from a cached parent element
//! returns.
use vstd::prelude::*;
use crate::model::Rect;
use crate::query::{locate_prefix, positional, search_suffix, select_mode, LocateMode, SearchMode};
use crate::step::{depth_overflows, digit_end, digits_value, split_steps, StepExecutionStrategy};
use crate::text::{chars_of, copy_range, decimal, is_ascii_digit, push_decimal, string_of, trim, trim_bounds};
use crate::validation::{opt_reason, NotFoundReason, ReasonView, SegmentValidationResult, SegmentView};
use crate::window::last_char;

verus! {

/// The inner query and position of a parenthesized query `(xpath)[N]`: the
/// text between the opening `(` and the last `)`, trimmed, and the position
/// written after it. Other queries stand as they are.
pub open spec fn paren_query(x: Seq<char>) -> (Seq<char>, Option<usize>) {
    if x.len() > 0 && x[0] == '(' {
        match last_char(x, ')') {
            Some(c) => (
                trim(x.subrange(1, c)),
                match positional(x.subrange(c + 1, x.len() as int)) {
                    Some(n) => Some(n as usize),
                    None => None,
                },
            ),
            None => (x, None),
        }
    } else {
        (x, None)
    }
}

/// How a query is to be run.
#[derive(Debug)]
pub struct QueryPlan {
    /// From the `:first` / `:onlyone` / `:all` suffix.
    pub search_mode: SearchMode,
    /// From `(xpath)[N]`: the position (from 1) to keep.
    pub position_index: Option<usize>,
    /// From the `[fast]` / `[full]` / ... prefix.
    pub locate_mode: Option<LocateMode>,
    /// Whether the control view is searched (fast modes).
    pub is_fast: bool,
    /// The XPath without its decorations.
    pub xpath: String,
    /// Its steps, each with its axis prefix.
    pub steps: Vec<String>,
}

/// The XPath a query runs, once its suffix, parentheses and prefix are gone.
pub open spec fn plain_xpath(q: Seq<char>) -> Seq<char> {
    locate_prefix(paren_query(search_suffix(q).1).0).2
}

pub open spec fn fast_mode(m: Option<LocateMode>) -> bool {
    m == Some(LocateMode::Fast) || m == Some(LocateMode::FastChild)
}

proof fn lemma_last_char_bounds(s: Seq<char>, c: char)
    ensures
        last_char(s, c) matches Some(b) ==> 0 <= b < s.len() && s[b] == c,
    decreases s.len(),
{
    if s.len() > 0 && s.last() != c {
        lemma_last_char_bounds(s.drop_last(), c);
    }
}

fn last_close(v: &[char]) -> (r: Option<usize>)
    ensures
        r matches Some(b) ==> last_char(v@, ')') == Some(b as int),
        r is None ==> last_char(v@, ')') is None,
{
    let mut i = v.len();
    assert(v@.take(i as int) =~= v@);
    while i > 0
        invariant
            i <= v.len(),
            last_char(v@, ')') == last_char(v@.take(i as int), ')'),
        decreases i,
    {
        assert(v@.take(i as int).last() == v@[i - 1]);
        if v[i - 1] == ')' {
            return Some(i - 1);
        }
        assert(v@.take(i as int).drop_last() =~= v@.take(i - 1));
        i -= 1;
    }
    assert(v@.take(0) =~= Seq::<char>::empty());
    None
}

/// Reads a query: its search-mode suffix, then a parenthesized position,
/// then its locate-mode prefix; and splits what is left into steps.
pub fn plan_query(xpath: &str) -> (r: QueryPlan)
    ensures
        r.search_mode == search_suffix(xpath@).0,
        r.position_index == paren_query(search_suffix(xpath@).1).1,
        r.locate_mode == locate_prefix(paren_query(search_suffix(xpath@).1).0).0,
        r.is_fast == fast_mode(r.locate_mode),
        r.xpath@ == plain_xpath(xpath@),
        r.steps@.map_values(|p: String| p@) == split_steps(plain_xpath(xpath@)),
{
    let (search_mode, rest) = SearchMode::strip_suffix(xpath);
    let v = chars_of(rest.as_str());
    let n = v.len();
    let mut inner = rest.clone();
    let mut position_index: Option<usize> = None;
    if n > 0 && v[0] == '(' {
        match last_close(v.as_slice()) {
            Some(c) => {
                proof {
                    lemma_last_char_bounds(v@, ')');
                }
                let after = string_of(copy_range(v.as_slice(), c + 1, n).as_slice());
                position_index = crate::query::parse_positional_predicate(after.as_str());
                let middle = copy_range(v.as_slice(), 1, c);
                let (a, b) = trim_bounds(middle.as_slice());
                inner = string_of(copy_range(middle.as_slice(), a, b).as_slice());
            },
            None => {},
        }
    }
    assert(inner@ == paren_query(search_suffix(xpath@).1).0);
    let (locate_mode, _, stripped) = LocateMode::strip_xpath_prefix(inner.as_str());
    let is_fast = match locate_mode {
        Some(LocateMode::Fast) | Some(LocateMode::FastChild) => true,
        _ => false,
    };
    let steps = crate::step::split_xpath_steps(stripped.as_str());
    QueryPlan { search_mode, position_index, locate_mode, is_fast, xpath: stripped, steps }
}

/// Whether a step's `/*n` prefix spells `u32::MAX` (whose depth limit,
/// one more, does not fit).
pub fn step_depth_overflows(step: &str) -> (b: bool)
    ensures
        b == depth_overflows(step@),
{
    let v = chars_of(step);
    let n = v.len();
    proof {
        reveal_strlit("/*");
    }
    if n < 2 || v[0] != '/' || v[1] != '*' {
        assert(!"/*"@.is_prefix_of(v@)) by {
            if "/*"@.is_prefix_of(v@) {
                assert(v@[0] == "/*"@[0] && v@[1] == "/*"@[1]);
            }
        }
        return false;
    }
    assert("/*"@.is_prefix_of(v@)) by {
        assert(v@.subrange(0, 2) =~= "/*"@);
    }
    let mut j: usize = 2;
    let mut val: u64 = 0;
    let mut over = false;
    while j < n && '0' <= v[j] && v[j] <= '9'
        invariant
            2 <= j <= n,
            n == v.len(),
            digit_end(v@, j as int) == digit_end(v@, 2),
            !over ==> val == digits_value(v@.subrange(2, j as int)),
            !over ==> val <= u32::MAX,
            over ==> digits_value(v@.subrange(2, j as int)) > u32::MAX,
        decreases n - j,
    {
        let d = v[j];
        assert(v@.subrange(2, j + 1).drop_last() =~= v@.subrange(2, j as int));
        assert(v@.subrange(2, j + 1).last() == d);
        if !over {
            let dv: u64 = (d as u64) - ('0' as u64);
            let nv = val * 10 + dv;
            if nv > 4294967295u64 {
                over = true;
            } else {
                val = nv;
            }
        }
        j += 1;
    }
    assert(digit_end(v@, j as int) == j);
    j > 2 && !over && val == 4294967295u64
}

/// The `Debug` text of a strategy.
pub open spec fn strategy_text(s: StepExecutionStrategy) -> Seq<char> {
    match s {
        StepExecutionStrategy::DirectChild => "DirectChild"@,
        StepExecutionStrategy::Descendant => "Descendant"@,
        StepExecutionStrategy::DepthLimitedBfs { max_depth } => "DepthLimitedBfs { max_depth: "@ + decimal(
            max_depth as nat,
        ) + " }"@,
    }
}

/// What the search does after a step.
#[derive(Debug, Clone, Copy, PartialEq, Eq, Structural)]
pub enum StepVerdict {
    /// Go on with the next step from the elements just found.
    Continue,
    /// Stop; the elements just found (none, or the last step's result) are
    /// what the search found.
    Stop,
    /// Stop and return nothing.
    Discard,
}

/// The state of running a query's steps: its search mode, its time budget
/// and the record of each step so far.
#[derive(Debug)]
pub struct StepRun {
    pub search_mode: SearchMode,
    pub timeout_ms: Option<u64>,
    pub segments: Vec<SegmentValidationResult>,
}

/// The record a step leaves when it ran: a `findOne` failure when the last
/// step of a `:onlyone` query matched more than one element, a match when
/// it matched some, else a failure of the strategy used.
pub open spec fn step_record(
    mode: SearchMode,
    step_idx: usize,
    text: Seq<char>,
    strategy: StepExecutionStrategy,
    match_count: usize,
    is_last: bool,
    step_ms: u64,
) -> SegmentView {
    if mode == SearchMode::OnlyOne && is_last && match_count > 1 {
        SegmentView {
            segment_index: step_idx,
            segment_text: text,
            matched: false,
            match_count,
            duration_ms: step_ms,
            predicate_failures: seq![crate::validation::FailureView {
                attr_name: "findOne"@,
                expected_value: "1"@,
                actual_value: Some(crate::validation::candidates_text(match_count)),
            }],
        }
    } else if match_count > 0 {
        SegmentView {
            segment_index: step_idx,
            segment_text: text,
            matched: true,
            match_count,
            duration_ms: step_ms,
            predicate_failures: seq![],
        }
    } else {
        SegmentView {
            segment_index: step_idx,
            segment_text: text,
            matched: false,
            match_count: 0,
            duration_ms: step_ms,
            predicate_failures: seq![crate::validation::FailureView {
                attr_name: "XPath"@,
                expected_value: text,
                actual_value: Some("Step not found via "@ + strategy_text(strategy)),
            }],
        }
    }
}

/// What the search does after a step that found `match_count` elements.
pub open spec fn step_verdict(mode: SearchMode, match_count: usize, consumed: bool, is_last: bool) -> StepVerdict {
    if mode == SearchMode::OnlyOne && is_last && match_count > 1 {
        StepVerdict::Discard
    } else if match_count == 0 || consumed {
        StepVerdict::Stop
    } else {
        StepVerdict::Continue
    }
}

fn strategy_string(s: StepExecutionStrategy) -> (r: String)
    ensures
        r@ == strategy_text(s),
{
    proof {
        reveal_strlit("DirectChild");
        reveal_strlit("Descendant");
        reveal_strlit("DepthLimitedBfs { max_depth: ");
        reveal_strlit(" }");
    }
    match s {
        StepExecutionStrategy::DirectChild => "DirectChild".to_string(),
        StepExecutionStrategy::Descendant => "Descendant".to_string(),
        StepExecutionStrategy::DepthLimitedBfs { max_depth } => {
            let mut r = String::new();
            r.push_str("DepthLimitedBfs { max_depth: ");
            push_decimal(&mut r, max_depth as u64);
            r.push_str(" }");
            r
        },
    }
}

impl StepRun {
    /// Starts running a query's steps.
    pub fn new(search_mode: SearchMode, timeout_ms: Option<u64>) -> (r: Self)
        ensures
            r.search_mode == search_mode,
            r.timeout_ms == timeout_ms,
            r.segments@.len() == 0,
    {
        StepRun { search_mode, timeout_ms, segments: Vec::new() }
    }

    /// Checks the time budget before step `step_idx`, `elapsed_ms` into the
    /// search. When it is spent the step is recorded as timed out and `true`
    /// comes back: the search returns nothing.
    pub fn out_of_time(&mut self, step_idx: usize, step_text: &str, elapsed_ms: u64) -> (spent: bool)
        ensures
            final(self).search_mode == old(self).search_mode,
            final(self).timeout_ms == old(self).timeout_ms,
            spent == (old(self).timeout_ms matches Some(t) && elapsed_ms >= t),
            spent ==> final(self).segments@.map_values(|x: SegmentValidationResult| x@) == old(
                self,
            ).segments@.map_values(|x: SegmentValidationResult| x@).push(SegmentView {
                segment_index: step_idx,
                segment_text: step_text@,
                matched: false,
                match_count: 0,
                duration_ms: elapsed_ms,
                predicate_failures: seq![crate::validation::FailureView {
                    attr_name: "Timeout"@,
                    expected_value: crate::validation::millis_text(old(self).timeout_ms->0),
                    actual_value: Some(crate::validation::millis_text(elapsed_ms)),
                }],
            }),
            !spent ==> final(self).segments@ == old(self).segments@,
    {
        match self.timeout_ms {
            Some(t) => {
                if elapsed_ms >= t {
                    let seg = SegmentValidationResult::timeout(step_idx, step_text, t, elapsed_ms);
                    self.segments.push(seg);
                    proof {
                        assert(final(self).segments@.map_values(|x: SegmentValidationResult| x@) =~= old(
                            self,
                        ).segments@.map_values(|x: SegmentValidationResult| x@).push(seg@));
                    }
                    true
                } else {
                    false
                }
            },
            None => false,
        }
    }

    /// Records step `step_idx` (written `step_text`), run with `strategy`,
    /// which found `match_count` elements (`consumed`: a chain search that
    /// found them took every remaining step at once), and says how the
    /// search goes on.
    pub fn after_step(
        &mut self,
        step_idx: usize,
        step_text: &str,
        strategy: StepExecutionStrategy,
        match_count: usize,
        consumed: bool,
        is_last: bool,
        step_ms: u64,
    ) -> (v: StepVerdict)
        ensures
            final(self).search_mode == old(self).search_mode,
            final(self).timeout_ms == old(self).timeout_ms,
            final(self).segments@.map_values(|x: SegmentValidationResult| x@) == old(
                self,
            ).segments@.map_values(|x: SegmentValidationResult| x@).push(
                step_record(old(self).search_mode, step_idx, step_text@, strategy, match_count, is_last, step_ms),
            ),
            v == step_verdict(old(self).search_mode, match_count, consumed, is_last),
    {
        proof {
            reveal_strlit("XPath");
            reveal_strlit("Step not found via ");
        }
        let seg = if self.search_mode == SearchMode::OnlyOne && is_last && match_count > 1 {
            SegmentValidationResult::leaf_not_unique(step_idx, step_text, match_count, step_ms)
        } else if match_count > 0 {
            SegmentValidationResult::matched(step_idx, step_text, match_count, step_ms)
        } else {
            let mut detail = String::new();
            detail.push_str("Step not found via ");
            let label = strategy_string(strategy);
            detail.push_str(label.as_str());
            SegmentValidationResult::not_found(step_idx, step_text, "XPath", detail.as_str(), step_ms)
        };
        assert(seg@ == step_record(self.search_mode, step_idx, step_text@, strategy, match_count, is_last, step_ms));
        self.segments.push(seg);
        proof {
            assert(final(self).segments@.map_values(|x: SegmentValidationResult| x@) =~= old(
                self,
            ).segments@.map_values(|x: SegmentValidationResult| x@).push(seg@));
        }
        if self.search_mode == SearchMode::OnlyOne && is_last && match_count > 1 {
            StepVerdict::Discard
        } else if match_count == 0 || consumed {
            StepVerdict::Stop
        } else {
            StepVerdict::Continue
        }
    }
}

/// The matches a descendant step keeps from the first element it searched
/// from successfully, and whether they already answer every remaining step:
/// before the last step only the first match is kept, as the anchor of a
/// chain search that took the remaining steps.
pub fn descendant_outcome<T>(matches: Vec<T>, is_last: bool) -> (r: (Vec<T>, bool))
    ensures
        r.0@ == (if !is_last && matches@.len() > 0 {
            matches@.take(1)
        } else {
            matches@
        }),
        r.1 == (!is_last && matches@.len() > 0),
{
    let mut matches = matches;
    let consumed = !is_last && matches.len() > 0;
    if consumed {
        matches.truncate(1);
    }
    (matches, consumed)
}

/// Whether a control-view descendant step that found `found` elements is
/// searched again in the raw view (the Chrome tree-walker fallback).
pub fn needs_raw_fallback(found: usize, chrome_treewalker_fallback: bool) -> (b: bool)
    ensures
        b == (found == 0 && chrome_treewalker_fallback),
{
    found == 0 && chrome_treewalker_fallback
}

/// A point on screen.
#[derive(Debug, Clone, Copy, PartialEq, Eq, Structural, Default)]
pub struct Point {
    pub x: i32,
    pub y: i32,
}

/// What is reported of an element found.
#[derive(Debug, Clone, Default)]
pub struct ElementData {
    pub rect: Option<Rect>,
    /// The part of the rectangle inside its container, if any.
    pub visible_rect: Option<Rect>,
    /// The centre, for elements on screen.
    pub center: Option<Point>,
    /// A point near the centre, for elements on screen.
    pub center_random: Option<Point>,
    pub control_type: String,
    pub name: String,
    pub automation_id: String,
    pub class_name: String,
    pub framework_id: String,
    pub help_text: String,
    pub localized_control_type: String,
    pub is_enabled: bool,
    pub is_offscreen: bool,
    pub is_password: bool,
    pub accelerator_key: String,
    pub access_key: String,
    pub item_type: String,
    pub item_status: String,
    pub process_id: u32,
    pub runtime_id: Option<String>,
    pub is_checkable: Option<bool>,
    pub is_checked: Option<bool>,
    pub is_clickable: Option<bool>,
    pub is_scrollable: Option<bool>,
    pub is_selected: Option<bool>,
}

/// How a search from a cached parent element walks the tree.
#[derive(Debug, Clone, Copy, PartialEq, Eq, Structural)]
pub enum SearchStrategy {
    /// The control view, by XPath.
    Fast { max_depth: u32 },
    /// The raw view, at most `max_depth` levels down.
    Full { max_depth: u32 },
    /// Taken as `Fast`: no fallback from one view to the other.
    Adaptive,
}

/// The search a strategy stands for.
#[derive(Debug, Clone, Copy, PartialEq, Eq, Structural)]
pub enum LocateSearch {
    /// Evaluate the XPath over the control view.
    ControlXPath,
    /// Search the raw view to a depth.
    RawDepthLimited { max_depth: u32 },
}

/// The search a strategy runs: the raw view for `Full`, else the control view.
pub fn locate_search_for(strategy: SearchStrategy) -> (r: LocateSearch)
    ensures
        r == match strategy {
            SearchStrategy::Full { max_depth } => LocateSearch::RawDepthLimited { max_depth },
            _ => LocateSearch::ControlXPath,
        },
{
    match strategy {
        SearchStrategy::Full { max_depth } => LocateSearch::RawDepthLimited { max_depth },
        _ => LocateSearch::ControlXPath,
    }
}

/// What looking up the cached parent element and searching from it gave.
#[derive(Debug)]
pub enum ParentLookup {
    /// No automation instance could be had.
    Unavailable,
    /// No element is cached under the runtime id.
    Missing,
    /// The search found `raw_count` elements, of which `elements` could be
    /// reported (those with a rectangle), in order.
    Found { raw_count: usize, elements: Vec<ElementData> },
}

/// What a search from a cached parent returns in a search mode: nothing
/// without automation; an invalid-parent reason when the parent is not
/// cached; a not-unique reason when one element was required and more were
/// found; else the elements the mode keeps.
pub open spec fn locate_outcome(runtime_id: Seq<char>, mode: SearchMode, lookup: ParentLookup) -> (Seq<ElementData>, Option<ReasonView>) {
    match lookup {
        ParentLookup::Unavailable => (seq![], None),
        ParentLookup::Missing => (seq![], Some(ReasonView::InvalidParent { runtime_id })),
        ParentLookup::Found { raw_count, elements } => if mode == SearchMode::OnlyOne && raw_count > 1 {
            (seq![], Some(ReasonView::LeafNotUnique { candidates: raw_count }))
        } else {
            (select_mode(elements@, mode), None)
        },
    }
}

fn locate_from_impl(runtime_id: &str, search_mode: SearchMode, lookup: ParentLookup) -> (r: (
    Vec<ElementData>,
    Option<NotFoundReason>,
))
    ensures
        r.0@ == locate_outcome(runtime_id@, search_mode, lookup).0,
        opt_reason(r.1) == locate_outcome(runtime_id@, search_mode, lookup).1,
{
    match lookup {
        ParentLookup::Unavailable => (Vec::new(), None),
        ParentLookup::Missing => (
            Vec::new(),
            Some(NotFoundReason::InvalidParent { runtime_id: runtime_id.to_string() }),
        ),
        ParentLookup::Found { raw_count, elements } => {
            if search_mode == SearchMode::OnlyOne && raw_count > 1 {
                (Vec::new(), Some(NotFoundReason::LeafNotUnique { candidates: raw_count }))
            } else {
                (crate::query::apply_search_mode(elements, search_mode), None)
            }
        },
    }
}

pub open spec fn first_of(s: Seq<ElementData>) -> Option<ElementData> {
    if s.len() > 0 {
        Some(s[0])
    } else {
        None
    }
}

fn first_element(v: Vec<ElementData>) -> (r: Option<ElementData>)
    ensures
        r == first_of(v@),
{
    let mut v = v;
    if v.len() > 0 {
        Some(v.remove(0))
    } else {
        None
    }
}

/// The first element found from the cached parent `runtime_id`, or why
/// there is none.
pub fn locate_first_from(runtime_id: &str, lookup: ParentLookup) -> (r: (Option<ElementData>, Option<NotFoundReason>))
    ensures
        r.0 == first_of(locate_outcome(runtime_id@, SearchMode::First, lookup).0),
        opt_reason(r.1) == locate_outcome(runtime_id@, SearchMode::First, lookup).1,
{
    let (results, reason) = locate_from_impl(runtime_id, SearchMode::First, lookup);
    (first_element(results), reason)
}

/// The one element found from the cached parent `runtime_id`, or why there
/// is none (more than one found: not unique).
pub fn locate_one_from(runtime_id: &str, lookup: ParentLookup) -> (r: (Option<ElementData>, Option<NotFoundReason>))
    ensures
        r.0 == first_of(locate_outcome(runtime_id@, SearchMode::OnlyOne, lookup).0),
        opt_reason(r.1) == locate_outcome(runtime_id@, SearchMode::OnlyOne, lookup).1,
{
    let (results, reason) = locate_from_impl(runtime_id, SearchMode::OnlyOne, lookup);
    (first_element(results), reason)
}

/// Every element found from the cached parent `runtime_id` (none when it is
/// not cached).
pub fn locate_all_from(runtime_id: &str, lookup: ParentLookup) -> (r: Vec<ElementData>)
    ensures
        r@ == locate_outcome(runtime_id@, SearchMode::All, lookup).0,
{
    let (results, _) = locate_from_impl(runtime_id, SearchMode::All, lookup);
    results
}

/// The report of an element found on screen under a container: `data` with
/// its rectangle, the part of it inside the container, its control type and
/// runtime id, with no toggle states, and its centre as both centre points
/// when it is on screen (none when it is off screen).
pub fn visible_element(
    data: ElementData,
    rect: Rect,
    visible_rect: Option<Rect>,
    center: Point,
    control_type: String,
    runtime_id: Option<String>,
) -> (r: ElementData)
    ensures
        r.rect == Some(rect),
        r.visible_rect == visible_rect,
        r.center == (if data.is_offscreen {
            None
        } else {
            Some(center)
        }),
        r.center_random == r.center,
        r.control_type == control_type,
        r.runtime_id == runtime_id,
        r.is_checkable is None && r.is_checked is None && r.is_clickable is None,
        r.is_scrollable is None && r.is_selected is None,
        r.name == data.name && r.automation_id == data.automation_id && r.class_name == data.class_name,
        r.framework_id == data.framework_id && r.help_text == data.help_text,
        r.localized_control_type == data.localized_control_type,
        r.is_enabled == data.is_enabled && r.is_offscreen == data.is_offscreen && r.is_password == data.is_password,
        r.accelerator_key == data.accelerator_key && r.access_key == data.access_key,
        r.item_type == data.item_type && r.item_status == data.item_status,
        r.process_id == data.process_id,
{
    let on_screen = !data.is_offscreen;
    ElementData {
        rect: Some(rect),
        visible_rect,
        center: if on_screen {
            Some(center)
        } else {
            None
        },
        center_random: if on_screen {
            Some(center)
        } else {
            None
        },
        control_type,
        runtime_id,
        is_checkable: None,
        is_checked: None,
        is_clickable: None,
        is_scrollable: None,
        is_selected: None,
        ..data
    }
}

/// The query for the elements on screen under a container.
#[derive(Debug)]
pub enum VisibleQuery {
    /// Nothing is searched: the one type asked for is unknown.
    Nothing,
    /// Every element on screen.
    OnScreen,
    /// The elements on screen of any of these control types.
    OnScreenOfTypes(Vec<i32>),
}

/// The known ids among the ids of the asked control types, in order.
pub open spec fn known_ids(s: Seq<Option<i32>>) -> Seq<i32>
    decreases s.len(),
{
    if s.len() == 0 {
        seq![]
    } else {
        let rest = known_ids(s.drop_last());
        match s.last() {
            Some(id) => rest.push(id),
            None => rest,
        }
    }
}

/// Which elements on screen are searched for, given the ids of the control
/// types asked for (`None` for a name that is no known type): all of them
/// when no type is asked for; none when the one type asked for is unknown;
/// else those of the known types, or all of them when none is known.
pub fn visible_query(type_ids: &Vec<Option<i32>>) -> (q: VisibleQuery)
    ensures
        type_ids@.len() == 0 ==> q is OnScreen,
        type_ids@.len() == 1 ==> match type_ids@[0] {
            None => q is Nothing,
            Some(id) => q matches VisibleQuery::OnScreenOfTypes(v) && v@ == seq![id],
        },
        type_ids@.len() > 1 ==> if known_ids(type_ids@).len() == 0 {
            q is OnScreen
        } else {
            q matches VisibleQuery::OnScreenOfTypes(v) && v@ == known_ids(type_ids@)
        },
{
    let n = type_ids.len();
    if n == 0 {
        return VisibleQuery::OnScreen;
    }
    if n == 1 {
        return match type_ids[0] {
            None => VisibleQuery::Nothing,
            Some(id) => {
                let mut v = Vec::new();
                v.push(id);
                VisibleQuery::OnScreenOfTypes(v)
            },
        };
    }
    let mut known: Vec<i32> = Vec::new();
    let mut i: usize = 0;
    while i < n
        invariant
            i <= n,
            n == type_ids@.len(),
            known@ == known_ids(type_ids@.take(i as int)),
        decreases n - i,
    {
        assert(type_ids@.take(i + 1).drop_last() =~= type_ids@.take(i as int));
        assert(type_ids@.take(i + 1).last() == type_ids@[i as int]);
        if let Some(id) = type_ids[i] {
            known.push(id);
        }
        i += 1;
    }
    assert(type_ids@.take(n as int) =~= type_ids@);
    if known.len() == 0 {
        VisibleQuery::OnScreen
    } else {
        VisibleQuery::OnScreenOfTypes(known)
    }
}

/// The number of leading `/` of `s`.
pub open spec fn lead_slashes(s: Seq<char>) -> nat
    decreases s.len(),
{
    if s.len() > 0 && s[0] == '/' {
        1 + lead_slashes(s.drop_first())
    } else {
        0
    }
}

/// `s` without its leading `/` (`trim_start_matches('/')`).
pub open spec fn without_slashes(s: Seq<char>) -> Seq<char> {
    s.skip(lead_slashes(s) as int)
}

/// Whether a query (without its decorations and leading `/`) selects the
/// windows themselves: `Window` or `Window[...]`.
pub open spec fn selects_window(t: Seq<char>) -> bool {
    t == "Window"@ || "Window["@.is_prefix_of(t)
}

/// The `Window[...]` step whose predicates windows are tested with: up to
/// the last `]`.
pub open spec fn window_step(t: Seq<char>) -> Option<Seq<char>> {
    if "Window["@.is_prefix_of(t) {
        match last_char(t, ']') {
            Some(e) => if 6 < e {
                Some(t.take(e + 1))
            } else {
                None
            },
            None => None,
        }
    } else {
        None
    }
}

/// Which windows a query that selects windows keeps.
#[derive(Debug)]
pub enum WindowTarget {
    /// Every window matched by the selector.
    Any,
    /// Those that match this `Window[...]` step.
    Step(String),
}

/// How a search for elements in the windows of a selector is run.
#[derive(Debug)]
pub struct FindPlan {
    pub search_mode: SearchMode,
    /// The query without its search-mode suffix.
    pub query: String,
    pub locate_mode: Option<LocateMode>,
    pub child_mode: bool,
    pub hint: Option<crate::query::ChildHwndHint>,
    /// Set when the query selects the windows themselves (not in child mode).
    pub window_target: Option<WindowTarget>,
    /// At most this many windows are searched (for a selector without predicates).
    pub window_limit: Option<usize>,
    /// WebView windows are left out (absolute queries).
    pub skip_webview: bool,
}

/// The part of a query after its search-mode suffix and locate-mode prefix.
pub open spec fn stripped_query(q: Seq<char>) -> Seq<char> {
    locate_prefix(search_suffix(q).1).2
}

/// Whether a search runs in child mode: by the search context's mode where
/// given, else by the query's prefix.
pub open spec fn effective_child_mode(ctx: Option<&crate::capture::SearchContext>, q: Seq<char>) -> bool {
    match ctx {
        Some(c) => c.locate_mode.child_mode(),
        None => locate_prefix(search_suffix(q).1).0 matches Some(m) && m.child_mode(),
    }
}

/// The queries whose window step can be taken out: a `Window[` query with a
/// closing `]`.
pub open spec fn window_step_readable(q: Seq<char>) -> bool {
    let t = without_slashes(stripped_query(q));
    "Window["@.is_prefix_of(t) ==> last_char(t, ']') is Some
}

fn strip_slashes(v: &[char]) -> (k: usize)
    ensures
        k == lead_slashes(v@),
        k <= v.len(),
{
    let mut k: usize = 0;
    assert(v@.skip(0) =~= v@);
    while k < v.len() && v[k] == '/'
        invariant
            k <= v.len(),
            lead_slashes(v@) == k + lead_slashes(v@.skip(k as int)),
        decreases v.len() - k,
    {
        assert(v@.skip(k as int).drop_first() =~= v@.skip(k + 1));
        k += 1;
    }
    if k < v.len() {
        assert(v@.skip(k as int)[0] == v@[k as int]);
    }
    k
}

/// Plans a search: the search mode and the query without its suffix; the
/// locate mode and child-window hint (the search context's, else the
/// prefix's); outside child mode, whether the query selects the windows
/// themselves; at most three windows for a selector without predicates;
/// WebView windows left out for absolute queries (`/A`, not `//A`).
pub fn plan_find(window_selector: &str, element_xpath: &str, search_context: Option<&crate::capture::SearchContext>) -> (r: FindPlan)
    requires
        !effective_child_mode(search_context, element_xpath@) ==> window_step_readable(element_xpath@),
    ensures
        r.search_mode == search_suffix(element_xpath@).0,
        r.query@ == search_suffix(element_xpath@).1,
        r.locate_mode == match search_context {
            Some(c) => Some(c.locate_mode),
            None => locate_prefix(search_suffix(element_xpath@).1).0,
        },
        r.child_mode == (r.locate_mode matches Some(m) && m.child_mode()),
        r.child_mode ==> r.window_target is None,
        !r.child_mode ==> match r.window_target {
            None => !selects_window(without_slashes(stripped_query(element_xpath@))),
            Some(WindowTarget::Any) => selects_window(without_slashes(stripped_query(element_xpath@)))
                && window_step(without_slashes(stripped_query(element_xpath@))) is None,
            Some(WindowTarget::Step(st)) => selects_window(without_slashes(stripped_query(element_xpath@)))
                && window_step(without_slashes(stripped_query(element_xpath@))) == Some(st@),
        },
        r.window_limit == (if crate::text::contains_seq(window_selector@, seq!['[']) {
            None
        } else {
            Some(3usize)
        }),
        r.skip_webview == ("/"@.is_prefix_of(stripped_query(element_xpath@)) && !"//"@.is_prefix_of(
            stripped_query(element_xpath@),
        )),
{
    proof {
        reveal_strlit("Window");
        reveal_strlit("Window[");
        reveal_strlit("/");
        reveal_strlit("//");
    }
    let (search_mode, query) = SearchMode::strip_suffix(element_xpath);
    let (prefix_mode, prefix_hint, stripped) = LocateMode::strip_xpath_prefix(query.as_str());
    let locate_mode = match search_context {
        Some(ctx) => Some(ctx.locate_mode),
        None => prefix_mode,
    };
    let child_mode = match locate_mode {
        Some(m) => m.is_child_mode(),
        None => false,
    };
    let hint = match search_context {
        Some(ctx) => match &ctx.child_hwnd_hint {
            Some(h) => Some(crate::query::ChildHwndHint { hwnd_class: h.hwnd_class.clone(), hwnd_title: h.hwnd_title.clone() }),
            None => prefix_hint,
        },
        None => prefix_hint,
    };
    let v = chars_of(stripped.as_str());
    let k = strip_slashes(v.as_slice());
    let t = copy_range(v.as_slice(), k, v.len());
    assert(t@ =~= without_slashes(stripped_query(element_xpath@)));
    let wb = chars_of("Window[");
    let is_window = crate::model::str_eq(string_of(t.as_slice()).as_str(), "Window");
    let window_prefix = crate::validation::chars_prefix(wb.as_slice(), t.as_slice());
    let window_target = if child_mode || !(is_window || window_prefix) {
        None
    } else if window_prefix {
        match crate::window::rfind_char(t.as_slice(), ']') {
            Some(e) => {
                proof {
                    lemma_last_char_bounds(t@, ']');
                }
                if 6 < e {
                    Some(WindowTarget::Step(string_of(copy_range(t.as_slice(), 0, e + 1).as_slice())))
                } else {
                    Some(WindowTarget::Any)
                }
            },
            None => Some(WindowTarget::Any),
        }
    } else {
        Some(WindowTarget::Any)
    };
    let open = vec!['['];
    assert(open@ =~= seq!['[']);
    let sel = chars_of(window_selector);
    let broad = !crate::text::contains_chars(sel.as_slice(), open.as_slice());
    let window_limit = if broad {
        Some(3usize)
    } else {
        None
    };
    let slash = chars_of("/");
    let dslash = chars_of("//");
    let skip_webview = crate::validation::chars_prefix(slash.as_slice(), v.as_slice()) && !crate::validation::chars_prefix(
        dslash.as_slice(),
        v.as_slice(),
    );
    FindPlan { search_mode, query, locate_mode, child_mode, hint, window_target, window_limit, skip_webview }
}

/// Whether a search can be planned: outside child mode, a query that starts
/// with a `Window[` step must close it with `]`.
pub fn find_plan_ok(element_xpath: &str, search_context: Option<&crate::capture::SearchContext>) -> (b: bool)
    ensures
        b == (!effective_child_mode(search_context, element_xpath@) ==> window_step_readable(element_xpath@)),
{
    proof {
        reveal_strlit("Window[");
    }
    let (_, query) = SearchMode::strip_suffix(element_xpath);
    let (prefix_mode, _, stripped) = LocateMode::strip_xpath_prefix(query.as_str());
    let child_mode = match search_context {
        Some(ctx) => ctx.locate_mode.is_child_mode(),
        None => match prefix_mode {
            Some(m) => m.is_child_mode(),
            None => false,
        },
    };
    let v = chars_of(stripped.as_str());
    let k = strip_slashes(v.as_slice());
    let t = copy_range(v.as_slice(), k, v.len());
    assert(t@ =~= without_slashes(stripped_query(element_xpath@)));
    let wb = chars_of("Window[");
    let window_prefix = crate::validation::chars_prefix(wb.as_slice(), t.as_slice());
    child_mode || !window_prefix || crate::window::rfind_char(t.as_slice(), ']').is_some()
}

/// Whether the window at `win_idx` is searched: within the window limit, and
/// not a WebView window when those are left out.
pub fn window_searched(win_idx: usize, window_limit: Option<usize>, skip_webview: bool, is_webview: bool) -> (b: bool)
    ensures
        b == ((window_limit matches Some(l) ==> win_idx < l) && !(skip_webview && is_webview)),
{
    match window_limit {
        Some(l) => if win_idx >= l {
            return false;
        },
        None => {},
    }
    !(skip_webview && is_webview)
}


/// What a search over the windows of a selector does with the next window.
#[derive(Debug, Clone, Copy, PartialEq, Eq, Structural)]
pub enum WindowScan {
    /// Search it; the first window whose search finds elements is reported.
    Search,
    /// Pass over it (a WebView window left out) and go on.
    Skip,
    /// Stop: the window limit is reached.
    Stop,
}

/// The decision on the window at `win_idx`: stop at the window limit, pass
/// over WebView windows when those are left out, else search it.
pub open spec fn window_scan_spec(win_idx: usize, window_limit: Option<usize>, skip_webview: bool, is_webview: bool) -> WindowScan {
    if window_limit matches Some(l) && win_idx >= l {
        WindowScan::Stop
    } else if skip_webview && is_webview {
        WindowScan::Skip
    } else {
        WindowScan::Search
    }
}

/// The decision on the window at `win_idx` (see `window_scan_spec`).
pub fn window_scan(win_idx: usize, window_limit: Option<usize>, skip_webview: bool, is_webview: bool) -> (r: WindowScan)
    ensures
        r == window_scan_spec(win_idx, window_limit, skip_webview, is_webview),
        (r == WindowScan::Search) == window_searched_spec(win_idx, window_limit, skip_webview, is_webview),
{
    if !window_searched(win_idx, window_limit, skip_webview, is_webview) {
        match window_limit {
            Some(l) => if win_idx >= l {
                return WindowScan::Stop;
            },
            None => {},
        }
        WindowScan::Skip
    } else {
        WindowScan::Search
    }
}

/// Whether the window at `win_idx` is searched.
pub open spec fn window_searched_spec(win_idx: usize, window_limit: Option<usize>, skip_webview: bool, is_webview: bool) -> bool {
    (window_limit matches Some(l) ==> win_idx < l) && !(skip_webview && is_webview)
}

/// Once the limit is reached every later window stops the scan too, so no
/// window past the limit is ever searched.
pub proof fn lemma_scan_stops_for_good(i: usize, j: usize, window_limit: Option<usize>, skip_webview: bool, a: bool, b: bool)
    requires
        i <= j,
        window_scan_spec(i, window_limit, skip_webview, a) == WindowScan::Stop,
    ensures
        window_scan_spec(j, window_limit, skip_webview, b) == WindowScan::Stop,
{
}

} // verus!
