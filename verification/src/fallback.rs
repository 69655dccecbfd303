//! What a multi-step descendant search does after its chained search: which
//! search it tries next, from where, and what it reports. The searches
//! themselves read the live tree; each of their outcomes is an event here.
use vstd::prelude::*;

verus! {

/// How the chained search ended.
#[derive(Debug, Clone, Copy, PartialEq, Eq, Structural)]
pub enum ChainKind {
    /// It found elements.
    Found,
    /// It ran to its end and found nothing.
    Empty,
    /// It resolved the first steps only.
    Partial,
    /// It could not start.
    NotApplicable,
}

/// How a search through the XPath engine went.
#[derive(Debug, Clone, Copy, PartialEq, Eq, Structural)]
pub enum WalkOutcome {
    /// It found elements.
    Found,
    /// It ran and found nothing.
    Empty,
    /// It failed.
    Failed,
}

/// Why a fallback search reports nothing found.
#[derive(Debug, Clone, Copy, PartialEq, Eq, Structural)]
pub enum FallbackDetail {
    ChainEmpty,
    ChainNotApplicable,
    PartialChain,
}

/// The next thing a descendant search does.
#[derive(Debug, Clone, Copy, PartialEq, Eq, Structural)]
pub enum DescendantAction {
    /// Report the chain's results, every step matched.
    ReturnChain,
    /// Ask the item container for the XPath: for the remaining steps from
    /// the chain's last element when `from_partial`, else for the whole
    /// XPath from the window.
    TryItemContainer { from_partial: bool },
    /// Report the element the item container gave.
    ReturnItem,
    /// Search with the XPath engine: the remaining steps from the chain's
    /// last element when `from_partial`, else the whole XPath from the
    /// window.
    Walk { from_partial: bool },
    /// Report what the last engine search gave; after a partial chain, its
    /// records follow those of the steps the chain resolved.
    ReturnWalk { after_partial: bool },
    /// Report nothing found, for this reason.
    NotFound(FallbackDetail),
}

/// What a control-view descendant search has learned so far.
#[derive(Debug, Clone, Copy, PartialEq, Eq, Structural)]
pub struct ControlFallback {
    pub chain: ChainKind,
    /// Whether the item container gave an element, once asked.
    pub item: Option<bool>,
    /// The engine search from the chain's last element, once made.
    pub partial_walk: Option<WalkOutcome>,
    /// The engine search from the window, once made.
    pub window_walk: Option<WalkOutcome>,
}

/// The reason reported when the last fallback failed after this chain.
pub open spec fn detail_for(chain: ChainKind) -> FallbackDetail {
    match chain {
        ChainKind::NotApplicable => FallbackDetail::ChainNotApplicable,
        ChainKind::Partial => FallbackDetail::PartialChain,
        _ => FallbackDetail::ChainEmpty,
    }
}

/// The control-view search: the chain's results when it found any; else
/// the item container (from the chain's last element after a partial
/// chain), then, after a partial chain, the engine from that element, and
/// last the engine from the window, whose result is reported unless it
/// failed.
pub open spec fn control_next_spec(s: ControlFallback) -> DescendantAction {
    if s.chain == ChainKind::Found {
        DescendantAction::ReturnChain
    } else if s.item is None {
        DescendantAction::TryItemContainer { from_partial: s.chain == ChainKind::Partial }
    } else if s.item == Some(true) {
        DescendantAction::ReturnItem
    } else if s.chain == ChainKind::Partial && s.partial_walk is None {
        DescendantAction::Walk { from_partial: true }
    } else if s.chain == ChainKind::Partial && s.partial_walk == Some(WalkOutcome::Found) {
        DescendantAction::ReturnWalk { after_partial: true }
    } else if s.window_walk is None {
        DescendantAction::Walk { from_partial: false }
    } else if s.window_walk == Some(WalkOutcome::Failed) {
        DescendantAction::NotFound(detail_for(s.chain))
    } else {
        DescendantAction::ReturnWalk { after_partial: false }
    }
}

/// The raw-view search: the chain's results when it found any; else the
/// engine from the window, whose result is reported unless it failed (a
/// partial chain counts as one that found nothing).
pub open spec fn raw_next_spec(chain: ChainKind, window_walk: Option<WalkOutcome>) -> DescendantAction {
    if chain == ChainKind::Found {
        DescendantAction::ReturnChain
    } else if window_walk is None {
        DescendantAction::Walk { from_partial: false }
    } else if window_walk == Some(WalkOutcome::Failed) {
        DescendantAction::NotFound(
            if chain == ChainKind::NotApplicable {
                FallbackDetail::ChainNotApplicable
            } else {
                FallbackDetail::ChainEmpty
            },
        )
    } else {
        DescendantAction::ReturnWalk { after_partial: false }
    }
}

/// Whether an action ends the search.
pub open spec fn is_final(a: DescendantAction) -> bool {
    !(a is TryItemContainer || a is Walk)
}

/// The next step of a control-view descendant search.
pub fn control_next(s: &ControlFallback) -> (r: DescendantAction)
    ensures
        r == control_next_spec(*s),
{
    if s.chain == ChainKind::Found {
        DescendantAction::ReturnChain
    } else if s.item.is_none() {
        DescendantAction::TryItemContainer { from_partial: s.chain == ChainKind::Partial }
    } else if s.item == Some(true) {
        DescendantAction::ReturnItem
    } else if s.chain == ChainKind::Partial && s.partial_walk.is_none() {
        DescendantAction::Walk { from_partial: true }
    } else if s.chain == ChainKind::Partial && s.partial_walk == Some(WalkOutcome::Found) {
        DescendantAction::ReturnWalk { after_partial: true }
    } else if s.window_walk.is_none() {
        DescendantAction::Walk { from_partial: false }
    } else if s.window_walk == Some(WalkOutcome::Failed) {
        DescendantAction::NotFound(
            match s.chain {
                ChainKind::NotApplicable => FallbackDetail::ChainNotApplicable,
                ChainKind::Partial => FallbackDetail::PartialChain,
                _ => FallbackDetail::ChainEmpty,
            },
        )
    } else {
        DescendantAction::ReturnWalk { after_partial: false }
    }
}

/// The next step of a raw-view descendant search.
pub fn raw_next(chain: ChainKind, window_walk: Option<WalkOutcome>) -> (r: DescendantAction)
    ensures
        r == raw_next_spec(chain, window_walk),
{
    if chain == ChainKind::Found {
        DescendantAction::ReturnChain
    } else if window_walk.is_none() {
        DescendantAction::Walk { from_partial: false }
    } else if window_walk == Some(WalkOutcome::Failed) {
        DescendantAction::NotFound(
            if chain == ChainKind::NotApplicable {
                FallbackDetail::ChainNotApplicable
            } else {
                FallbackDetail::ChainEmpty
            },
        )
    } else {
        DescendantAction::ReturnWalk { after_partial: false }
    }
}

/// The reason text reported with an empty result.
pub fn detail_text(d: FallbackDetail) -> (s: String)
    ensures
        s@ == match d {
            FallbackDetail::ChainEmpty => "Chain found 0 and TreeWalker fallback failed"@,
            FallbackDetail::ChainNotApplicable => "Chain not applicable and TreeWalker fallback failed"@,
            FallbackDetail::PartialChain => "Partial Chain and TreeWalker fallback failed"@,
        },
{
    match d {
        FallbackDetail::ChainEmpty => "Chain found 0 and TreeWalker fallback failed".to_owned(),
        FallbackDetail::ChainNotApplicable => "Chain not applicable and TreeWalker fallback failed".to_owned(),
        FallbackDetail::PartialChain => "Partial Chain and TreeWalker fallback failed".to_owned(),
    }
}

/// A control-view search ends once every search it may try has answered:
/// the item container, the engine from the chain's last element after a
/// partial chain, and the engine from the window.
pub proof fn lemma_control_search_ends(s: ControlFallback)
    requires
        s.item is Some,
        s.chain == ChainKind::Partial ==> s.partial_walk is Some,
        s.window_walk is Some,
    ensures
        is_final(control_next_spec(s)),
{
}

/// A control-view search never reports nothing found while the engine
/// search from the window is still to be made, and never asks the same
/// search twice: each action is made only while its answer is unknown.
pub proof fn lemma_control_search_asks_once(s: ControlFallback)
    ensures
        control_next_spec(s) is NotFound ==> s.window_walk == Some(WalkOutcome::Failed),
        control_next_spec(s) is TryItemContainer ==> s.item is None,
        control_next_spec(s) == (DescendantAction::Walk { from_partial: true }) ==> s.partial_walk is None,
        control_next_spec(s) == (DescendantAction::Walk { from_partial: false }) ==> s.window_walk is None,
{
}


/// What a descendant search does with its first step searched alone.
#[derive(Debug, Clone, Copy, PartialEq, Eq, Structural)]
pub enum FirstStepAction {
    /// The step gives no `FindAll` condition: walk the tree breadth-first
    /// for it instead.
    SearchManually,
    /// Report the elements the step matched.
    ReturnMatches,
    /// Ask the item container for the XPath from the window.
    TryItemContainer,
    /// Report the element the item container gave.
    ReturnItem,
    /// Search the whole XPath with the engine from the window.
    WalkFromWindow,
    /// Search the remaining steps with the engine from each match in turn,
    /// reporting the first that finds anything.
    WalkFromMatches,
    /// Follow the remaining steps child by child from every match.
    WalkSteps,
    /// Report that the manual walk found nothing.
    NothingManually,
}

/// The control-view search of a one-step XPath: the manual walk's result
/// when there is no `FindAll` condition; the matches when there are any;
/// else the item container, then the engine from the window.
pub open spec fn control_first_step_spec(matches: Option<usize>, item: Option<bool>) -> FirstStepAction {
    match matches {
        None => FirstStepAction::SearchManually,
        Some(n) => if n > 0 {
            FirstStepAction::ReturnMatches
        } else {
            match item {
                None => FirstStepAction::TryItemContainer,
                Some(true) => FirstStepAction::ReturnItem,
                Some(false) => FirstStepAction::WalkFromWindow,
            }
        },
    }
}

/// What a raw-view search knows after its first step.
#[derive(Debug, Clone, Copy, PartialEq, Eq, Structural)]
pub struct RawFirstStep {
    /// How many elements the first step matched, once searched.
    pub matches: Option<usize>,
    /// Whether those came from the manual walk.
    pub manual: bool,
    /// Whether the XPath has no step after the first.
    pub remaining_empty: bool,
    /// Whether the engine searches from the matches were made (and found
    /// nothing).
    pub candidates_tried: bool,
}

/// The raw-view search after its first step: the manual walk when there is
/// no `FindAll` condition, reporting nothing when it finds nothing; the
/// engine from the window when `FindAll` found nothing; the matches when no
/// step follows; else the engine from each match, and last the remaining
/// steps followed child by child.
pub open spec fn raw_first_step_spec(s: RawFirstStep) -> FirstStepAction {
    match s.matches {
        None => FirstStepAction::SearchManually,
        Some(n) => if n == 0 {
            if s.manual {
                FirstStepAction::NothingManually
            } else {
                FirstStepAction::WalkFromWindow
            }
        } else if s.remaining_empty {
            FirstStepAction::ReturnMatches
        } else if !s.candidates_tried {
            FirstStepAction::WalkFromMatches
        } else {
            FirstStepAction::WalkSteps
        },
    }
}

/// The next step of a control-view search of a one-step XPath.
pub fn control_first_step(matches: Option<usize>, item: Option<bool>) -> (r: FirstStepAction)
    ensures
        r == control_first_step_spec(matches, item),
{
    match matches {
        None => FirstStepAction::SearchManually,
        Some(n) => if n > 0 {
            FirstStepAction::ReturnMatches
        } else {
            match item {
                None => FirstStepAction::TryItemContainer,
                Some(true) => FirstStepAction::ReturnItem,
                Some(false) => FirstStepAction::WalkFromWindow,
            }
        },
    }
}

/// The next step of a raw-view search after its first step.
pub fn raw_first_step(s: &RawFirstStep) -> (r: FirstStepAction)
    ensures
        r == raw_first_step_spec(*s),
{
    match s.matches {
        None => FirstStepAction::SearchManually,
        Some(n) => if n == 0 {
            if s.manual {
                FirstStepAction::NothingManually
            } else {
                FirstStepAction::WalkFromWindow
            }
        } else if s.remaining_empty {
            FirstStepAction::ReturnMatches
        } else if !s.candidates_tried {
            FirstStepAction::WalkFromMatches
        } else {
            FirstStepAction::WalkSteps
        },
    }
}

} // verus!
