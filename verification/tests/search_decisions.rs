use element_selector::breadth::{BreadthRule, BreadthSearch, ChildSeen};
use element_selector::fallback::{
    control_first_step, control_next, detail_text, raw_first_step, raw_next, ChainKind, ControlFallback, DescendantAction,
    FallbackDetail, FirstStepAction, RawFirstStep, WalkOutcome,
};

fn seen(node: usize, matches: bool) -> ChildSeen {
    ChildSeen { node, matches }
}

/// A small tree: 0 -> [1, 2], 1 -> [3], 2 -> [4], 3 -> [5]; nodes 2, 3 and 5 match.
fn children(h: usize) -> Vec<(usize, bool)> {
    match h {
        0 => vec![(1, false), (2, true)],
        1 => vec![(3, true)],
        2 => vec![(4, false)],
        3 => vec![(5, true)],
        _ => vec![],
    }
}

fn run(mut s: BreadthSearch) -> (Vec<usize>, Vec<usize>) {
    let mut expanded = Vec::new();
    while let Some(h) = s.current() {
        expanded.push(h);
        let mut cs = Vec::new();
        if s.reads_children() {
            let m = s.reads_matches();
            for (c, ok) in children(h) {
                cs.push(seen(c, m && ok));
            }
        }
        s.expand(cs);
    }
    (expanded, s.found.clone())
}

#[test]
fn breadth_every_level_stops_below_limit() {
    let (expanded, found) = run(BreadthSearch::start(BreadthRule::EveryLevel, 2, vec![(0, 0)]));
    assert_eq!(expanded, vec![0, 1, 2]);
    assert_eq!(found, vec![2, 3]);
    let (_, found) = run(BreadthSearch::start(BreadthRule::EveryLevel, 6, vec![(0, 0)]));
    assert_eq!(found, vec![2, 3, 5]);
    let (expanded, found) = run(BreadthSearch::start(BreadthRule::EveryLevel, 0, vec![(0, 0)]));
    assert_eq!(expanded, vec![0]);
    assert_eq!(found, vec![2]);
}

#[test]
fn breadth_last_level_collects_only_at_limit() {
    let (_, found) = run(BreadthSearch::start(BreadthRule::LastLevel, 2, vec![(1, 1), (2, 1)]));
    assert_eq!(found, vec![3]);
    let (_, found) = run(BreadthSearch::start(BreadthRule::LastLevel, 3, vec![(1, 1), (2, 1)]));
    assert_eq!(found, vec![5]);
    let (expanded, found) = run(BreadthSearch::start(BreadthRule::LastLevel, 1, vec![(1, 1), (2, 1)]));
    assert_eq!(expanded, vec![1, 2]);
    assert!(found.is_empty());
}

#[test]
fn control_fallback_order() {
    let mut s = ControlFallback { chain: ChainKind::Partial, item: None, partial_walk: None, window_walk: None };
    assert_eq!(control_next(&s), DescendantAction::TryItemContainer { from_partial: true });
    s.item = Some(false);
    assert_eq!(control_next(&s), DescendantAction::Walk { from_partial: true });
    s.partial_walk = Some(WalkOutcome::Empty);
    assert_eq!(control_next(&s), DescendantAction::Walk { from_partial: false });
    s.window_walk = Some(WalkOutcome::Failed);
    assert_eq!(control_next(&s), DescendantAction::NotFound(FallbackDetail::PartialChain));
    s.partial_walk = Some(WalkOutcome::Found);
    assert_eq!(control_next(&s), DescendantAction::ReturnWalk { after_partial: true });
    let found = ControlFallback { chain: ChainKind::Found, item: None, partial_walk: None, window_walk: None };
    assert_eq!(control_next(&found), DescendantAction::ReturnChain);
    let mut na = ControlFallback { chain: ChainKind::NotApplicable, item: Some(true), partial_walk: None, window_walk: None };
    assert_eq!(control_next(&na), DescendantAction::ReturnItem);
    na.item = Some(false);
    assert_eq!(control_next(&na), DescendantAction::Walk { from_partial: false });
    na.window_walk = Some(WalkOutcome::Empty);
    assert_eq!(control_next(&na), DescendantAction::ReturnWalk { after_partial: false });
    na.window_walk = Some(WalkOutcome::Failed);
    assert_eq!(control_next(&na), DescendantAction::NotFound(FallbackDetail::ChainNotApplicable));
}

#[test]
fn raw_fallback_order() {
    assert_eq!(raw_next(ChainKind::Found, None), DescendantAction::ReturnChain);
    assert_eq!(raw_next(ChainKind::Partial, None), DescendantAction::Walk { from_partial: false });
    assert_eq!(raw_next(ChainKind::Partial, Some(WalkOutcome::Failed)), DescendantAction::NotFound(FallbackDetail::ChainEmpty));
    assert_eq!(
        raw_next(ChainKind::NotApplicable, Some(WalkOutcome::Failed)),
        DescendantAction::NotFound(FallbackDetail::ChainNotApplicable)
    );
    assert_eq!(raw_next(ChainKind::Empty, Some(WalkOutcome::Found)), DescendantAction::ReturnWalk { after_partial: false });
    assert_eq!(detail_text(FallbackDetail::ChainEmpty), "Chain found 0 and TreeWalker fallback failed");
    assert_eq!(detail_text(FallbackDetail::PartialChain), "Partial Chain and TreeWalker fallback failed");
}

#[test]
fn control_first_step_order() {
    assert_eq!(control_first_step(None, None), FirstStepAction::SearchManually);
    assert_eq!(control_first_step(Some(3), None), FirstStepAction::ReturnMatches);
    assert_eq!(control_first_step(Some(0), None), FirstStepAction::TryItemContainer);
    assert_eq!(control_first_step(Some(0), Some(true)), FirstStepAction::ReturnItem);
    assert_eq!(control_first_step(Some(0), Some(false)), FirstStepAction::WalkFromWindow);
}

#[test]
fn raw_first_step_order() {
    let mut s = RawFirstStep { matches: None, manual: false, remaining_empty: false, candidates_tried: false };
    assert_eq!(raw_first_step(&s), FirstStepAction::SearchManually);
    s.matches = Some(0);
    s.manual = true;
    assert_eq!(raw_first_step(&s), FirstStepAction::NothingManually);
    s.manual = false;
    assert_eq!(raw_first_step(&s), FirstStepAction::WalkFromWindow);
    s.matches = Some(2);
    assert_eq!(raw_first_step(&s), FirstStepAction::WalkFromMatches);
    s.candidates_tried = true;
    assert_eq!(raw_first_step(&s), FirstStepAction::WalkSteps);
    s.remaining_empty = true;
    assert_eq!(raw_first_step(&s), FirstStepAction::ReturnMatches);
}
