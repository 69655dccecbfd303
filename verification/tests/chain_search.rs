use element_selector::chain::{
    all_matched_segments, chain_after_find, chain_give_up, chain_step_for, chain_step_plan, step_position_of, item_container_key, remaining_path_text,
    shift_segments, split_path_components, step_scope, use_find_first, ChainEnd, ChainStep, PositionPredicate,
    StepScope,
};
use element_selector::query::SearchMode;
use element_selector::step::{parse_xpath_step, XPathProperty, XPathStepPrefix};
use element_selector::validation::SegmentValidationResult;

#[test]
fn chain_steps() {
    assert_eq!(chain_step_plan(false, None, true), ChainStep::Pick(1));
    assert_eq!(chain_step_plan(true, None, true), ChainStep::GiveUp);
    assert_eq!(chain_step_plan(false, Some(PositionPredicate::Index(2)), true), ChainStep::GiveUp);
    assert_eq!(chain_step_plan(false, Some(PositionPredicate::Index(1)), true), ChainStep::Pick(1));
    assert_eq!(chain_step_plan(false, Some(PositionPredicate::Index(0)), true), ChainStep::Pick(1));
    assert_eq!(chain_step_plan(false, Some(PositionPredicate::Last), true), ChainStep::GiveUp);
    assert_eq!(chain_step_plan(false, None, false), ChainStep::GiveUp);
    assert_eq!(chain_give_up(0), ChainEnd::NotApplicable);
    assert_eq!(chain_give_up(3), ChainEnd::Partial { last_successful_step: 2 });
    assert_eq!(chain_after_find(1, true, false), ChainEnd::Next);
    assert_eq!(chain_after_find(1, false, true), ChainEnd::Complete { found: false });
    assert_eq!(chain_after_find(2, false, false), ChainEnd::Partial { last_successful_step: 1 });
    assert_eq!(chain_after_find(0, false, false), ChainEnd::Complete { found: false });
    assert_eq!(step_scope(&XPathStepPrefix::Child), StepScope::Children);
    assert_eq!(step_scope(&XPathStepPrefix::DepthLimited { max_depth: 3 }), StepScope::Descendants);
}

#[test]
fn item_container_keys() {
    let step = parse_xpath_step("//ListItem[@Name='a' and @AutomationId='id1']");
    let (k, v) = item_container_key(&step).unwrap();
    assert!(matches!(k, XPathProperty::AutomationId));
    assert_eq!(v, "id1");
    let step = parse_xpath_step("//ListItem[@ClassName='c' and @Name='n']");
    let (k, v) = item_container_key(&step).unwrap();
    assert!(matches!(k, XPathProperty::Name));
    assert_eq!(v, "n");
    assert!(item_container_key(&parse_xpath_step("//ListItem[@FrameworkId='x']")).is_none());
}

#[test]
fn path_pieces() {
    assert_eq!(split_path_components("//Pane/Button[@Name='a']"), vec!["Pane".to_string(), "Button[@Name='a']".to_string()]);
    assert!(split_path_components("///").is_empty());
    let parts = split_path_components("/A/B/C");
    assert_eq!(remaining_path_text(&parts), "/B/C");
    assert_eq!(remaining_path_text(&vec!["A".to_string()]), "");
    assert!(!remaining_path_text(&split_path_components("//A//B//C")).contains("//"));
}

#[test]
fn segment_lists() {
    let parts = vec!["A".to_string(), "B".to_string()];
    let segs = all_matched_segments(&parts, 3, 7);
    assert_eq!(segs.len(), 2);
    assert_eq!(segs[0].match_count, 0);
    assert_eq!(segs[1].match_count, 3);
    assert_eq!(segs[1].segment_index, 1);
    assert_eq!(segs[1].duration_ms, 7);
    assert_eq!(segs[0].duration_ms, 0);
    let shifted = shift_segments(vec![SegmentValidationResult::matched(0, "x", 1, 0)], 2);
    assert_eq!(shifted[0].segment_index, 2);
    assert!(use_find_first(1, false, SearchMode::First));
    assert!(!use_find_first(1, false, SearchMode::All));
    assert!(!use_find_first(2, false, SearchMode::First));
}

#[test]
fn chain_reads_step_positions() {
    assert_eq!(step_position_of("//Button[position()=last()]"), Some(PositionPredicate::Last));
    assert_eq!(step_position_of("//Button[last()]"), Some(PositionPredicate::Last));
    assert_eq!(step_position_of("//Button[position()=3]"), Some(PositionPredicate::Index(3)));
    assert_eq!(step_position_of("//Button[first()]"), Some(PositionPredicate::Index(1)));
    assert_eq!(step_position_of("//Button[@Name='OK']"), None);
    assert_eq!(step_position_of("/Text[position()=99999999999]"), Some(PositionPredicate::Index(i32::MAX)));
    assert_eq!(chain_step_for("//Button[position()=last()]", false, true), ChainStep::GiveUp);
    assert_eq!(chain_step_for("//Button[position()=2]", false, true), ChainStep::GiveUp);
    assert_eq!(chain_step_for("//Button[position()=1]", false, true), ChainStep::Pick(1));
    assert_eq!(chain_step_for("//Button[@Name='OK']", false, true), ChainStep::Pick(1));
    assert_eq!(chain_step_for("//Button[@Name='OK']", false, false), ChainStep::GiveUp);
    assert_eq!(chain_give_up(0), ChainEnd::NotApplicable);
}
