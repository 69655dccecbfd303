use element_selector::capture::{SearchContext, SearchRoot};
use element_selector::model::{ElementRect, HierarchyNode, Operator};
use element_selector::query::{ChildHwndHint, LocateMode};
use element_selector::validation::{
    child_hint_matches, effective_timeout, extract_not_found_reason_from_segments, found_result, layer_result,
    layer_source, missing_child_window, not_found_reason_of, operator_matches, resolve_locate_mode,
    window_try_order, LayerSource, NotFoundReason, PredicateFailure, SegmentValidationResult, ValidationResult,
    WindowOutcome, WindowSearch, WindowStep,
};

fn ctx(mode: LocateMode) -> SearchContext {
    SearchContext { locate_mode: mode, child_hwnd_hint: None, search_root: SearchRoot::Window }
}

#[test]
fn timeout_budget_by_mode() {
    assert_eq!(effective_timeout(Some(700), Some(&ctx(LocateMode::Fast))), 700);
    assert_eq!(effective_timeout(None, Some(&ctx(LocateMode::Fast))), 1500);
    assert_eq!(effective_timeout(None, Some(&ctx(LocateMode::FastChild))), 1500);
    assert_eq!(effective_timeout(None, Some(&ctx(LocateMode::Full))), 3000);
    assert_eq!(effective_timeout(None, Some(&ctx(LocateMode::FullChild))), 3000);
    assert_eq!(effective_timeout(None, None), 5000);
}

#[test]
fn foreground_window_is_tried_first_once() {
    assert_eq!(window_try_order(4, Some(2)), vec![2, 0, 1, 3]);
    assert_eq!(window_try_order(4, Some(0)), vec![0, 1, 2, 3]);
    assert_eq!(window_try_order(3, Some(7)), vec![0, 1, 2]);
    assert_eq!(window_try_order(3, None), vec![0, 1, 2]);
    assert_eq!(window_try_order(0, None), Vec::<usize>::new());
    let order = window_try_order(6, Some(5));
    let mut sorted = order.clone();
    sorted.sort();
    assert_eq!(sorted, vec![0, 1, 2, 3, 4, 5]);
    assert_eq!(order[0], 5);
}

#[test]
fn locate_mode_prefers_context() {
    let (mode, hint) = resolve_locate_mode(None, "[fast-child @ClassName='Chrome_WidgetWin_0']/Document");
    assert_eq!(mode, Some(LocateMode::FastChild));
    assert_eq!(hint.unwrap().hwnd_class, "Chrome_WidgetWin_0");
    let c = SearchContext {
        locate_mode: LocateMode::Full,
        child_hwnd_hint: Some(ChildHwndHint { hwnd_class: "Ctx".to_string(), hwnd_title: "T".to_string() }),
        search_root: SearchRoot::Window,
    };
    let (mode, hint) = resolve_locate_mode(Some(&c), "[fast-child @ClassName='Other']/Document");
    assert_eq!(mode, Some(LocateMode::Full));
    let h = hint.unwrap();
    assert_eq!(h.hwnd_class, "Ctx");
    assert_eq!(h.hwnd_title, "T");
    let (mode, hint) = resolve_locate_mode(Some(&ctx(LocateMode::Fast)), "[full-child @Name='x']/A");
    assert_eq!(mode, Some(LocateMode::Fast));
    assert_eq!(hint.unwrap().hwnd_title, "x");
}

#[test]
fn child_window_hint_matching() {
    let hint = ChildHwndHint { hwnd_class: "Chrome_Widget".to_string(), hwnd_title: String::new() };
    assert!(child_hint_matches(&hint, Some("Chrome_WidgetWin_0"), None));
    assert!(!child_hint_matches(&hint, Some("Edit"), Some("x")));
    assert!(!child_hint_matches(&hint, None, Some("x")));
    let titled = ChildHwndHint { hwnd_class: "Pane".to_string(), hwnd_title: "Chat".to_string() };
    assert!(child_hint_matches(&titled, Some("MyPane"), Some("Group Chat")));
    assert!(!child_hint_matches(&titled, Some("MyPane"), Some("Mail")));
    assert!(!child_hint_matches(&titled, Some("MyPane"), None));
}

#[test]
fn missing_child_window_reports_class() {
    let hint = ChildHwndHint { hwnd_class: "Chrome_RenderWidgetHostHWND".to_string(), hwnd_title: String::new() };
    match missing_child_window(Some(&hint), 0) {
        Some(NotFoundReason::ChildHwndNotFound { class }) => assert_eq!(class, "Chrome_RenderWidgetHostHWND"),
        other => panic!("unexpected {:?}", other),
    }
    assert!(missing_child_window(Some(&hint), 2).is_none());
    assert!(missing_child_window(None, 0).is_none());
}

#[test]
fn segment_constructors() {
    let s = SegmentValidationResult::timeout(2, "//Button", 1500, 1700);
    assert!(!s.matched);
    assert_eq!(s.duration_ms, 1700);
    assert_eq!(s.predicate_failures[0].attr_name, "Timeout");
    assert_eq!(s.predicate_failures[0].expected_value, "1500ms");
    assert_eq!(s.predicate_failures[0].actual_value.as_deref(), Some("1700ms"));
    let s = SegmentValidationResult::leaf_not_unique(1, "/Text", 3, 9);
    assert_eq!(s.match_count, 3);
    assert_eq!(s.predicate_failures[0].attr_name, "findOne");
    assert_eq!(s.predicate_failures[0].actual_value.as_deref(), Some("3 candidates"));
    let s = SegmentValidationResult::not_found(0, "/Pane", "XPath", "Step not found via DirectChild", 4);
    assert_eq!(s.predicate_failures[0].expected_value, "/Pane");
    let s = SegmentValidationResult::matched(0, "/Pane", 2, 4);
    assert!(s.matched && s.predicate_failures.is_empty());
}

#[test]
fn reason_from_segments_cases() {
    let none: Vec<SegmentValidationResult> = vec![SegmentValidationResult::matched(0, "/A", 1, 0)];
    assert!(extract_not_found_reason_from_segments(&none).is_none());

    let step = vec![
        SegmentValidationResult::matched(0, "/A", 1, 0),
        SegmentValidationResult::not_found(1, "/B", "XPath", "x", 0),
    ];
    match extract_not_found_reason_from_segments(&step) {
        Some(NotFoundReason::StepNotFound { step, xpath_step }) => {
            assert_eq!(step, 2);
            assert_eq!(xpath_step, "/B");
        }
        other => panic!("unexpected {:?}", other),
    }

    let leaf = vec![SegmentValidationResult::leaf_not_unique(0, "//Text", 4, 0)];
    match extract_not_found_reason_from_segments(&leaf) {
        Some(NotFoundReason::LeafNotUnique { candidates }) => assert_eq!(candidates, 4),
        other => panic!("unexpected {:?}", other),
    }

    let unreadable = vec![SegmentValidationResult {
        segment_index: 0,
        segment_text: "//Text".to_string(),
        matched: false,
        match_count: 1,
        duration_ms: 0,
        predicate_failures: vec![PredicateFailure {
            attr_name: "findOne".to_string(),
            expected_value: "1".to_string(),
            actual_value: Some("many".to_string()),
        }],
    }];
    match extract_not_found_reason_from_segments(&unreadable) {
        Some(NotFoundReason::LeafNotUnique { candidates }) => assert_eq!(candidates, 2),
        other => panic!("unexpected {:?}", other),
    }

    let timed = vec![SegmentValidationResult::timeout(0, "//A", 100, 250)];
    match extract_not_found_reason_from_segments(&timed) {
        Some(NotFoundReason::Timeout { budget_ms, elapsed_ms }) => {
            assert_eq!(budget_ms, 0);
            assert_eq!(elapsed_ms, 250);
        }
        other => panic!("unexpected {:?}", other),
    }
}

#[test]
fn window_search_state_machine() {
    let mut s = WindowSearch::new(8, 1000);
    assert_eq!(s.limit, 5);
    assert_eq!(s.next_step(0, 10, false), WindowStep::Try);
    assert!(!s.record(Err("boom".to_string())));
    assert_eq!(s.next_step(1, 20, true), WindowStep::Try);
    assert!(!s.record(Ok(WindowOutcome {
        result_count: 0,
        segments: vec![SegmentValidationResult::not_found(0, "/A", "XPath", "d", 1)],
    })));
    assert_eq!(s.next_step(2, 30, true), WindowStep::Skip);
    assert_eq!(s.next_step(3, 2000, false), WindowStep::Stop);
    assert_eq!(s.next_step(5, 10, false), WindowStep::Stop);
    let (verdict, segments) = s.finish(40, vec![]);
    assert_eq!(segments.len(), 1);
    match verdict {
        ValidationResult::NotFound { reason: Some(NotFoundReason::StepNotFound { step, .. }) } => assert_eq!(step, 1),
        other => panic!("unexpected {:?}", other),
    }
}

#[test]
fn window_search_found_and_errors() {
    let mut s = WindowSearch::new(2, 1000);
    assert!(!s.record(Ok(WindowOutcome { result_count: 0, segments: vec![] })));
    assert!(s.record(Ok(WindowOutcome { result_count: 2, segments: vec![] })));
    let rect = ElementRect { x: 1, y: 2, width: 3, height: 4 };
    let (verdict, _) = s.finish(10, vec![rect]);
    match verdict {
        ValidationResult::Found { count, first_rect, rects } => {
            assert_eq!(count, 2);
            assert_eq!(first_rect, Some(rect));
            assert_eq!(rects.len(), 1);
        }
        other => panic!("unexpected {:?}", other),
    }

    let mut e = WindowSearch::new(1, 1000);
    e.record(Err("first".to_string()));
    e.record(Err("second".to_string()));
    match e.finish(1, vec![]).0 {
        ValidationResult::Error(m) => assert_eq!(m, "second"),
        other => panic!("unexpected {:?}", other),
    }
    match WindowSearch::new(1, 1000).finish(1, vec![]).0 {
        ValidationResult::Error(m) => assert_eq!(m, "XPath 执行失败"),
        other => panic!("unexpected {:?}", other),
    }

    let mut t = WindowSearch::new(1, 100);
    t.record(Ok(WindowOutcome { result_count: 0, segments: vec![] }));
    match t.finish(150, vec![]).0 {
        ValidationResult::NotFound { reason: Some(NotFoundReason::Timeout { budget_ms, elapsed_ms }) } => {
            assert_eq!(budget_ms, 100);
            assert_eq!(elapsed_ms, 150);
        }
        other => panic!("unexpected {:?}", other),
    }
}

#[test]
fn found_result_and_reason_copy() {
    match found_result(0, vec![]) {
        ValidationResult::Found { count, first_rect, .. } => {
            assert_eq!(count, 0);
            assert!(first_rect.is_none());
        }
        other => panic!("unexpected {:?}", other),
    }
    let nf = ValidationResult::NotFound { reason: Some(NotFoundReason::InvalidParent { runtime_id: "1,2".to_string() }) };
    match not_found_reason_of(&nf) {
        Some(NotFoundReason::InvalidParent { runtime_id }) => assert_eq!(runtime_id, "1,2"),
        other => panic!("unexpected {:?}", other),
    }
    assert!(not_found_reason_of(&ValidationResult::Error("e".to_string())).is_none());
    let _ = NotFoundReason::WindowNotFound.duplicate();
    let _ = NotFoundReason::ElementGone.duplicate();
}

#[test]
fn operators_against_values() {
    assert!(operator_matches(Operator::Equals, "OK", "OK"));
    assert!(!operator_matches(Operator::Equals, "ok", "OK"));
    assert!(operator_matches(Operator::NotEquals, "a", "b"));
    assert!(operator_matches(Operator::Contains, "hello world", "lo w"));
    assert!(operator_matches(Operator::NotContains, "hello", "xyz"));
    assert!(operator_matches(Operator::StartsWith, "Button1", "Butt"));
    assert!(operator_matches(Operator::NotStartsWith, "Button1", "utt"));
    assert!(operator_matches(Operator::EndsWith, "Button1", "on1"));
    assert!(operator_matches(Operator::NotEndsWith, "Button1", "on2"));
    assert!(operator_matches(Operator::Matches, "item42", r"^item\d+$"));
    assert!(!operator_matches(Operator::Matches, "itemX", r"^item\d+$"));
    assert!(!operator_matches(Operator::Matches, "a", "("));
    assert!(operator_matches(Operator::NotMatches, "a", "("));
    assert!(operator_matches(Operator::NotMatches, "abc", "^z"));
    assert!(operator_matches(Operator::GreaterThan, "5", "5"));
    assert!(!operator_matches(Operator::LessThan, "4", "5"));
}

#[test]
fn layer_sources() {
    assert_eq!(layer_source(2, 3, 5), LayerSource::Found);
    assert_eq!(layer_source(0, 3, 5), LayerSource::Ancestor(4));
    assert_eq!(layer_source(1, 3, 5), LayerSource::Ancestor(3));
    assert_eq!(layer_source(0, 5, 2), LayerSource::Ancestor(1));
    assert_eq!(layer_source(3, 5, 2), LayerSource::Ancestor(0));
    assert_eq!(layer_source(0, 2, 0), LayerSource::Missing);
}

#[test]
fn layer_results() {
    let node = HierarchyNode::new("Button", "btnSave", "Button", "保存", 0, ElementRect::default(), 1);
    let actuals = vec![
        Some("Button".to_string()),
        Some("btnSave".to_string()),
        Some("Button".to_string()),
        Some("保存X".to_string()),
        None,
    ];
    let r = layer_result(3, &node, Some(&actuals));
    assert_eq!(r.node_index, 3);
    assert_eq!(r.match_count, 1);
    assert_eq!(r.properties.len(), 5);
    assert!(r.properties[1].matched);
    assert!(!r.properties[3].matched);
    assert!(!r.matched, "enabled Name filter failed");
    assert_eq!(r.node_label, "Button \"保存\"");

    let ok = vec![None, Some("btnSave".to_string()), Some("Button".to_string()), Some("保存".to_string()), None];
    let r = layer_result(0, &node, Some(&ok));
    assert!(r.matched, "disabled filters do not count");

    let r = layer_result(0, &node, None);
    assert!(!r.matched);
    assert_eq!(r.match_count, 0);
    assert!(r.properties.iter().all(|p| !p.matched && p.actual_value.is_none()));
}

#[test]
fn reason_counts_only_the_reported_step() {
    let segs = vec![
        SegmentValidationResult::not_found(usize::MAX, "/A", "XPath", "x", 0),
        SegmentValidationResult::matched(usize::MAX, "/B", 1, 0),
        SegmentValidationResult::not_found(4, "/C", "XPath", "x", 0),
    ];
    match extract_not_found_reason_from_segments(&segs) {
        Some(NotFoundReason::StepNotFound { step, xpath_step }) => {
            assert_eq!(step, 5);
            assert_eq!(xpath_step, "/C");
        }
        other => panic!("unexpected {:?}", other),
    }
    let leaf = vec![SegmentValidationResult::leaf_not_unique(usize::MAX, "//Text", 3, 0)];
    assert!(matches!(extract_not_found_reason_from_segments(&leaf), Some(NotFoundReason::LeafNotUnique { candidates: 3 })));
}
