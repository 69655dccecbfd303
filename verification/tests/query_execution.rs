use element_selector::execute::{
    descendant_outcome, find_plan_ok, locate_all_from, locate_first_from, locate_one_from, locate_search_for, needs_raw_fallback,
    plan_find, plan_query, step_depth_overflows, visible_element, visible_query, Point, window_scan, window_searched, WindowScan, ElementData, LocateSearch,
    ParentLookup, SearchStrategy, StepRun, StepVerdict, VisibleQuery, WindowTarget,
};
use element_selector::model::Rect;
use element_selector::query::{LocateMode, SearchMode};
use element_selector::step::StepExecutionStrategy;
use element_selector::validation::NotFoundReason;

#[test]
fn query_plans() {
    let p = plan_query("([fast]//Button[@Name='OK'])[2]:first");
    assert_eq!(p.search_mode, SearchMode::First);
    assert_eq!(p.position_index, Some(2));
    assert_eq!(p.locate_mode, Some(LocateMode::Fast));
    assert!(p.is_fast);
    assert_eq!(p.xpath, "//Button[@Name='OK']");
    assert_eq!(p.steps, vec!["//Button[@Name='OK']".to_string()]);

    let p = plan_query("[full]/Pane/Button");
    assert_eq!(p.search_mode, SearchMode::All);
    assert_eq!(p.position_index, None);
    assert!(!p.is_fast);
    assert_eq!(p.steps, vec!["Pane".to_string(), "/Button".to_string()]);

    let p = plan_query("( //Text )");
    assert_eq!(p.xpath, "//Text");
    assert_eq!(p.position_index, None);

    let p = plan_query("(//Text");
    assert_eq!(p.xpath, "(//Text");
}

#[test]
fn depth_overflow_detection() {
    assert!(step_depth_overflows("/*4294967295/Text"));
    assert!(!step_depth_overflows("/*4294967294/Text"));
    assert!(!step_depth_overflows("/*99999999999/Text"));
    assert!(!step_depth_overflows("//Text"));
}

#[test]
fn step_run_records() {
    let mut run = StepRun::new(SearchMode::OnlyOne, Some(100));
    assert!(!run.out_of_time(0, "/A", 50));
    assert_eq!(run.after_step(0, "/A", StepExecutionStrategy::DirectChild, 2, false, false, 3), StepVerdict::Continue);
    assert_eq!(run.after_step(1, "//B", StepExecutionStrategy::Descendant, 3, false, true, 4), StepVerdict::Discard);
    assert_eq!(run.segments.len(), 2);
    assert_eq!(run.segments[1].predicate_failures[0].attr_name, "findOne");
    assert!(run.out_of_time(2, "/C", 100));
    assert_eq!(run.segments[2].predicate_failures[0].attr_name, "Timeout");

    let mut run = StepRun::new(SearchMode::All, None);
    assert!(!run.out_of_time(0, "/A", u64::MAX));
    assert_eq!(
        run.after_step(0, "/*2/A", StepExecutionStrategy::DepthLimitedBfs { max_depth: 3 }, 0, false, false, 1),
        StepVerdict::Stop
    );
    assert_eq!(
        run.segments[0].predicate_failures[0].actual_value.as_deref(),
        Some("Step not found via DepthLimitedBfs { max_depth: 3 }")
    );
    assert_eq!(run.after_step(1, "//B", StepExecutionStrategy::Descendant, 4, true, false, 1), StepVerdict::Stop);
}

#[test]
fn descendant_anchor_and_fallback() {
    assert_eq!(descendant_outcome(vec![1, 2, 3], false), (vec![1], true));
    assert_eq!(descendant_outcome(vec![1, 2, 3], true), (vec![1, 2, 3], false));
    assert_eq!(descendant_outcome(Vec::<i32>::new(), false), (vec![], false));
    assert!(needs_raw_fallback(0, true));
    assert!(!needs_raw_fallback(1, true));
    assert!(!needs_raw_fallback(0, false));
}

fn data(name: &str) -> ElementData {
    ElementData { name: name.to_string(), ..Default::default() }
}

#[test]
fn locate_from_cached_parent() {
    let (first, reason) = locate_first_from("1,2", ParentLookup::Found { raw_count: 2, elements: vec![data("a"), data("b")] });
    assert_eq!(first.unwrap().name, "a");
    assert!(reason.is_none());

    let (one, reason) = locate_one_from("1,2", ParentLookup::Found { raw_count: 3, elements: vec![data("a"), data("b"), data("c")] });
    assert!(one.is_none());
    match reason {
        Some(NotFoundReason::LeafNotUnique { candidates }) => assert_eq!(candidates, 3),
        other => panic!("unexpected {:?}", other),
    }
    let (one, _) = locate_one_from("1,2", ParentLookup::Found { raw_count: 1, elements: vec![data("z")] });
    assert_eq!(one.unwrap().name, "z");

    let (none, reason) = locate_first_from("9,9", ParentLookup::Missing);
    assert!(none.is_none());
    match reason {
        Some(NotFoundReason::InvalidParent { runtime_id }) => assert_eq!(runtime_id, "9,9"),
        other => panic!("unexpected {:?}", other),
    }
    let (none, reason) = locate_one_from("9,9", ParentLookup::Unavailable);
    assert!(none.is_none() && reason.is_none());

    assert_eq!(locate_all_from("1", ParentLookup::Found { raw_count: 2, elements: vec![data("a"), data("b")] }).len(), 2);
    assert!(locate_all_from("1", ParentLookup::Missing).is_empty());

    assert_eq!(locate_search_for(SearchStrategy::Full { max_depth: 4 }), LocateSearch::RawDepthLimited { max_depth: 4 });
    assert_eq!(locate_search_for(SearchStrategy::Fast { max_depth: 4 }), LocateSearch::ControlXPath);
    assert_eq!(locate_search_for(SearchStrategy::Adaptive), LocateSearch::ControlXPath);
}

#[test]
fn visible_queries() {
    assert!(matches!(visible_query(&vec![]), VisibleQuery::OnScreen));
    assert!(matches!(visible_query(&vec![None]), VisibleQuery::Nothing));
    match visible_query(&vec![Some(50000)]) {
        VisibleQuery::OnScreenOfTypes(v) => assert_eq!(v, vec![50000]),
        other => panic!("unexpected {:?}", other),
    }
    match visible_query(&vec![None, Some(50004), Some(50020)]) {
        VisibleQuery::OnScreenOfTypes(v) => assert_eq!(v, vec![50004, 50020]),
        other => panic!("unexpected {:?}", other),
    }
    assert!(matches!(visible_query(&vec![None, None]), VisibleQuery::OnScreen));
}

#[test]
fn find_plans() {
    let p = plan_find("Window", "/Window[@Name='Calc']:first", None);
    assert_eq!(p.search_mode, SearchMode::First);
    assert_eq!(p.query, "/Window[@Name='Calc']");
    match p.window_target {
        Some(WindowTarget::Step(s)) => assert_eq!(s, "Window[@Name='Calc']"),
        other => panic!("unexpected {:?}", other),
    }
    assert_eq!(p.window_limit, Some(3));
    assert!(p.skip_webview);

    let p = plan_find("Window[@ClassName='X']", "//Button", None);
    assert!(p.window_target.is_none());
    assert_eq!(p.window_limit, None);
    assert!(!p.skip_webview);

    let p = plan_find("Window[@ClassName='X']", "[fast-child @ClassName='C']/Window", None);
    assert!(p.child_mode);
    assert!(p.window_target.is_none());
    assert_eq!(p.hint.unwrap().hwnd_class, "C");

    let p = plan_find("Window[@ClassName='X']", "Window", None);
    assert!(matches!(p.window_target, Some(WindowTarget::Any)));

    assert!(window_searched(2, Some(3), true, false));
    assert!(!window_searched(3, Some(3), false, false));
    assert!(!window_searched(0, None, true, true));
    assert!(window_searched(9, None, false, true));
}

#[test]
fn plannable_queries() {
    assert!(find_plan_ok("/Window[@Name='Calc']", None));
    assert!(find_plan_ok("//Button", None));
    assert!(!find_plan_ok("/Window[@Name='Calc'", None));
    assert!(!find_plan_ok("Window[", None));
    assert!(find_plan_ok("[fast-child]/Window[", None));
}

#[test]
fn visible_element_reports_centre_only_on_screen() {
    let rect = Rect { x: 10, y: 20, width: 100, height: 40 };
    let centre = Point { x: 60, y: 40 };
    let mut data = ElementData::default();
    data.name = "OK".to_string();
    data.is_checked = Some(true);
    let r = visible_element(data.clone(), rect, Some(rect), centre, "Button".to_string(), Some("1,2".to_string()));
    assert_eq!(r.center, Some(centre));
    assert_eq!(r.center_random, Some(centre));
    assert_eq!(r.rect, Some(rect));
    assert_eq!(r.control_type, "Button");
    assert_eq!(r.runtime_id.as_deref(), Some("1,2"));
    assert_eq!(r.name, "OK");
    assert_eq!(r.is_checked, None);
    data.is_offscreen = true;
    let r = visible_element(data, rect, None, centre, "Button".to_string(), None);
    assert_eq!(r.center, None);
    assert_eq!(r.center_random, None);
    assert_eq!(r.visible_rect, None);
}

#[test]
fn window_scan_decisions() {
    assert_eq!(window_scan(0, Some(3), true, false), WindowScan::Search);
    assert_eq!(window_scan(1, Some(3), true, true), WindowScan::Skip);
    assert_eq!(window_scan(1, None, false, true), WindowScan::Search);
    assert_eq!(window_scan(3, Some(3), true, true), WindowScan::Stop);
    assert_eq!(window_scan(7, Some(3), false, false), WindowScan::Stop);
}
