use element_selector::capture::{
    assemble_hierarchy, capture_at_point, capture_enhanced_at_point, capture_failure, find_cross_boundary_index,
    finish_capture, first_window_at, parent_is_embedded_browser, pick_deepest_child, rect_fits, rect_hit_area,
    set_target, truncate_hierarchy_to_child, keeps_found_chain, next_descent, DescentStart, CaptureFailure, CaptureMode, CapturedChain, ChildProbe, SearchRoot, WindowProbe,
};
use element_selector::geometry::SimpleRect;
use element_selector::model::{ElementRect, HierarchyNode};
use element_selector::query::LocateMode;

fn sr(left: i32, top: i32, right: i32, bottom: i32) -> SimpleRect {
    SimpleRect { left, top, right, bottom }
}

fn probe(ct: &str, name: &str, rect: SimpleRect, pid: u32) -> ChildProbe {
    ChildProbe {
        process_id: pid,
        is_offscreen: false,
        visited: false,
        rect: Some(rect),
        control_type: ct.to_string(),
        name: name.to_string(),
    }
}

fn node(ct: &str, class: &str, name: &str, pid: u32) -> HierarchyNode {
    HierarchyNode::new(ct, "", class, name, 0, ElementRect::default(), pid)
}

#[test]
fn hit_areas() {
    assert_eq!(rect_hit_area(&sr(0, 0, 10, 20), 5, 5), Some(200));
    assert_eq!(rect_hit_area(&sr(0, 0, 10, 20), 10, 20), Some(200));
    assert_eq!(rect_hit_area(&sr(0, 0, 10, 20), 11, 5), None);
    assert_eq!(rect_hit_area(&sr(0, 0, 0, 20), 0, 5), None);
    assert!(rect_fits(&Some(sr(0, 0, 10, 10))));
    assert!(rect_fits(&None));
    assert!(!rect_fits(&Some(sr(i32::MIN, 0, i32::MAX, 10))));
}

#[test]
fn deepest_child_prefers_leaves_then_smaller_area() {
    let kids = vec![
        probe("Group", "", sr(0, 0, 100, 100), 7),
        probe("Pane", "", sr(10, 10, 30, 30), 7),
        probe("Button", "", sr(0, 0, 50, 50), 7),
    ];
    assert_eq!(pick_deepest_child(&kids, 20, 20, None, false), Some(2));
    let containers = vec![probe("Group", "", sr(0, 0, 100, 100), 7), probe("Pane", "", sr(10, 10, 30, 30), 7)];
    assert_eq!(pick_deepest_child(&containers, 20, 20, None, false), Some(1));
    assert_eq!(pick_deepest_child(&containers, 500, 500, None, false), None);
}

#[test]
fn deepest_child_first_of_equal_areas() {
    let kids = vec![
        probe("Pane", "", sr(0, 0, 40, 40), 7),
        probe("Button", "", sr(0, 0, 20, 20), 7),
        probe("Text", "", sr(5, 5, 25, 25), 7),
        probe("Group", "", sr(0, 0, 5, 5), 7),
    ];
    assert_eq!(pick_deepest_child(&kids, 10, 10, None, false), Some(1));
}

#[test]
fn deepest_child_under_named_leaf_rule() {
    let kids = vec![probe("Button", "", sr(0, 0, 10, 10), 7), probe("Text", "Hello", sr(0, 0, 50, 50), 7)];
    assert_eq!(pick_deepest_child(&kids, 5, 5, None, true), Some(1));
    assert_eq!(pick_deepest_child(&kids, 5, 5, None, false), Some(0));
}

#[test]
fn deepest_child_skips_own_offscreen_and_visited() {
    let mut hidden = probe("Button", "x", sr(0, 0, 10, 10), 7);
    hidden.is_offscreen = true;
    let mut seen = probe("Button", "y", sr(0, 0, 10, 10), 7);
    seen.visited = true;
    let own = probe("Button", "z", sr(0, 0, 10, 10), 42);
    let kids = vec![hidden, seen, own, probe("Pane", "", sr(0, 0, 90, 90), 7)];
    assert_eq!(pick_deepest_child(&kids, 5, 5, Some(42), true), Some(3));
    assert_eq!(pick_deepest_child(&kids, 5, 5, None, true), Some(2));
}

#[test]
fn first_window_containing_point() {
    let ws = vec![
        WindowProbe { process_id: 1, framework_id: "Win32".into(), rect: Some(sr(0, 0, 100, 100)) },
        WindowProbe { process_id: 2, framework_id: "Chrome".into(), rect: Some(sr(0, 0, 100, 100)) },
        WindowProbe { process_id: 3, framework_id: "Win32".into(), rect: None },
    ];
    assert_eq!(first_window_at(&ws, 50, 50, None, None), Some(0));
    assert_eq!(first_window_at(&ws, 50, 50, Some(1), None), Some(1));
    assert_eq!(first_window_at(&ws, 50, 50, Some(1), Some("Chrome")), None);
    assert_eq!(first_window_at(&ws, 500, 50, None, None), None);
}

#[test]
fn chain_becomes_hierarchy_with_depths() {
    let chain = vec![
        Some(node("Pane", "#32769", "Desktop", 0)),
        Some(node("Window", "Notepad", "Untitled", 10)),
        None,
        Some(node("Edit", "Edit", "", 10)),
    ];
    let h = assemble_hierarchy(&chain);
    assert_eq!(h.len(), 3);
    assert_eq!(h[0].depth_from_window, 0);
    assert_eq!(h[1].depth_from_window, 0);
    assert_eq!(h[2].depth_from_window, 2);
}

#[test]
fn target_marking_and_sibling_index() {
    let mut h = vec![node("Window", "W", "w", 1), node("Button", "B", "b", 1)];
    set_target(&mut h, Some((3, 5)));
    assert!(h[1].is_target);
    assert_eq!(h[1].index, 3);
    assert_eq!(h[1].sibling_count, 5);
    let idx = h[1].filters.iter().find(|f| f.name == "Index").unwrap();
    assert!(idx.enabled);
    assert_eq!(idx.value, "3");
    let mut h = vec![node("Button", "B", "b", 1)];
    set_target(&mut h, None);
    assert!(h[0].is_target);
    assert_eq!(h[0].index, 0);
    let mut empty: Vec<HierarchyNode> = vec![];
    set_target(&mut empty, Some((1, 1)));
    assert!(empty.is_empty());
}

#[test]
fn embedded_browser_parents() {
    let h = vec![node("Document", "Chrome_RenderWidgetHostHWND", "", 5), node("Text", "", "t", 5)];
    assert!(parent_is_embedded_browser(&h));
    let h = vec![node("Pane", "WebViewHost", "", 5), node("Text", "", "t", 5)];
    assert!(parent_is_embedded_browser(&h));
    let h = vec![node("Pane", "Plain", "", 5), node("Text", "", "t", 5)];
    assert!(!parent_is_embedded_browser(&h));
    assert!(!parent_is_embedded_browser(&h[1..]));
}

#[test]
fn cross_process_boundary_and_cut() {
    let h = vec![
        node("Pane", "#32769", "Desktop", 0),
        node("Window", "Main", "App", 10),
        node("Pane", "Host", "", 10),
        node("Pane", "Chrome_WidgetWin_0", "web", 20),
        node("Document", "", "doc", 20),
        node("Text", "", "hi", 20),
    ];
    assert_eq!(find_cross_boundary_index(&h, 10), Some(3));
    assert_eq!(find_cross_boundary_index(&h, 99), None);
    let cut = truncate_hierarchy_to_child(h, 3, 10);
    let names: Vec<&str> = cut.iter().map(|n| n.name.as_str()).collect();
    assert_eq!(names, vec!["App", "web", "doc", "hi"]);
    let depths: Vec<usize> = cut.iter().map(|n| n.depth_from_window).collect();
    assert_eq!(depths, vec![0, 0, 1, 2]);
}

#[test]
fn finishing_a_cross_process_capture() {
    let h = vec![
        node("Pane", "#32769", "Desktop", 0),
        node("Window", "Main", "App", 10),
        node("Pane", "Chrome_WidgetWin_0", "web", 20),
        node("Text", "", "hi", 20),
    ];
    let r = finish_capture(h, 5, 6, "app", CaptureMode::Enhanced);
    assert_eq!((r.cursor_x, r.cursor_y), (5, 6));
    assert_eq!(r.locate_mode, LocateMode::FullChild);
    assert_eq!(r.search_context.locate_mode, LocateMode::FullChild);
    let hint = r.search_context.child_hwnd_hint.as_ref().unwrap();
    assert_eq!(hint.hwnd_class, "Chrome_WidgetWin_0");
    assert_eq!(hint.hwnd_title, "web");
    assert!(matches!(&r.search_context.search_root, SearchRoot::ChildHwnd { class, .. } if class == "Chrome_WidgetWin_0"));
    let w = r.window_info.as_ref().unwrap();
    assert_eq!((w.title.as_str(), w.process_id, w.process_name.as_str()), ("App", 10, "app"));
    assert_eq!(r.hierarchy.len(), 3);
}

#[test]
fn finishing_a_plain_capture() {
    let h = vec![node("Pane", "#32769", "Desktop", 0), node("Window", "Main", "App", 10), node("Button", "B", "ok", 10)];
    let r = finish_capture(h, 1, 2, "app", CaptureMode::Normal);
    assert_eq!(r.locate_mode, LocateMode::Fast);
    assert!(r.search_context.child_hwnd_hint.is_none());
    assert!(!r.hierarchy[0].included);
    assert!(r.hierarchy[1].included && r.hierarchy[2].included);
    let r = finish_capture(vec![node("Pane", "#32769", "Desktop", 0)], 1, 2, "", CaptureMode::Normal);
    assert!(r.window_info.is_none());
}

#[test]
fn capture_failures() {
    let r = capture_failure(3, 4, "boom", CaptureMode::Enhanced);
    assert_eq!(r.error.as_deref(), Some("boom"));
    assert_eq!(r.locate_mode, LocateMode::Full);
    assert!(r.hierarchy.is_empty());
    let r = capture_at_point(1, 2, Err("no element".to_string()));
    assert_eq!(r.error.as_deref(), Some("捕获失败: no element"));
    assert_eq!(r.capture_mode, CaptureMode::Normal);
    assert_eq!(r.locate_mode, LocateMode::Fast);
    let r = capture_enhanced_at_point(1, 2, Err(CaptureFailure::Automation("COM".to_string())));
    assert_eq!(r.error.as_deref(), Some("COM 初始化失败: COM"));
    assert_eq!(r.capture_mode, CaptureMode::Enhanced);
    let r = capture_enhanced_at_point(1, 2, Err(CaptureFailure::Capture("x".to_string())));
    assert_eq!(r.error.as_deref(), Some("增强捕获失败: x"));
    assert_eq!(r.locate_mode, LocateMode::Full);
    let r = capture_enhanced_at_point(1, 2, Err(CaptureFailure::NoWalker));
    assert_eq!(r.error.as_deref(), Some("无法获取 TreeWalker"));
    assert!(r.hierarchy.is_empty());
}

#[test]
fn capture_outcomes_completed() {
    let chain = || CapturedChain {
        hierarchy: vec![node("Pane", "", "Desktop", 0), node("Window", "App", "Main", 7), node("Button", "", "OK", 7)],
        process_name: "app.exe".to_string(),
    };
    let r = capture_at_point(10, 20, Ok(chain()));
    assert_eq!((r.cursor_x, r.cursor_y), (10, 20));
    assert_eq!(r.capture_mode, CaptureMode::Normal);
    assert!(r.error.is_none());
    assert_eq!(r.hierarchy.len(), 3);
    assert_eq!(r.search_context.locate_mode, r.locate_mode);
    let w = r.window_info.clone().unwrap();
    assert_eq!(w.process_name, "app.exe");
    assert_eq!(w.process_id, 7);
    let e = capture_enhanced_at_point(5, 6, Ok(chain()));
    assert_eq!((e.cursor_x, e.cursor_y), (5, 6));
    assert_eq!(e.capture_mode, CaptureMode::Enhanced);
    assert!(e.locate_mode == LocateMode::Full || e.locate_mode == LocateMode::FullChild);
    let f = finish_capture(chain().hierarchy, 5, 6, "app.exe", CaptureMode::Enhanced);
    assert_eq!(e.hierarchy.len(), f.hierarchy.len());
    for (a, b) in e.hierarchy.iter().zip(f.hierarchy.iter()) {
        assert_eq!((&a.control_type, a.included, a.is_target), (&b.control_type, b.included, b.is_target));
    }
    assert_eq!(e.locate_mode, f.locate_mode);
}

#[test]
fn enhanced_descent_order() {
    assert_eq!(next_descent(DescentStart::Hit, true, 40, 7), Some(DescentStart::FirstHit));
    assert_eq!(next_descent(DescentStart::Hit, false, 40, 7), Some(DescentStart::ProcessWindows));
    assert_eq!(next_descent(DescentStart::Hit, false, 7, 7), None);
    assert_eq!(next_descent(DescentStart::Hit, false, 0, 7), None);
    assert_eq!(next_descent(DescentStart::FirstHit, true, 40, 7), Some(DescentStart::ProcessWindows));
    assert_eq!(next_descent(DescentStart::FirstHit, true, 0, 7), None);
    assert_eq!(next_descent(DescentStart::ProcessWindows, true, 40, 7), None);
    assert!(keeps_found_chain(true, 3));
    assert!(!keeps_found_chain(true, 2));
    assert!(!keeps_found_chain(false, 5));
}
