use element_selector::geometry::{point_in_rect, SimpleRect};
use element_selector::select::{
    candidate_dominates_drilldown, candidate_dominates_findall, is_leaf_control_type, select_best_findall,
    CandidateElement,
};

// ─── point_in_rect tests ─────────────────────────────────────────────

#[test]
fn test_point_in_rect_basic() {
    let rect = SimpleRect { left: 100, top: 200, right: 300, bottom: 400 };
    assert!(point_in_rect(100, 200, &rect), "top-left corner should be inclusive");
    assert!(point_in_rect(300, 400, &rect), "bottom-right corner should be inclusive");
    assert!(point_in_rect(200, 300, &rect), "center should be inside");
    assert!(!point_in_rect(99, 200, &rect), "just outside left");
    assert!(!point_in_rect(100, 199, &rect), "just outside top");
    assert!(!point_in_rect(301, 300, &rect), "just outside right");
    assert!(!point_in_rect(200, 401, &rect), "just outside bottom");
}

#[test]
fn test_point_in_rect_single_pixel() {
    let rect = SimpleRect { left: 50, top: 50, right: 50, bottom: 50 };
    assert!(point_in_rect(50, 50, &rect), "single pixel point should match");
    assert!(!point_in_rect(49, 50, &rect));
    assert!(!point_in_rect(51, 50, &rect));
}

// ─── is_leaf_control_type tests ──────────────────────────────────────

#[test]
fn test_is_leaf_control_type() {
    assert!(is_leaf_control_type("Text"));
    assert!(is_leaf_control_type("Button"));
    assert!(is_leaf_control_type("Hyperlink"));
    assert!(is_leaf_control_type("Edit"));
    assert!(is_leaf_control_type("Image"));
    assert!(is_leaf_control_type("ListItem"));
    assert!(!is_leaf_control_type("Group"));
    assert!(!is_leaf_control_type("Pane"));
    assert!(!is_leaf_control_type("Window"));
    assert!(!is_leaf_control_type("Document"));
}

// ─── candidate_dominates_findall tests ───────────────────────────────

/// THE KEY FIX: Chrome Group (larger area, long rid) vs Text (smaller area, short rid).
/// Old code (rid_len priority) selected Group. New code (area priority) selects Text.
#[test]
fn test_findall_area_beats_rid_len_chrome_text_vs_group() {
    let candidates = vec![
        CandidateElement {
            index: 5,
            area: 4000,
            control_type: "Group".into(),
            name: String::new(),
            runtime_id: vec![42, 7, 3, 9, 15, 20],
        },
        CandidateElement {
            index: 8,
            area: 2000,
            control_type: "Text".into(),
            name: "some text content".into(),
            runtime_id: vec![42, 7, 3],
        },
    ];
    let best = select_best_findall(&candidates).unwrap();
    assert_eq!(best.control_type, "Text",
        "Text (area=2000) should beat Group (area=4000) despite shorter RuntimeId");
}

/// Verify the OLD behavior (rid_len priority) was wrong.
#[test]
fn test_findall_rid_len_is_unreliable_depth_proxy() {
    let group = CandidateElement {
        index: 5, area: 4000, control_type: "Group".into(),
        name: String::new(), runtime_id: vec![42, 7, 3, 9, 15, 20],
    };
    let text = CandidateElement {
        index: 8, area: 2000, control_type: "Text".into(),
        name: "some text".into(), runtime_id: vec![42, 7, 3],
    };
    // NEW logic: area-based, Text wins
    assert!(candidate_dominates_findall(&text, group.area, group.index, &group.control_type, &group.name));
    assert!(!candidate_dominates_findall(&group, text.area, text.index, &text.control_type, &text.name));
    // OLD logic would have: group.runtime_id.len() > text.runtime_id.len() → wrong
    assert!(group.runtime_id.len() > text.runtime_id.len());
}

/// Same area → later index (deeper in traversal) wins.
#[test]
fn test_findall_same_area_later_index_wins() {
    let candidates = vec![
        CandidateElement { index: 3, area: 5000, control_type: "Group".into(), name: "outer".into(), runtime_id: vec![1, 2] },
        CandidateElement { index: 7, area: 5000, control_type: "Group".into(), name: "inner".into(), runtime_id: vec![3, 4] },
    ];
    let best = select_best_findall(&candidates).unwrap();
    assert_eq!(best.name, "inner");
    assert_eq!(best.index, 7);
}

/// Taskbar: Image (smaller) inside Button (larger).
#[test]
fn test_findall_taskbar_image_inside_button() {
    let candidates = vec![
        CandidateElement { index: 0, area: 2304, control_type: "Button".into(), name: "app".into(), runtime_id: vec![1, 2] },
        CandidateElement { index: 2, area: 576, control_type: "Image".into(), name: String::new(), runtime_id: vec![1, 2, 3] },
    ];
    let best = select_best_findall(&candidates).unwrap();
    assert_eq!(best.control_type, "Image");
}

/// Single candidate → selected.
#[test]
fn test_findall_single_candidate() {
    let candidates = vec![
        CandidateElement { index: 0, area: 100, control_type: "Text".into(), name: "hello".into(), runtime_id: vec![1] },
    ];
    let best = select_best_findall(&candidates).unwrap();
    assert_eq!(best.control_type, "Text");
}

/// Empty candidates → None.
#[test]
fn test_findall_no_candidates() {
    let candidates: Vec<CandidateElement> = vec![];
    assert!(select_best_findall(&candidates).is_none());
}

/// Deeply nested Chrome: Text leaf wins over all intermediate Groups.
#[test]
fn test_findall_chrome_deep_nesting_text_wins() {
    let candidates = vec![
        CandidateElement { index: 0, area: 480000, control_type: "Pane".into(), name: String::new(), runtime_id: vec![1] },
        CandidateElement { index: 1, area: 452400, control_type: "Document".into(), name: String::new(), runtime_id: vec![1,2,3] },
        CandidateElement { index: 2, area: 425600, control_type: "Group".into(), name: String::new(), runtime_id: vec![1,2,3,4,5] },
        CandidateElement { index: 3, area: 399600, control_type: "Group".into(), name: String::new(), runtime_id: vec![1,2,3,4,5,6,7] },
        CandidateElement { index: 4, area: 374400, control_type: "Group".into(), name: String::new(), runtime_id: vec![1,2,3] },
        CandidateElement { index: 5, area: 350000, control_type: "Group".into(), name: String::new(), runtime_id: vec![1,2,3,4,5,6] },
        CandidateElement { index: 6, area: 12000,  control_type: "Group".into(), name: String::new(), runtime_id: vec![1,2,3,4,5,6,7,8,9] },
        CandidateElement { index: 7, area: 6000,   control_type: "Text".into(), name: "text leaf".into(), runtime_id: vec![1,2] },
    ];
    let best = select_best_findall(&candidates).unwrap();
    assert_eq!(best.control_type, "Text",
        "Text leaf (area=6000) must win over Group (area=12000) despite shorter RuntimeId");
}

// ─── Leaf preference tests (based on real log scenarios) ─────────────

/// LOG CASE 1: (527, 208) WeChat Chrome article title
/// target='Group' name='' | ElementFromPoint type='Text' name='最高年费 5088！...'
/// A tiny Group (empty name) was selected over a much larger Text (with name)
/// because Group had a smaller area. Leaf preference fixes this.
#[test]
fn test_leaf_preference_text_beats_group_with_smaller_area() {
    let candidates = vec![
        // Tiny Group overlay/wrapper at the cursor point — empty name, small area
        CandidateElement {
            index: 5,
            area: 400,       // e.g. 20x20 tiny overlay
            control_type: "Group".into(),
            name: String::new(),
            runtime_id: vec![42, 7, 3, 9],
        },
        // The actual Text element the user wants — meaningful name, larger area
        CandidateElement {
            index: 8,
            area: 30000,     // e.g. 300x100 article title
            control_type: "Text".into(),
            name: "最高年费 5088！豆包收费让网友炸锅了，人民日报发声定调".into(),
            runtime_id: vec![42, 7, 3],
        },
    ];
    let best = select_best_findall(&candidates).unwrap();
    assert_eq!(best.control_type, "Text",
        "Text with meaningful name must beat tiny Group with empty name (leaf preference)");
    assert!(!best.name.is_empty());
}

/// LOG CASE 1 (variant): Group appears first in traversal but Text has name.
/// Even if Group is evaluated first and becomes "best", Text must replace it.
#[test]
fn test_leaf_preference_group_first_then_text_replaces() {
    let candidates = vec![
        // Group evaluated first → becomes best (area=400, initially i64::MAX)
        CandidateElement {
            index: 3,
            area: 400,
            control_type: "Group".into(),
            name: String::new(),
            runtime_id: vec![1, 2, 3],
        },
        // Text evaluated later → must replace Group via leaf preference
        CandidateElement {
            index: 7,
            area: 30000,
            control_type: "Text".into(),
            name: "article title".into(),
            runtime_id: vec![4, 5],
        },
    ];
    let best = select_best_findall(&candidates).unwrap();
    assert_eq!(best.control_type, "Text");
}

/// LOG CASE 3: (551, 260) Both Group with empty name
/// target='Group' name='' | ElementFromPoint type='Group' name=''
/// When there's no leaf element, the smallest-area Group should still win.
#[test]
fn test_leaf_preference_no_leaf_available_group_wins() {
    let candidates = vec![
        CandidateElement {
            index: 0,
            area: 400000,
            control_type: "Pane".into(),
            name: String::new(),
            runtime_id: vec![1],
        },
        CandidateElement {
            index: 3,
            area: 12000,
            control_type: "Group".into(),
            name: String::new(),
            runtime_id: vec![1, 2, 3, 4],
        },
        CandidateElement {
            index: 6,
            area: 2000,
            control_type: "Group".into(),
            name: String::new(),
            runtime_id: vec![5, 6],
        },
    ];
    let best = select_best_findall(&candidates).unwrap();
    assert_eq!(best.control_type, "Group",
        "When no leaf available, smallest-area Group wins");
    assert_eq!(best.area, 2000);
}

/// LOG CASE 4: (482, 273) Text with name vs Group with empty name
/// target='Text' name='程序员的那些事' | ElementFromPoint type='Group' name=''
/// Text already has smaller area + leaf preference. Both mechanisms agree.
#[test]
fn test_leaf_preference_text_smaller_area_also_wins() {
    let candidates = vec![
        CandidateElement {
            index: 2,
            area: 20000,
            control_type: "Group".into(),
            name: String::new(),
            runtime_id: vec![1, 2, 3],
        },
        CandidateElement {
            index: 5,
            area: 5000,
            control_type: "Text".into(),
            name: "程序员的那些事".into(),
            runtime_id: vec![4, 5],
        },
    ];
    let best = select_best_findall(&candidates).unwrap();
    assert_eq!(best.control_type, "Text");
    assert_eq!(best.name, "程序员的那些事");
}

/// Leaf preference should NOT override when the container has a meaningful name.
/// A Group with name (e.g., "Card") is a valid target.
#[test]
fn test_leaf_preference_not_applied_when_container_has_name() {
    let candidates = vec![
        CandidateElement {
            index: 2,
            area: 400,
            control_type: "Group".into(),
            name: "Card".into(),      // Container WITH name
            runtime_id: vec![1, 2, 3],
        },
        CandidateElement {
            index: 5,
            area: 30000,
            control_type: "Text".into(),
            name: "content".into(),
            runtime_id: vec![4, 5],
        },
    ];
    let best = select_best_findall(&candidates).unwrap();
    // Group with name and smaller area wins via normal area logic
    assert_eq!(best.control_type, "Group");
    assert_eq!(best.area, 400);
}

/// Leaf preference should NOT override when both are leaf types.
/// Between two Text elements, smallest area should still win.
#[test]
fn test_leaf_preference_not_applied_between_two_leaves() {
    let candidates = vec![
        CandidateElement {
            index: 0,
            area: 5000,
            control_type: "Text".into(),
            name: "title".into(),
            runtime_id: vec![1],
        },
        CandidateElement {
            index: 3,
            area: 2000,
            control_type: "Text".into(),
            name: String::new(),     // Text with empty name — smaller area wins
            runtime_id: vec![2],
        },
    ];
    let best = select_best_findall(&candidates).unwrap();
    assert_eq!(best.area, 2000);
    // Text with empty name wins because both are leaves → area comparison
}

/// Leaf preference should NOT override when both are containers.
#[test]
fn test_leaf_preference_not_applied_between_two_containers() {
    let candidates = vec![
        CandidateElement {
            index: 0,
            area: 5000,
            control_type: "Group".into(),
            name: String::new(),
            runtime_id: vec![1],
        },
        CandidateElement {
            index: 3,
            area: 2000,
            control_type: "Pane".into(),
            name: String::new(),
            runtime_id: vec![2],
        },
    ];
    let best = select_best_findall(&candidates).unwrap();
    assert_eq!(best.control_type, "Pane"); // smaller area wins
    assert_eq!(best.area, 2000);
}

/// Leaf with empty name vs container with empty name → area wins.
#[test]
fn test_leaf_empty_name_vs_container_empty_name_area_wins() {
    let candidates = vec![
        CandidateElement {
            index: 0,
            area: 5000,
            control_type: "Group".into(),
            name: String::new(),
            runtime_id: vec![1],
        },
        CandidateElement {
            index: 3,
            area: 2000,
            control_type: "Text".into(),
            name: String::new(),    // Text with no name — no leaf preference
            runtime_id: vec![2],
        },
    ];
    let best = select_best_findall(&candidates).unwrap();
    // Text with empty name: leaf preference not triggered (c_has_name = false)
    // Falls back to area → Text (2000) wins
    assert_eq!(best.control_type, "Text");
    assert_eq!(best.area, 2000);
}

/// Full WeChat Chrome scenario: multiple Groups + one Text.
#[test]
fn test_wechat_chrome_full_scenario() {
    let candidates = vec![
        CandidateElement { index: 0, area: 480000, control_type: "Pane".into(), name: String::new(), runtime_id: vec![1] },
        CandidateElement { index: 1, area: 390000, control_type: "Group".into(), name: String::new(), runtime_id: vec![1,2] },
        CandidateElement { index: 2, area: 195000, control_type: "Group".into(), name: String::new(), runtime_id: vec![1,2,3] },
        // Tiny Group overlay at cursor — the bug trigger
        CandidateElement { index: 3, area: 400,    control_type: "Group".into(), name: String::new(), runtime_id: vec![1,2,3,4,5,6] },
        // The actual article title
        CandidateElement { index: 4, area: 30000,  control_type: "Text".into(), name: "article title".into(), runtime_id: vec![1,2,3,4] },
    ];
    let best = select_best_findall(&candidates).unwrap();
    assert_eq!(best.control_type, "Text",
        "Text with name must beat tiny Group overlay (leaf preference)");
    assert_eq!(best.name, "article title");
}

/// Leaf preference does not override when leaf has much larger area AND
/// the container has a meaningful name (both have useful info).
#[test]
fn test_leaf_preference_container_named_vs_leaf_named() {
    let candidates = vec![
        CandidateElement {
            index: 0,
            area: 400,
            control_type: "Group".into(),
            name: "sidebar section".into(),  // Container WITH name
            runtime_id: vec![1, 2],
        },
        CandidateElement {
            index: 3,
            area: 30000,
            control_type: "Text".into(),
            name: "content text".into(),     // Leaf WITH name
            runtime_id: vec![3, 4],
        },
    ];
    let best = select_best_findall(&candidates).unwrap();
    // Both have names → leaf preference NOT triggered → area comparison
    assert_eq!(best.control_type, "Group",
        "When both have names, smallest area wins");
}

// ─── candidate_dominates_drilldown tests ─────────────────────────────

#[test]
fn test_drilldown_smaller_area_wins() {
    assert!(candidate_dominates_drilldown(100, 2, 200, 3));
}

#[test]
fn test_drilldown_same_area_longer_rid_wins() {
    assert!(candidate_dominates_drilldown(100, 4, 100, 2));
}

#[test]
fn test_drilldown_same_area_same_rid_no_dominate() {
    assert!(!candidate_dominates_drilldown(100, 3, 100, 3));
}

#[test]
fn test_drilldown_larger_area_no_dominate() {
    assert!(!candidate_dominates_drilldown(200, 5, 100, 2));
}

#[test]
fn test_drilldown_same_area_shorter_rid_no_dominate() {
    assert!(!candidate_dominates_drilldown(100, 2, 100, 5));
}

// ─── Integration-style tests ─────────────────────────────────────────

/// WeChat scenario: Group (300x40) vs Text (300x20) at same point.
#[test]
fn test_wechat_scenario_group_vs_text() {
    let group_rect = SimpleRect { left: 400, top: 250, right: 700, bottom: 290 };
    let text_rect = SimpleRect { left: 400, top: 260, right: 700, bottom: 280 };
    assert!(point_in_rect(549, 269, &group_rect));
    assert!(point_in_rect(549, 269, &text_rect));

    let group_area = (group_rect.right - group_rect.left) as i64
        * (group_rect.bottom - group_rect.top) as i64;
    let text_area = (text_rect.right - text_rect.left) as i64
        * (text_rect.bottom - text_rect.top) as i64;

    let candidates = vec![
        CandidateElement { index: 5, area: group_area, control_type: "Group".into(), name: String::new(), runtime_id: vec![42, 7, 3, 9, 15, 20] },
        CandidateElement { index: 8, area: text_area, control_type: "Text".into(), name: "text content".into(), runtime_id: vec![42, 7, 3] },
    ];
    let best = select_best_findall(&candidates).unwrap();
    assert_eq!(best.control_type, "Text",
        "In WeChat Chrome, Text (area={}) must win over Group (area={})", text_area, group_area);
}

/// Group only (no Text child) → Group is selected.
#[test]
fn test_findall_group_only_selected_when_no_text() {
    let candidates = vec![
        CandidateElement { index: 0, area: 4000, control_type: "Group".into(), name: String::new(), runtime_id: vec![1, 2] },
    ];
    let best = select_best_findall(&candidates).unwrap();
    assert_eq!(best.control_type, "Group");
}

/// Same area, same index → leaf preference makes Text dominate Group with no name.
#[test]
fn test_findall_identical_area_same_index_leaf_wins() {
    let c1_area = 1000i64;
    let c1_index = 3i32;
    let c1_ct = "Group".to_string();
    let c1_name = String::new();
    let c2 = CandidateElement { index: 3, area: 1000, control_type: "Text".into(), name: "second".into(), runtime_id: vec![2] };
    // Leaf preference: Text(name="second") dominates Group(name="") even with same area+index
    assert!(candidate_dominates_findall(&c2, c1_area, c1_index, &c1_ct, &c1_name));
}

/// Same area, same index, both same type with name → no flip.
#[test]
fn test_findall_identical_area_same_index_same_type_no_flip() {
    let c1_area = 1000i64;
    let c1_index = 3i32;
    let c1_ct = "Text".to_string();
    let c1_name = "first".to_string();
    let c2 = CandidateElement { index: 3, area: 1000, control_type: "Text".into(), name: "second".into(), runtime_id: vec![2] };
    // Both are leaves with names → no leaf preference → same area+index → no flip
    assert!(!candidate_dominates_findall(&c2, c1_area, c1_index, &c1_ct, &c1_name));
}


// ─── further cases ───

use element_selector::model::{ElementRect, HierarchyNode, WalkerHint};
use element_selector::select::{
    build_relative_xpath, determine_walker_hint, extract_window_info, is_control_type_clickable, is_rendering_layer,
    is_webview_class, set_walker_hints,
};

#[test]
fn webview_and_rendering_classes() {
    assert!(is_webview_class("Chrome_WidgetWin_1"));
    assert!(is_webview_class("WRY_WEBVIEW"));
    assert!(is_webview_class("QWebEngineView"));
    assert!(!is_webview_class("Notepad"));
    assert!(is_rendering_layer("MMUIRenderSubWindowHW"));
    assert!(!is_rendering_layer("MMUIRenderSubWindowHW2"));
}

#[test]
fn walker_hints() {
    assert_eq!(determine_walker_hint("Chrome_WidgetWin_1", "", 10, 20), WalkerHint::ChildHwnd);
    assert_eq!(determine_walker_hint("Chrome_WidgetWin_1", "", 10, 10), WalkerHint::RawView);
    assert_eq!(determine_walker_hint("Button", "cHrOmE", 10, 20), WalkerHint::RawView);
    assert_eq!(determine_walker_hint("Button", "WebView", 0, 0), WalkerHint::RawView);
    assert_eq!(determine_walker_hint("Button", "Win32", 10, 20), WalkerHint::ControlView);
}

#[test]
fn walker_hints_fill_only_unknown() {
    let mut nodes = vec![
        HierarchyNode::new("Pane", "", "Chrome_WidgetWin_1", "", 0, ElementRect::default(), 5),
        HierarchyNode::new("Button", "", "Button", "", 0, ElementRect::default(), 5),
    ];
    nodes[1].walker_hint = WalkerHint::RawView;
    set_walker_hints(&mut nodes, 9);
    assert_eq!(nodes[0].walker_hint, WalkerHint::ChildHwnd);
    assert_eq!(nodes[1].walker_hint, WalkerHint::RawView);
}

#[test]
fn clickable_types() {
    assert!(is_control_type_clickable("Button"));
    assert!(is_control_type_clickable("Document"));
    assert!(!is_control_type_clickable("Text"));
}

#[test]
fn relative_xpath_prefers_automation_id() {
    assert_eq!(build_relative_xpath("Button", "OK", "Btn", "ok1", ""), "/Button[@AutomationId='ok1']");
    assert_eq!(build_relative_xpath("Button", "OK", "Btn", "", "/Pane"), "/Pane/Button[@ClassName='Btn']");
    assert_eq!(build_relative_xpath("Button", "OK", "", "", "/Pane"), "/Pane/Button[@Name='OK']");
    assert_eq!(build_relative_xpath("Button", "", "", "", "/Pane"), "/Pane/Button");
}

#[test]
fn window_info_from_second_node() {
    let nodes = vec![
        HierarchyNode::new("Pane", "", "#32769", "Desktop", 0, ElementRect::default(), 0),
        HierarchyNode::new("Window", "", "Notepad", "Untitled", 0, ElementRect::default(), 42),
    ];
    let info = extract_window_info(&nodes, "notepad").unwrap();
    assert_eq!(info.title, "Untitled");
    assert_eq!(info.class_name, "Notepad");
    assert_eq!(info.process_id, 42);
    assert_eq!(info.process_name, "notepad");
    assert!(extract_window_info(&nodes[..1], "x").is_none());
}
