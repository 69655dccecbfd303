use element_selector::inspect::{
    child_xpaths, expands, flatten_inspect_tree, format_inspect_tree, has_identifiable_info, inspect_failure,
    inspect_success, InspectBudget, InspectFailure, InspectNode,
};
use element_selector::model::Rect;

fn node(depth: usize, ct: &str, name: &str, children: Vec<InspectNode>) -> InspectNode {
    InspectNode {
        depth,
        control_type: ct.to_string(),
        name: name.to_string(),
        class_name: String::new(),
        automation_id: String::new(),
        framework_id: String::new(),
        text_value: None,
        help_text: String::new(),
        item_type: String::new(),
        item_status: String::new(),
        rect: None,
        is_offscreen: false,
        relative_xpath: String::new(),
        children,
    }
}

#[test]
fn child_xpaths_index_repeated_types() {
    let types = vec!["Button".to_string(), "Text".to_string(), "Button".to_string()];
    assert_eq!(
        child_xpaths("/Pane", &types),
        vec!["/Pane/Button[1]".to_string(), "/Pane/Text".to_string(), "/Pane/Button[2]".to_string()]
    );
    assert!(child_xpaths("/Pane", &vec![]).is_empty());
}

#[test]
fn expansion_budget() {
    assert!(expands(0, 2, 1, 10));
    assert!(!expands(2, 2, 1, 10));
    assert!(!expands(0, 2, 10, 10));
}

#[test]
fn identifiable_nodes() {
    assert!(has_identifiable_info(&node(0, "Text", "hi", vec![])));
    assert!(!has_identifiable_info(&node(0, "Pane", "", vec![])));
    let mut t = node(0, "Edit", "", vec![]);
    t.text_value = Some(String::new());
    assert!(!has_identifiable_info(&t));
    t.text_value = Some("v".to_string());
    assert!(has_identifiable_info(&t));
    let mut h = node(0, "Edit", "", vec![]);
    h.help_text = "help".to_string();
    assert!(has_identifiable_info(&h));
}

fn sample() -> InspectNode {
    let mut leaf = node(2, "Text", "Hello", vec![]);
    leaf.rect = Some(Rect { x: 1, y: -2, width: 30, height: 4 });
    leaf.is_offscreen = true;
    let group = node(1, "Group", "", vec![leaf, node(2, "Button", "OK", vec![])]);
    node(0, "Pane", "Root", vec![group, node(1, "Image", "", vec![])])
}

#[test]
fn flatten_keeps_identifiable_in_order() {
    let flat = flatten_inspect_tree(&sample());
    let names: Vec<&str> = flat.iter().map(|n| n.name.as_str()).collect();
    assert_eq!(names, vec!["Root", "Hello", "OK"]);
    assert!(flat.iter().all(|n| n.children.is_empty()));
    assert_eq!(flat[1].depth, 2);
}

#[test]
fn text_form() {
    let text = format_inspect_tree(&sample(), 0);
    assert_eq!(
        text,
        "Pane name=\"Root\"\n  Text name=\"Hello\" rect=(1,-2,30,4) [offscreen]\n  Button name=\"OK\""
    );
    let mut n = node(0, "Edit", "", vec![]);
    n.text_value = Some("v".to_string());
    n.class_name = "C".to_string();
    n.automation_id = "a".to_string();
    n.help_text = "h".to_string();
    n.item_type = "t".to_string();
    n.item_status = "s".to_string();
    assert_eq!(
        format_inspect_tree(&n, 1),
        "  Edit class=\"C\" id=\"a\" text=\"v\" help=\"h\" itemType=\"t\" itemStatus=\"s\""
    );
    assert_eq!(format_inspect_tree(&node(0, "Pane", "", vec![]), 0), "");
}

#[test]
fn reports() {
    let r = inspect_failure("//Button", InspectFailure::WindowNotFound, "Window[@Name='x']");
    assert!(!r.success);
    assert_eq!(r.error.as_deref(), Some("窗口未找到: Window[@Name='x']"));
    let r = inspect_failure("//Button", InspectFailure::ElementNotFound, "//Button");
    assert_eq!(r.error.as_deref(), Some("元素未找到: //Button"));
    let r = inspect_failure("//B", InspectFailure::AutomationUnavailable, "e");
    assert_eq!(r.error.as_deref(), Some("获取 UIAutomation 实例失败: e"));
    let r = inspect_failure("//B", InspectFailure::WalkerUnavailable, "e");
    assert_eq!(r.error.as_deref(), Some("获取 RawViewWalker 失败: e"));

    let ok = inspect_success("//Pane", sample(), "txt");
    assert!(ok.success);
    assert_eq!(ok.total_children, 4);
    assert_eq!(ok.flat_nodes.len(), 3);
    assert!(ok.text_output.unwrap().starts_with("Pane name=\"Root\""));
    let json = inspect_success("//Pane", sample(), "json");
    assert!(json.text_output.is_none());
    assert_eq!(json.total_children, 4);
    let lone = inspect_success("//Pane", node(0, "Pane", "", vec![]), "json");
    assert_eq!(lone.total_children, 0);
}

#[test]
fn budget_limits_the_walk() {
    let mut b = InspectBudget::new(2, 3);
    b.visit();
    assert!(b.expands(0));
    assert_eq!(b.child_cap(0), None);
    assert_eq!(b.child_cap(1), Some(3));
    assert!(b.takes_child());
    b.visit();
    assert!(b.expands(1));
    assert!(!b.expands(2));
    b.visit();
    assert_eq!(b.visited(), 3);
    assert!(!b.takes_child());
    assert!(!b.expands(0));
    let mut none = InspectBudget::new(5, 0);
    none.visit();
    assert!(!none.expands(0));
    assert!(!none.takes_child());
}
