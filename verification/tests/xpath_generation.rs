use element_selector::model::{ElementRect, HierarchyNode, Operator, WindowInfo};
use element_selector::xpath::{generate, generate_elements, generate_simplified_elements, lint};

fn node(ct: &str, aid: &str, name: &str) -> HierarchyNode {
    HierarchyNode::new(ct, aid, "", name, 0, ElementRect::default(), 0)
}

#[test]
fn basic_generation() {
    let nodes = vec![node("Window", "main", ""), node("Button", "btnOk", "OK")];
    let result = generate(&nodes, None);
    assert!(!result.window_selector.starts_with("//"));
    assert!(result.window_selector.starts_with("Window"));
    assert!(result.element_xpath.starts_with("/Button"));
    assert!(result.element_xpath.contains("AutomationId='btnOk'"));
}

#[test]
fn simplify_drops_unnamed() {
    let full_nodes = vec![
        node("Window", "main", ""),
        node("Pane", "", ""),
        node("Button", "btn1", "Save"),
    ];
    let window_selector = full_nodes[0].xpath_segment();
    let element_nodes = &full_nodes[1..];
    let element_xpath = generate_simplified_elements(element_nodes);
    assert!(window_selector.contains("Window"));
    assert!(!element_xpath.contains("Pane"), "unnamed Pane should be dropped");
    assert!(element_xpath.contains("/Button"));
}

#[test]
fn lint_catches_imbalance() {
    assert!(lint("//Button[@AutomationId='x'").is_some());
    assert!(lint("//Button[@AutomationId='x']").is_none());
    assert!(lint("").is_some());
    assert!(lint("Button[@id='x']").is_some());
    assert!(lint("Window[@Name='test'], //Button[@id='x']").is_none());
    assert!(lint("Button[@Name='test'], //Button[@id='x']").is_some());
    assert!(lint("Window[@Name='test'], Button[@id='x']").is_some());
}

#[test]
fn wechat_xpath_format() {
    let nodes = vec![
        HierarchyNode::new("Window", "", "mmui::MainWindow", "微信", 0, ElementRect::default(), 0),
        HierarchyNode::new("Group", "", "QWidget", "", 0, ElementRect::default(), 0),
        HierarchyNode::new("Custom", "", "QStackedWidget", "", 0, ElementRect::default(), 0),
        HierarchyNode::new("Group", "MainView", "mmui::MainView", "", 0, ElementRect::default(), 0),
        HierarchyNode::new("ToolBar", "MainView.main_tabbar", "mmui::MainTabBar", "导航", 0, ElementRect::default(), 0),
        HierarchyNode::new("Button", "", "mmui::XTabBarItem", "搜一搜", 0, ElementRect::default(), 0),
        HierarchyNode::new("Group", "", "QWidget", "", 0, ElementRect::default(), 0),
        HierarchyNode::new("Button", "", "mmui::XImage", "", 1, ElementRect::default(), 0),
    ];
    let result = generate(&nodes, None);
    assert!(result.window_selector.starts_with("Window"), "Window selector must start with Window");
    assert!(result.window_selector.contains("ClassName='mmui::MainWindow'"));
    assert!(result.element_xpath.starts_with("/Group"), "Element XPath must start with /Group");
    assert!(result.element_xpath.contains("/Custom"), "Should have /Custom");
    assert!(result.element_xpath.contains("Group["), "Should have Group");
    assert!(result.element_xpath.contains("ToolBar["), "Should have ToolBar");
    assert!(result.element_xpath.contains("Button["), "Should have Button");
    assert!(!result.element_xpath.contains("//"), "No // when all nodes are consecutive");
    println!("Window selector:\n{}", result.window_selector);
    println!("Element XPath:\n{}", result.element_xpath);
}

#[test]
fn skipped_nodes_use_double_slash() {
    let nodes = vec![
        node("Window", "main", ""),
        HierarchyNode::new("Group", "", "Class1", "", 0, ElementRect::default(), 0),
        HierarchyNode::new("Pane", "", "Class2", "", 0, ElementRect::default(), 0),
        HierarchyNode::new("Button", "btn1", "", "", 0, ElementRect::default(), 0),
    ];
    let mut nodes = nodes;
    nodes[2].included = false;
    let result = generate(&nodes, None);
    assert!(result.element_xpath.contains("//Button"), "Should use // when intermediate node skipped");
    assert!(result.element_xpath.contains("/Group"), "Should start with /Group");
    println!("XPath with skipped node:\n{}", result.element_xpath);
}

#[test]
fn position_function_generation() {
    let nodes = vec![
        node("Window", "main", ""),
        HierarchyNode::new("Button", "", "", "", 1, ElementRect::default(), 0),
        HierarchyNode::new("Button", "", "", "", 2, ElementRect::default(), 0),
        HierarchyNode::new("Button", "", "", "", 3, ElementRect::default(), 0),
    ];
    let result = generate(&nodes, None);
    assert!(result.element_xpath.contains("first()"), "Should use first() for position 1");
    assert!(result.element_xpath.contains("position()=2"), "Should use position()=2 for middle element");
    println!("XPath with position functions:\n{}", result.element_xpath);
}

#[test]
fn index_fallback_without_position_function() {
    let mut node = HierarchyNode::new("Button", "", "", "", 2, ElementRect::default(), 0);
    node.position_mode = "index".to_string();
    let segment = node.xpath_segment();
    assert!(segment.contains("@Index='2'"), "Should fallback to @Index when mode is index");
    assert!(!segment.contains("position()"), "Should not use position() when mode is index");
    println!("XPath segment with @Index:\n{}", segment);
}

#[test]
fn first_function_generation() {
    let mut node = HierarchyNode::new("Button", "", "", "", 1, ElementRect::default(), 0);
    node.sibling_count = 3;
    let segment = node.xpath_segment();
    assert!(segment.contains("first()"), "Should use first() for position 1");
    assert!(!segment.contains("position()"), "Should not use position()=1");
    println!("XPath segment with first():\n{}", segment);
}

#[test]
fn last_function_generation() {
    let mut node = HierarchyNode::new("Button", "", "", "", 3, ElementRect::default(), 0);
    node.sibling_count = 3;
    let segment = node.xpath_segment();
    assert!(segment.contains("last()"), "Should use last() for last sibling");
    assert!(!segment.contains("position()"), "Should not use position() for last");
    println!("XPath segment with last():\n{}", segment);
}

#[test]
fn position_mode_override() {
    let mut node1 = HierarchyNode::new("Button", "", "", "", 2, ElementRect::default(), 0);
    node1.position_mode = "first".to_string();
    let segment1 = node1.xpath_segment();
    assert!(segment1.contains("first()"), "Manual first() mode should always use first()");
    let mut node2 = HierarchyNode::new("Button", "", "", "", 1, ElementRect::default(), 0);
    node2.position_mode = "last".to_string();
    let segment2 = node2.xpath_segment();
    assert!(segment2.contains("last()"), "Manual last() mode should always use last()");
    println!("Manual first(): {}", segment1);
    println!("Manual last(): {}", segment2);
}

#[test]
fn new_string_operators() {
    let pred = Operator::NotContains.to_predicate("Name", "test");
    assert!(pred.contains("not(contains("), "NotContains should use not(contains())");
    let pred = Operator::NotStartsWith.to_predicate("Name", "test");
    assert!(pred.contains("not(starts-with("), "NotStartsWith should use not(starts-with())");
    let pred = Operator::NotEndsWith.to_predicate("Name", "test");
    assert!(pred.contains("not(substring("), "NotEndsWith should use not(substring())");
    println!("NotContains: {}", Operator::NotContains.to_predicate("Name", "test"));
    println!("NotStartsWith: {}", Operator::NotStartsWith.to_predicate("Name", "test"));
    println!("NotEndsWith: {}", Operator::NotEndsWith.to_predicate("Name", "test"));
}

#[test]
fn numeric_comparison_operators() {
    assert_eq!(Operator::GreaterThan.to_predicate("Index", "5"), "@Index > 5");
    assert_eq!(Operator::GreaterThanOrEq.to_predicate("Index", "5"), "@Index >= 5");
    assert_eq!(Operator::LessThan.to_predicate("Index", "5"), "@Index < 5");
    assert_eq!(Operator::LessThanOrEq.to_predicate("Index", "5"), "@Index <= 5");
}

#[test]
fn xpath_optimization_impact() {
    let mut nodes: Vec<HierarchyNode> = vec![node("Window", "main", "")];
    for i in 0..9 {
        nodes.push(HierarchyNode::new("Pane", "", &format!("Class{}", i), "", i, ElementRect::default(), 0));
    }
    let result = generate(&nodes, None);
    let single_slash_count = result.element_xpath.matches('/').count();
    assert!(result.element_xpath.starts_with("/"), "First element uses /");
    assert!(!result.element_xpath.contains("//"), "No // when all nodes included");
    assert_eq!(single_slash_count, 9, "Should have 9 slashes (all /");
}

// ─── further cases ───

#[test]
fn exact_element_xpath_of_two_nodes() {
    let nodes = vec![node("Window", "main", ""), node("Button", "btnOk", "OK")];
    let result = generate(&nodes, None);
    assert_eq!(result.element_xpath, "/Button[@AutomationId='btnOk' and @Name='OK']");
}

#[test]
fn window_selector_takes_process_name() {
    let nodes = vec![
        HierarchyNode::new("Window", "", "Notepad", "Untitled", 0, ElementRect::default(), 0),
        node("Edit", "15", ""),
    ];
    let info = WindowInfo {
        title: "Untitled".to_string(),
        class_name: "Notepad".to_string(),
        process_id: 1,
        process_name: "notepad".to_string(),
    };
    let result = generate(&nodes, Some(&info));
    assert_eq!(
        result.window_selector,
        "Window[@ClassName='Notepad' and @Name='Untitled' and @ProcessName='notepad']"
    );
}

#[test]
fn window_selector_without_predicates() {
    let nodes = vec![node("Window", "", ""), node("Button", "b", "")];
    let result = generate(&nodes, None);
    assert_eq!(result.window_selector, "Window");
}

#[test]
fn all_excluded_elements_give_empty_xpath() {
    let mut nodes = vec![node("Pane", "", ""), node("Button", "b", "")];
    nodes[0].included = false;
    nodes[1].included = false;
    assert_eq!(generate_elements(&nodes), "");
}

#[test]
fn lint_reports_exact_messages() {
    assert_eq!(lint("   ").as_deref(), Some("XPath 不能为空"));
    assert_eq!(lint("//A[[x]").as_deref(), Some("方括号不匹配（缺少 1 个 ]）"));
    assert_eq!(lint("//A]").as_deref(), Some("方括号不匹配（多余的 ]）"));
    assert_eq!(lint("//A[@Name='x]").as_deref(), Some("方括号不匹配（缺少 1 个 ]）"));
    assert_eq!(lint("//A[@Name='x']'").as_deref(), Some("字符串引号未闭合"));
    assert_eq!(
        lint("Window[@Name='a', /B").as_deref(),
        Some("窗口选择器 方括号不匹配（缺少 1 个 ]）")
    );
    assert_eq!(
        lint("Window, /B]").as_deref(),
        Some("元素 XPath 方括号不匹配（多余的 ]）")
    );
    assert!(lint("  //Button  ").is_none());
}

#[test]
fn tree_label_shows_type_and_name() {
    let n = node("Button", "", "OK");
    assert_eq!(n.tree_label(), "Button \"OK\"");
}

#[test]
fn simplified_path_ends_with_unnamed_target() {
    let nodes = vec![node("Pane", "", "Main"), node("Group", "", ""), node("Text", "", "")];
    let x = generate_simplified_elements(&nodes);
    let target = nodes[2].xpath_segment();
    assert!(x.ends_with(&target));
    assert!(!x.contains("Group"));
}

#[test]
fn fully_included_path_has_single_slashes() {
    let nodes = vec![node("Pane", "p", ""), node("Group", "g", ""), node("Button", "b", "")];
    let x = generate_elements(&nodes);
    let expected: String = nodes.iter().map(|n| format!("/{}", n.xpath_segment())).collect();
    assert_eq!(x, expected);
    assert!(!x.contains("//"));
}

#[test]
fn lint_ignores_surrounding_space() {
    for x in ["//Button[@Name='OK']", "Window[@Name='a'], /Button", "//A[", "Pane", ""] {
        let padded = format!(" \t{}\n ", x);
        assert_eq!(lint(&padded), lint(x));
    }
}

#[test]
fn simplified_is_generation_with_mask() {
    let nodes = vec![node("Pane", "", ""), node("Group", "g", ""), node("Custom", "", ""), node("Button", "btn", "OK")];
    let mut masked = vec![node("Pane", "", ""), node("Group", "g", ""), node("Custom", "", ""), node("Button", "btn", "OK")];
    masked[0].included = false;
    masked[2].included = false;
    assert_eq!(generate_simplified_elements(&nodes), generate_elements(&masked));
    assert!(generate_simplified_elements(&nodes).contains("//Button"));
}

#[test]
fn element_path_joins_included_steps() {
    let mut nodes = vec![node("Pane", "", ""), node("Group", "", ""), node("List", "", ""), node("ListItem", "", ""), node("Text", "", "")];
    nodes[1].included = false;
    nodes[2].included = false;
    let inc: Vec<usize> = (0..nodes.len()).filter(|&i| nodes[i].included).collect();
    let expected: String = (0..inc.len())
        .map(|k| format!("{}{}", if k == 0 || inc[k] == inc[k - 1] + 1 { "/" } else { "//" }, nodes[inc[k]].xpath_segment()))
        .collect();
    assert_eq!(generate_elements(&nodes), expected);
    assert!(generate_elements(&nodes).contains("//ListItem/Text"));
}
