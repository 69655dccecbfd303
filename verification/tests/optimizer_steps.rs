use element_selector::model::{ElementRect, HierarchyNode, Operator};
use element_selector::optimizer::{optimize_node_filters, OptimizationPlan, XPathOptimizer};

fn node(ct: &str, aid: &str, class: &str, name: &str) -> HierarchyNode {
    HierarchyNode::new(ct, aid, class, name, 0, ElementRect::default(), 0)
}

fn web_hierarchy() -> Vec<HierarchyNode> {
    let mut h = vec![
        node("Pane", "", "", ""),
        node("Document", "RootWebArea", "", ""),
        node("Group", "", "btn-class", "新建对话"),
    ];
    h[0].included = false;
    h[2].is_target = true;
    h
}

fn no_dynamic(h: &[HierarchyNode]) -> Vec<Vec<Option<String>>> {
    h.iter().map(|n| n.filters.iter().map(|_| None).collect()).collect()
}

#[test]
fn prepared_path_skips_excluded_first_node() {
    let h = web_hierarchy();
    let opt = XPathOptimizer::new();
    match opt.prepare(&h) {
        OptimizationPlan::Ready(p) => {
            assert_eq!(p.target_index, 2);
            assert_eq!(p.node_indices, vec![1, 2]);
            let expected = format!("//{}/{}", h[1].xpath_segment(), h[2].xpath_segment());
            assert_eq!(p.full_xpath, expected);
            assert_eq!(p.anchor_in_hierarchy(Some(0)), Some(1));
            assert_eq!(p.anchor_in_hierarchy(Some(1)), Some(2));
            assert_eq!(p.anchor_in_hierarchy(Some(2)), None);
            assert_eq!(p.anchor_in_hierarchy(None), None);
        }
        _ => panic!("expected a path"),
    }
}

#[test]
fn prepared_path_from_root_is_absolute() {
    let mut h = web_hierarchy();
    h[0].included = true;
    let opt = XPathOptimizer::new();
    match opt.prepare(&h) {
        OptimizationPlan::Ready(p) => {
            assert_eq!(p.node_indices, vec![0, 1, 2]);
            assert!(p.full_xpath.starts_with("/Pane"));
        }
        _ => panic!("expected a path"),
    }
}

#[test]
fn nothing_to_prepare() {
    let opt = XPathOptimizer::new();
    assert!(matches!(opt.prepare(&[]), OptimizationPlan::Empty));
    let mut h = web_hierarchy();
    h[2].included = false;
    assert!(matches!(opt.prepare(&h), OptimizationPlan::TargetExcluded { target_index: 2 }));
    let mut h = web_hierarchy();
    h[2].is_target = false;
    match opt.prepare(&h) {
        OptimizationPlan::Ready(p) => assert_eq!(p.target_index, 2),
        _ => panic!("the last node is the target when none is marked"),
    }
}

#[test]
fn leading_slashes_follow_the_anchor() {
    let opt = XPathOptimizer::new();
    assert_eq!(opt.fix_xpath_prefix("//Document/Group", Some(0)), "/Document/Group");
    assert_eq!(opt.fix_xpath_prefix("/Document/Group", Some(0)), "/Document/Group");
    assert_eq!(opt.fix_xpath_prefix("Document", Some(0)), "/Document");
    assert_eq!(opt.fix_xpath_prefix("/Document/Group", Some(1)), "//Document/Group");
    assert_eq!(opt.fix_xpath_prefix("//Document", None), "//Document");
    assert_eq!(opt.fix_xpath_prefix("Document", None), "//Document");
}

#[test]
fn optimisation_applied_from_anchor_to_target() {
    let h = web_hierarchy();
    let opt = XPathOptimizer::new();
    let r = opt.apply_optimization_to_hierarchy(&h, Some(1), 2, &no_dynamic(&h));
    let included: Vec<bool> = r.iter().map(|n| n.included).collect();
    assert_eq!(included, vec![false, true, true]);
    let enabled = |n: &HierarchyNode, name: &str| n.filters.iter().find(|f| f.name == name).unwrap().enabled;
    assert!(enabled(&r[1], "AutomationId"));
    assert!(!enabled(&r[1], "ControlType"));
    assert!(enabled(&r[2], "ClassName"));
    assert!(enabled(&r[2], "Name"));
    let r = opt.apply_optimization_to_hierarchy(&h, None, 2, &no_dynamic(&h));
    let included: Vec<bool> = r.iter().map(|n| n.included).collect();
    assert_eq!(included, vec![false, false, true]);
}

#[test]
fn dynamic_class_names_become_prefix_matches() {
    let n = node("Group", "", "temp-dialogue-btnBOp4 winFolder_optionsZJ07f", "x");
    let dynamic: Vec<Option<String>> =
        n.filters.iter().map(|f| if f.name == "ClassName" { Some("temp-dialogue".to_string()) } else { None }).collect();
    let fs = optimize_node_filters(&n, true, &dynamic);
    let class = fs.iter().find(|f| f.name == "ClassName").unwrap();
    assert_eq!(class.operator, Operator::StartsWith);
    assert_eq!(class.value, "temp-dialogue");
    assert!(class.enabled);
    let short: Vec<Option<String>> =
        n.filters.iter().map(|f| if f.name == "ClassName" { Some("tmp".to_string()) } else { None }).collect();
    let fs = optimize_node_filters(&n, true, &short);
    assert!(!fs.iter().find(|f| f.name == "ClassName").unwrap().enabled);
}

#[test]
fn long_names_are_dropped_by_role() {
    let name25 = "abcdefghijklmnopqrstuvwxy";
    let n = node("Text", "", "", name25);
    let none: Vec<Option<String>> = n.filters.iter().map(|_| None).collect();
    let as_target = optimize_node_filters(&n, true, &none);
    let as_parent = optimize_node_filters(&n, false, &none);
    assert!(as_target.iter().find(|f| f.name == "Name").unwrap().enabled);
    assert!(!as_parent.iter().find(|f| f.name == "Name").unwrap().enabled);
}

#[test]
fn minimal_optimisation_keeps_only_the_target() {
    let mut h = web_hierarchy();
    h[2] = HierarchyNode::new("Group", "", "btn-class", "新建对话", 2, ElementRect::default(), 0);
    h[2].is_target = true;
    let opt = XPathOptimizer::new();
    let r = opt.apply_minimal_optimization_to_hierarchy(&h, "//Group", 2);
    let included: Vec<bool> = r.iter().map(|n| n.included).collect();
    assert_eq!(included, vec![false, false, true]);
    let on: Vec<&str> = r[2].filters.iter().filter(|f| f.enabled).map(|f| f.name.as_str()).collect();
    assert_eq!(on, vec!["AutomationId", "ClassName"]);
    // the target had ClassName, Name and Index enabled; it keeps two filters
    assert_eq!(opt.count_removed_attrs_for_minimal(&h, &r), 1);
    assert_eq!(opt.count_removed_attrs_for_minimal(&r, &h), 0);
}

#[test]
fn removed_attribute_count() {
    let opt = XPathOptimizer::new();
    let h = vec![
        node("Pane", "", "a_very_long_dynamic_class_name_with_hash_9f8e7d", ""),
        node("Document", "RootWebArea", "", ""),
        node("Button", "", "Button", "OK"),
    ];
    assert_eq!(opt.count_removed_attrs(&h), 2);
}
