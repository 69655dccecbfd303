use element_selector::capture::{SearchContext, SearchRoot};
use element_selector::geometry::{compute_element_visible_rect, rect_edges_fit};
use element_selector::inspect::{shallow_copy, InspectNode};
use element_selector::matching::{attribute_filters_pass, property_value, AttributeFilter, ElementAttributes, FilterOp};
use element_selector::model::{join_strings, Rect};
use element_selector::pattern::CompiledPattern;
use element_selector::query::LocateMode;
use element_selector::select::eq_ignore_ascii_case;
use element_selector::step::XPathProperty;

#[test]
fn element_part_inside_window() {
    let e = Rect { x: 10, y: 10, width: 100, height: 50 };
    let w = Rect { x: 0, y: 0, width: 60, height: 40 };
    assert_eq!(compute_element_visible_rect(&e, Some(&w)), Some(Rect { x: 10, y: 10, width: 50, height: 30 }));
    assert_eq!(compute_element_visible_rect(&e, None), Some(e));
    let far = Rect { x: 500, y: 500, width: 10, height: 10 };
    assert_eq!(compute_element_visible_rect(&far, Some(&w)), None);
    assert!(rect_edges_fit(&e));
    assert!(!rect_edges_fit(&Rect { x: i32::MAX, y: 0, width: 1, height: 1 }));
}

#[test]
fn attribute_reads_and_filters() {
    let a = ElementAttributes {
        control_type: "Edit".into(),
        control_type_id: Some(50004),
        name: "Search".into(),
        automation_id: "q".into(),
        class_name: "TextBox".into(),
        framework_id: "WPF".into(),
    };
    assert_eq!(property_value(&a, &XPathProperty::AutomationId), "q");
    assert_eq!(property_value(&a, &XPathProperty::FrameworkId), "WPF");
    assert_eq!(property_value(&a, &XPathProperty::Other("HelpText".into())), "");
    let f = |p: &str, op: FilterOp, v: &str| AttributeFilter { property: p.into(), operator: op, value: v.into() };
    assert!(attribute_filters_pass(&a, &vec![]));
    assert!(attribute_filters_pass(&a, &vec![f("Name", FilterOp::Eq, "SEARCH"), f("ClassName", FilterOp::Contains, "box")]));
    assert!(!attribute_filters_pass(&a, &vec![f("Name", FilterOp::Eq, "search"), f("AutomationId", FilterOp::NotEq, "q")]));
}

#[test]
fn ascii_case_comparison() {
    assert!(eq_ignore_ascii_case("Chrome", "cHROME"));
    assert!(!eq_ignore_ascii_case("Chrome", "Chrom"));
    assert!(eq_ignore_ascii_case("", ""));
}

#[test]
fn joined_strings() {
    assert_eq!(join_strings(&vec!["a".to_string(), "b".to_string(), "c".to_string()], " and "), "a and b and c");
    assert_eq!(join_strings(&vec![], ","), "");
}

#[test]
fn compiled_patterns() {
    let p = CompiledPattern::compile("^ab+c$").expect("valid");
    assert_eq!(p.as_str(), "^ab+c$");
    assert!(p.is_match("abbbc"));
    assert!(!p.is_match("ac"));
    assert!(CompiledPattern::compile("a(").is_none());
}

#[test]
fn shallow_copies_drop_children() {
    let leaf = InspectNode {
        depth: 1,
        control_type: "Text".into(),
        name: "t".into(),
        class_name: String::new(),
        automation_id: String::new(),
        framework_id: String::new(),
        text_value: None,
        help_text: String::new(),
        item_type: String::new(),
        item_status: String::new(),
        rect: None,
        is_offscreen: false,
        relative_xpath: "/Pane/Text".into(),
        children: vec![],
    };
    let mut root = shallow_copy(&leaf);
    root.depth = 0;
    root.children.push(leaf);
    let copy = shallow_copy(&root);
    assert!(copy.children.is_empty());
    assert_eq!(copy.name, "t");
    assert_eq!(copy.relative_xpath, "/Pane/Text");
}

#[test]
fn default_search_contexts() {
    let f = SearchContext::default_fast();
    assert_eq!(f.locate_mode, LocateMode::Fast);
    assert!(f.child_hwnd_hint.is_none());
    assert!(matches!(f.search_root, SearchRoot::Window));
    let g = SearchContext::default_full();
    assert_eq!(g.locate_mode, LocateMode::Full);
}
