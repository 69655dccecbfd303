use element_selector::geometry::SimpleRect;
use element_selector::matching::{
    attribute_filter_passes, element_matches_node_spec, element_matches_parsed_step, element_matches_reverse_axis,
    filter_findall_results, filter_marked, AttributeFilter, AxisContext, ElementAttributes, ElementProbe, FilterOp,
    FindAllFilter,
};
use element_selector::step::{parse_xpath_step, XPathProperty};

fn attrs(ct: &str, name: &str, aid: &str, class: &str) -> ElementAttributes {
    ElementAttributes {
        control_type: ct.to_string(),
        control_type_id: Some(50000),
        name: name.to_string(),
        automation_id: aid.to_string(),
        class_name: class.to_string(),
        framework_id: "Win32".to_string(),
    }
}

fn no_context() -> AxisContext {
    AxisContext { ancestors: vec![], siblings: None, self_index: None }
}

#[test]
fn node_spec_type_and_props() {
    let a = attrs("Button", "OK", "btnOk", "Btn");
    let props = vec![(XPathProperty::Name, "ok".to_string())];
    assert!(element_matches_node_spec(&a, &Some("button".to_string()), None, &props));
    assert!(!element_matches_node_spec(&a, &Some("Edit".to_string()), None, &props));
    assert!(element_matches_node_spec(&a, &Some("PushButton".to_string()), Some(50000), &props));
    assert!(!element_matches_node_spec(&a, &Some("PushButton".to_string()), Some(50004), &props));
    let wrong = vec![(XPathProperty::AutomationId, "other".to_string())];
    assert!(!element_matches_node_spec(&a, &None, None, &wrong));
    let unknown = vec![(XPathProperty::Other("Foo".to_string()), "".to_string())];
    assert!(element_matches_node_spec(&a, &None, None, &unknown));
}

#[test]
fn parsed_step_predicates() {
    let a = attrs("Button", "Save File", "btnSave", "QtButton");
    let step = parse_xpath_step("//Button[starts-with(@Name, 'save') and contains(@ClassName, 'BUTTON')]");
    assert!(element_matches_parsed_step(&a, &step, None, &no_context(), &vec![]));
    let step = parse_xpath_step("//Button[matches(@AutomationId, '^BTN')]");
    assert!(element_matches_parsed_step(&a, &step, None, &no_context(), &vec![]));
    let step = parse_xpath_step("//Button[matches(@AutomationId, '^x')]");
    assert!(!element_matches_parsed_step(&a, &step, None, &no_context(), &vec![]));
    let step = parse_xpath_step("//Edit");
    assert!(!element_matches_parsed_step(&a, &step, None, &no_context(), &vec![]));
}

#[test]
fn reverse_axes() {
    let me = attrs("Text", "hi", "", "");
    let parent = attrs("Group", "", "grp", "");
    let grand = attrs("Pane", "", "root", "");
    let ctx = AxisContext {
        ancestors: vec![parent.clone(), grand.clone()],
        siblings: Some(vec![attrs("Image", "", "img", ""), me.clone(), attrs("Button", "", "b", "")]),
        self_index: Some(1),
    };
    let step = parse_xpath_step("//Text[parent::Group[@AutomationId='grp']]");
    assert_eq!(step.reverse_axis_predicates.len(), 1);
    let types = vec![None];
    assert!(element_matches_parsed_step(&me, &step, None, &ctx, &types));
    let step = parse_xpath_step("//Text[ancestor::Pane[@AutomationId='root']]");
    assert!(element_matches_parsed_step(&me, &step, None, &ctx, &types));
    let step = parse_xpath_step("//Text[parent::Pane[@AutomationId='root']]");
    assert!(!element_matches_parsed_step(&me, &step, None, &ctx, &types));
    let step = parse_xpath_step("//Text[preceding-sibling::Image]");
    assert!(element_matches_reverse_axis(&me, &ctx, &step.reverse_axis_predicates[0], None));
    let step = parse_xpath_step("//Text[preceding-sibling::Button]");
    assert!(!element_matches_reverse_axis(&me, &ctx, &step.reverse_axis_predicates[0], None));
    let step = parse_xpath_step("//Text[ancestor-or-self::Text]");
    assert!(element_matches_reverse_axis(&me, &ctx, &step.reverse_axis_predicates[0], None));
    let lost = AxisContext { ancestors: vec![], siblings: None, self_index: None };
    let step = parse_xpath_step("//Text[parent::Group]");
    assert!(!element_matches_reverse_axis(&me, &lost, &step.reverse_axis_predicates[0], None));
}

#[test]
fn attribute_filters() {
    let a = attrs("Button", "Hello World", "", "Btn");
    let f = |p: &str, op: FilterOp, v: &str| AttributeFilter { property: p.to_string(), operator: op, value: v.to_string() };
    assert!(attribute_filter_passes(&a, &f("Name", FilterOp::Eq, "hello world")));
    assert!(attribute_filter_passes(&a, &f("Name", FilterOp::NotEq, "x")));
    assert!(attribute_filter_passes(&a, &f("Name", FilterOp::Contains, "WORLD")));
    assert!(attribute_filter_passes(&a, &f("Name", FilterOp::Regex, "^hello")));
    assert!(!attribute_filter_passes(&a, &f("Name", FilterOp::Regex, "")));
    assert!(!attribute_filter_passes(&a, &f("Name", FilterOp::Regex, "(")));
    assert!(attribute_filter_passes(&a, &f("ClassName", FilterOp::Exists, "")));
    assert!(!attribute_filter_passes(&a, &f("AutomationId", FilterOp::Exists, "")));
    assert!(!attribute_filter_passes(&a, &f("Bogus", FilterOp::Exists, "")));
}

#[test]
fn findall_filter() {
    let probe = |off: Option<bool>, r: Option<SimpleRect>, name: &str| ElementProbe {
        is_offscreen: off,
        rect: r,
        attributes: attrs("Text", name, "", ""),
    };
    let rect = |l, t, r, b| SimpleRect { left: l, top: t, right: r, bottom: b };
    let items = vec![10, 20, 30, 40, 50];
    let probes = vec![
        probe(Some(true), Some(rect(0, 0, 10, 10)), "a"),
        probe(Some(false), Some(rect(0, 0, 0, 10)), "b"),
        probe(Some(false), Some(rect(500, 500, 600, 600)), "c"),
        probe(None, None, "d"),
        probe(Some(false), Some(rect(10, 10, 20, 20)), "e"),
    ];
    let window = Some(rect(0, 0, 100, 100));
    let all = FindAllFilter {
        exclude_offscreen: true,
        exclude_zero_size: true,
        exclude_out_of_bounds: true,
        attribute_filters: vec![],
    };
    assert_eq!(filter_findall_results(items.clone(), &probes, window, &all), vec![40, 50]);
    let none = FindAllFilter::default();
    assert!(none.is_all_disabled());
    assert_eq!(filter_findall_results(items.clone(), &probes, window, &none), items);
    let by_name = FindAllFilter {
        exclude_offscreen: false,
        exclude_zero_size: false,
        exclude_out_of_bounds: false,
        attribute_filters: vec![AttributeFilter { property: "Name".to_string(), operator: FilterOp::Eq, value: "C".to_string() }],
    };
    assert_eq!(filter_findall_results(items.clone(), &probes, window, &by_name), vec![30]);
}

#[test]
fn marked_items_keep_order() {
    assert_eq!(filter_marked(vec!["a", "b", "c", "d"], &vec![true, false, true, true]), vec!["a", "c", "d"]);
    assert_eq!(filter_marked(Vec::<u8>::new(), &vec![]), Vec::<u8>::new());
}
