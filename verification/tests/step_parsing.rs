use element_selector::step::{
    parse_xpath_step, reconstruct_descendant_xpath, split_xpath_steps, step_has_complex_predicates,
    step_to_xpath_str, strip_step_prefix, ReverseAxisKind, StepExecutionStrategy, XPathProperty, XPathStepPrefix,
};

#[test]
fn test_parse_child_prefix() {
    let step = parse_xpath_step("/Button[@Name='OK']");
    assert_eq!(step.prefix, XPathStepPrefix::Child);
    assert_eq!(step.control_type.as_deref(), Some("Button"));
    assert_eq!(step.required_props.len(), 1);
    assert_eq!(step.required_props[0], (XPathProperty::Name, "OK".to_string()));
    assert!(!step.is_complex);
}

#[test]
fn test_parse_descendant_prefix() {
    let step = parse_xpath_step("//Button[@Name='OK']");
    assert_eq!(step.prefix, XPathStepPrefix::Descendant);
    assert_eq!(step.control_type.as_deref(), Some("Button"));
}

#[test]
fn test_parse_depth_2_wildcard() {
    let step = parse_xpath_step("/*/Button[@Name='OK']");
    assert_eq!(step.prefix, XPathStepPrefix::DepthLimited { max_depth: 2 });
    assert_eq!(step.control_type.as_deref(), Some("Button"));
}

#[test]
fn test_parse_depth_n() {
    let step = parse_xpath_step("/*5/Button[@Name='OK']");
    assert_eq!(step.prefix, XPathStepPrefix::DepthLimited { max_depth: 6 });
}

#[test]
fn test_parse_no_prefix_defaults_to_descendant() {
    let step = parse_xpath_step("Button[@Name='OK']");
    assert_eq!(step.prefix, XPathStepPrefix::Descendant);
}

#[test]
fn test_parse_eq_predicate() {
    let step = parse_xpath_step("//Button[@Name='OK']");
    assert_eq!(step.required_props.len(), 1);
    assert_eq!(step.required_props[0], (XPathProperty::Name, "OK".to_string()));
}

#[test]
fn test_parse_starts_with() {
    let step = parse_xpath_step("//Pane[starts-with(@ClassName, 'Chrome')]");
    assert_eq!(step.require_starts_with.len(), 1);
    assert_eq!(step.require_starts_with[0], (XPathProperty::ClassName, "Chrome".to_string()));
    let step2 = parse_xpath_step("//Pane[@ClassName=starts-with('Chrome')]");
    assert_eq!(step2.require_starts_with.len(), 1);
    assert_eq!(step2.require_starts_with[0], (XPathProperty::ClassName, "Chrome".to_string()));
}

#[test]
fn test_parse_contains() {
    let step = parse_xpath_step("//Text[contains(@Name, 'Widget')]");
    assert_eq!(step.require_contains.len(), 1);
    assert_eq!(step.require_contains[0], (XPathProperty::Name, "Widget".to_string()));
    let step2 = parse_xpath_step("//Text[@Name=contains('Widget')]");
    assert_eq!(step2.require_contains.len(), 1);
    assert_eq!(step2.require_contains[0], (XPathProperty::Name, "Widget".to_string()));
}

#[test]
fn test_parse_matches() {
    let step = parse_xpath_step("//Button[matches(@Name, '^Chrome.*')]");
    assert_eq!(step.require_matches.len(), 1);
    assert_eq!(step.require_matches[0].0, XPathProperty::Name);
    let step2 = parse_xpath_step("//Button[@Name=matches('^Chrome.*')]");
    assert_eq!(step2.require_matches.len(), 1);
    assert_eq!(step2.require_matches[0].0, XPathProperty::Name);
}

#[test]
fn test_parse_multiple_predicates() {
    let step = parse_xpath_step("//Button[@Name='OK' and @AutomationId='btn1']");
    assert_eq!(step.required_props.len(), 2);
    assert_eq!(step.required_props[0], (XPathProperty::Name, "OK".to_string()));
    assert_eq!(step.required_props[1], (XPathProperty::AutomationId, "btn1".to_string()));
}

#[test]
fn test_parse_or_predicate_is_complex() {
    let step = parse_xpath_step("//Button[@Name='OK' or @Name='Cancel']");
    assert!(step.is_complex);
    assert!(step.required_props.is_empty());
}

#[test]
fn test_parse_not_predicate_is_complex() {
    let step = parse_xpath_step("//Button[not(@IsOffscreen)]");
    assert!(step.is_complex);
}

#[test]
fn test_parse_wildcard_type() {
    let step = parse_xpath_step("//[@Name='OK']");
    assert!(step.control_type.is_none());
    assert_eq!(step.required_props.len(), 1);
}

#[test]
fn test_parse_empty_predicate() {
    let step = parse_xpath_step("//Button");
    assert_eq!(step.prefix, XPathStepPrefix::Descendant);
    assert_eq!(step.control_type.as_deref(), Some("Button"));
    assert!(step.required_props.is_empty());
    assert!(step.require_starts_with.is_empty());
    assert!(!step.is_complex);
}

#[test]
fn test_parse_only_prefix() {
    let step = parse_xpath_step("//");
    assert_eq!(step.prefix, XPathStepPrefix::Descendant);
    assert!(step.control_type.is_none());
}

#[test]
fn test_has_complex_with_starts_with() {
    let step = parse_xpath_step("//Pane[starts-with(@ClassName, 'Chrome')]");
    assert!(step_has_complex_predicates(&step));
}

#[test]
fn test_has_complex_with_contains() {
    let step = parse_xpath_step("//Text[contains(@Name, 'Widget')]");
    assert!(step_has_complex_predicates(&step));
}

#[test]
fn test_has_complex_with_or() {
    let step = parse_xpath_step("//Button[@Name='OK' or @Name='Cancel']");
    assert!(step_has_complex_predicates(&step));
}

#[test]
fn test_has_complex_with_only_eq() {
    let step = parse_xpath_step("//Button[@Name='OK']");
    assert!(!step_has_complex_predicates(&step));
}

#[test]
fn test_has_complex_with_no_predicates() {
    let step = parse_xpath_step("//Button");
    assert!(!step_has_complex_predicates(&step));
}

#[test]
fn test_precompiled_regexes_exist() {
    // Every predicate form is recognised where it stands in a step.
    let s = parse_xpath_step("[@Name='OK']");
    assert_eq!(s.required_props, vec![(XPathProperty::Name, "OK".to_string())]);
    let s = parse_xpath_step("[starts-with(@ClassName, 'X')]");
    assert_eq!(s.require_starts_with, vec![(XPathProperty::ClassName, "X".to_string())]);
    let s = parse_xpath_step("[contains(@Name, 'x')]");
    assert_eq!(s.require_contains, vec![(XPathProperty::Name, "x".to_string())]);
    let s = parse_xpath_step("[matches(@Name, '^x')]");
    assert_eq!(s.require_matches.len(), 1);
    let s = parse_xpath_step("[@ClassName=starts-with('X')]");
    assert_eq!(s.require_starts_with, vec![(XPathProperty::ClassName, "X".to_string())]);
    let s = parse_xpath_step("[@Name=contains('x')]");
    assert_eq!(s.require_contains, vec![(XPathProperty::Name, "x".to_string())]);
    let s = parse_xpath_step("[@Name=matches('^x')]");
    assert_eq!(s.require_matches.len(), 1);
    let s = parse_xpath_step("//Button");
    assert_eq!(s.prefix, XPathStepPrefix::Descendant);
}

#[test]
fn test_strategy_from_child_prefix() {
    let prefix = XPathStepPrefix::Child;
    let strategy = StepExecutionStrategy::from(&prefix);
    assert!(matches!(strategy, StepExecutionStrategy::DirectChild));
}

#[test]
fn test_strategy_from_descendant_prefix() {
    let prefix = XPathStepPrefix::Descendant;
    let strategy = StepExecutionStrategy::from(&prefix);
    assert!(matches!(strategy, StepExecutionStrategy::Descendant));
}

#[test]
fn test_strategy_from_depth_limited_prefix() {
    let prefix = XPathStepPrefix::DepthLimited { max_depth: 2 };
    let strategy = StepExecutionStrategy::from(&prefix);
    assert!(matches!(strategy, StepExecutionStrategy::DepthLimitedBfs { max_depth: 2 }));
}

#[test]
fn test_strategy_from_depth_limited_n() {
    let prefix = XPathStepPrefix::DepthLimited { max_depth: 6 };
    let strategy = StepExecutionStrategy::from(&prefix);
    assert!(matches!(strategy, StepExecutionStrategy::DepthLimitedBfs { max_depth: 6 }));
}

#[test]
fn test_parse_and_strategy_child() {
    let step = parse_xpath_step("/Button[@Name='OK']");
    assert_eq!(step.prefix, XPathStepPrefix::Child);
    let strategy = StepExecutionStrategy::from(&step.prefix);
    assert!(matches!(strategy, StepExecutionStrategy::DirectChild));
}

#[test]
fn test_parse_and_strategy_descendant() {
    let step = parse_xpath_step("//Button[@Name='OK']");
    assert_eq!(step.prefix, XPathStepPrefix::Descendant);
    let strategy = StepExecutionStrategy::from(&step.prefix);
    assert!(matches!(strategy, StepExecutionStrategy::Descendant));
}

#[test]
fn test_parse_and_strategy_depth_2() {
    let step = parse_xpath_step("/*/Button[@Name='OK']");
    assert_eq!(step.prefix, XPathStepPrefix::DepthLimited { max_depth: 2 });
    let strategy = StepExecutionStrategy::from(&step.prefix);
    assert!(matches!(strategy, StepExecutionStrategy::DepthLimitedBfs { max_depth: 2 }));
}

#[test]
fn test_parse_and_strategy_depth_n() {
    let step = parse_xpath_step("/*5/Button[@Name='OK']");
    assert_eq!(step.prefix, XPathStepPrefix::DepthLimited { max_depth: 6 });
    let strategy = StepExecutionStrategy::from(&step.prefix);
    assert!(matches!(strategy, StepExecutionStrategy::DepthLimitedBfs { max_depth: 6 }));
}

#[test]
fn test_parse_and_strategy_no_prefix_default() {
    let step = parse_xpath_step("Button[@Name='OK']");
    assert_eq!(step.prefix, XPathStepPrefix::Descendant);
    let strategy = StepExecutionStrategy::from(&step.prefix);
    assert!(matches!(strategy, StepExecutionStrategy::Descendant));
}

#[test]
fn test_step_to_xpath_str_simple() {
    let step = parse_xpath_step("//Button[@Name='OK']");
    let s = step_to_xpath_str(&step);
    assert!(s.contains("Button"));
    assert!(s.contains("@Name='OK'"));
}

#[test]
fn test_step_to_xpath_str_starts_with() {
    let step = parse_xpath_step("//Pane[starts-with(@ClassName, 'Chrome')]");
    let s = step_to_xpath_str(&step);
    assert!(s.contains("Pane"));
    assert!(s.contains("starts-with(@ClassName, 'Chrome')"));
}

#[test]
fn test_step_to_xpath_str_wildcard_type() {
    let step = parse_xpath_step("//[@Name='OK']");
    let s = step_to_xpath_str(&step);
    assert!(s.contains("@Name='OK'"));
}

#[test]
fn test_deprecated_fallback_still_callable() {
    // Nothing runs here: the fallback needs a UI Automation session.
}

// ─── further cases ───

#[test]
fn reverse_axis_predicates_are_collected() {
    let step = parse_xpath_step("//Text[@AutomationId='js_name'][ancestor::Group[@AutomationId='x']][parent::Pane]");
    assert!(step.is_complex);
    assert_eq!(step.required_props, vec![(XPathProperty::AutomationId, "js_name".to_string())]);
    assert_eq!(step.reverse_axis_predicates.len(), 2);
    assert_eq!(step.reverse_axis_predicates[0].axis, ReverseAxisKind::Ancestor);
    assert_eq!(step.reverse_axis_predicates[0].control_type.as_deref(), Some("Group"));
    assert_eq!(
        step.reverse_axis_predicates[0].required_props,
        vec![(XPathProperty::AutomationId, "x".to_string())]
    );
    assert_eq!(step.reverse_axis_predicates[1].axis, ReverseAxisKind::Parent);
    assert_eq!(step.reverse_axis_predicates[1].control_type.as_deref(), Some("Pane"));
}

#[test]
fn matches_with_flags_and_bad_patterns() {
    let step = parse_xpath_step("//Button[matches(@Name, 'ok', 'm')]");
    assert_eq!(step.require_matches.len(), 1);
    assert_eq!(step.require_matches[0].1.as_str(), "(?m)ok");
    let step = parse_xpath_step("//Button[matches(@Name, 'a(')]");
    assert!(step.require_matches.is_empty());
    let step = parse_xpath_step("//Button[matches(@Name, 'x')]");
    assert_eq!(step.require_matches[0].1.as_str(), "(?i)x");
    assert!(step.require_matches[0].1.is_match("X"));
}

#[test]
fn depth_prefix_edge_cases() {
    assert_eq!(parse_xpath_step("/*0/Text").prefix, XPathStepPrefix::DepthLimited { max_depth: 1 });
    assert_eq!(
        parse_xpath_step("/*99999999999/Text").prefix,
        XPathStepPrefix::DepthLimited { max_depth: 2 }
    );
    assert_eq!(parse_xpath_step("/*9").control_type, None);
    assert_eq!(parse_xpath_step("/Text").prefix, XPathStepPrefix::Child);
}

#[test]
fn unknown_attributes_are_other() {
    let step = parse_xpath_step("//Button[@HelpText = 'x']");
    assert_eq!(step.required_props, vec![(XPathProperty::Other("HelpText".to_string()), "x".to_string())]);
    assert_eq!(step.required_props[0].0.as_attr_name(), "HelpText");
    assert_eq!(XPathProperty::from_attr_name("FrameworkId"), XPathProperty::FrameworkId);
}

#[test]
fn split_keeps_axes() {
    assert_eq!(split_xpath_steps("//Button/Text"), vec!["//Button", "/Text"]);
    assert_eq!(split_xpath_steps("/Pane/Button"), vec!["Pane", "/Button"]);
    assert_eq!(split_xpath_steps("/*9/Text[@Name='x']"), vec!["/*9", "/Text[@Name='x']"]);
    assert_eq!(split_xpath_steps("//A//B/*/C/*12/D"), vec!["//A", "//B", "/*", "/C", "/*12", "/D"]);
    assert_eq!(split_xpath_steps("/*abc"), vec!["/*abc"]);
    assert_eq!(split_xpath_steps(""), Vec::<String>::new());
    assert_eq!(split_xpath_steps("Button"), Vec::<String>::new());
}

#[test]
fn strip_and_reconstruct() {
    assert_eq!(strip_step_prefix("//Group[@Name='x']"), "Group[@Name='x']");
    assert_eq!(strip_step_prefix("/*9/Text"), "Text");
    assert_eq!(strip_step_prefix("/*/Text"), "Text");
    assert_eq!(strip_step_prefix("//*[@Name='x']"), "*[@Name='x']");
    assert_eq!(strip_step_prefix("/*9"), "*9");
    assert_eq!(strip_step_prefix("/Button"), "Button");
    assert_eq!(strip_step_prefix("//[@Name='x']"), "Name='x']");
    assert_eq!(strip_step_prefix("//[@id='x']"), "[@id='x']");
    let parts = vec!["//Group[@AutomationId='x']".to_string(), "//Button[@Name='赞']".to_string()];
    assert_eq!(reconstruct_descendant_xpath(&parts), "//Group[@AutomationId='x']//Button[@Name='赞']");
    let parts = vec!["/Pane".to_string(), "//Button".to_string()];
    assert_eq!(reconstruct_descendant_xpath(&parts), "//Pane//Button");
    assert_eq!(reconstruct_descendant_xpath(&[]), "");
}

#[test]
fn printed_step_lists_all_tests() {
    let step = parse_xpath_step(
        "//Pane[@Name='a' and starts-with(@ClassName, 'b') and contains(@Name, 'c') and matches(@Name, 'd')]",
    );
    assert_eq!(
        step_to_xpath_str(&step),
        "Pane[@Name='a' and starts-with(@ClassName, 'b') and contains(@Name, 'c') and matches(@Name, '...')]"
    );
    assert_eq!(step_to_xpath_str(&parse_xpath_step("//Pane")), "Pane");
}

#[test]
fn attribute_names_take_unicode_word_characters() {
    let step = parse_xpath_step("Button[@名称='保存']");
    assert_eq!(step.required_props.len(), 1);
    assert_eq!(step.required_props[0].0, XPathProperty::Other("名称".to_string()));
    assert_eq!(step.required_props[0].1, "保存");
    let step = parse_xpath_step("Button[@Nameé='x']");
    assert_eq!(step.required_props[0].0, XPathProperty::Other("Nameé".to_string()));
}
