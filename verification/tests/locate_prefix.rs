use element_selector::query::{
    apply_positional_and_search_mode, apply_search_mode, parse_positional_predicate, LocateMode, SearchMode,
};

#[test]
fn test_strip_prefix_new_format_classname() {
    let (mode, hint, rest) = LocateMode::strip_xpath_prefix("[fast-child @ClassName='Chrome_WidgetWin_0']/Document/Text");
    assert_eq!(mode, Some(LocateMode::FastChild));
    assert!(hint.is_some());
    let h = hint.unwrap();
    assert_eq!(h.hwnd_class, "Chrome_WidgetWin_0");
    assert_eq!(h.hwnd_title, "");
    assert_eq!(rest, "/Document/Text");
}

#[test]
fn test_strip_prefix_new_format_name() {
    let (mode, hint, rest) = LocateMode::strip_xpath_prefix("[fast-child @Name='hello']/Text");
    assert_eq!(mode, Some(LocateMode::FastChild));
    assert!(hint.is_some());
    let h = hint.unwrap();
    assert_eq!(h.hwnd_class, "");
    assert_eq!(h.hwnd_title, "hello");
    assert_eq!(rest, "/Text");
}

#[test]
fn test_strip_prefix_new_format_no_attrs() {
    let (mode, hint, rest) = LocateMode::strip_xpath_prefix("[fast-child]/Pane/Document/Text");
    assert_eq!(mode, Some(LocateMode::FastChild));
    assert!(hint.is_none());
    assert_eq!(rest, "/Pane/Document/Text");
}

#[test]
fn test_strip_prefix_new_format_full_child() {
    let (mode, hint, rest) = LocateMode::strip_xpath_prefix("[full-child @ClassName='Chrome_WidgetWin_1']/Text");
    assert_eq!(mode, Some(LocateMode::FullChild));
    assert!(hint.is_some());
    assert_eq!(hint.unwrap().hwnd_class, "Chrome_WidgetWin_1");
    assert_eq!(rest, "/Text");
}

#[test]
fn test_strip_prefix_fast_no_attrs() {
    let (mode, hint, rest) = LocateMode::strip_xpath_prefix("[fast]/Group/Button");
    assert_eq!(mode, Some(LocateMode::Fast));
    assert!(hint.is_none());
    assert_eq!(rest, "/Group/Button");
}

// ─── further cases ───

#[test]
fn no_prefix_or_unknown_mode_keeps_xpath() {
    let (mode, hint, rest) = LocateMode::strip_xpath_prefix("//Button");
    assert_eq!(mode, None);
    assert!(hint.is_none());
    assert_eq!(rest, "//Button");
    let (mode, _, rest) = LocateMode::strip_xpath_prefix("[slow]/Button");
    assert_eq!(mode, None);
    assert_eq!(rest, "[slow]/Button");
    let (mode, _, rest) = LocateMode::strip_xpath_prefix("[full/Button");
    assert_eq!(mode, None);
    assert_eq!(rest, "[full/Button");
}

#[test]
fn prefix_with_both_attributes() {
    let (mode, hint, rest) = LocateMode::strip_xpath_prefix("[full-child @ClassName='C' @Name='T']//Text");
    assert_eq!(mode, Some(LocateMode::FullChild));
    let h = hint.unwrap();
    assert_eq!(h.hwnd_class, "C");
    assert_eq!(h.hwnd_title, "T");
    assert_eq!(rest, "//Text");
    assert!(LocateMode::FullChild.is_child_mode());
    assert!(!LocateMode::Full.is_child_mode());
}

#[test]
fn search_mode_suffixes() {
    assert_eq!(SearchMode::strip_suffix("//Button:first"), (SearchMode::First, "//Button".to_string()));
    assert_eq!(SearchMode::strip_suffix("//Button:onlyone"), (SearchMode::OnlyOne, "//Button".to_string()));
    assert_eq!(SearchMode::strip_suffix("//Button:all"), (SearchMode::All, "//Button".to_string()));
    assert_eq!(SearchMode::strip_suffix("//Button"), (SearchMode::All, "//Button".to_string()));
}

#[test]
fn positional_predicates() {
    assert_eq!(parse_positional_predicate("[2]"), Some(2));
    assert_eq!(parse_positional_predicate("  [10] "), Some(10));
    assert_eq!(parse_positional_predicate("[+3]"), Some(3));
    assert_eq!(parse_positional_predicate("[]"), None);
    assert_eq!(parse_positional_predicate("[x]"), None);
    assert_eq!(parse_positional_predicate("2"), None);
    assert_eq!(parse_positional_predicate("[99999999999999999999999]"), None);
}

#[test]
fn search_modes_select() {
    assert_eq!(apply_search_mode(vec![1, 2, 3], SearchMode::All), vec![1, 2, 3]);
    assert_eq!(apply_search_mode(vec![1, 2, 3], SearchMode::First), vec![1]);
    assert_eq!(apply_search_mode(vec![1, 2, 3], SearchMode::OnlyOne), Vec::<i32>::new());
    assert_eq!(apply_search_mode(vec![7], SearchMode::OnlyOne), vec![7]);
    assert_eq!(apply_positional_and_search_mode(vec![1, 2, 3], Some(2), SearchMode::All), vec![2]);
    assert_eq!(apply_positional_and_search_mode(vec![1, 2, 3], Some(4), SearchMode::All), Vec::<i32>::new());
    assert_eq!(apply_positional_and_search_mode(vec![1, 2, 3], Some(0), SearchMode::All), Vec::<i32>::new());
    assert_eq!(apply_positional_and_search_mode(vec![1, 2, 3], None, SearchMode::First), vec![1]);
}
