use element_selector::model::{ElementRect, HierarchyNode, WindowInfo};
use element_selector::xpath::generate;
use element_selector::window::{
    is_listed_window, is_related_process, parse_window_selector, process_name_from_path, window_matches_selector,
};

#[test]
fn selector_values() {
    let s = parse_window_selector("Window[@Name='记事本' and @ClassName='Notepad' and @ProcessName='notepad.exe']");
    assert_eq!(s.name.as_deref(), Some("记事本"));
    assert_eq!(s.class_name.as_deref(), Some("Notepad"));
    assert_eq!(s.process_name.as_deref(), Some("notepad.exe"));
    let s = parse_window_selector("Window[@ClassName='Chrome_WidgetWin_1']");
    assert!(s.name.is_none());
    assert_eq!(s.class_name.as_deref(), Some("Chrome_WidgetWin_1"));
    let s = parse_window_selector("Window");
    assert!(s.name.is_none() && s.class_name.is_none() && s.process_name.is_none());
    let s = parse_window_selector("Window[@Name='open");
    assert!(s.name.is_none());
}

#[test]
fn windows_answer_selectors() {
    let s = parse_window_selector("Window[@Name='A' and @ProcessName='p.exe']");
    assert!(window_matches_selector(&s, "A", "Any", Some("p.exe")));
    assert!(!window_matches_selector(&s, "A", "Any", None));
    assert!(!window_matches_selector(&s, "a", "Any", Some("p.exe")));
    let any = parse_window_selector("Window");
    assert!(window_matches_selector(&any, "x", "y", None));
}

#[test]
fn listed_windows() {
    assert!(is_listed_window("Window", "Notepad", "Notepad", 800, 600));
    assert!(!is_listed_window("Button", "OK", "Button", 800, 600));
    assert!(!is_listed_window("Window", "", "Notepad", 800, 600));
    assert!(!is_listed_window("Window", "Tiny", "Notepad", 99, 600));
    assert!(!is_listed_window("Pane", "Desktop", "Progman", 1920, 1080));
    assert!(!is_listed_window("Pane", "Taskbar", "Shell_TrayWnd", 1920, 40));
    assert!(!is_listed_window("Pane", "Tips", "TooltipHost", 300, 300));
    assert!(is_listed_window("Pane", "Chrome", "Chrome_WidgetWin_1", 300, 300));
    assert!(!is_listed_window("Pane", "View", "SomeViewPanel", 300, 300));
    assert!(!is_listed_window("Window", "x", "Windows.UI.Core.CoreWindow", 300, 300));
}

#[test]
fn related_processes() {
    assert!(is_related_process("WeChatAppEx", "Weixin"));
    assert!(is_related_process("chrome", "Chrome"));
    assert!(is_related_process("msedgewebview2", "msedge"));
    assert!(!is_related_process("", "x"));
    assert!(!is_related_process("notepad", "explorer"));
}

#[test]
fn process_names_from_paths() {
    assert_eq!(process_name_from_path("C:\\Windows\\notepad.exe"), "notepad");
    assert_eq!(process_name_from_path("C:\\tools\\run"), "run");
    assert_eq!(process_name_from_path("app.exe"), "app");
    assert_eq!(process_name_from_path("C:\\dir\\"), "");
}

#[test]
fn generated_selector_reads_back() {
    let nodes = vec![
        HierarchyNode::new("Window", "", "Notepad", "Untitled - Notepad", 0, ElementRect::default(), 42),
        HierarchyNode::new("Edit", "15", "Edit", "", 0, ElementRect::default(), 42),
    ];
    let info = WindowInfo {
        title: "Untitled - Notepad".into(),
        class_name: "Notepad".into(),
        process_id: 42,
        process_name: "notepad.exe".into(),
    };
    let r = generate(&nodes, Some(&info));
    let s = parse_window_selector(&r.window_selector);
    assert_eq!(s.class_name.as_deref(), Some("Notepad"));
    assert_eq!(s.name.as_deref(), Some("Untitled - Notepad"));
    assert_eq!(s.process_name.as_deref(), Some("notepad.exe"));
}
