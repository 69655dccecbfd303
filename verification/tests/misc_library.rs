use element_selector::automation::{AutomationProvider, HighlightData, HighlightPhase, ProviderAction};
use element_selector::capture::{mock, CaptureMode};
use element_selector::error::SelectorError;
use element_selector::query::LocateMode;
use element_selector::model::{ElementRect, Rect};
use element_selector::navigate::{desktop_reached, resolve_child_index};
use element_selector::validation::{NotFoundReason, ValidationResult};
use element_selector::visibility::{get_element_visibility, visibility_computable};

#[test]
fn error_messages() {
    assert_eq!(SelectorError::ComInit("x".into()).message(), "UI Automation 初始化失败: x");
    assert_eq!(SelectorError::AutomationCreate("x".into()).message(), "无法创建 IUIAutomation 实例: x");
    assert_eq!(
        SelectorError::ElementFromPoint { x: -5, y: 7, source: "denied".into() }.message(),
        "ElementFromPoint 失败 (-5,7): denied"
    );
    assert_eq!(
        SelectorError::GetProperty { property: "Name".into(), source: "e".into() }.message(),
        "获取属性失败 [Name]: e"
    );
    assert_eq!(SelectorError::TreeWalk("x".into()).message(), "遍历父节点失败: x");
    assert_eq!(SelectorError::Highlight("x".into()).message(), "高亮窗口创建失败: x");
    assert_eq!(SelectorError::Validation("x".into()).message(), "XPath 校验失败: x");
    assert_eq!(SelectorError::Clipboard("x".into()).message(), "剪贴板操作失败: x");
}

#[test]
fn navigation_indices() {
    assert_eq!(resolve_child_index(0, "child", 1, 3), Ok(1));
    assert_eq!(resolve_child_index(0, "child", -1, 3), Ok(2));
    assert_eq!(
        resolve_child_index(2, "child", -4, 3),
        Err("Step 2 child(-4): index out of range (resolved=-1, count=3)".to_string())
    );
    assert_eq!(
        resolve_child_index(1, "sibling_abs", 5, 0),
        Err("Step 1 sibling_abs(5): index out of range (resolved=5, count=0)".to_string())
    );
    assert_eq!(desktop_reached(0, 2), "Step 0 parent(2): reached Desktop root");
}

#[test]
fn automation_health() {
    assert!(AutomationProvider::is_healthy(true, 100));
    assert!(!AutomationProvider::is_healthy(true, 101));
    assert!(!AutomationProvider::is_healthy(false, 1));
    assert_eq!(AutomationProvider::next_action(true, true, 5), ProviderAction::Reuse);
    assert_eq!(AutomationProvider::next_action(false, true, 5), ProviderAction::Create);
    assert_eq!(AutomationProvider::next_action(true, true, 500), ProviderAction::Create);
}

fn data() -> HighlightData {
    HighlightData {
        x: 1,
        y: 2,
        rect: ElementRect { x: 0, y: 0, width: 5, height: 5 },
        control_type: "Button".into(),
        name: "OK".into(),
        class_name: "Btn".into(),
    }
}

#[test]
fn highlight_phases() {
    assert!(matches!(HighlightPhase::immediate(data()), HighlightPhase::Immediate { x: 1, y: 2, .. }));
    assert!(matches!(HighlightPhase::refined(Some(false), data()), Some(HighlightPhase::Refined { .. })));
    assert!(HighlightPhase::refined(Some(true), data()).is_none());
    assert!(HighlightPhase::refined(None, data()).is_none());
}

#[test]
fn element_visibility_from_verdicts() {
    let found = |r: Option<ElementRect>| ValidationResult::Found { count: 1, first_rect: r, rects: vec![] };
    let er = ElementRect { x: 10, y: 590, width: 50, height: 50 };
    let win = ElementRect { x: 0, y: 0, width: 800, height: 600 };
    let r = get_element_visibility(&found(Some(er)), Some(false), Some(win), None);
    assert!(r.found);
    assert_eq!(r.visibility, "partially_visible");
    assert_eq!(r.position, "below");

    let r = get_element_visibility(&ValidationResult::NotFound { reason: Some(NotFoundReason::ElementGone) }, None, Some(win), None);
    assert!(!r.found);
    assert_eq!(r.error.as_deref(), Some("元素未找到"));
    let r = get_element_visibility(&ValidationResult::Error("boom".into()), None, Some(win), None);
    assert_eq!(r.visibility, "error");
    let r = get_element_visibility(&found(None), Some(true), Some(win), None);
    assert_eq!(r.visibility, "offscreen");
    assert_eq!(r.error.as_deref(), Some("元素坐标获取失败"));
    let r = get_element_visibility(&found(Some(er)), None, None, None);
    assert_eq!(r.error.as_deref(), Some("窗口矩形获取失败"));

    let container = found(Some(ElementRect { x: 100, y: 100, width: 200, height: 200 }));
    let inner = ElementRect { x: 150, y: 150, width: 100, height: 100 };
    let r = get_element_visibility(&found(Some(inner)), None, Some(win), Some(&container));
    assert_eq!(r.visibility, "fully_visible");

    assert!(visibility_computable(&Rect { x: 0, y: 0, width: 1, height: 1 }, &Rect { x: 0, y: 0, width: 1, height: 1 }, None));
    assert!(!visibility_computable(&Rect { x: i32::MAX, y: 0, width: 1, height: 1 }, &Rect { x: 0, y: 0, width: 1, height: 1 }, None));
}

#[test]
fn sample_capture() {
    let r = mock();
    assert_eq!(r.hierarchy.len(), 4);
    let types: Vec<&str> = r.hierarchy.iter().map(|n| n.control_type.as_str()).collect();
    assert_eq!(types, vec!["Window", "Pane", "ToolBar", "Button"]);
    assert!(r.hierarchy.iter().all(|n| n.process_id == 12345));
    assert_eq!(r.hierarchy[3].automation_id, "btnSave");
    assert_eq!(r.hierarchy[3].index, 2);
    assert_eq!((r.cursor_x, r.cursor_y), (160, 48));
    assert!(r.error.is_none());
    let w = r.window_info.expect("window info");
    assert_eq!(w.process_name, "MyApp");
    assert_eq!(w.process_id, 12345);
    assert_eq!(r.capture_mode, CaptureMode::Normal);
    assert_eq!(r.locate_mode, LocateMode::Fast);
}
