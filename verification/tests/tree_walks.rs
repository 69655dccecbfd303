use element_selector::tree::{
    check_transition_node, classify_window_child, count_siblings, sibling_index, ContainerCheck, TransitionCheck,
};

const BUTTON: i32 = 50000;
const TEXT: i32 = 50020;

fn aids(v: &[&str]) -> Vec<String> {
    v.iter().map(|s| s.to_string()).collect()
}

#[test]
fn position_among_same_type_siblings() {
    let types = vec![Some(TEXT), Some(BUTTON), Some(TEXT), Some(BUTTON)];
    let ids = aids(&["t1", "b1", "t2", "b2"]);
    assert_eq!(sibling_index(&types, &ids, BUTTON, "b2"), Some(2));
    assert_eq!(sibling_index(&types, &ids, BUTTON, "b1"), Some(1));
    assert_eq!(sibling_index(&types, &ids, TEXT, "t2"), Some(2));
    assert_eq!(sibling_index(&types, &ids, BUTTON, "zz"), None);
    let broken = vec![Some(TEXT), None, Some(BUTTON)];
    assert_eq!(sibling_index(&broken, &aids(&["t", "x", "b"]), BUTTON, "b"), None);
    assert_eq!(sibling_index(&broken, &aids(&["t", "x", "b"]), TEXT, "t"), Some(1));
}

#[test]
fn same_type_sibling_counts() {
    let types = vec![Some(TEXT), Some(BUTTON), Some(TEXT), Some(BUTTON), Some(BUTTON)];
    assert_eq!(count_siblings(&types, BUTTON), Some(3));
    assert_eq!(count_siblings(&types, TEXT), Some(2));
    assert_eq!(count_siblings(&vec![], TEXT), Some(0));
    assert_eq!(count_siblings(&vec![Some(TEXT), None], TEXT), None);
}

#[test]
fn window_children_classified() {
    assert_eq!(classify_window_child("Button", "Btn", "Win32", "Win32"), ContainerCheck::Skip);
    assert_eq!(classify_window_child("Pane", "MMUIRenderSubWindowHW", "", "Win32"), ContainerCheck::Skip);
    assert_eq!(classify_window_child("Pane", "Chrome_WidgetWin_1", "Win32", "Win32"), ContainerCheck::Take);
    assert_eq!(classify_window_child("Group", "X", "WPF", "Win32"), ContainerCheck::Take);
    assert_eq!(classify_window_child("Pane", "X", "Win32", "Win32"), ContainerCheck::Probe { candidate: true });
    assert_eq!(classify_window_child("Window", "X", "", "Win32"), ContainerCheck::Probe { candidate: false });
}

#[test]
fn framework_transition_steps() {
    assert_eq!(check_transition_node(151, 0, 5, "Pane", "", ""), TransitionCheck::GiveUp);
    assert_eq!(check_transition_node(1, 6, 5, "Pane", "", ""), TransitionCheck::Skip);
    assert_eq!(check_transition_node(1, 3, 5, "Button", "Chrome", "Win32"), TransitionCheck::Skip);
    assert_eq!(check_transition_node(1, 1, 5, "Button", "Chrome", "Win32"), TransitionCheck::Found);
    assert_eq!(check_transition_node(1, 1, 5, "Pane", "Win32", "Win32"), TransitionCheck::Expand(16));
    assert_eq!(check_transition_node(1, 3, 5, "Document", "", "Win32"), TransitionCheck::Expand(9));
    assert_eq!(check_transition_node(150, 5, 5, "Group", "", "Win32"), TransitionCheck::Leaf);
}
