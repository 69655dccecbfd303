use element_selector::geometry::{compute_visibility, visibility_error, visibility_no_rect, visibility_not_found};
use element_selector::model::{OverflowInfo, Rect};

fn rect(x: i32, y: i32, w: i32, h: i32) -> Rect {
    Rect { x, y, width: w, height: h }
}

#[test]
fn test_fully_visible() {
    let result = compute_visibility(&rect(10, 10, 50, 50), &rect(0, 0, 800, 600), None, None);
    assert_eq!(result.visibility, "fully_visible");
    assert_eq!(result.position, "inside");
    assert!(result.scroll_direction.is_none());
    assert!(result.visible_rect.is_some());
}

#[test]
fn test_partially_visible_below() {
    let result = compute_visibility(&rect(10, 590, 50, 50), &rect(0, 0, 800, 600), None, None);
    assert_eq!(result.visibility, "partially_visible");
    assert_eq!(result.position, "below");
    assert_eq!(result.scroll_direction.as_deref(), Some("up"));
}

#[test]
fn test_partially_visible_above() {
    let result = compute_visibility(&rect(10, -10, 50, 50), &rect(0, 0, 800, 600), None, None);
    assert_eq!(result.visibility, "partially_visible");
    assert_eq!(result.position, "above");
    assert_eq!(result.scroll_direction.as_deref(), Some("down"));
}

#[test]
fn test_offscreen_both_directions() {
    let result = compute_visibility(&rect(-100, -100, 50, 50), &rect(0, 0, 800, 600), None, None);
    assert_eq!(result.visibility, "partially_visible");
}

#[test]
fn test_no_overlap_bottom_right() {
    let result = compute_visibility(&rect(800, 600, 50, 50), &rect(0, 0, 800, 600), None, None);
    assert_eq!(result.visibility, "partially_visible");
}

#[test]
fn test_with_container_clip() {
    let container = rect(100, 100, 200, 200);
    let result = compute_visibility(&rect(150, 150, 100, 100), &rect(0, 0, 800, 600), Some(&container), None);
    assert_eq!(result.visibility, "fully_visible");
}

// ─── further cases ───

#[test]
fn taller_than_viewport_is_offscreen() {
    let result = compute_visibility(&rect(10, -20, 50, 700), &rect(0, 0, 800, 600), None, Some(false));
    assert_eq!(result.visibility, "offscreen");
    assert_eq!(result.overflow, Some(OverflowInfo { top: 20, bottom: 80, left: 0, right: 0 }));
    assert_eq!(result.position, "below");
    assert_eq!(result.scroll_direction.as_deref(), Some("up"));
    assert_eq!(result.is_offscreen, Some(false));
}

#[test]
fn overflow_to_the_left_and_right() {
    let left = compute_visibility(&rect(-30, 10, 50, 50), &rect(0, 0, 800, 600), None, None);
    assert_eq!(left.position, "left");
    assert_eq!(left.scroll_direction.as_deref(), Some("right"));
    let right = compute_visibility(&rect(780, 10, 50, 50), &rect(0, 0, 800, 600), None, None);
    assert_eq!(right.position, "right");
    assert_eq!(right.scroll_direction.as_deref(), Some("left"));
}

#[test]
fn visible_rect_is_the_clipped_part() {
    let container = rect(100, 100, 200, 200);
    let result = compute_visibility(&rect(250, 250, 100, 100), &rect(0, 0, 800, 600), Some(&container), None);
    assert_eq!(result.visible_rect, Some(rect(250, 250, 50, 50)));
    let outside = compute_visibility(&rect(400, 400, 10, 10), &rect(0, 0, 800, 600), Some(&container), None);
    assert_eq!(outside.visible_rect, None);
}

#[test]
fn fallback_responses() {
    let nf = visibility_not_found("元素未找到");
    assert!(!nf.found);
    assert_eq!(nf.visibility, "not_found");
    assert_eq!(nf.error.as_deref(), Some("元素未找到"));
    let err = visibility_error("boom");
    assert_eq!(err.visibility, "error");
    assert_eq!(err.position, "unknown");
    let off = visibility_no_rect(Some(true), None, "x");
    assert_eq!(off.visibility, "offscreen");
    assert!(off.found);
    let vis = visibility_no_rect(None, Some(rect(1, 2, 3, 4)), "y");
    assert_eq!(vis.visibility, "visible");
    assert_eq!(vis.element_rect, Some(rect(1, 2, 3, 4)));
}

#[test]
fn visible_part_lies_inside_element_viewport_and_container() {
    let e = rect(50, 50, 300, 300);
    let vp = rect(0, 0, 200, 250);
    let c = rect(20, 20, 400, 100);
    let r = compute_visibility(&e, &vp, Some(&c), None);
    let v = r.visible_rect.expect("overlap");
    for outer in [e, vp, c] {
        assert!(outer.x <= v.x && outer.y <= v.y);
        assert!(v.x + v.width <= outer.x + outer.width && v.y + v.height <= outer.y + outer.height);
    }
    assert_eq!((v.x, v.y, v.width, v.height), (50, 50, 150, 70));
}

#[test]
fn fully_visible_exactly_inside_viewport() {
    let vp = rect(0, 0, 800, 600);
    let inside = compute_visibility(&rect(0, 0, 800, 600), &vp, None, None);
    assert_eq!(inside.visibility, "fully_visible");
    assert!(inside.scroll_direction.is_none());
    let out = compute_visibility(&rect(0, 0, 801, 600), &vp, None, None);
    assert_ne!(out.visibility, "fully_visible");
    assert!(out.scroll_direction.is_some());
}
