//! The visibility report of an element located by XPath: from the verdict of
//! locating it, the window's rectangle and the verdict of locating an
//! optional scroll container.
use vstd::prelude::*;
use crate::geometry::{
    clip_of, compute_visibility, intersection, opt_str, overflow_of, position_label, scroll_label,
    visibility_error, visibility_inputs_ok, visibility_label, visibility_no_rect, visibility_not_found,
    ElementVisibilityResponse,
};
use crate::model::{ElementRect, Rect};
use crate::validation::ValidationResult;

verus! {

pub open spec fn rect_of(e: ElementRect) -> Rect {
    Rect { x: e.x, y: e.y, width: e.width, height: e.height }
}

fn to_rect(e: ElementRect) -> (r: Rect)
    ensures
        r == rect_of(e),
{
    Rect { x: e.x, y: e.y, width: e.width, height: e.height }
}

/// The container's rectangle: that of the first element its locating found.
pub open spec fn container_rect_of(c: Option<&ValidationResult>) -> Option<Rect> {
    match c {
        Some(v) => match v {
            ValidationResult::Found { first_rect, .. } => match first_rect {
                Some(r) => Some(rect_of(*r)),
                None => None,
            },
            _ => None,
        },
        None => None,
    }
}

/// A report that the element was not found, with a message.
pub open spec fn not_found_report(r: ElementVisibilityResponse, msg: Seq<char>) -> bool {
    &&& !r.found
    &&& r.visibility@ == "not_found"@
    &&& r.position@ == "unknown"@
    &&& r.is_offscreen is None && r.element_rect is None && r.visible_rect is None
    &&& r.viewport_rect is None && r.overflow is None && r.scroll_direction is None
    &&& opt_str(r.error) == Some(msg)
}

/// A report that locating the element failed, with its message.
pub open spec fn error_report(r: ElementVisibilityResponse, msg: Seq<char>) -> bool {
    &&& !r.found
    &&& r.visibility@ == "error"@
    &&& r.position@ == "unknown"@
    &&& r.is_offscreen is None && r.element_rect is None && r.visible_rect is None
    &&& r.viewport_rect is None && r.overflow is None && r.scroll_direction is None
    &&& opt_str(r.error) == Some(msg)
}

/// A report for an element found whose rectangle, or the window's, is unknown.
pub open spec fn no_rect_report(r: ElementVisibilityResponse, off: Option<bool>, rect: Option<Rect>, msg: Seq<char>) -> bool {
    &&& r.found
    &&& r.is_offscreen == off
    &&& r.visibility@ == (if off == Some(true) {
        "offscreen"@
    } else {
        "visible"@
    })
    &&& r.position@ == "unknown"@
    &&& r.element_rect == rect
    &&& r.visible_rect is None && r.viewport_rect is None && r.overflow is None
    &&& r.scroll_direction is None
    &&& opt_str(r.error) == Some(msg)
}

/// The computed report of an element in a viewport and an optional container.
pub open spec fn computed_report(r: ElementVisibilityResponse, e: Rect, vp: Rect, c: Option<Rect>, off: Option<bool>) -> bool {
    &&& r.found
    &&& r.is_offscreen == off
    &&& r.overflow == Some(overflow_of(e, vp))
    &&& r.visibility@ == visibility_label(overflow_of(e, vp))
    &&& r.position@ == position_label(overflow_of(e, vp))
    &&& opt_str(r.scroll_direction) == scroll_label(overflow_of(e, vp))
    &&& r.element_rect == Some(e)
    &&& r.viewport_rect == Some(vp)
    &&& r.visible_rect == intersection(e, clip_of(vp, c))
    &&& r.error is None
}

/// Whether computing the report for these rectangles stays within `i32`.
pub fn visibility_computable(e: &Rect, vp: &Rect, c: Option<&Rect>) -> (b: bool)
    ensures
        b == visibility_inputs_ok(*e, *vp, match c {
            Some(x) => Some(*x),
            None => None,
        }),
{
    let fits = |v: i64| -> (r: bool)
        ensures
            r == crate::geometry::fits_i32(v as int),
        { -2147483648i64 <= v && v <= 2147483647i64 };
    let edges = |r: &Rect| -> (b: bool)
        ensures
            b == crate::geometry::edges_fit(*r),
        {
            -2147483648i64 <= (r.x as i64) + (r.width as i64) && (r.x as i64) + (r.width as i64) <= 2147483647i64
                && -2147483648i64 <= (r.y as i64) + (r.height as i64) && (r.y as i64) + (r.height as i64)
                <= 2147483647i64
        };
    let c_ok = match c {
        Some(x) => edges(x),
        None => true,
    };
    edges(e) && edges(vp) && c_ok && fits((vp.y as i64) - (e.y as i64)) && fits((vp.x as i64) - (e.x as i64))
        && fits(((e.y as i64) + (e.height as i64)) - ((vp.y as i64) + (vp.height as i64))) && fits(
        ((e.x as i64) + (e.width as i64)) - ((vp.x as i64) + (vp.width as i64)),
    )
}

/// The visibility report of an element: not found or failed as its locating
/// says; without rectangles when its rectangle or the window's is unknown;
/// otherwise computed in the window's rectangle, clipped by the container's
/// when the container was found with a rectangle.
pub fn get_element_visibility(
    element: &ValidationResult,
    is_offscreen: Option<bool>,
    window_rect: Option<ElementRect>,
    container: Option<&ValidationResult>,
) -> (r: ElementVisibilityResponse)
    requires
        (element matches ValidationResult::Found { first_rect: Some(e), .. } && window_rect is Some)
            ==> visibility_inputs_ok(rect_of(element->first_rect->0), rect_of(window_rect->0), container_rect_of(container)),
    ensures
        match element {
            ValidationResult::NotFound { .. } => not_found_report(r, "元素未找到"@),
            ValidationResult::Error(e) => error_report(r, e@),
            ValidationResult::Found { first_rect, .. } => match first_rect {
                None => no_rect_report(r, is_offscreen, None, "元素坐标获取失败"@),
                Some(e) => match window_rect {
                    None => no_rect_report(r, is_offscreen, Some(rect_of(*e)), "窗口矩形获取失败"@),
                    Some(w) => computed_report(r, rect_of(*e), rect_of(w), container_rect_of(container), is_offscreen),
                },
            },
        },
{
    proof {
        reveal_strlit("元素未找到");
        reveal_strlit("元素坐标获取失败");
        reveal_strlit("窗口矩形获取失败");
    }
    let elem_rect = match element {
        ValidationResult::Found { first_rect, .. } => match first_rect {
            Some(r) => *r,
            None => {
                return visibility_no_rect(is_offscreen, None, "元素坐标获取失败");
            },
        },
        ValidationResult::NotFound { .. } => {
            return visibility_not_found("元素未找到");
        },
        ValidationResult::Error(e) => {
            return visibility_error(e.as_str());
        },
    };
    let viewport = match window_rect {
        Some(w) => w,
        None => {
            return visibility_no_rect(is_offscreen, Some(to_rect(elem_rect)), "窗口矩形获取失败");
        },
    };
    let container_rect: Option<Rect> = match container {
        Some(v) => match v {
            ValidationResult::Found { first_rect, .. } => match first_rect {
                Some(cr) => Some(to_rect(*cr)),
                None => None,
            },
            _ => None,
        },
        None => None,
    };
    let e = to_rect(elem_rect);
    let vp = to_rect(viewport);
    match container_rect {
        Some(c) => compute_visibility(&e, &vp, Some(&c), is_offscreen),
        None => compute_visibility(&e, &vp, None, is_offscreen),
    }
}

} // verus!
