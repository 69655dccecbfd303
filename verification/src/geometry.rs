//! Rectangles on screen: hit tests, clipping, and how visible an element is
//! inside a viewport.
use vstd::prelude::*;
use crate::model::{OverflowInfo, Rect};

verus! {

/// A rectangle given by its edges.
#[derive(Debug, Clone, Copy, PartialEq, Eq, Structural)]
pub struct SimpleRect {
    pub left: i32,
    pub top: i32,
    pub right: i32,
    pub bottom: i32,
}

impl SimpleRect {
    pub fn width(&self) -> (w: i32)
        requires
            i32::MIN <= self.right - self.left <= i32::MAX,
        ensures
            w == self.right - self.left,
    {
        self.right - self.left
    }

    pub fn height(&self) -> (h: i32)
        requires
            i32::MIN <= self.bottom - self.top <= i32::MAX,
        ensures
            h == self.bottom - self.top,
    {
        self.bottom - self.top
    }
}

pub open spec fn inside(x: int, y: int, r: SimpleRect) -> bool {
    r.left <= x <= r.right && r.top <= y <= r.bottom
}

/// Whether the point lies in the rectangle, edges included.
pub fn point_in_rect(x: i32, y: i32, r: &SimpleRect) -> (b: bool)
    ensures
        b == inside(x as int, y as int, *r),
{
    x >= r.left && x <= r.right && y >= r.top && y <= r.bottom
}

pub open spec fn fits_i32(v: int) -> bool {
    i32::MIN <= v <= i32::MAX
}

/// The right and bottom edges of `r` fit in `i32`.
pub open spec fn edges_fit(r: Rect) -> bool {
    fits_i32(r.x + r.width) && fits_i32(r.y + r.height)
}

pub open spec fn max_int(a: int, b: int) -> int {
    if a >= b {
        a
    } else {
        b
    }
}

pub open spec fn min_int(a: int, b: int) -> int {
    if a <= b {
        a
    } else {
        b
    }
}

/// The overlap of two rectangles, when it has positive width and height.
pub open spec fn intersection(a: Rect, b: Rect) -> Option<Rect> {
    let left = max_int(a.x as int, b.x as int);
    let top = max_int(a.y as int, b.y as int);
    let right = min_int(a.x + a.width, b.x + b.width);
    let bottom = min_int(a.y + a.height, b.y + b.height);
    if right > left && bottom > top {
        Some(Rect { x: left as i32, y: top as i32, width: (right - left) as i32, height: (bottom - top) as i32 })
    } else {
        None
    }
}

/// `inner` lies within `outer`, edges included.
pub open spec fn within(inner: Rect, outer: Rect) -> bool {
    &&& outer.x <= inner.x
    &&& outer.y <= inner.y
    &&& inner.x + inner.width <= outer.x + outer.width
    &&& inner.y + inner.height <= outer.y + outer.height
}

/// The overlap of two rectangles lies within each of them.
pub proof fn lemma_intersection_within(a: Rect, b: Rect)
    ensures
        intersection(a, b) matches Some(i) ==> within(i, a) && within(i, b),
{
}

fn intersect(a: &Rect, b: &Rect) -> (r: Option<Rect>)
    requires
        edges_fit(*a),
        edges_fit(*b),
    ensures
        r == intersection(*a, *b),
        r matches Some(i) ==> edges_fit(i),
{
    let left = if a.x >= b.x { a.x } else { b.x };
    let top = if a.y >= b.y { a.y } else { b.y };
    let ar = a.x + a.width;
    let br = b.x + b.width;
    let ab = a.y + a.height;
    let bb = b.y + b.height;
    let right = if ar <= br { ar } else { br };
    let bottom = if ab <= bb { ab } else { bb };
    if right > left && bottom > top {
        Some(Rect { x: left, y: top, width: right - left, height: bottom - top })
    } else {
        None
    }
}

/// Whether the right and bottom edges of a rectangle fit in `i32`.
pub fn rect_edges_fit(r: &Rect) -> (b: bool)
    ensures
        b == edges_fit(*r),
{
    let right = r.x as i64 + r.width as i64;
    let bottom = r.y as i64 + r.height as i64;
    -2147483648i64 <= right && right <= 2147483647i64 && -2147483648i64 <= bottom && bottom <= 2147483647i64
}

/// The part of an element inside the window; the whole element when the
/// window is unknown.
pub open spec fn visible_part(e: Rect, window: Option<Rect>) -> Option<Rect> {
    match window {
        Some(w) => intersection(e, w),
        None => Some(e),
    }
}

pub fn compute_element_visible_rect(element_rect: &Rect, window_rect: Option<&Rect>) -> (r: Option<Rect>)
    requires
        edges_fit(*element_rect),
        window_rect matches Some(w) ==> edges_fit(*w),
    ensures
        r == visible_part(*element_rect, match window_rect {
            Some(w) => Some(*w),
            None => None,
        }),
{
    match window_rect {
        Some(vp) => intersect(element_rect, vp),
        None => Some(*element_rect),
    }
}

/// Visibility of an element as reported to API clients.
pub struct ElementVisibilityResponse {
    pub found: bool,
    pub is_offscreen: Option<bool>,
    /// `fully_visible`, `partially_visible`, `offscreen`, `visible`, `not_found` or `error`.
    pub visibility: String,
    /// `inside`, `above`, `below`, `left`, `right` or `unknown`.
    pub position: String,
    pub element_rect: Option<Rect>,
    pub visible_rect: Option<Rect>,
    pub viewport_rect: Option<Rect>,
    pub overflow: Option<OverflowInfo>,
    /// The direction to scroll to bring the element in: `up`, `down`, `left`, `right`.
    pub scroll_direction: Option<String>,
    pub error: Option<String>,
}

/// How far `e` sticks out of `vp` on each side (zero where it does not).
pub open spec fn overflow_of(e: Rect, vp: Rect) -> OverflowInfo {
    OverflowInfo {
        top: max_int(vp.y - e.y, 0) as i32,
        bottom: max_int((e.y + e.height) - (vp.y + vp.height), 0) as i32,
        left: max_int(vp.x - e.x, 0) as i32,
        right: max_int((e.x + e.width) - (vp.x + vp.width), 0) as i32,
    }
}

pub open spec fn has_overflow(o: OverflowInfo) -> bool {
    o.top > 0 || o.bottom > 0 || o.left > 0 || o.right > 0
}

/// `fully_visible` without overflow; `offscreen` when the element sticks out
/// on two opposite sides; `partially_visible` otherwise.
pub open spec fn visibility_label(o: OverflowInfo) -> Seq<char> {
    if !has_overflow(o) {
        "fully_visible"@
    } else if (o.top > 0 && o.bottom > 0) || (o.left > 0 && o.right > 0) {
        "offscreen"@
    } else {
        "partially_visible"@
    }
}

/// The side of the largest overflow (top, then bottom, then left win ties).
pub open spec fn position_label(o: OverflowInfo) -> Seq<char> {
    if !has_overflow(o) {
        "inside"@
    } else if o.top >= o.bottom && o.top >= o.left && o.top >= o.right {
        "above"@
    } else if o.bottom >= o.top && o.bottom >= o.left && o.bottom >= o.right {
        "below"@
    } else if o.left >= o.right {
        "left"@
    } else {
        "right"@
    }
}

/// The scroll direction that brings the element in.
pub open spec fn scroll_label(o: OverflowInfo) -> Option<Seq<char>> {
    if !has_overflow(o) {
        None
    } else if o.top > o.bottom {
        Some("down"@)
    } else if o.bottom > o.top {
        Some("up"@)
    } else if o.left > o.right {
        Some("right"@)
    } else {
        Some("left"@)
    }
}

/// The clip rectangle: the container's overlap with the viewport, or the
/// viewport when there is no container or no overlap.
pub open spec fn clip_of(vp: Rect, container: Option<Rect>) -> Rect {
    match container {
        Some(c) => match intersection(c, vp) {
            Some(i) => i,
            None => vp,
        },
        None => vp,
    }
}

/// The visible part of an element lies inside the element and inside the
/// viewport (and inside the container where the container overlaps the
/// viewport).
pub proof fn lemma_visible_part_inside(e: Rect, vp: Rect, container: Option<Rect>)
    ensures
        intersection(e, clip_of(vp, container)) matches Some(v) ==> {
            &&& within(v, e)
            &&& within(v, vp)
            &&& (container matches Some(c) ==> (intersection(c, vp) is Some ==> within(v, c)))
        },
{
    lemma_intersection_within(e, clip_of(vp, container));
    match container {
        Some(c) => lemma_intersection_within(c, vp),
        None => {},
    }
}

/// An element is reported fully visible exactly when it lies inside the
/// viewport; otherwise a scroll direction is given.
pub proof fn lemma_fully_visible_iff_inside(e: Rect, vp: Rect)
    requires
        visibility_inputs_ok(e, vp, None),
    ensures
        (visibility_label(overflow_of(e, vp)) == "fully_visible"@) <==> within(e, vp),
        (scroll_label(overflow_of(e, vp)) is None) <==> within(e, vp),
{
    reveal_strlit("fully_visible");
    reveal_strlit("offscreen");
    reveal_strlit("partially_visible");
    assert("offscreen"@[0] != "fully_visible"@[0]);
    assert("partially_visible"@[0] != "fully_visible"@[0]);
}

/// The inputs on which computing visibility stays within `i32`.
pub open spec fn visibility_inputs_ok(e: Rect, vp: Rect, container: Option<Rect>) -> bool {
    &&& edges_fit(e)
    &&& edges_fit(vp)
    &&& (container matches Some(c) ==> edges_fit(c))
    &&& fits_i32(vp.y - e.y)
    &&& fits_i32(vp.x - e.x)
    &&& fits_i32((e.y + e.height) - (vp.y + vp.height))
    &&& fits_i32((e.x + e.width) - (vp.x + vp.width))
}

pub open spec fn opt_str(o: Option<String>) -> Option<Seq<char>> {
    match o {
        Some(s) => Some(s@),
        None => None,
    }
}

/// Computes how visible an element is in a viewport and an optional
/// container: overflow on each side, visibility, position and the scroll
/// direction that would bring it in.
pub fn compute_visibility(
    element_rect: &Rect,
    viewport_rect: &Rect,
    container_rect: Option<&Rect>,
    is_offscreen: Option<bool>,
) -> (r: ElementVisibilityResponse)
    requires
        visibility_inputs_ok(*element_rect, *viewport_rect, match container_rect {
            Some(c) => Some(*c),
            None => None,
        }),
    ensures
        r.found,
        r.is_offscreen == is_offscreen,
        r.overflow == Some(overflow_of(*element_rect, *viewport_rect)),
        r.visibility@ == visibility_label(overflow_of(*element_rect, *viewport_rect)),
        r.position@ == position_label(overflow_of(*element_rect, *viewport_rect)),
        opt_str(r.scroll_direction) == scroll_label(overflow_of(*element_rect, *viewport_rect)),
        r.element_rect == Some(*element_rect),
        r.viewport_rect == Some(*viewport_rect),
        r.visible_rect == intersection(*element_rect, clip_of(*viewport_rect, match container_rect {
            Some(c) => Some(*c),
            None => None,
        })),
        r.error is None,
{
    let clip = match container_rect {
        Some(cr) => match intersect(cr, viewport_rect) {
            Some(i) => i,
            None => *viewport_rect,
        },
        None => *viewport_rect,
    };
    let visible_rect = intersect(element_rect, &clip);
    let e = element_rect;
    let vp = viewport_rect;
    let dt = vp.y - e.y;
    let db = (e.y + e.height) - (vp.y + vp.height);
    let dl = vp.x - e.x;
    let dr = (e.x + e.width) - (vp.x + vp.width);
    let overflow_top = if dt >= 0 { dt } else { 0 };
    let overflow_bottom = if db >= 0 { db } else { 0 };
    let overflow_left = if dl >= 0 { dl } else { 0 };
    let overflow_right = if dr >= 0 { dr } else { 0 };
    let overflowing = overflow_top > 0 || overflow_bottom > 0 || overflow_left > 0 || overflow_right > 0;
    let visibility = if !overflowing {
        "fully_visible".to_owned()
    } else if (overflow_top > 0 && overflow_bottom > 0) || (overflow_left > 0 && overflow_right > 0) {
        "offscreen".to_owned()
    } else {
        "partially_visible".to_owned()
    };
    let position = if !overflowing {
        "inside".to_owned()
    } else if overflow_top >= overflow_bottom && overflow_top >= overflow_left && overflow_top >= overflow_right {
        "above".to_owned()
    } else if overflow_bottom >= overflow_top && overflow_bottom >= overflow_left && overflow_bottom
        >= overflow_right {
        "below".to_owned()
    } else if overflow_left >= overflow_right {
        "left".to_owned()
    } else {
        "right".to_owned()
    };
    let scroll_direction = if !overflowing {
        None
    } else if overflow_top > overflow_bottom {
        Some("down".to_owned())
    } else if overflow_bottom > overflow_top {
        Some("up".to_owned())
    } else if overflow_left > overflow_right {
        Some("right".to_owned())
    } else {
        Some("left".to_owned())
    };
    ElementVisibilityResponse {
        found: true,
        is_offscreen,
        visibility,
        position,
        element_rect: Some(*element_rect),
        visible_rect,
        viewport_rect: Some(*viewport_rect),
        overflow: Some(
            OverflowInfo {
                top: overflow_top,
                bottom: overflow_bottom,
                left: overflow_left,
                right: overflow_right,
            },
        ),
        scroll_direction,
        error: None,
    }
}

/// The response for an element that was not found.
pub fn visibility_not_found(error: &str) -> (r: ElementVisibilityResponse)
    ensures
        !r.found,
        r.visibility@ == "not_found"@,
        r.position@ == "unknown"@,
        r.is_offscreen is None && r.element_rect is None && r.visible_rect is None,
        r.viewport_rect is None && r.overflow is None && r.scroll_direction is None,
        opt_str(r.error) == Some(error@),
{
    ElementVisibilityResponse {
        found: false,
        is_offscreen: None,
        visibility: "not_found".to_owned(),
        position: "unknown".to_owned(),
        element_rect: None,
        visible_rect: None,
        viewport_rect: None,
        overflow: None,
        scroll_direction: None,
        error: Some(error.to_owned()),
    }
}

/// The response for a search that failed with an error.
pub fn visibility_error(error: &str) -> (r: ElementVisibilityResponse)
    ensures
        !r.found,
        r.visibility@ == "error"@,
        r.position@ == "unknown"@,
        r.is_offscreen is None && r.element_rect is None && r.visible_rect is None,
        r.viewport_rect is None && r.overflow is None && r.scroll_direction is None,
        opt_str(r.error) == Some(error@),
{
    ElementVisibilityResponse {
        found: false,
        is_offscreen: None,
        visibility: "error".to_owned(),
        position: "unknown".to_owned(),
        element_rect: None,
        visible_rect: None,
        viewport_rect: None,
        overflow: None,
        scroll_direction: None,
        error: Some(error.to_owned()),
    }
}

/// The response for an element that was found but whose rectangle (or the
/// window's) is unknown: `offscreen` when it is known to be off screen,
/// `visible` otherwise.
pub fn visibility_no_rect(is_offscreen: Option<bool>, element_rect: Option<Rect>, error: &str) -> (r: ElementVisibilityResponse)
    ensures
        r.found,
        r.is_offscreen == is_offscreen,
        r.visibility@ == (if is_offscreen == Some(true) {
            "offscreen"@
        } else {
            "visible"@
        }),
        r.position@ == "unknown"@,
        r.element_rect == element_rect,
        r.visible_rect is None && r.viewport_rect is None && r.overflow is None,
        r.scroll_direction is None,
        opt_str(r.error) == Some(error@),
{
    let off = match is_offscreen {
        Some(b) => b,
        None => false,
    };
    ElementVisibilityResponse {
        found: true,
        is_offscreen,
        visibility: if off {
            "offscreen".to_owned()
        } else {
            "visible".to_owned()
        },
        position: "unknown".to_owned(),
        element_rect,
        visible_rect: None,
        viewport_rect: None,
        overflow: None,
        scroll_direction: None,
        error: Some(error.to_owned()),
    }
}

} // verus!
