//! Decisions of walks over the element tree: a node's position among its
//! same-type siblings, which child of a window holds its content, and the
//! bounded search for a change of UI framework below a container.
use vstd::prelude::*;
use crate::select::{is_rendering, is_webview, is_rendering_layer, is_webview_class};

verus! {

/// How many of the first `k` siblings have type `t`.
pub open spec fn same_type_count(types: Seq<Option<i32>>, k: int, t: i32) -> int
    decreases k,
{
    if k <= 0 {
        0
    } else {
        same_type_count(types, k - 1, t) + if types[k - 1] == Some(t) {
            1int
        } else {
            0int
        }
    }
}

/// The position (from 1) of an element among its same-type siblings: the
/// number of siblings of its type up to the first one with its automation
/// id. `None` when a sibling's type cannot be read before that one, or no
/// sibling has its automation id.
pub open spec fn sibling_position(types: Seq<Option<i32>>, aids: Seq<Seq<char>>, target_type: i32, target_aid: Seq<char>) -> Option<int>
    decreases types.len(),
{
    sibling_position_from(types, aids, target_type, target_aid, 0)
}

pub open spec fn sibling_position_from(types: Seq<Option<i32>>, aids: Seq<Seq<char>>, t: i32, aid: Seq<char>, i: int) -> Option<int>
    decreases types.len() - i,
{
    if i < 0 || i >= types.len() || i >= aids.len() {
        None
    } else if types[i] is None {
        None
    } else if aids[i] == aid {
        Some(same_type_count(types, i + 1, t))
    } else {
        sibling_position_from(types, aids, t, aid, i + 1)
    }
}

/// An element's position among its same-type siblings (`types[i]` and
/// `aids[i]`: the type and automation id read from the parent's `i`-th child).
pub fn sibling_index(types: &Vec<Option<i32>>, aids: &Vec<String>, target_type: i32, target_aid: &str) -> (r: Option<i32>)
    requires
        types@.len() == aids@.len(),
        types@.len() <= i32::MAX,
    ensures
        match sibling_position(types@, aids@.map_values(|s: String| s@), target_type, target_aid@) {
            Some(p) => r == Some(p as i32),
            None => r is None,
        },
{
    let ghost av = aids@.map_values(|s: String| s@);
    let mut idx: i32 = 0;
    let mut i: usize = 0;
    while i < types.len()
        invariant
            i <= types@.len() == aids@.len() <= i32::MAX,
            av == aids@.map_values(|s: String| s@),
            idx == same_type_count(types@, i as int, target_type),
            0 <= idx <= i,
            sibling_position(types@, av, target_type, target_aid@) == sibling_position_from(
                types@,
                av,
                target_type,
                target_aid@,
                i as int,
            ),
        decreases types@.len() - i,
    {
        match types[i] {
            None => {
                return None;
            },
            Some(ct) => {
                if ct == target_type {
                    idx += 1;
                }
            },
        }
        assert(av[i as int] == aids@[i as int]@);
        if crate::model::str_eq(aids[i].as_str(), target_aid) {
            return Some(idx);
        }
        i += 1;
    }
    None
}

/// The number of an element's siblings of its type; `None` when a sibling's
/// type cannot be read.
pub fn count_siblings(types: &Vec<Option<i32>>, target_type: i32) -> (r: Option<i32>)
    requires
        types@.len() <= i32::MAX,
    ensures
        (forall|i: int| 0 <= i < types@.len() ==> #[trigger] types@[i] is Some) ==> r == Some(
            same_type_count(types@, types@.len() as int, target_type) as i32,
        ),
        (exists|i: int| 0 <= i < types@.len() && #[trigger] types@[i] is None) ==> r is None,
{
    let mut count: i32 = 0;
    let mut i: usize = 0;
    while i < types.len()
        invariant
            i <= types@.len() <= i32::MAX,
            count == same_type_count(types@, i as int, target_type),
            0 <= count <= i,
            forall|k: int| 0 <= k < i ==> #[trigger] types@[k] is Some,
        decreases types@.len() - i,
    {
        match types[i] {
            None => {
                return None;
            },
            Some(ct) => {
                if ct == target_type {
                    count += 1;
                }
            },
        }
        i += 1;
    }
    Some(count)
}

/// What a window's child tells of where its content is.
#[derive(Debug, Clone, Copy, PartialEq, Eq, Structural)]
pub enum ContainerCheck {
    /// Not a container (or a rendering layer): go on with the next child.
    Skip,
    /// The content root: a WebView container, or a different framework.
    Take,
    /// A container of the window's own framework: look below it for a change
    /// of framework; `candidate` when it may serve as the fallback root.
    Probe { candidate: bool },
}

/// Whether a control type name is a container: `Pane`, `Window` or `Group`.
pub open spec fn is_container(ct: Seq<char>) -> bool {
    ct == "Pane"@ || ct == "Window"@ || ct == "Group"@
}

/// Classifies a child of a window (its control type, class and framework)
/// in the search for the window's content root.
pub open spec fn container_check(ct: Seq<char>, class: Seq<char>, fwid: Seq<char>, window_fwid: Seq<char>) -> ContainerCheck {
    if !is_container(ct) || is_rendering(class) {
        ContainerCheck::Skip
    } else if is_webview(class) || (fwid.len() > 0 && fwid != window_fwid) {
        ContainerCheck::Take
    } else {
        ContainerCheck::Probe { candidate: fwid == window_fwid && fwid.len() > 0 }
    }
}

/// Classifies a child of a window in the search for the content root.
pub fn classify_window_child(ct: &str, class: &str, fwid: &str, window_fwid: &str) -> (r: ContainerCheck)
    ensures
        r == container_check(ct@, class@, fwid@, window_fwid@),
{
    let container = crate::model::str_eq(ct, "Pane") || crate::model::str_eq(ct, "Window") || crate::model::str_eq(
        ct,
        "Group",
    );
    if !container || is_rendering_layer(class) {
        return ContainerCheck::Skip;
    }
    let same = crate::model::str_eq(fwid, window_fwid);
    if is_webview_class(class) || (!fwid.is_empty() && !same) {
        return ContainerCheck::Take;
    }
    ContainerCheck::Probe { candidate: same && !fwid.is_empty() }
}

/// At most this many nodes are looked at when searching for a change of framework.
pub const TRANSITION_MAX_NODES: usize = 150;

/// What a node in the search for a change of framework tells.
#[derive(Debug, Clone, Copy, PartialEq, Eq, Structural)]
pub enum TransitionCheck {
    /// Give up: the node budget is spent.
    GiveUp,
    /// Leave the node out.
    Skip,
    /// A different framework was found.
    Found,
    /// Look at up to this many of its children.
    Expand(usize),
    /// Nothing below it is looked at.
    Leaf,
}

/// The decision for the `visited`-th node (counting from 1) at `depth`,
/// with its control type and framework: give up past the node budget; skip
/// below the depth limit and non-containers deeper than two levels; found
/// on a non-empty framework other than the parent's; else expand (up to 16
/// children near the top, 9 deeper) above the depth limit.
pub open spec fn transition_check(visited: usize, depth: usize, max_depth: usize, ct: Seq<char>, fwid: Seq<char>, parent_fwid: Seq<char>) -> TransitionCheck {
    if visited > TRANSITION_MAX_NODES {
        TransitionCheck::GiveUp
    } else if depth > max_depth {
        TransitionCheck::Skip
    } else if depth > 2 && !(is_container(ct) || ct == "Document"@) {
        TransitionCheck::Skip
    } else if fwid.len() > 0 && fwid != parent_fwid {
        TransitionCheck::Found
    } else if depth < max_depth {
        TransitionCheck::Expand(if depth <= 2 {
            16usize
        } else {
            9usize
        })
    } else {
        TransitionCheck::Leaf
    }
}

/// Decides on a node in the search for a change of framework.
pub fn check_transition_node(visited: usize, depth: usize, max_depth: usize, ct: &str, fwid: &str, parent_fwid: &str) -> (r: TransitionCheck)
    ensures
        r == transition_check(visited, depth, max_depth, ct@, fwid@, parent_fwid@),
{
    if visited > TRANSITION_MAX_NODES {
        return TransitionCheck::GiveUp;
    }
    if depth > max_depth {
        return TransitionCheck::Skip;
    }
    let kept_type = crate::model::str_eq(ct, "Pane") || crate::model::str_eq(ct, "Window") || crate::model::str_eq(
        ct,
        "Group",
    ) || crate::model::str_eq(ct, "Document");
    if depth > 2 && !kept_type {
        return TransitionCheck::Skip;
    }
    if !fwid.is_empty() && !crate::model::str_eq(fwid, parent_fwid) {
        return TransitionCheck::Found;
    }
    if depth < max_depth {
        TransitionCheck::Expand(if depth <= 2 {
            16
        } else {
            9
        })
    } else {
        TransitionCheck::Leaf
    }
}

} // verus!
