//! Relative navigation from a located element: the steps, how a child or
//! sibling index is resolved, and the messages of the steps that fail.
use vstd::prelude::*;
use crate::text::{decimal, push_decimal, push_signed_decimal, signed_decimal};

verus! {

/// One step of a navigation from an element.
#[derive(Debug, Clone, Copy, PartialEq, Eq, Structural)]
pub enum NavigateStep {
    /// Up `levels` parents.
    Parent { levels: u32 },
    /// To the child at `index` (negative: from the end, `-1` the last).
    Child { index: i32 },
    /// To the sibling at `index` among the parent's children.
    SiblingAbs { index: i32 },
    /// Left by `offset` siblings.
    SiblingLeft { offset: u32 },
    /// Right by `offset` siblings.
    SiblingRight { offset: u32 },
}

/// The position an index names among `count` elements: itself when not
/// negative, else counted back from the end.
pub open spec fn resolved_index(index: i32, count: int) -> int {
    if index >= 0 {
        index as int
    } else {
        count + index
    }
}

/// The message of an index that names no element.
pub open spec fn out_of_range_text(step_no: usize, label: Seq<char>, index: i32, count: usize) -> Seq<char> {
    "Step "@ + decimal(step_no as nat) + " "@ + label + "("@ + signed_decimal(index as int)
        + "): index out of range (resolved="@ + signed_decimal(resolved_index(index, count as int)) + ", count="@
        + decimal(count as nat) + ")"@
}

/// Resolves the index of step `step_no` (written `label(index)`, such as
/// `child(-1)`) among `count` elements: the position, or the message of an
/// index out of range.
pub fn resolve_child_index(step_no: usize, label: &str, index: i32, count: usize) -> (r: Result<usize, String>)
    requires
        count <= i32::MAX,
    ensures
        match r {
            Ok(k) => 0 <= resolved_index(index, count as int) < count && k == resolved_index(index, count as int),
            Err(m) => !(0 <= resolved_index(index, count as int) < count) && m@ == out_of_range_text(
                step_no,
                label@,
                index,
                count,
            ),
        },
{
    let n: i32 = count as i32;
    let resolved: i32 = if index >= 0 {
        index
    } else {
        n + index
    };
    if resolved < 0 || resolved >= n {
        proof {
            reveal_strlit("Step ");
            reveal_strlit(" ");
            reveal_strlit("(");
            reveal_strlit("): index out of range (resolved=");
            reveal_strlit(", count=");
            reveal_strlit(")");
        }
        let mut m = String::new();
        m.push_str("Step ");
        push_decimal(&mut m, step_no as u64);
        m.push_str(" ");
        m.push_str(label);
        m.push_str("(");
        push_signed_decimal(&mut m, index as i64);
        m.push_str("): index out of range (resolved=");
        push_signed_decimal(&mut m, resolved as i64);
        m.push_str(", count=");
        push_decimal(&mut m, count as u64);
        m.push_str(")");
        assert(m@ =~= out_of_range_text(step_no, label@, index, count));
        return Err(m);
    }
    Ok(resolved as usize)
}

/// The message of a parent step that reached the desktop at its `level`-th
/// parent.
pub open spec fn desktop_text(step_no: usize, level: u32) -> Seq<char> {
    "Step "@ + decimal(step_no as nat) + " parent("@ + decimal(level as nat) + "): reached Desktop root"@
}

/// The message of a parent step of `step_no` that reached the desktop.
pub fn desktop_reached(step_no: usize, level: u32) -> (m: String)
    ensures
        m@ == desktop_text(step_no, level),
{
    proof {
        reveal_strlit("Step ");
        reveal_strlit(" parent(");
        reveal_strlit("): reached Desktop root");
    }
    let mut m = String::new();
    m.push_str("Step ");
    push_decimal(&mut m, step_no as u64);
    m.push_str(" parent(");
    push_decimal(&mut m, level as u64);
    m.push_str("): reached Desktop root");
    assert(m@ =~= desktop_text(step_no, level));
    m
}

} // verus!
