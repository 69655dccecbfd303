//! The automation instance kept per thread: when a cached instance is kept
//! and when a new one is made; and the highlight messages sent while the
//! cursor hovers during a capture.
use vstd::prelude::*;
use crate::model::ElementRect;

verus! {

/// The COM apartment a thread is in.
#[derive(Debug, Clone, Copy, PartialEq, Eq, Structural)]
pub enum ComApartmentType {
    /// COM is not initialised.
    Uninitialized,
    /// Single-threaded apartment, which UI Automation needs.
    Sta,
    /// Multi-threaded apartment.
    Mta,
}

/// What to do for a request of the automation instance.
#[derive(Debug, Clone, Copy, PartialEq, Eq, Structural)]
pub enum ProviderAction {
    /// Hand out the cached instance.
    Reuse,
    /// Drop any cached instance and create a new one.
    Create,
}

/// Keeps one automation instance per thread and checks its health.
#[derive(Debug)]
pub struct AutomationProvider;

/// A health check that takes longer than this marks the instance stale.
pub const HEALTH_CHECK_LIMIT_MS: u64 = 100;

impl AutomationProvider {
    /// Whether a cached instance is healthy: reading the root element
    /// succeeded within the time limit.
    pub fn is_healthy(root_ok: bool, elapsed_ms: u64) -> (b: bool)
        ensures
            b == (root_ok && elapsed_ms <= HEALTH_CHECK_LIMIT_MS),
    {
        if elapsed_ms > HEALTH_CHECK_LIMIT_MS {
            return false;
        }
        root_ok
    }

    /// Whether the cached instance (if any) is handed out or replaced, given
    /// its health check.
    pub fn next_action(has_instance: bool, root_ok: bool, elapsed_ms: u64) -> (a: ProviderAction)
        ensures
            a == (if has_instance && root_ok && elapsed_ms <= HEALTH_CHECK_LIMIT_MS {
                ProviderAction::Reuse
            } else {
                ProviderAction::Create
            }),
    {
        if has_instance && Self::is_healthy(root_ok, elapsed_ms) {
            ProviderAction::Reuse
        } else {
            ProviderAction::Create
        }
    }
}

/// A highlight message of the two-phase hover query.
#[derive(Debug)]
pub enum HighlightPhase {
    /// The element `ElementFromPoint` hit, shown at once.
    Immediate { x: i32, y: i32, rect: ElementRect, control_type: String, name: String, class_name: String },
    /// A deeper element at the point found afterwards.
    Refined { x: i32, y: i32, rect: ElementRect, control_type: String, name: String, class_name: String },
}

/// What is shown of an element at a point.
#[derive(Debug)]
pub struct HighlightData {
    pub x: i32,
    pub y: i32,
    pub rect: ElementRect,
    pub control_type: String,
    pub name: String,
    pub class_name: String,
}

impl HighlightPhase {
    /// The immediate message for the element hit.
    pub fn immediate(d: HighlightData) -> (p: Self)
        ensures
            p == (HighlightPhase::Immediate {
                x: d.x,
                y: d.y,
                rect: d.rect,
                control_type: d.control_type,
                name: d.name,
                class_name: d.class_name,
            }),
    {
        HighlightPhase::Immediate {
            x: d.x,
            y: d.y,
            rect: d.rect,
            control_type: d.control_type,
            name: d.name,
            class_name: d.class_name,
        }
    }

    /// The refined message, sent only when the deeper element is known to
    /// differ from the one hit (`same`: the comparison of the two, `None`
    /// when it failed).
    pub fn refined(same: Option<bool>, d: HighlightData) -> (p: Option<Self>)
        ensures
            same == Some(false) ==> p == Some(HighlightPhase::Refined {
                x: d.x,
                y: d.y,
                rect: d.rect,
                control_type: d.control_type,
                name: d.name,
                class_name: d.class_name,
            }),
            same != Some(false) ==> p is None,
    {
        match same {
            Some(false) => Some(HighlightPhase::Refined {
                x: d.x,
                y: d.y,
                rect: d.rect,
                control_type: d.control_type,
                name: d.name,
                class_name: d.class_name,
            }),
            _ => None,
        }
    }
}

} // verus!
