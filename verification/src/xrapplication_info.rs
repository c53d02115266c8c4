//! The action-value kinds of the wrapped XR API, as this layer reasons about
//! them.

use vstd::prelude::*;

verus! {

/// The kind of value an action produces or consumes. Mirrors the wrapped
/// API's action types; `Unknown` stands for a feature tag this layer does not
/// recognize, which is never actionable.
#[derive(Clone, Copy, Debug, PartialEq, Eq, Structural)]
pub enum ActionType {
    BooleanInput,
    FloatInput,
    Vector2fInput,
    PoseInput,
    VibrationOutput,
    Unknown,
}

/// An input kind reads hardware state; a vibration output only receives
/// haptic requests, and an unknown kind is not actionable at all.
pub open spec fn spec_is_input(t: ActionType) -> bool {
    match t {
        ActionType::BooleanInput => true,
        ActionType::FloatInput => true,
        ActionType::Vector2fInput => true,
        ActionType::PoseInput => true,
        ActionType::VibrationOutput => false,
        ActionType::Unknown => false,
    }
}

/// A kind is actionable when a real action of that kind can be created.
pub open spec fn spec_is_actionable(t: ActionType) -> bool {
    t != ActionType::Unknown
}

impl ActionType {
    /// Whether this kind reads hardware input.
    pub fn is_input(&self) -> (r: bool)
        ensures
            r == spec_is_input(*self),
    {
        match self {
            ActionType::BooleanInput => true,
            ActionType::FloatInput => true,
            ActionType::Vector2fInput => true,
            ActionType::PoseInput => true,
            ActionType::VibrationOutput => false,
            ActionType::Unknown => false,
        }
    }

    /// Whether a real action of this kind can be created.
    pub fn is_actionable(&self) -> (r: bool)
        ensures
            r == spec_is_actionable(*self),
    {
        match self {
            ActionType::Unknown => false,
            _ => true,
        }
    }
}

} // verus!
