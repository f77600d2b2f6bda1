//! Plain state shared with the UI overlay: the interaction state of a box and
//! the direction its children are laid out in. The layout and painting math
//! itself lives with the host's float code.
use vstd::prelude::*;

verus! {

/// The interaction state of one UI box.
#[derive(Debug, Clone, Copy, PartialEq, Eq, Structural)]
pub enum UiBoxState {
    Normal,
    Hovered,
    Pressed,
}

impl Default for UiBoxState {
    fn default() -> (s: UiBoxState)
        ensures
            s == UiBoxState::Normal,
    {
        UiBoxState::Normal
    }
}

/// Which way a box lays its children out.
#[derive(Debug, Clone, Copy, PartialEq, Eq, Structural)]
pub enum LayoutDirection {
    Vertical,
    Horizontal,
}

impl Default for LayoutDirection {
    fn default() -> (d: LayoutDirection)
        ensures
            d == LayoutDirection::Vertical,
    {
        LayoutDirection::Vertical
    }
}

impl LayoutDirection {
    /// Picks the value belonging to this direction's main axis.
    pub fn axis_select<T>(&self, h_value: T, v_value: T) -> (r: T)
        ensures
            r == match self {
                LayoutDirection::Horizontal => h_value,
                LayoutDirection::Vertical => v_value,
            },
    {
        match self {
            LayoutDirection::Horizontal => h_value,
            LayoutDirection::Vertical => v_value,
        }
    }
}

} // verus!
