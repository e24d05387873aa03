//! Cursor modes of the editor and the field background choice.
use vstd::prelude::*;

verus! {

/// What a click on the field does.
#[derive(Clone, Copy, Debug, PartialEq, Eq, Structural)]
pub enum CursorMode {
    Default,
    Create,
    Insert,
    Delete,
    Trim,
}

/// Which image is drawn under the field.
#[derive(Clone, Copy, Debug, PartialEq, Eq, Structural)]
pub enum Background {
    Game,
    Skills,
    Custom,
}

impl CursorMode {
    /// Selecting the mode that is already active returns to `Default`;
    /// selecting another mode switches to it.
    pub fn toggled(self, chosen: CursorMode) -> (r: CursorMode)
        ensures
            self != chosen ==> r == chosen,
            self == chosen ==> r == CursorMode::Default,
    {
        if self != chosen {
            chosen
        } else {
            CursorMode::Default
        }
    }

    pub open spec fn spec_quiet_hover(self) -> bool {
        self == CursorMode::Delete || self == CursorMode::Trim || self == CursorMode::Insert
    }

    /// Modes in which hovering a handle does not enlarge it.
    pub fn quiet_hover(&self) -> (r: bool)
        ensures
            r == self.spec_quiet_hover(),
    {
        matches!(*self, CursorMode::Delete | CursorMode::Trim | CursorMode::Insert)
    }

    pub open spec fn spec_allows_drag(self) -> bool {
        self != CursorMode::Delete && self != CursorMode::Trim
    }

    /// Modes in which pressing the pointer on a handle starts a drag.
    pub fn allows_drag(&self) -> (r: bool)
        ensures
            r == self.spec_allows_drag(),
    {
        !matches!(*self, CursorMode::Delete | CursorMode::Trim)
    }
}

} // verus!
