//! The tray menu's entry identifiers. The menu itself, its construction
//! and its OS integration live in the unverified shell; the shell maps a
//! clicked identifier back to a tray intent for the bus.

use vstd::prelude::*;

verus! {

/// One entry of the tray menu.
#[derive(Debug, Clone, Copy, PartialEq, Eq, Structural)]
pub enum MenuId {
    Settings,
    About,
    Quit,
}

impl MenuId {
    /// The stable identifier string of the entry.
    pub fn as_str(&self) -> (r: &'static str)
        ensures
            *self is Settings ==> r@ == "settings"@,
            *self is About ==> r@ == "about"@,
            *self is Quit ==> r@ == "quit"@,
    {
        match self {
            MenuId::Settings => "settings",
            MenuId::About => "about",
            MenuId::Quit => "quit",
        }
    }
}

} // verus!
