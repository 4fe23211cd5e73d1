use vstd::prelude::*;

verus! {

/// A colour theme for the compositor: the 24-bit colours of empty cells,
/// solid obstacles, and particulate matter, in that order.
#[derive(Clone, Copy, PartialEq, Eq, Structural, Debug)]
pub struct Theme(pub u32, pub u32, pub u32);

/// The available colour themes.
#[derive(Clone, Copy, PartialEq, Eq, Structural, Debug)]
pub enum ThemeId {
    Sandshell,
}

impl Theme {
    /// Looks a theme up by its identifier.
    pub fn get(id: ThemeId) -> (t: Theme)
        ensures
            id == ThemeId::Sandshell ==> t == (Theme(0x6b573d, 0x7a6e5e, 0xd8ccbb)),
    {
        match id {
            ThemeId::Sandshell => Theme(0x6b573d, 0x7a6e5e, 0xd8ccbb),
        }
    }
}

} // verus!
