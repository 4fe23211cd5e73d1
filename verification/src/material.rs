use vstd::prelude::*;

verus! {

/// The content of one grid cell: open air, a user-placed obstacle, or
/// particulate matter (falling or settled).
#[derive(Clone, Copy, PartialEq, Eq, Structural, Debug)]
pub enum Material {
    Empty,
    Solid,
    Particulate,
}

} // verus!
