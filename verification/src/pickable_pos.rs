use crate::axial::Axial;
use vstd::prelude::*;

verus! {

/// A board position offered to the player as a placement picker, with its
/// selection state; it starts unselected.
#[derive(Clone, Copy, Debug, PartialEq, Eq, Structural)]
pub struct PickablePos {
    pub a: Axial,
    pub selected: bool,
}

impl PickablePos {
    pub fn new(a: Axial) -> (p: PickablePos)
        ensures
            p.a == a,
            !p.selected,
    {
        PickablePos { a, selected: false }
    }
}

} // verus!
