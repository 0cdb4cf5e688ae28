use crate::axial::Axial;
use crate::hex::BuildType;
use vstd::prelude::*;

verus! {

/// A corner of the hex grid, shared by up to three hexes: its position, what
/// is built on it and the owning player, if any. The board graph creates one
/// vertex per distinct corner position; game-rules code mutates the
/// occupancy later through the board graph.
#[derive(Clone, Copy, Debug, PartialEq, Eq)]
pub struct Vertex {
    pub pos: Axial,
    pub build_type: BuildType,
    pub owner: Option<i32>,
}

impl Vertex {
    /// An unowned vertex is built with `owner == None`; any player id,
    /// zero or negative included, is a real owner.
    pub fn new(pos: Axial, build_type: BuildType, owner: Option<i32>) -> (v: Vertex)
        ensures
            v.pos == pos,
            v.build_type == build_type,
            v.owner == owner,
    {
        Vertex { pos, build_type, owner }
    }
}

} // verus!
