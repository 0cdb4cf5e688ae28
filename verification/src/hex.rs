use crate::axial::Axial;
use vstd::prelude::*;

verus! {

/// A board tile: its axial position, the resource it yields and its numeric
/// token. Hexes are created once at board-build time from the seed list and
/// never mutated afterwards; the board graph owns them, keyed by position.
#[derive(Clone, Copy, Debug, PartialEq, Eq, Structural)]
pub struct Hex {
    pub resource_type: Resource,
    pub number: i32,
    pub pos: Axial,
}

/// What a vertex carries: a settlement, a city, or nothing.
#[derive(Clone, Copy, Debug, PartialEq, Eq, Structural)]
pub enum BuildType {
    City,
    Settlement,
    Empty,
}

/// The resource kind a hex tile yields; `Desert` marks the tile that
/// yields nothing.
#[derive(Clone, Copy, Debug, PartialEq, Eq, Structural)]
pub enum Resource {
    Desert,
    Ore,
    Wheat,
    Sheep,
    Brick,
    Wood,
}

} // verus!
