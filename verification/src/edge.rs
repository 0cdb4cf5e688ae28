use crate::axial::Axial;
use vstd::prelude::*;

verus! {

/// An undirected connection between two adjacent vertex positions, and what
/// is built on it (a road or nothing). The board graph owns one edge per
/// adjacent vertex pair, keyed by the canonical coordinate pair.
#[derive(Clone, Copy, Debug, PartialEq, Eq, Structural)]
pub struct Edge {
    pub path_coords: EdgeCoords,
    pub path_type: EdgeType,
}

/// What an edge carries: a road or nothing.
#[derive(Clone, Copy, Debug, PartialEq, Eq, Structural)]
pub enum EdgeType {
    Road,
    Empty,
}

impl Edge {
    pub fn new(path_coords: EdgeCoords, path_type: EdgeType) -> (e: Edge)
        ensures
            e.path_coords == path_coords,
            e.path_type == path_type,
    {
        Edge { path_coords, path_type }
    }
}

/// The canonical key of an undirected edge: the two endpoint positions with
/// the lexicographically smaller one stored first, so that both traversal
/// directions of a pair map to one key.
#[derive(Clone, Copy, Debug, PartialEq, Eq, Structural, Hash)]
pub struct EdgeCoords {
    pub a: Axial,
    pub b: Axial,
}

/// The canonical key for the unordered pair {a, b}.
pub open spec fn spec_edge_key(a: Axial, b: Axial) -> EdgeCoords {
    if a.spec_lt(b) {
        EdgeCoords { a, b }
    } else {
        EdgeCoords { a: b, b: a }
    }
}

impl EdgeCoords {
    /// The key is canonical: its first endpoint is not lexicographically
    /// greater than its second.
    pub open spec fn is_canonical(self) -> bool {
        self.a.spec_lt(self.b) || self.a == self.b
    }

    /// Whether c is one of the two endpoints of this key.
    pub open spec fn spec_contains(self, c: Axial) -> bool {
        self.a == c || self.b == c
    }

    /// Whether this key and another name the same unordered pair of
    /// positions.
    pub open spec fn same_pair(self, other: EdgeCoords) -> bool {
        (self.a == other.a && self.b == other.b) || (self.a == other.b && self.b == other.a)
    }

    pub fn new(a: Axial, b: Axial) -> (c: EdgeCoords)
        ensures
            c == spec_edge_key(a, b),
            c.is_canonical(),
            c.spec_contains(a) && c.spec_contains(b),
    {
        if a < b {
            EdgeCoords { a, b }
        } else {
            EdgeCoords { a: b, b: a }
        }
    }

    pub fn contains(&self, c: Axial) -> (r: bool)
        ensures
            r == self.spec_contains(c),
    {
        (self.a.q == c.q && self.a.r == c.r) || (self.b.q == c.q && self.b.r == c.r)
    }
}

/// Edge canonicalization: the canonical key of an unordered pair does not
/// depend on the order in which the two endpoints are named.
pub proof fn lemma_edge_key_symmetric(a: Axial, b: Axial)
    ensures
        spec_edge_key(a, b) == spec_edge_key(b, a),
{
}

/// Two canonical keys that name the same unordered pair are the same key.
pub proof fn lemma_canonical_key_unique(c1: EdgeCoords, c2: EdgeCoords)
    requires
        c1.is_canonical(),
        c2.is_canonical(),
        c1.same_pair(c2),
    ensures
        c1 == c2,
{
}

} // verus!
