use crate::axial::Axial;
use crate::edge::{spec_edge_key, Edge, EdgeCoords, EdgeType};
use crate::hex::{BuildType, Hex, Resource};
use crate::vertex::Vertex;
use vstd::prelude::*;

verus! {

/// The six unit offsets to the graph-neighbors of a coordinate, in the fixed
/// table order. Summing all six yields zero, and the table is closed under
/// negation (each offset's negation is three places further around).
pub open spec fn spec_offsets() -> Seq<Axial> {
    seq![
        Axial { q: 1i32, r: 0i32 },
        Axial { q: 0i32, r: 1i32 },
        Axial { q: -1i32, r: 1i32 },
        Axial { q: -1i32, r: 0i32 },
        Axial { q: 0i32, r: -1i32 },
        Axial { q: 1i32, r: -1i32 },
    ]
}

/// The shared offset table as a vector, for iteration.
pub fn offsets() -> (v: Vec<Axial>)
    ensures
        v@ == spec_offsets(),
{
    let mut v: Vec<Axial> = Vec::new();
    v.push(Axial::new(1, 0));
    v.push(Axial::new(0, 1));
    v.push(Axial::new(-1, 1));
    v.push(Axial::new(-1, 0));
    v.push(Axial::new(0, -1));
    v.push(Axial::new(1, -1));
    proof {
        assert(v@ =~= spec_offsets());
    }
    v
}

/// The q component of pos plus the k-th offset, as an unbounded integer.
pub open spec fn offset_pos_q(pos: Axial, k: int) -> int
    recommends
        0 <= k < 6,
{
    pos.q + spec_offsets()[k].q
}

/// The r component of pos plus the k-th offset, as an unbounded integer.
pub open spec fn offset_pos_r(pos: Axial, k: int) -> int
    recommends
        0 <= k < 6,
{
    pos.r + spec_offsets()[k].r
}

/// pos plus the k-th offset as a coordinate; meaningful when the sums stay
/// inside i32, which `in_vertex_range` guarantees.
pub open spec fn offset_pos(pos: Axial, k: int) -> Axial
    recommends
        0 <= k < 6,
{
    Axial { q: offset_pos_q(pos, k) as i32, r: offset_pos_r(pos, k) as i32 }
}

/// b is a's neighbor through the k-th offset (component-wise over unbounded
/// integers, so no wrap-around can fake a neighbor).
pub open spec fn is_neighbor_by(a: Axial, b: Axial, k: int) -> bool
    recommends
        0 <= k < 6,
{
    b.q == offset_pos_q(a, k) && b.r == offset_pos_r(a, k)
}

/// Whether pos plus the k-th offset stays inside i32 on both components:
/// only then does the neighbor exist as a representable position.
pub open spec fn offset_in_range(pos: Axial, k: int) -> bool
    recommends
        0 <= k < 6,
{
    &&& i32::MIN <= offset_pos_q(pos, k) <= i32::MAX
    &&& i32::MIN <= offset_pos_r(pos, k) <= i32::MAX
}

/// Two positions are graph-neighbors when the second is the first plus one
/// of the six offsets.
pub open spec fn adjacent(a: Axial, b: Axial) -> bool {
    exists|k: int| 0 <= k < 6 && #[trigger] is_neighbor_by(a, b, k)
}

/// The six offsets sum to zero, component-wise.
pub proof fn lemma_offsets_sum_zero()
    ensures
        spec_offsets()[0].q + spec_offsets()[1].q + spec_offsets()[2].q + spec_offsets()[3].q
            + spec_offsets()[4].q + spec_offsets()[5].q == 0,
        spec_offsets()[0].r + spec_offsets()[1].r + spec_offsets()[2].r + spec_offsets()[3].r
            + spec_offsets()[4].r + spec_offsets()[5].r == 0,
{
}

/// Neighborhood is symmetric: the offset table is closed under negation, so
/// a position is a neighbor of each of its own neighbors.
pub proof fn lemma_adjacent_symmetric(a: Axial, b: Axial)
    requires
        adjacent(a, b),
    ensures
        adjacent(b, a),
{
    let k = choose|k: int| 0 <= k < 6 && #[trigger] is_neighbor_by(a, b, k);
    let j: int = if k < 3 { k + 3 } else { k - 3 };
    assert(is_neighbor_by(b, a, j));
}

/// Hex seed positions sit at least two steps inside the i32 range, so that a
/// corner (one offset away) and a corner's neighbor (two offsets away) never
/// overflow.
pub open spec fn in_seed_range(pos: Axial) -> bool {
    &&& i32::MIN + 2 <= pos.q <= i32::MAX - 2
    &&& i32::MIN + 2 <= pos.r <= i32::MAX - 2
}

/// Vertex positions sit at least one step inside the i32 range, so applying
/// one more offset never overflows.
pub open spec fn in_vertex_range(pos: Axial) -> bool {
    &&& i32::MIN + 1 <= pos.q <= i32::MAX - 1
    &&& i32::MIN + 1 <= pos.r <= i32::MAX - 1
}

/// Some hex in the sequence sits at the given position.
pub open spec fn has_hex(hexes: Seq<Hex>, pos: Axial) -> bool {
    exists|i: int| 0 <= i < hexes.len() && (#[trigger] hexes[i]).pos == pos
}

/// Some vertex in the sequence sits at the given position.
pub open spec fn has_vertex(vs: Seq<Vertex>, pos: Axial) -> bool {
    exists|i: int| 0 <= i < vs.len() && (#[trigger] vs[i]).pos == pos
}

/// Some edge in the sequence carries the given canonical key.
pub open spec fn has_edge_key(es: Seq<Edge>, c: EdgeCoords) -> bool {
    exists|i: int| 0 <= i < es.len() && (#[trigger] es[i]).path_coords == c
}

/// Hex positions are pairwise distinct: positions key the hex map.
pub open spec fn hex_positions_distinct(hexes: Seq<Hex>) -> bool {
    forall|i: int, j: int|
        0 <= i < j < hexes.len() ==> (#[trigger] hexes[i]).pos != (#[trigger] hexes[j]).pos
}

/// Vertex positions are pairwise distinct: positions key the vertex map.
pub open spec fn vertex_positions_distinct(vs: Seq<Vertex>) -> bool {
    forall|i: int, j: int|
        0 <= i < j < vs.len() ==> (#[trigger] vs[i]).pos != (#[trigger] vs[j]).pos
}

/// Edge keys are pairwise distinct: canonical keys key the edge map.
pub open spec fn edge_keys_distinct(es: Seq<Edge>) -> bool {
    forall|i: int, j: int|
        0 <= i < j < es.len() ==> (#[trigger] es[i]).path_coords != (#[trigger] es[j]).path_coords
}

/// The error taxonomy of the board graph: a duplicate seed position is a
/// fatal construction error; a mutation aimed at a coordinate absent from
/// the relevant map is reported and leaves the board unchanged.
#[derive(Clone, Copy, Debug, PartialEq, Eq, Structural)]
pub enum BoardError {
    DuplicateHexPosition,
    UnknownPosition,
}

/// The board graph: hexes, vertices and edges keyed by position, derived
/// deterministically from the seed list, plus the single robber marker.
pub struct BoardData {
    pub hexes: Vec<Hex>,
    pub edges: Vec<Edge>,
    pub vertices: Vec<Vertex>,
    pub robber: Axial,
}

impl BoardData {
    /// Hex well-formedness: distinct positions, all in seed range.
    pub open spec fn hexes_wf(self) -> bool {
        &&& hex_positions_distinct(self.hexes@)
        &&& forall|i: int|
            0 <= i < self.hexes@.len() ==> in_seed_range((#[trigger] self.hexes@[i]).pos)
    }

    /// Vertex well-formedness: distinct positions, all in vertex range, and
    /// every vertex reachable from some hex (it is one of that hex's six
    /// corners).
    pub open spec fn vertices_wf(self) -> bool {
        &&& vertex_positions_distinct(self.vertices@)
        &&& forall|j: int|
            0 <= j < self.vertices@.len() ==> in_vertex_range((#[trigger] self.vertices@[j]).pos)
        &&& forall|j: int|
            0 <= j < self.vertices@.len() ==> exists|i: int, k: int|
                0 <= i < self.hexes@.len() && 0 <= k < 6 && is_neighbor_by(
                    self.hexes@[i].pos,
                    (#[trigger] self.vertices@[j]).pos,
                    k,
                )
    }

    /// Vertex completeness: every corner of every hex is present in the
    /// vertex map.
    pub open spec fn vertices_complete(self) -> bool {
        forall|i: int, k: int|
            0 <= i < self.hexes@.len() && 0 <= k < 6 ==> has_vertex(
                self.vertices@,
                #[trigger] offset_pos(self.hexes@[i].pos, k),
            )
    }

    /// Edge well-formedness: distinct canonical keys, and every edge
    /// connects two vertices of the map that are true grid-neighbors.
    pub open spec fn edges_wf(self) -> bool {
        &&& edge_keys_distinct(self.edges@)
        &&& forall|j: int|
            0 <= j < self.edges@.len() ==> {
                let c = (#[trigger] self.edges@[j]).path_coords;
                &&& c.is_canonical()
                &&& has_vertex(self.vertices@, c.a)
                &&& has_vertex(self.vertices@, c.b)
                &&& adjacent(c.a, c.b)
            }
    }

    /// Edge completeness: every pair of graph-neighboring vertices of the
    /// map is connected by an edge under its canonical key.
    pub open spec fn edges_complete(self) -> bool {
        forall|i: int, j: int|
            0 <= i < self.vertices@.len() && 0 <= j < self.vertices@.len() && adjacent(
                self.vertices@[i].pos,
                self.vertices@[j].pos,
            ) ==> has_edge_key(
                self.edges@,
                #[trigger] spec_edge_key(self.vertices@[i].pos, self.vertices@[j].pos),
            )
    }

    /// The robber occupies the position of an existing hex whenever the
    /// board has any hex at all.
    pub open spec fn robber_wf(self) -> bool {
        self.hexes@.len() > 0 ==> has_hex(self.hexes@, self.robber)
    }

    /// Well-formedness of the whole board graph. An edge exists if and only
    /// if both endpoints are vertices of the map and are graph-neighbors:
    /// the "if" is `edges_complete`, the "only if" is `edges_wf`.
    pub open spec fn wf(self) -> bool {
        &&& self.hexes_wf()
        &&& self.vertices_wf()
        &&& self.vertices_complete()
        &&& self.edges_wf()
        &&& self.edges_complete()
        &&& self.robber_wf()
    }
}

/// The index of the first hex with the given position, if any.
fn find_hex_index(hexes: &Vec<Hex>, pos: Axial) -> (r: Option<usize>)
    ensures
        match r {
            Some(j) => 0 <= j < hexes@.len() && hexes@[j as int].pos == pos,
            None => !has_hex(hexes@, pos),
        },
{
    let mut j: usize = 0;
    while j < hexes.len()
        invariant
            j <= hexes@.len(),
            forall|t: int| 0 <= t < j ==> (#[trigger] hexes@[t]).pos != pos,
        decreases hexes@.len() - j,
    {
        if hexes[j].pos == pos {
            return Some(j);
        }
        j += 1;
    }
    None
}

/// The index of the first vertex with the given position, if any.
fn find_vertex_index(vs: &Vec<Vertex>, pos: Axial) -> (r: Option<usize>)
    ensures
        match r {
            Some(j) => 0 <= j < vs@.len() && vs@[j as int].pos == pos,
            None => !has_vertex(vs@, pos),
        },
{
    let mut j: usize = 0;
    while j < vs.len()
        invariant
            j <= vs@.len(),
            forall|t: int| 0 <= t < j ==> (#[trigger] vs@[t]).pos != pos,
        decreases vs@.len() - j,
    {
        if vs[j].pos == pos {
            return Some(j);
        }
        j += 1;
    }
    None
}

/// The index of the first edge with the given canonical key, if any.
fn find_edge_index(es: &Vec<Edge>, c: &EdgeCoords) -> (r: Option<usize>)
    ensures
        match r {
            Some(j) => 0 <= j < es@.len() && es@[j as int].path_coords == *c,
            None => !has_edge_key(es@, *c),
        },
{
    let mut j: usize = 0;
    while j < es.len()
        invariant
            j <= es@.len(),
            forall|t: int| 0 <= t < j ==> (#[trigger] es@[t]).path_coords != *c,
        decreases es@.len() - j,
    {
        if es[j].path_coords == *c {
            return Some(j);
        }
        j += 1;
    }
    None
}

/// The fixed seed table of the default board: nineteen tiles with their
/// resources and number tokens, the desert at the origin.
pub open spec fn spec_default_seeds() -> Seq<Hex> {
    seq![
        Hex { resource_type: Resource::Ore, number: 10i32, pos: Axial { q: 4i32, r: -2i32 } },
        Hex { resource_type: Resource::Sheep, number: 2i32, pos: Axial { q: 3i32, r: 0i32 } },
        Hex { resource_type: Resource::Wood, number: 9i32, pos: Axial { q: 2i32, r: 2i32 } },
        Hex { resource_type: Resource::Wheat, number: 12i32, pos: Axial { q: 3i32, r: -3i32 } },
        Hex { resource_type: Resource::Brick, number: 6i32, pos: Axial { q: 2i32, r: -1i32 } },
        Hex { resource_type: Resource::Sheep, number: 4i32, pos: Axial { q: 1i32, r: 1i32 } },
        Hex { resource_type: Resource::Brick, number: 10i32, pos: Axial { q: 0i32, r: 3i32 } },
        Hex { resource_type: Resource::Wheat, number: 9i32, pos: Axial { q: 2i32, r: -4i32 } },
        Hex { resource_type: Resource::Wood, number: 11i32, pos: Axial { q: 1i32, r: -2i32 } },
        Hex { resource_type: Resource::Desert, number: 0i32, pos: Axial { q: 0i32, r: 0i32 } },
        Hex { resource_type: Resource::Wood, number: 3i32, pos: Axial { q: -1i32, r: 2i32 } },
        Hex { resource_type: Resource::Ore, number: 8i32, pos: Axial { q: -2i32, r: 4i32 } },
        Hex { resource_type: Resource::Wood, number: 8i32, pos: Axial { q: 0i32, r: -3i32 } },
        Hex { resource_type: Resource::Ore, number: 3i32, pos: Axial { q: -1i32, r: -1i32 } },
        Hex { resource_type: Resource::Wheat, number: 4i32, pos: Axial { q: -2i32, r: 1i32 } },
        Hex { resource_type: Resource::Sheep, number: 5i32, pos: Axial { q: -3i32, r: 3i32 } },
        Hex { resource_type: Resource::Brick, number: 5i32, pos: Axial { q: -2i32, r: -2i32 } },
        Hex { resource_type: Resource::Wheat, number: 6i32, pos: Axial { q: -3i32, r: 0i32 } },
        Hex { resource_type: Resource::Sheep, number: 11i32, pos: Axial { q: -4i32, r: 2i32 } },
    ]
}

/// The default seed table as a vector.
pub fn default_seeds() -> (v: Vec<Hex>)
    ensures
        v@ == spec_default_seeds(),
{
    let mut v: Vec<Hex> = Vec::new();
    v.push(Hex { resource_type: Resource::Ore, number: 10, pos: Axial::new(4, -2) });
    v.push(Hex { resource_type: Resource::Sheep, number: 2, pos: Axial::new(3, 0) });
    v.push(Hex { resource_type: Resource::Wood, number: 9, pos: Axial::new(2, 2) });
    v.push(Hex { resource_type: Resource::Wheat, number: 12, pos: Axial::new(3, -3) });
    v.push(Hex { resource_type: Resource::Brick, number: 6, pos: Axial::new(2, -1) });
    v.push(Hex { resource_type: Resource::Sheep, number: 4, pos: Axial::new(1, 1) });
    v.push(Hex { resource_type: Resource::Brick, number: 10, pos: Axial::new(0, 3) });
    v.push(Hex { resource_type: Resource::Wheat, number: 9, pos: Axial::new(2, -4) });
    v.push(Hex { resource_type: Resource::Wood, number: 11, pos: Axial::new(1, -2) });
    v.push(Hex { resource_type: Resource::Desert, number: 0, pos: Axial::new(0, 0) });
    v.push(Hex { resource_type: Resource::Wood, number: 3, pos: Axial::new(-1, 2) });
    v.push(Hex { resource_type: Resource::Ore, number: 8, pos: Axial::new(-2, 4) });
    v.push(Hex { resource_type: Resource::Wood, number: 8, pos: Axial::new(0, -3) });
    v.push(Hex { resource_type: Resource::Ore, number: 3, pos: Axial::new(-1, -1) });
    v.push(Hex { resource_type: Resource::Wheat, number: 4, pos: Axial::new(-2, 1) });
    v.push(Hex { resource_type: Resource::Sheep, number: 5, pos: Axial::new(-3, 3) });
    v.push(Hex { resource_type: Resource::Brick, number: 5, pos: Axial::new(-2, -2) });
    v.push(Hex { resource_type: Resource::Wheat, number: 6, pos: Axial::new(-3, 0) });
    v.push(Hex { resource_type: Resource::Sheep, number: 11, pos: Axial::new(-4, 2) });
    proof {
        assert(v@ =~= spec_default_seeds());
    }
    v
}

/// The index of the first desert seed (resource `Desert`), or the sequence
/// length when there is none.
pub open spec fn first_desert(seeds: Seq<Hex>) -> int
    decreases seeds.len(),
{
    if seeds.len() == 0 {
        0
    } else if seeds[0].resource_type == Resource::Desert {
        0
    } else {
        1 + first_desert(seeds.drop_first())
    }
}

/// Where the robber starts: the first desert hex by convention, the first
/// hex if no seed is a desert, and the origin on an empty board.
pub open spec fn spec_robber_start(seeds: Seq<Hex>) -> Axial {
    if seeds.len() == 0 {
        Axial { q: 0i32, r: 0i32 }
    } else if first_desert(seeds) < seeds.len() {
        seeds[first_desert(seeds)].pos
    } else {
        seeds[0].pos
    }
}

/// `first_desert` points at a desert seed when one exists and nothing
/// before it is a desert.
pub proof fn lemma_first_desert_char(seeds: Seq<Hex>)
    ensures
        0 <= first_desert(seeds) <= seeds.len(),
        first_desert(seeds) < seeds.len() ==> seeds[first_desert(seeds)].resource_type
            == Resource::Desert,
        forall|u: int|
            0 <= u < first_desert(seeds) ==> (#[trigger] seeds[u]).resource_type
                != Resource::Desert,
    decreases seeds.len(),
{
    if seeds.len() == 0 {
    } else if seeds[0].resource_type == Resource::Desert {
    } else {
        lemma_first_desert_char(seeds.drop_first());
        assert forall|u: int| 0 <= u < first_desert(seeds) implies (#[trigger] seeds[u]).resource_type
            != Resource::Desert by {
            if u >= 1 {
                assert(seeds.drop_first()[u - 1] == seeds[u]);
            }
        }
    }
}

/// Each offset's components lie in -1..=1.
proof fn lemma_offset_bounds(k: int)
    requires
        0 <= k < 6,
    ensures
        -1 <= spec_offsets()[k].q <= 1,
        -1 <= spec_offsets()[k].r <= 1,
{
}

/// The index of the first desert hex, if any.
fn find_first_desert(hexes: &Vec<Hex>) -> (r: Option<usize>)
    ensures
        match r {
            Some(j) => 0 <= j < hexes@.len() && j == first_desert(hexes@),
            None => first_desert(hexes@) >= hexes@.len(),
        },
{
    let mut j: usize = 0;
    while j < hexes.len()
        invariant
            j <= hexes@.len(),
            forall|t: int| 0 <= t < j ==> (#[trigger] hexes@[t]).resource_type != Resource::Desert,
        decreases hexes@.len() - j,
    {
        if hexes[j].resource_type == Resource::Desert {
            proof {
                lemma_first_desert_char(hexes@);
                assert(j as int == first_desert(hexes@));
            }
            return Some(j);
        }
        j += 1;
    }
    proof {
        lemma_first_desert_char(hexes@);
    }
    None
}

impl BoardData {
    /// Build the board graph from a seed list.
    ///
    /// Fails with `DuplicateHexPosition` exactly when two seeds share a
    /// position; otherwise the result is the well-formed graph of the seeds:
    /// the seeds as the hex map, one fresh vertex per distinct hex corner,
    /// one fresh edge per graph-neighboring vertex pair under its canonical
    /// key, and the robber on the first desert hex (the first hex when no
    /// seed is a desert).
    #[verifier::loop_isolation(false)]
    pub fn from_seeds(seeds: Vec<Hex>) -> (res: Result<BoardData, BoardError>)
        requires
            forall|i: int| 0 <= i < seeds@.len() ==> in_seed_range((#[trigger] seeds@[i]).pos),
        ensures
            res is Ok <==> hex_positions_distinct(seeds@),
            res is Err ==> res == Err::<BoardData, BoardError>(BoardError::DuplicateHexPosition),
            res is Ok ==> {
                let b = res->Ok_0;
                &&& b.wf()
                &&& b.hexes@ == seeds@
                &&& forall|j: int|
                    0 <= j < b.vertices@.len() ==> (#[trigger] b.vertices@[j]).build_type
                        == BuildType::Empty && b.vertices@[j].owner is None
                &&& forall|j: int|
                    0 <= j < b.edges@.len() ==> (#[trigger] b.edges@[j]).path_type == EdgeType::Empty
                &&& b.robber == spec_robber_start(seeds@)
            },
    {
        // 1. The hex map: reject duplicate seed positions.
        let mut hexes: Vec<Hex> = Vec::new();
        let mut i: usize = 0;
        while i < seeds.len()
            invariant
                i <= seeds@.len(),
                hexes@ == seeds@.subrange(0, i as int),
                hex_positions_distinct(hexes@),
            decreases seeds@.len() - i,
        {
            let pos = seeds[i].pos;
            if find_hex_index(&hexes, pos).is_some() {
                proof {
                    let j = choose|j: int| 0 <= j < hexes@.len() && (#[trigger] hexes@[j]).pos
                        == pos;
                    assert(seeds@[j].pos == seeds@[i as int].pos);
                    assert(!hex_positions_distinct(seeds@));
                }
                return Err(BoardError::DuplicateHexPosition);
            }
            let s = seeds[i];
            hexes.push(s);
            proof {
                assert(hexes@ =~= seeds@.subrange(0, i as int + 1));
            }
            i += 1;
        }
        proof {
            assert(hexes@ =~= seeds@);
        }

        // 2. The vertex map: one fresh vertex per distinct hex corner.
        let offs: Vec<Axial> = offsets();
        let mut vertices: Vec<Vertex> = Vec::new();
        let mut hi: usize = 0;
        while hi < hexes.len()
            invariant
                hi <= hexes@.len(),
                vertex_positions_distinct(vertices@),
                forall|j: int|
                    0 <= j < vertices@.len() ==> in_vertex_range((#[trigger] vertices@[j]).pos),
                forall|j: int|
                    0 <= j < vertices@.len() ==> (#[trigger] vertices@[j]).build_type
                        == BuildType::Empty && vertices@[j].owner is None,
                forall|j: int|
                    0 <= j < vertices@.len() ==> exists|t: int, k: int|
                        0 <= t < hexes@.len() && 0 <= k < 6 && is_neighbor_by(
                            hexes@[t].pos,
                            (#[trigger] vertices@[j]).pos,
                            k,
                        ),
                forall|t: int, k: int|
                    0 <= t < hi && 0 <= k < 6 ==> has_vertex(
                        vertices@,
                        #[trigger] offset_pos(hexes@[t].pos, k),
                    ),
            decreases hexes@.len() - hi,
        {
            let hpos = hexes[hi].pos;
            let mut k: usize = 0;
            while k < 6
                invariant
                    k <= 6,
                    hi < hexes@.len(),
                    vertex_positions_distinct(vertices@),
                    forall|j: int|
                        0 <= j < vertices@.len() ==> in_vertex_range((#[trigger] vertices@[j]).pos),
                    forall|j: int|
                        0 <= j < vertices@.len() ==> (#[trigger] vertices@[j]).build_type
                            == BuildType::Empty && vertices@[j].owner is None,
                    forall|j: int|
                        0 <= j < vertices@.len() ==> exists|t: int, kk: int|
                            0 <= t < hexes@.len() && 0 <= kk < 6 && is_neighbor_by(
                                hexes@[t].pos,
                                (#[trigger] vertices@[j]).pos,
                                kk,
                            ),
                    forall|t: int, kk: int|
                        0 <= t < hi && 0 <= kk < 6 ==> has_vertex(
                            vertices@,
                            #[trigger] offset_pos(hexes@[t].pos, kk),
                        ),
                    forall|kk: int|
                        0 <= kk < k ==> has_vertex(
                            vertices@,
                            #[trigger] offset_pos(hexes@[hi as int].pos, kk),
                        ),
                decreases 6 - k,
            {
                proof {
                    lemma_offset_bounds(k as int);
                }
                let corner = hpos.add(&offs[k]);
                proof {
                    assert(corner == offset_pos(hexes@[hi as int].pos, k as int));
                }
                if find_vertex_index(&vertices, corner).is_none() {
                    let ghost ov = vertices@;
                    vertices.push(Vertex::new(corner, BuildType::Empty, None));
                    proof {
                        assert forall|i1: int, j1: int|
                            0 <= i1 < j1 < vertices@.len() implies (#[trigger] vertices@[i1]).pos
                            != (#[trigger] vertices@[j1]).pos by {
                            if j1 < ov.len() {
                                assert(vertices@[i1] == ov[i1] && vertices@[j1] == ov[j1]);
                            } else {
                                assert(vertices@[i1] == ov[i1]);
                                assert(vertices@[j1].pos == corner);
                            }
                        }
                        assert(is_neighbor_by(hexes@[hi as int].pos, corner, k as int));
                        assert forall|t: int, kk: int|
                            0 <= t < hi && 0 <= kk < 6 implies has_vertex(
                            vertices@,
                            #[trigger] offset_pos(hexes@[t].pos, kk),
                        ) by {
                            assert(has_vertex(ov, offset_pos(hexes@[t].pos, kk)));
                            let w = choose|w: int| 0 <= w < ov.len() && (#[trigger] ov[w]).pos
                                == offset_pos(hexes@[t].pos, kk);
                            assert(vertices@[w] == ov[w]);
                        }
                        assert forall|kk: int| 0 <= kk < k implies has_vertex(
                            vertices@,
                            #[trigger] offset_pos(hexes@[hi as int].pos, kk),
                        ) by {
                            assert(has_vertex(ov, offset_pos(hexes@[hi as int].pos, kk)));
                            let w = choose|w: int| 0 <= w < ov.len() && (#[trigger] ov[w]).pos
                                == offset_pos(hexes@[hi as int].pos, kk);
                            assert(vertices@[w] == ov[w]);
                        }
                        assert(vertices@[vertices@.len() - 1].pos == corner);
                        assert(has_vertex(vertices@, offset_pos(hexes@[hi as int].pos, k as int)));
                    }
                }
                k += 1;
            }
            hi += 1;
        }

        // 3. The edge map: one fresh edge per graph-neighboring vertex pair.
        let mut edges: Vec<Edge> = Vec::new();
        let mut vi: usize = 0;
        while vi < vertices.len()
            invariant
                vi <= vertices@.len(),
                edge_keys_distinct(edges@),
                forall|j: int|
                    0 <= j < edges@.len() ==> {
                        let c = (#[trigger] edges@[j]).path_coords;
                        &&& c.is_canonical()
                        &&& has_vertex(vertices@, c.a)
                        &&& has_vertex(vertices@, c.b)
                        &&& adjacent(c.a, c.b)
                        &&& edges@[j].path_type == EdgeType::Empty
                    },
                forall|t: int, kk: int|
                    0 <= t < vi && 0 <= kk < 6 && has_vertex(
                        vertices@,
                        #[trigger] offset_pos(vertices@[t].pos, kk),
                    ) ==> has_edge_key(
                        edges@,
                        spec_edge_key(vertices@[t].pos, offset_pos(vertices@[t].pos, kk)),
                    ),
            decreases vertices@.len() - vi,
        {
            let vpos = vertices[vi].pos;
            let mut k: usize = 0;
            while k < 6
                invariant
                    k <= 6,
                    vi < vertices@.len(),
                    vpos == vertices@[vi as int].pos,
                    edge_keys_distinct(edges@),
                    forall|j: int|
                        0 <= j < edges@.len() ==> {
                            let c = (#[trigger] edges@[j]).path_coords;
                            &&& c.is_canonical()
                            &&& has_vertex(vertices@, c.a)
                            &&& has_vertex(vertices@, c.b)
                            &&& adjacent(c.a, c.b)
                            &&& edges@[j].path_type == EdgeType::Empty
                        },
                    forall|t: int, kk: int|
                        0 <= t < vi && 0 <= kk < 6 && has_vertex(
                            vertices@,
                            #[trigger] offset_pos(vertices@[t].pos, kk),
                        ) ==> has_edge_key(
                            edges@,
                            spec_edge_key(vertices@[t].pos, offset_pos(vertices@[t].pos, kk)),
                        ),
                    forall|kk: int|
                        0 <= kk < k && has_vertex(
                            vertices@,
                            #[trigger] offset_pos(vertices@[vi as int].pos, kk),
                        ) ==> has_edge_key(
                            edges@,
                            spec_edge_key(
                                vertices@[vi as int].pos,
                                offset_pos(vertices@[vi as int].pos, kk),
                            ),
                        ),
                decreases 6 - k,
            {
                proof {
                    lemma_offset_bounds(k as int);
                }
                let adjacent_pos = vpos.add(&offs[k]);
                proof {
                    assert(adjacent_pos == offset_pos(vertices@[vi as int].pos, k as int));
                }
                if find_vertex_index(&vertices, adjacent_pos).is_some() {
                    let coords = EdgeCoords::new(vpos, adjacent_pos);
                    if find_edge_index(&edges, &coords).is_none() {
                        let ghost oe = edges@;
                        edges.push(Edge::new(coords, EdgeType::Empty));
                        proof {
                            assert(is_neighbor_by(vpos, adjacent_pos, k as int));
                            assert(adjacent(vpos, adjacent_pos));
                            lemma_adjacent_symmetric(vpos, adjacent_pos);
                            assert forall|i1: int, j1: int|
                                0 <= i1 < j1 < edges@.len() implies (#[trigger] edges@[i1]).path_coords
                                != (#[trigger] edges@[j1]).path_coords by {
                                if j1 < oe.len() {
                                    assert(edges@[i1] == oe[i1] && edges@[j1] == oe[j1]);
                                } else {
                                    assert(edges@[i1] == oe[i1]);
                                    assert(edges@[j1].path_coords == coords);
                                }
                            }
                            assert forall|t: int, kk: int|
                                0 <= t < vi && 0 <= kk < 6 && has_vertex(
                                vertices@,
                                #[trigger] offset_pos(vertices@[t].pos, kk),
                            ) implies has_edge_key(
                                edges@,
                                spec_edge_key(vertices@[t].pos, offset_pos(vertices@[t].pos, kk)),
                            ) by {
                                let key = spec_edge_key(
                                    vertices@[t].pos,
                                    offset_pos(vertices@[t].pos, kk),
                                );
                                assert(has_edge_key(oe, key));
                                let w = choose|w: int| 0 <= w < oe.len() && (#[trigger] oe[w]).path_coords
                                    == key;
                                assert(edges@[w] == oe[w]);
                            }
                            assert forall|kk: int|
                                0 <= kk < k && has_vertex(
                                vertices@,
                                #[trigger] offset_pos(vertices@[vi as int].pos, kk),
                            ) implies has_edge_key(
                                edges@,
                                spec_edge_key(
                                    vertices@[vi as int].pos,
                                    offset_pos(vertices@[vi as int].pos, kk),
                                ),
                            ) by {
                                let key = spec_edge_key(
                                    vertices@[vi as int].pos,
                                    offset_pos(vertices@[vi as int].pos, kk),
                                );
                                assert(has_edge_key(oe, key));
                                let w = choose|w: int| 0 <= w < oe.len() && (#[trigger] oe[w]).path_coords
                                    == key;
                                assert(edges@[w] == oe[w]);
                            }
                            assert(edges@[edges@.len() - 1].path_coords == spec_edge_key(
                                vpos,
                                adjacent_pos,
                            ));
                        }
                    }
                }
                k += 1;
            }
            vi += 1;
        }

        // 4. The robber starts on the first desert hex, or the first hex.
        let robber: Axial = match find_first_desert(&hexes) {
            Some(j) => hexes[j].pos,
            None => {
                if hexes.len() > 0 {
                    hexes[0].pos
                } else {
                    Axial::new(0, 0)
                }
            },
        };

        let board = BoardData { hexes, edges, vertices, robber };
        proof {
            assert forall|i1: int, j1: int|
                0 <= i1 < board.vertices@.len() && 0 <= j1 < board.vertices@.len() && adjacent(
                board.vertices@[i1].pos,
                board.vertices@[j1].pos,
            ) implies has_edge_key(
                board.edges@,
                #[trigger] spec_edge_key(board.vertices@[i1].pos, board.vertices@[j1].pos),
            ) by {
                let k = choose|k: int| 0 <= k < 6 && #[trigger] is_neighbor_by(
                    board.vertices@[i1].pos,
                    board.vertices@[j1].pos,
                    k,
                );
                assert(board.vertices@[j1].pos == offset_pos(board.vertices@[i1].pos, k));
                assert(has_vertex(board.vertices@, offset_pos(board.vertices@[i1].pos, k)));
            }
            assert(board.robber == spec_robber_start(seeds@));
        }
        Ok(board)
    }

    /// The default board: the graph of the fixed nineteen-tile seed table,
    /// with the robber starting on the desert at the origin.
    pub fn new() -> (b: BoardData)
        ensures
            b.wf(),
            b.hexes@ == spec_default_seeds(),
            forall|j: int|
                0 <= j < b.vertices@.len() ==> (#[trigger] b.vertices@[j]).build_type
                    == BuildType::Empty && b.vertices@[j].owner is None,
            forall|j: int|
                0 <= j < b.edges@.len() ==> (#[trigger] b.edges@[j]).path_type == EdgeType::Empty,
            b.robber == (Axial { q: 0i32, r: 0i32 }),
    {
        let seeds = default_seeds();
        proof {
            assert(forall|i: int|
                0 <= i < spec_default_seeds().len() ==> in_seed_range(
                    (#[trigger] spec_default_seeds()[i]).pos,
                ));
            assert(hex_positions_distinct(spec_default_seeds()));
            lemma_first_desert_char(spec_default_seeds());
            assert(spec_default_seeds()[9].resource_type == Resource::Desert);
            assert(first_desert(spec_default_seeds()) == 9);
            assert(spec_robber_start(spec_default_seeds()) == (Axial { q: 0i32, r: 0i32 }));
        }
        match BoardData::from_seeds(seeds) {
            Ok(b) => b,
            Err(_) => {
                // unreachable: the default seed positions are pairwise distinct
                assert(false);
                BoardData {
                    hexes: Vec::new(),
                    edges: Vec::new(),
                    vertices: Vec::new(),
                    robber: Axial::new(0, 0),
                }
            },
        }
    }
}

impl BoardData {
    /// The vertex of the map at the given position; meaningful when
    /// `has_vertex` holds, and unique because vertex positions are distinct.
    pub open spec fn vertex_at(self, pos: Axial) -> Vertex {
        self.vertices@[choose|i: int|
            0 <= i < self.vertices@.len() && (#[trigger] self.vertices@[i]).pos == pos]
    }

    /// The graph-adjacent vertices of a position found by the first k
    /// offsets, in offset-table order.
    pub open spec fn adjacent_upto(self, pos: Axial, k: int) -> Seq<Vertex>
        decreases k,
    {
        if k <= 0 {
            Seq::empty()
        } else if offset_in_range(pos, k - 1) && has_vertex(self.vertices@, offset_pos(pos, k - 1)) {
            self.adjacent_upto(pos, k - 1).push(self.vertex_at(offset_pos(pos, k - 1)))
        } else {
            self.adjacent_upto(pos, k - 1)
        }
    }

    /// The vertices adjacent to a position: all six offsets applied, the
    /// subset present in the vertex map kept, in offset-table order.
    pub open spec fn spec_adjacent_vertices(self, pos: Axial) -> Seq<Vertex> {
        self.adjacent_upto(pos, 6)
    }

    /// Looking a vertex of the map up by its own position yields that
    /// vertex.
    pub proof fn lemma_vertex_at_index(self, j: int)
        requires
            vertex_positions_distinct(self.vertices@),
            0 <= j < self.vertices@.len(),
        ensures
            self.vertex_at(self.vertices@[j].pos) == self.vertices@[j],
    {
        let pos = self.vertices@[j].pos;
        assert(has_vertex(self.vertices@, pos));
        let i = choose|i: int|
            0 <= i < self.vertices@.len() && (#[trigger] self.vertices@[i]).pos == pos;
        if i < j {
            assert(self.vertices@[i].pos != self.vertices@[j].pos);
        } else if j < i {
            assert(self.vertices@[j].pos != self.vertices@[i].pos);
        }
    }

    /// A position lookup that succeeds yields a vertex of the map sitting at
    /// that position.
    pub proof fn lemma_vertex_at_pos(self, pos: Axial)
        requires
            has_vertex(self.vertices@, pos),
        ensures
            self.vertices@.contains(self.vertex_at(pos)),
            self.vertex_at(pos).pos == pos,
    {
        let i = choose|i: int|
            0 <= i < self.vertices@.len() && (#[trigger] self.vertices@[i]).pos == pos;
        assert(self.vertices@[i] == self.vertex_at(pos));
    }

    /// Everything `adjacent_upto` collects is a vertex of the map found
    /// through one of the first k offsets.
    proof fn lemma_adjacent_upto_sound(self, pos: Axial, k: int)
        requires
            vertex_positions_distinct(self.vertices@),
            0 <= k <= 6,
        ensures
            forall|w: Vertex| #[trigger]
                self.adjacent_upto(pos, k).contains(w) ==> self.vertices@.contains(w)
                    && exists|kk: int|
                    0 <= kk < k && offset_in_range(pos, kk) && has_vertex(
                        self.vertices@,
                        #[trigger] offset_pos(pos, kk),
                    ) && w == self.vertex_at(offset_pos(pos, kk)),
        decreases k,
    {
        if k > 0 {
            self.lemma_adjacent_upto_sound(pos, k - 1);
            let prev = self.adjacent_upto(pos, k - 1);
            let cur = self.adjacent_upto(pos, k);
            assert forall|w: Vertex| #[trigger]
                cur.contains(w) implies self.vertices@.contains(w) && exists|kk: int|
                0 <= kk < k && offset_in_range(pos, kk) && has_vertex(
                    self.vertices@,
                    #[trigger] offset_pos(pos, kk),
                ) && w == self.vertex_at(offset_pos(pos, kk)) by {
                let i = choose|i: int| 0 <= i < cur.len() && cur[i] == w;
                if offset_in_range(pos, k - 1) && has_vertex(self.vertices@, offset_pos(pos, k - 1)) {
                    if i < prev.len() {
                        assert(prev[i] == w);
                        assert(prev.contains(w));
                    } else {
                        assert(w == self.vertex_at(offset_pos(pos, k - 1)));
                        self.lemma_vertex_at_pos(offset_pos(pos, k - 1));
                    }
                } else {
                    assert(prev[i] == w);
                    assert(prev.contains(w));
                }
            }
        }
    }

    /// Every corner of the map found through one of the first k offsets is
    /// collected by `adjacent_upto`.
    proof fn lemma_adjacent_upto_complete(self, pos: Axial, k: int, kk: int)
        requires
            0 <= kk < k <= 6,
            offset_in_range(pos, kk),
            has_vertex(self.vertices@, offset_pos(pos, kk)),
        ensures
            self.adjacent_upto(pos, k).contains(self.vertex_at(offset_pos(pos, kk))),
        decreases k,
    {
        let cur = self.adjacent_upto(pos, k);
        let prev = self.adjacent_upto(pos, k - 1);
        if kk == k - 1 {
            assert(cur[cur.len() - 1] == self.vertex_at(offset_pos(pos, kk)));
        } else {
            self.lemma_adjacent_upto_complete(pos, k - 1, kk);
            let w = self.vertex_at(offset_pos(pos, kk));
            let i = choose|i: int| 0 <= i < prev.len() && prev[i] == w;
            assert(cur[i] == w);
        }
    }

    /// The adjacent-vertex list of a position holds exactly the vertices of
    /// the map whose positions are graph-neighbors of it.
    pub proof fn lemma_adjacent_vertices_char(self, pos: Axial)
        requires
            self.wf(),
        ensures
            forall|w: Vertex| #[trigger]
                self.spec_adjacent_vertices(pos).contains(w) <==> (self.vertices@.contains(w)
                    && adjacent(pos, w.pos)),
    {
        self.lemma_adjacent_upto_sound(pos, 6);
        assert forall|w: Vertex| #[trigger]
            self.spec_adjacent_vertices(pos).contains(w) implies (self.vertices@.contains(w)
            && adjacent(pos, w.pos)) by {
            let kk = choose|kk: int|
                0 <= kk < 6 && offset_in_range(pos, kk) && has_vertex(
                    self.vertices@,
                    #[trigger] offset_pos(pos, kk),
                ) && w == self.vertex_at(offset_pos(pos, kk));
            self.lemma_vertex_at_pos(offset_pos(pos, kk));
            assert(is_neighbor_by(pos, w.pos, kk));
        }
        assert forall|w: Vertex|
            (self.vertices@.contains(w) && adjacent(
                pos,
                w.pos,
            )) implies #[trigger] self.spec_adjacent_vertices(pos).contains(w) by {
            let kk = choose|kk: int| 0 <= kk < 6 && #[trigger] is_neighbor_by(pos, w.pos, kk);
            assert(offset_in_range(pos, kk));
            assert(w.pos == offset_pos(pos, kk));
            let i = choose|i: int|
                0 <= i < self.vertices@.len() && #[trigger] self.vertices@[i] == w;
            assert(has_vertex(self.vertices@, w.pos));
            self.lemma_vertex_at_index(i);
            self.lemma_adjacent_upto_complete(pos, 6, kk);
        }
    }

    /// Apply all six offsets to the vertex's position and return the subset
    /// of positions present in the vertex map, in the fixed offset-table
    /// order.
    #[verifier::loop_isolation(false)]
    pub fn get_adjacent_vertices(&self, v: &Vertex) -> (result: Vec<Vertex>)
        requires
            self.wf(),
        ensures
            result@ == self.spec_adjacent_vertices(v.pos),
    {
        let offs = offsets();
        let mut result: Vec<Vertex> = Vec::new();
        let mut k: usize = 0;
        while k < 6
            invariant
                k <= 6,
                result@ == self.adjacent_upto(v.pos, k as int),
            decreases 6 - k,
        {
            match v.pos.checked_add(&offs[k]) {
                Some(target) => {
                    proof {
                        assert(offset_in_range(v.pos, k as int));
                        assert(target == offset_pos(v.pos, k as int));
                    }
                    match find_vertex_index(&self.vertices, target) {
                        Some(j) => {
                            let w = self.vertices[j];
                            proof {
                                self.lemma_vertex_at_index(j as int);
                            }
                            result.push(w);
                        },
                        None => {},
                    }
                },
                None => {
                    proof {
                        assert(!offset_in_range(v.pos, k as int));
                    }
                },
            }
            k += 1;
        }
        result
    }

    /// The settlement distance rule for one vertex record: it is unowned and
    /// no vertex of the map on a graph-adjacent position is owned.
    pub open spec fn spec_is_valid_settlement(self, v: Vertex) -> bool {
        &&& v.owner is None
        &&& forall|j: int|
            0 <= j < self.vertices@.len() && adjacent(v.pos, (#[trigger] self.vertices@[j]).pos)
                ==> self.vertices@[j].owner is None
    }

    /// A vertex is a valid position for a new settlement iff it is unowned
    /// and none of its graph-adjacent vertices is owned. This is the whole
    /// legality rule: one hop, no roads, no connectivity.
    #[verifier::loop_isolation(false)]
    pub fn is_valid_settlement_coords(&self, v: &Vertex) -> (r: bool)
        requires
            self.wf(),
        ensures
            r == self.spec_is_valid_settlement(*v),
    {
        if v.owner.is_some() {
            return false;
        }
        let adj = self.get_adjacent_vertices(v);
        let mut j: usize = 0;
        while j < adj.len()
            invariant
                j <= adj@.len(),
                adj@ == self.spec_adjacent_vertices(v.pos),
                forall|t: int| 0 <= t < j ==> (#[trigger] adj@[t]).owner is None,
            decreases adj@.len() - j,
        {
            if adj[j].owner.is_some() {
                proof {
                    self.lemma_adjacent_vertices_char(v.pos);
                    let w = adj@[j as int];
                    assert(adj@.contains(w));
                    let t = choose|t: int|
                        0 <= t < self.vertices@.len() && #[trigger] self.vertices@[t] == w;
                    assert(adjacent(v.pos, self.vertices@[t].pos));
                }
                return false;
            }
            j += 1;
        }
        proof {
            self.lemma_adjacent_vertices_char(v.pos);
            assert forall|t: int|
                0 <= t < self.vertices@.len() && adjacent(
                    v.pos,
                    (#[trigger] self.vertices@[t]).pos,
                ) implies self.vertices@[t].owner is None by {
                assert(self.vertices@.contains(self.vertices@[t]));
                assert(adj@.contains(self.vertices@[t]));
                let u = choose|u: int| 0 <= u < adj@.len() && #[trigger] adj@[u]
                    == self.vertices@[t];
            }
        }
        true
    }

    /// Scan all vertices and keep those valid for a new settlement; the
    /// board is small and fixed, so every call re-scans.
    #[verifier::loop_isolation(false)]
    pub fn get_valid_settlement_coords(&self) -> (result: Vec<Vertex>)
        requires
            self.wf(),
        ensures
            result@ == self.vertices@.filter(
                |v: Vertex| self.spec_is_valid_settlement(v),
            ),
    {
        let ghost pred = |v: Vertex| self.spec_is_valid_settlement(v);
        let mut result: Vec<Vertex> = Vec::new();
        let mut i: usize = 0;
        while i < self.vertices.len()
            invariant
                i <= self.vertices@.len(),
                result@ == self.vertices@.take(i as int).filter(pred),
            decreases self.vertices@.len() - i,
        {
            let v = self.vertices[i];
            proof {
                broadcast use vstd::prelude::Seq::lemma_filter_push;

                assert(self.vertices@.take(i as int + 1) =~= self.vertices@.take(i as int).push(
                    v,
                ));
            }
            if self.is_valid_settlement_coords(&v) {
                result.push(v);
            }
            i += 1;
        }
        proof {
            assert(self.vertices@.take(self.vertices@.len() as int) =~= self.vertices@);
        }
        result
    }
}

/// Occupancy mutations touch no position: a board that keeps all its hexes,
/// all its edge keys, all its vertex positions and its robber is still
/// well-formed, whatever happened to building and road occupancies.
pub proof fn lemma_wf_positions_preserved(pre: BoardData, post: BoardData)
    requires
        pre.wf(),
        post.hexes@ == pre.hexes@,
        post.robber == pre.robber,
        post.vertices@.len() == pre.vertices@.len(),
        forall|j: int|
            0 <= j < pre.vertices@.len() ==> (#[trigger] post.vertices@[j]).pos
                == pre.vertices@[j].pos,
        post.edges@.len() == pre.edges@.len(),
        forall|j: int|
            0 <= j < pre.edges@.len() ==> (#[trigger] post.edges@[j]).path_coords
                == pre.edges@[j].path_coords,
    ensures
        post.wf(),
{
    assert forall|j: int|
        0 <= j < post.vertices@.len() implies in_vertex_range((#[trigger] post.vertices@[j]).pos)
        && exists|i: int, k: int|
        0 <= i < post.hexes@.len() && 0 <= k < 6 && is_neighbor_by(
            post.hexes@[i].pos,
            post.vertices@[j].pos,
            k,
        ) by {
        assert(pre.vertices@[j].pos == post.vertices@[j].pos);
    }
    assert forall|i: int, k: int|
        0 <= i < post.hexes@.len() && 0 <= k < 6 implies has_vertex(
        post.vertices@,
        #[trigger] offset_pos(post.hexes@[i].pos, k),
    ) by {
        assert(has_vertex(pre.vertices@, offset_pos(pre.hexes@[i].pos, k)));
        let w = choose|w: int|
            0 <= w < pre.vertices@.len() && (#[trigger] pre.vertices@[w]).pos == offset_pos(
                pre.hexes@[i].pos,
                k,
            );
        assert(post.vertices@[w].pos == offset_pos(post.hexes@[i].pos, k));
    }
    assert forall|j: int| 0 <= j < post.edges@.len() implies {
        let c = (#[trigger] post.edges@[j]).path_coords;
        &&& c.is_canonical()
        &&& has_vertex(post.vertices@, c.a)
        &&& has_vertex(post.vertices@, c.b)
        &&& adjacent(c.a, c.b)
    } by {
        let c = pre.edges@[j].path_coords;
        assert(has_vertex(pre.vertices@, c.a) && has_vertex(pre.vertices@, c.b));
        let wa = choose|w: int|
            0 <= w < pre.vertices@.len() && (#[trigger] pre.vertices@[w]).pos == c.a;
        let wb = choose|w: int|
            0 <= w < pre.vertices@.len() && (#[trigger] pre.vertices@[w]).pos == c.b;
        assert(post.vertices@[wa].pos == c.a && post.vertices@[wb].pos == c.b);
    }
    assert forall|i: int, j: int|
        0 <= i < post.vertices@.len() && 0 <= j < post.vertices@.len() && adjacent(
            post.vertices@[i].pos,
            post.vertices@[j].pos,
        ) implies has_edge_key(
        post.edges@,
        #[trigger] spec_edge_key(post.vertices@[i].pos, post.vertices@[j].pos),
    ) by {
        let key = spec_edge_key(pre.vertices@[i].pos, pre.vertices@[j].pos);
        assert(pre.vertices@[i].pos == post.vertices@[i].pos);
        assert(pre.vertices@[j].pos == post.vertices@[j].pos);
        assert(has_edge_key(pre.edges@, key));
        let w = choose|w: int|
            0 <= w < pre.edges@.len() && (#[trigger] pre.edges@[w]).path_coords == key;
        assert(post.edges@[w].path_coords == key);
    }
    if post.hexes@.len() > 0 {
        let w = choose|w: int|
            0 <= w < pre.hexes@.len() && (#[trigger] pre.hexes@[w]).pos == pre.robber;
        assert(post.hexes@[w].pos == post.robber);
    }
}

impl BoardData {
    /// Set the building occupancy of the vertex at the given position.
    ///
    /// Legality is the caller's responsibility: the only check is that the
    /// position exists in the vertex map; an unknown position is rejected
    /// with `UnknownPosition` and the board is left unchanged.
    pub fn set_building(&mut self, pos: Axial, build_type: BuildType, owner: Option<i32>) -> (res:
        Result<(), BoardError>)
        requires
            old(self).wf(),
        ensures
            final(self).wf(),
            res is Ok <==> has_vertex(old(self).vertices@, pos),
            res is Err ==> res == Err::<(), BoardError>(BoardError::UnknownPosition) && *final(self)
                == *old(self),
            res is Ok ==> {
                &&& final(self).hexes@ == old(self).hexes@
                &&& final(self).edges@ == old(self).edges@
                &&& final(self).robber == old(self).robber
                &&& exists|j: int|
                    0 <= j < old(self).vertices@.len() && (#[trigger] old(self).vertices@[j]).pos
                        == pos && final(self).vertices@ == old(self).vertices@.update(
                        j,
                        (Vertex { pos, build_type, owner }),
                    )
            },
    {
        match find_vertex_index(&self.vertices, pos) {
            Some(j) => {
                self.vertices[j] = Vertex::new(pos, build_type, owner);
                proof {
                    lemma_wf_positions_preserved(*old(self), *self);
                }
                Ok(())
            },
            None => Err(BoardError::UnknownPosition),
        }
    }

    /// Set the road occupancy of the edge between two positions, named in
    /// either order (the key is canonicalized).
    ///
    /// The only check is that the canonical pair exists in the edge map; an
    /// unknown pair is rejected with `UnknownPosition` and the board is left
    /// unchanged.
    pub fn set_road(&mut self, a: Axial, b: Axial, path_type: EdgeType) -> (res: Result<
        (),
        BoardError,
    >)
        requires
            old(self).wf(),
        ensures
            final(self).wf(),
            res is Ok <==> has_edge_key(old(self).edges@, spec_edge_key(a, b)),
            res is Err ==> res == Err::<(), BoardError>(BoardError::UnknownPosition) && *final(self)
                == *old(self),
            res is Ok ==> {
                &&& final(self).hexes@ == old(self).hexes@
                &&& final(self).vertices@ == old(self).vertices@
                &&& final(self).robber == old(self).robber
                &&& exists|j: int|
                    0 <= j < old(self).edges@.len() && (#[trigger] old(self).edges@[j]).path_coords
                        == spec_edge_key(a, b) && final(self).edges@ == old(self).edges@.update(
                        j,
                        (Edge { path_coords: spec_edge_key(a, b), path_type }),
                    )
            },
    {
        let coords = EdgeCoords::new(a, b);
        match find_edge_index(&self.edges, &coords) {
            Some(j) => {
                self.edges[j] = Edge::new(coords, path_type);
                proof {
                    lemma_wf_positions_preserved(*old(self), *self);
                }
                Ok(())
            },
            None => Err(BoardError::UnknownPosition),
        }
    }

    /// Relocate the robber to the hex at the given position.
    ///
    /// The only check is that the position exists in the hex map; an unknown
    /// position is rejected with `UnknownPosition` and the board is left
    /// unchanged.
    pub fn move_robber(&mut self, pos: Axial) -> (res: Result<(), BoardError>)
        requires
            old(self).wf(),
        ensures
            final(self).wf(),
            res is Ok <==> has_hex(old(self).hexes@, pos),
            res is Err ==> res == Err::<(), BoardError>(BoardError::UnknownPosition) && *final(self)
                == *old(self),
            res is Ok ==> *final(self) == (BoardData {
                robber: pos,
                ..*old(self)
            }),
    {
        match find_hex_index(&self.hexes, pos) {
            Some(_) => {
                self.robber = pos;
                Ok(())
            },
            None => Err(BoardError::UnknownPosition),
        }
    }
}

/// Vertex completeness: on a well-formed board, every hex's position plus
/// every offset is present in the vertex map.
pub proof fn lemma_vertex_completeness(b: BoardData, i: int, k: int)
    requires
        b.wf(),
        0 <= i < b.hexes@.len(),
        0 <= k < 6,
    ensures
        has_vertex(b.vertices@, offset_pos(b.hexes@[i].pos, k)),
{
}

/// Neighbor symmetry: for every edge (a, b) of a well-formed board, the
/// vertex at b is among the adjacent vertices of a, and the vertex at a is
/// among the adjacent vertices of b.
pub proof fn lemma_neighbor_symmetry(b: BoardData, j: int)
    requires
        b.wf(),
        0 <= j < b.edges@.len(),
    ensures
        b.spec_adjacent_vertices(b.edges@[j].path_coords.a).contains(
            b.vertex_at(b.edges@[j].path_coords.b),
        ),
        b.spec_adjacent_vertices(b.edges@[j].path_coords.b).contains(
            b.vertex_at(b.edges@[j].path_coords.a),
        ),
{
    let c = b.edges@[j].path_coords;
    b.lemma_vertex_at_pos(c.a);
    b.lemma_vertex_at_pos(c.b);
    lemma_adjacent_symmetric(c.a, c.b);
    b.lemma_adjacent_vertices_char(c.a);
    b.lemma_adjacent_vertices_char(c.b);
}

/// The edge map of a well-formed board holds exactly one entry per
/// unordered endpoint pair: two entries naming the same pair are one entry.
pub proof fn lemma_one_edge_per_pair(b: BoardData, i: int, j: int)
    requires
        b.wf(),
        0 <= i < b.edges@.len(),
        0 <= j < b.edges@.len(),
        b.edges@[i].path_coords.same_pair(b.edges@[j].path_coords),
    ensures
        i == j,
{
    crate::edge::lemma_canonical_key_unique(b.edges@[i].path_coords, b.edges@[j].path_coords);
}

/// The settlement distance rule, on a board with exactly one owned vertex
/// (at index j0): that vertex is not a valid settlement position, no vertex
/// graph-adjacent to it is, and every other vertex is.
pub proof fn lemma_settlement_distance_rule(b: BoardData, j0: int, j: int)
    requires
        b.wf(),
        0 <= j0 < b.vertices@.len(),
        b.vertices@[j0].owner is Some,
        forall|t: int|
            0 <= t < b.vertices@.len() && (#[trigger] b.vertices@[t]).owner is Some ==> t == j0,
        0 <= j < b.vertices@.len(),
    ensures
        !b.spec_is_valid_settlement(b.vertices@[j0]),
        adjacent(b.vertices@[j0].pos, b.vertices@[j].pos) ==> !b.spec_is_valid_settlement(
            b.vertices@[j],
        ),
        j != j0 && !adjacent(b.vertices@[j0].pos, b.vertices@[j].pos)
            ==> b.spec_is_valid_settlement(b.vertices@[j]),
{
    let v0 = b.vertices@[j0];
    let v = b.vertices@[j];
    if adjacent(v0.pos, v.pos) {
        lemma_adjacent_symmetric(v0.pos, v.pos);
        assert(adjacent(v.pos, b.vertices@[j0].pos));
        assert(!b.spec_is_valid_settlement(v));
    }
    if j != j0 && !adjacent(v0.pos, v.pos) {
        assert(v.owner is None);
        assert forall|t: int|
            0 <= t < b.vertices@.len() && adjacent(
                v.pos,
                (#[trigger] b.vertices@[t]).pos,
            ) implies b.vertices@[t].owner is None by {
            if b.vertices@[t].owner is Some {
                assert(t == j0);
                lemma_adjacent_symmetric(v.pos, b.vertices@[t].pos);
            }
        }
    }
}

} // verus!

