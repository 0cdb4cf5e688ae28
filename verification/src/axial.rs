use core::cmp::Ordering;
use vstd::arithmetic::div_mod::{lemma_fundamental_div_mod, lemma_fundamental_div_mod_converse};
use vstd::prelude::*;

verus! {

/// Milliunits of planar distance per step of the r coordinate along the
/// planar x axis: the hex circumradius of 60 world units, times 1000.
pub const SCALE_X_MILLI: i64 = 60000;

/// Milliunits of planar distance per step of 2*q + r along the planar y
/// axis: 60000 divided by the square root of 3, rounded to the nearest
/// milliunit.
pub const SCALE_Y_MILLI: i64 = 34641;

/// An axial coordinate on the hexagonal lattice: a pair of signed integers
/// (q, r). Any integer pair is a valid coordinate; the same type addresses
/// both hex cells and the finer grid of hex corners.
#[derive(Clone, Copy, Debug, PartialEq, Eq, Structural, Hash, Ord)]
pub struct Axial {
    pub q: i32,
    pub r: i32,
}

impl Axial {
    /// Lexicographic order on (q, r). It is used only to canonicalize the
    /// endpoint pair of an undirected edge; it carries no geometric meaning.
    pub open spec fn spec_lt(self, other: Axial) -> bool {
        self.q < other.q || (self.q == other.q && self.r < other.r)
    }

    pub fn new(q: i32, r: i32) -> (a: Axial)
        ensures
            a.q == q,
            a.r == r,
    {
        Axial { q, r }
    }

    /// Component-wise sum; the mechanism for applying a neighbor offset.
    pub fn add(&self, other: &Axial) -> (a: Axial)
        requires
            i32::MIN <= self.q + other.q <= i32::MAX,
            i32::MIN <= self.r + other.r <= i32::MAX,
        ensures
            a.q == self.q + other.q,
            a.r == self.r + other.r,
    {
        Axial { q: self.q + other.q, r: self.r + other.r }
    }

    /// Component-wise sum when both components stay inside i32, and None
    /// otherwise: a neighbor beyond the edge of the coordinate range does
    /// not exist as a representable position.
    pub fn checked_add(&self, other: &Axial) -> (r: Option<Axial>)
        ensures
            r is Some <==> (i32::MIN <= self.q + other.q <= i32::MAX && i32::MIN <= self.r + other.r
                <= i32::MAX),
            r is Some ==> r->0.q == self.q + other.q && r->0.r == self.r + other.r,
    {
        match (self.q.checked_add(other.q), self.r.checked_add(other.r)) {
            (Some(q), Some(r)) => Some(Axial { q, r }),
            _ => None,
        }
    }

    /// The deterministic forward projection to a planar render position, in
    /// milliunits (see `spec_to_planar_x` for the derivation of the shared
    /// closed form).
    pub fn get_cartesian(&self) -> (p: PlanarPos)
        ensures
            p.x == spec_to_planar_x(*self),
            p.y == spec_to_planar_y(*self),
    {
        let x: i64 = (self.r as i64) * SCALE_X_MILLI;
        let y: i64 = (2 * (self.q as i64) + (self.r as i64)) * SCALE_Y_MILLI;
        PlanarPos { x, y }
    }

    /// The inverse projection, for hit-testing: recover the axial coordinate
    /// nearest to a planar position. It inverts the same closed form that
    /// `get_cartesian` computes, so the round trip is exact on every lattice
    /// point (`lemma_projection_round_trip`). The bounds keep the recovered
    /// coordinate inside i32 and the intermediate products inside i64.
    pub fn get_axial(world_pos: PlanarPos) -> (a: Axial)
        requires
            -0x0800_0000_0000_0000 <= world_pos.x <= 0x0800_0000_0000_0000,
            -0x0800_0000_0000_0000 <= world_pos.y <= 0x0800_0000_0000_0000,
            i32::MIN <= spec_from_planar_r(world_pos.x as int) <= i32::MAX,
            i32::MIN <= spec_from_planar_q(world_pos.x as int, world_pos.y as int) <= i32::MAX,
        ensures
            a.r == spec_from_planar_r(world_pos.x as int),
            a.q == spec_from_planar_q(world_pos.x as int, world_pos.y as int),
    {
        let r_rec: i64 = round_div(world_pos.x, SCALE_X_MILLI);
        let q_rec: i64 = round_div(world_pos.y - r_rec * SCALE_Y_MILLI, 2 * SCALE_Y_MILLI);
        Axial { q: q_rec as i32, r: r_rec as i32 }
    }
}

/// For every positive divisor, rounding division is exact on multiples:
/// round_div_spec(k * b, b) == k.
pub proof fn lemma_round_div_exact(k: int, b: int)
    requires
        b > 0,
    ensures
        round_div_spec(k * b, b) == k,
{
    assert(2 * (k * b) + b == k * (2 * b) + b) by (nonlinear_arith);
    lemma_fundamental_div_mod_converse(2 * (k * b) + b, 2 * b, k, b);
}

/// Round-trip projection: recovering an axial coordinate from its own planar
/// projection yields the coordinate back exactly, for every integer pair.
pub proof fn lemma_projection_round_trip(a: Axial)
    ensures
        spec_from_planar_r(spec_to_planar_x(a)) == a.r,
        spec_from_planar_q(spec_to_planar_x(a), spec_to_planar_y(a)) == a.q,
{
    lemma_round_div_exact(a.r as int, SCALE_X_MILLI as int);
    assert(spec_to_planar_y(a) - a.r * (SCALE_Y_MILLI as int) == a.q * (2 * (SCALE_Y_MILLI as int)))
        by (nonlinear_arith);
    lemma_round_div_exact(a.q as int, 2 * (SCALE_Y_MILLI as int));
}

/// A planar render position in fixed-point milliunits: 1000 milliunits make
/// one world unit, so `x == 60000` stands for the world coordinate 60.0.
#[derive(Clone, Copy, Debug, PartialEq, Eq, Structural, Hash)]
pub struct PlanarPos {
    pub x: i64,
    pub y: i64,
}

/// The integer nearest to a / b for a positive divisor b, with halves rounded
/// up: the Euclidean quotient of 2*a + b by 2*b.
pub open spec fn round_div_spec(a: int, b: int) -> int
    recommends
        b > 0,
{
    (2 * a + b) / (2 * b)
}

/// The planar x coordinate of an axial coordinate, in milliunits.
///
/// The projection uses the flat-top basis vector l = (cos 30, sin 30): the
/// intermediate point a2 = l + perp(l) * q with perp(l) = (-l.y, l.x), and
/// y = tan 30 * (r - a2.x) + a2.y. Substituting cos 30 = sqrt(3)/2 and
/// sin 30 = 1/2 collapses that affine system to the closed form
/// (x, y) = (60 * r, 60 * (2*q + r) / sqrt(3)) for circumradius 60, which
/// both directions of the projection share.
pub open spec fn spec_to_planar_x(a: Axial) -> int {
    a.r * (SCALE_X_MILLI as int)
}

/// The planar y coordinate of an axial coordinate, in milliunits.
pub open spec fn spec_to_planar_y(a: Axial) -> int {
    (2 * a.q + a.r) * (SCALE_Y_MILLI as int)
}

/// The r coordinate recovered from a planar x coordinate: the nearest
/// multiple of the x scale.
pub open spec fn spec_from_planar_r(x: int) -> int {
    round_div_spec(x, SCALE_X_MILLI as int)
}

/// The q coordinate recovered from a planar position: solve
/// y = (2*q + r) * scale for q with the recovered r substituted in, then
/// round to the nearest integer.
pub open spec fn spec_from_planar_q(x: int, y: int) -> int {
    round_div_spec(y - spec_from_planar_r(x) * (SCALE_Y_MILLI as int), 2 * (SCALE_Y_MILLI as int))
}

/// Division of an i64 by a positive divisor, rounded to the nearest integer
/// (halves toward positive infinity).
fn round_div(a: i64, b: i64) -> (r: i64)
    requires
        0 < b <= 0x8000_0000,
        -0x1000_0000_0000_0000 <= a <= 0x1000_0000_0000_0000,
    ensures
        r == round_div_spec(a as int, b as int),
{
    let m: i64 = 2 * a + b;
    let d: i64 = 2 * b;
    if m >= 0 {
        let q: u64 = (m as u64) / (d as u64);
        proof {
            lemma_fundamental_div_mod(m as int, d as int);
            assert((m as int) % (d as int) >= 0);
            assert((m as int) / (d as int) >= 0 && (d as int) * ((m as int) / (d as int)) <= m as int);
            assert((m as int) / (d as int) <= m as int) by (nonlinear_arith)
                requires
                    d as int >= 2,
                    (m as int) / (d as int) >= 0,
                    (d as int) * ((m as int) / (d as int)) <= m as int,
            ;
        }
        q as i64
    } else {
        let n: i64 = -m;
        let q: u64 = ((n as u64) + (d as u64) - 1) / (d as u64);
        proof {
            let ni = n as int;
            let di = d as int;
            let k = (ni + di - 1) / di;
            lemma_fundamental_div_mod(ni + di - 1, di);
            assert((ni + di - 1) % di >= 0);
            assert(di * k <= ni + di - 1 && ni + di - 1 < di * k + di);
            assert(k >= 0 && di * k >= ni - di) by (nonlinear_arith)
                requires
                    di >= 2,
                    ni >= 1,
                    di * k <= ni + di - 1,
                    ni + di - 1 < di * k + di,
            ;
            assert((-ni) == (-k) * di + (di * k - ni)) by (nonlinear_arith);
            lemma_fundamental_div_mod_converse(-ni, di, -k, di * k - ni);
            assert((-ni) / di == -k);
            assert(k <= ni) by (nonlinear_arith)
                requires
                    di >= 2,
                    ni >= 1,
                    k >= 0,
                    di * k <= ni + di - 1,
            ;
        }
        -(q as i64)
    }
}

impl PartialOrd for Axial {
    fn partial_cmp(&self, other: &Axial) -> (r: Option<Ordering>) {
        if self.q < other.q || (self.q == other.q && self.r < other.r) {
            Some(Ordering::Less)
        } else if self.q == other.q && self.r == other.r {
            Some(Ordering::Equal)
        } else {
            Some(Ordering::Greater)
        }
    }
}

impl vstd::std_specs::cmp::PartialOrdSpecImpl for Axial {
    open spec fn obeys_partial_cmp_spec() -> bool {
        true
    }

    open spec fn partial_cmp_spec(&self, other: &Axial) -> Option<Ordering> {
        if self.spec_lt(*other) {
            Some(Ordering::Less)
        } else if *self == *other {
            Some(Ordering::Equal)
        } else {
            Some(Ordering::Greater)
        }
    }
}

} // verus!

