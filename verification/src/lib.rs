//! A hexagonal board model for a Catan-style game.
//!
//! The board lives on an axial integer lattice. Hex tiles, the vertices at
//! their corners and the undirected edges between adjacent vertices form a
//! graph that is derived deterministically from a seed list of tiles. The
//! crate also carries the projection between axial coordinates and planar
//! render positions, expressed in fixed-point milliunits so that the whole
//! model stays within integer arithmetic.

pub mod axial;
pub mod board_data;
pub mod edge;
pub mod hex;
pub mod pickable_pos;
pub mod vertex;
