//! Turns a two-colour grid picture (a QR code) into a closed triangle mesh.
//!
//! The two colours a picture uses most are found and named (`palette`); the
//! picture is sampled into a boolean occupancy grid (`sampler`); then every
//! raised cell of the grid is turned into a block whose side walls are left
//! out wherever a raised neighbour already continues the surface (`mesh`).
//! The mesh lives on an integer lattice of cell corners, so cells that touch
//! share their corners exactly. What holds of every such mesh is proved in
//! `laws`.

pub mod laws;
pub mod mesh;
pub mod palette;
pub mod sampler;
