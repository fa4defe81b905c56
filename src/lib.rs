//! Procedural voxel landscapes: a fractal height field is normalised,
//! classified into terrain bands and extruded into columns of voxels.
//!
//! Real-valued quantities are held in fixed point: the real number `1.0`
//! is the integer [`UNIT`].
use vstd::prelude::*;

pub mod color_map;
pub mod noise_map;
pub mod mesh_map;

verus! {

/// The fixed-point unit: `UNIT` stands for the real number one.
pub const UNIT: u32 = 1_000_000;

/// An integer displacement in the plane.
#[derive(Clone, Copy, Debug, PartialEq, Eq, Structural)]
pub struct Vector2D {
    pub x: i64,
    pub y: i64,
}

/// Why building, classifying or rendering a map failed.
#[derive(Clone, Copy, Debug, PartialEq, Eq, Structural)]
pub enum MapError {
    /// The noise scale is not positive.
    InvalidScale,
    /// A mesh was built without a noise map.
    MissingNoiseMap,
    /// A mesh was built without a colour map.
    MissingColorMap,
    /// Two grids that must have the same extent do not.
    DimensionMismatch,
    /// No threshold band covers the height of cell `(x, y)`.
    Uncovered { x: u32, y: u32 },
    /// No level band covers `level` in the column at `(x, y)`.
    Unclassified { x: u32, y: u32, level: u64 },
    /// The voxel store refused the voxel at `(x, y, z)`.
    Rejected { x: u32, y: u32, z: u64 },
}

/// `g` is a grid of `w` columns of `h` cells each, indexed `g[x][y]`.
pub open spec fn is_grid<T>(g: Seq<Vec<T>>, w: int, h: int) -> bool {
    g.len() == w && forall|x: int| 0 <= x < w ==> (#[trigger] g[x])@.len() == h
}

} // verus!
