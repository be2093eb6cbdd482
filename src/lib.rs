//! Isobands by marching squares: for a rectangular grid of samples and a list
//! of thresholds, the closed rings that bound the region whose values fall
//! between each pair of adjacent thresholds.
//!
//! Samples are handled through their order alone (see [`Sample`]), and the
//! points of a ring are exact symbolic positions: a grid vertex, or the place
//! on a grid edge where linear interpolation between the two end samples meets
//! a threshold (see [`RingPoint`]). Evaluating those positions to coordinates
//! is left to the caller.
pub mod sample;
pub mod grid;
pub mod errors;
pub mod shape;
pub mod quadtree;
pub mod trace;
pub mod polygons;
pub mod isobands;

pub use crate::sample::{Level, Sample, Settings};
pub use crate::grid::{BorrowedGrid, Grid, GridCoord};
pub use crate::quadtree::{QuadTree, TreeNode};
pub use crate::trace::{CellGrid, GridInterpolation, GridPoint, Ring, RingPoint};
pub use crate::polygons::{PolygonPlan, assemble_polygons, sort_by_area};
pub use crate::errors::{Error, ErrorKind};
pub use crate::isobands::{band_rings, band_settings, isobands};
pub use crate::shape::{Cell, CellPoint, Corner, Edge, EnterType, InterpKind, Interpolation, MoveInfo, Side, prepare_cell};
