//! A simplified dual-contouring surface extractor.
//!
//! The engine scans an integer lattice region, samples the sign of a caller
//! supplied scalar field at cell corners, emits one vertex per cell whose
//! corner signs change along a fixed edge traversal, and stitches neighboring
//! active cells into quads whose winding follows the local field sign.

pub mod field;
pub mod lattice;
pub mod mesh;
pub mod sampler;

pub use field::DCInput;
pub use field::Sign;
pub use lattice::Axis;
pub use lattice::DCBounds;
pub use lattice::LatticePoint;
pub use mesh::DCError;
pub use mesh::DCOutput;
pub use mesh::create_quad;
pub use mesh::dc_meshing;
pub use mesh::dc_meshing_lenient;
pub use sampler::GridSampler;
