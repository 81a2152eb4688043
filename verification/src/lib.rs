//! Host-side core of a physically based renderer.
//!
//! The crate owns a flattened scene representation addressed through small
//! tagged integer handles, a top-down surface-area-heuristic BVH builder, a
//! light-importance sampler built with Vose's alias method, and an adaptive
//! path-guiding structure (a binary spatial partition whose leaves own
//! directional quad-trees).
//!
//! All geometry, power and flux values are carried as fixed-point integers,
//! so every quantity the algorithms reason about is exact.

pub mod guide;
pub mod handle;
pub mod ply;
pub mod scene;
pub mod shader;
pub mod util;
