//! Core of a Monte-Carlo path tracer: the raster/pixel bookkeeping, the
//! dispatcher state machine that fans pixel batches out to workers, the
//! bounding-volume hierarchy over the scene's shapes, the Perlin permutation
//! tables, and the scene-loading table checks.
//!
//! Geometry in this crate is carried in a totally ordered integer encoding of
//! the host's coordinates; the host maps its own coordinate type into `i64`
//! with any order-preserving embedding and keeps all real-valued arithmetic
//! (ray-surface intersection, shading, colors) on its side.

pub mod bvh;
pub mod dispatch;
pub mod perlin;
pub mod raster;
pub mod scene;

pub use raster::ImageParams;
