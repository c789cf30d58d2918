//! The verified core of an offline path tracer.
//!
//! The crate holds the parts of the renderer that decide and arrange: intervals
//! and bounding boxes, the bounding-volume hierarchy and its traversal, the
//! choice of an intersection root, the outcome of a scattering event, the steps
//! of a light path, and the encoding of a finished picture. Scalars are held as
//! ranks (see [`scalar`]); the arithmetic that produces them belongs to the
//! embedding program, which hands its results in as plain values or through
//! closures.

pub mod scalar;
pub mod vector;
pub mod ray;
pub mod aabb;
pub mod hittable;
pub mod order;
pub mod bvh;
pub mod closest;
pub mod shapes;
pub mod material;
pub mod tracer;
pub mod common;
pub mod color;
pub mod canvas;
pub mod ppm;
pub mod encode;
