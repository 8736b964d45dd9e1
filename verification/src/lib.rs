//! A path-tracing kernel: vectors and bounding boxes, rays, triangles and
//! meshes, a bounding-volume hierarchy with nearest-hit traversal and
//! area-weighted sampling, the light-transport integrator, and the bytes of
//! the image file.
//!
//! All numbers are fixed-point: an `i64` that counts raw units of 1/65536.
//! The arithmetic on colours and sampled points cuts results off at the ends
//! of `i64`; the geometric tests (ray against box, ray against triangle)
//! compare exact wide integers and so do not depend on rounding. Every
//! function is total: what lies outside the range of the exact tests is
//! never hit, and a division by zero gives zero.
//!
//! The values that sampling draws come from a [`global::SampleStream`], a
//! table that the caller fills. With the same scene and the same table a
//! render gives the same bytes.

pub mod fixed;
pub mod vector;
pub mod exact;
pub mod bounds3;
pub mod ray;
pub mod slab;
pub mod global;
pub mod material;
pub mod intersection;
pub mod object;
pub mod triangle;
pub mod utils;
pub mod bvh;
pub mod scene;
pub mod renderer;
