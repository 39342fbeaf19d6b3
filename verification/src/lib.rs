//! A ray-tracing geometry kernel: the decisions of the intersection
//! protocol, stated and proved over binary32 numbers held as bit patterns.

pub mod color;
pub mod hittable;
pub mod laws;
pub mod math;
pub mod ray;
pub mod scalar;
pub mod sphere;
