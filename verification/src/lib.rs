//! The decisions of a path tracer, proved.
//!
//! A path tracer spends its time in real-number arithmetic, and takes its
//! decisions on the way: which of a sphere's two crossings counts, which
//! object of a scene a ray reaches first, whether a surface sends the ray on,
//! and when a path has bounced often enough. This crate holds those decisions
//! and nothing else. Each is a function of integers, booleans and small enums
//! with a contract that pins its result.
//!
//! A ray parameter is an `i64` throughout: a code that is ordered as the
//! numbers are. The module `param` turns the bits of a double into its code
//! and back.

pub mod hittable_list;
pub mod integrator;
pub mod material;
pub mod param;
pub mod sphere;
