//! A G-code toolpath library: interprets linear-motion commands into 3-D line
//! segments, trims non-representative leading and trailing motion, and computes
//! the bounding volume of the material-depositing portion.
//!
//! Coordinates are fixed-point: one unit of `i64` is a thousandth of a model
//! unit, which keeps every quantity in integer arithmetic at sub-millimeter
//! resolution.
#![verifier::loop_isolation(false)]

pub mod bounds;
pub mod geometry;
pub mod interpreter;
pub mod parser;
pub mod trim;
