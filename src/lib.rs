//! Platonic solids from their adjacency graphs: topology tables, convex hull
//! triangulation of fixed-point vertex positions, orthographic ray casting and
//! ASCII mesh text.

pub mod geometry;
pub mod hull;
pub mod pipeline;
pub mod solid;
pub mod solids;
pub mod stl;
pub mod stl_decode;
pub mod view;
