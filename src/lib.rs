//! Adaptive quadtree stylisation of RGB bitmaps: a region whose colors vary
//! is split into quadrants, a region that is close to flat is painted with
//! its mean color.
pub mod buffer;
pub mod region;
pub mod stats;
pub mod tree;
pub mod laws;
