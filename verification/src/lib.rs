//! Verified core of an approximate travel-estimation engine: the layout of
//! distance/time matrices, H3 cells and grid paths, and the table of
//! per-cell speed factors.

pub mod factors;
pub mod h3;
pub mod matrix;
