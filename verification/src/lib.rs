//! Weighted Voronoi stippling on an integer lattice: density-guided seeding,
//! Voronoi cell reconstruction, shoelace centroids and Lloyd relaxation.
pub mod density;
pub mod gcode;
pub mod hull;
pub mod math;
pub mod sites;
pub mod stipple;
pub mod weighted_voronoi;
