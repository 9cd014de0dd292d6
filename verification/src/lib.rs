//! Occupancy-grid construction from 2D laser range scans.
//!
//! A sequence of laser scans, each tagged with the robot pose at which it
//! was taken, is turned into a regular raster of cells.  Every beam of a
//! scan is traced through the raster: the cells the beam passes through
//! collect *misses* (free-space evidence), the cell in which the beam ends
//! collects a *hit* (obstacle evidence).  The hit/miss counts then resolve
//! into an occupancy estimate per cell.
//!
//! All geometry is carried out in fixed-point integer arithmetic: world
//! coordinates and ranges are integer subunits, rotations are cosine/sine
//! pairs scaled by [`pose::TRIG_ONE`].

pub mod boundaries;
pub mod bresenham;
pub mod frequencymap;
pub mod gridmap;
pub mod map_creator;
pub mod map_creator_parameter;
pub mod occupancy;
pub mod parser;
pub mod parser_carmen;
pub mod pose;
pub mod robot_data;
