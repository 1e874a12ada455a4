//! A first-person grid raycaster: packed pixel colors, an occupancy grid,
//! the integer side of grid traversal, and the column renderer.
#![allow(non_camel_case_types)]

pub mod color;
pub mod grid;
pub mod ray;
pub mod texture;
pub mod render;
