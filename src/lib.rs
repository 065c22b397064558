//! Lays out a set of images in a near-square grid of equal cells and
//! composites them, each centered in its cell, onto one canvas.
//!
//! - `grid`: the grid shape for a count of images.
//! - `layout`: canvas size and the placement of every image.
//! - `discovery`: which found files are input images.
//! - `compose`: scaling, measuring and drawing the images.

pub mod compose;
pub mod discovery;
pub mod error;
pub mod grid;
pub mod layout;
