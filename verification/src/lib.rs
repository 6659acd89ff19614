//! A minimal ray-casting renderer over fixed-point arithmetic.
//!
//! A scene (a camera plus an ordered list of objects) is rendered into a flat
//! RGB byte buffer: one ray per pixel, nearest hit wins, ties go to the object
//! added first. All geometry uses signed fixed-point values held in `i128`,
//! so every computation is exact integer arithmetic.

pub mod camera;
pub mod fx;
pub mod laws;
pub mod object;
pub mod vector;
pub mod world;
