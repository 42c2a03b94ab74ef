//! Compiles a raster image into "place pixel" commands for a remote
//! collaborative canvas, and models the concurrent dispatch of those
//! commands: quantizing colors to a fixed palette, serializing each
//! visible pixel to its wire form, partitioning the command list
//! across workers, and tracking progress across request attempts.

pub mod pixel_color;
pub mod pixel_data;
pub mod requests;
pub mod dispatch;
