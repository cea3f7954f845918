//! Timeline resolution and frame scheduling for declarative shape animations.
//!
//! A script is a camera plus a list of scenes; each scene holds named objects
//! with typed properties and, optionally, a timeline of animations. This crate
//! decides, for any instant, what every animated property is doing, and lays
//! the scenes out as a gap-free sequence of frames. Numbers are carried as
//! the bit patterns of IEEE-754 doubles: blending two of them is left to the
//! caller, who is told which values to blend and how far along.

pub mod time;
pub mod text;
pub mod ast;
pub mod number;
pub mod lookup;
pub mod color;
pub mod animator;
pub mod theorems;
pub mod scheduler;
pub mod raster;
pub mod renderer;
pub mod gpu_renderer;
pub mod syntax;
pub mod parser;
