//! Tiled escape-time rendering: everything around the numeric kernel.
//!
//! Cutting a frame into tiles, handing the tiles to the least-loaded worker,
//! walking the pixels of a tile, putting the frame together, painting it and
//! deciding what the interactive loop does next are specified and proved
//! here. The numeric kernel itself, the threads and the window live with the
//! program that links this library.

pub mod assembler;
pub mod controller;
pub mod dispatch;
pub mod generator;
pub mod math;
pub mod number;
pub mod partition;
pub mod trans;
pub mod utils;
pub mod worker;
