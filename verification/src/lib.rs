//! Core of a chat-driven pixel wall: chat lines are parsed into pixel-write
//! commands, which are alpha-blended onto a raster canvas and published with
//! a write-then-rename cycle.

pub mod blend;
pub mod canvas;
pub mod command;
pub mod update;
