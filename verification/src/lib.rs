//! The verified core of the Flora compositor.

pub mod backend;
pub mod decorations;
pub mod disc;
pub mod frame;
pub mod geometry;
pub mod ieee;
pub mod input;
pub mod laws;
pub mod libinput;
pub mod render;
pub mod session;
pub mod shell;
pub mod state;
pub mod window;
