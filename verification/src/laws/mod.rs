//! What holds across operations.

pub mod clicks;
pub mod desktop;
pub mod devices;
pub mod drawing;
pub mod frames;
pub mod hits;
pub mod layout;
pub mod measure;
pub mod pointer;
pub mod session;
pub mod shell;
