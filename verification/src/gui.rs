//! What the window shows and decides, apart from the drawing.

pub mod app;
pub mod logo;
pub mod png;
pub mod screenshot;
pub mod theme;
pub mod tray;
