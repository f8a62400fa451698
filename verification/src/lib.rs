//! Ternitor's logic: deciding which console windows to hide and when to give
//! them back, reading versions, laying out the icon file, and the figures the
//! settings surface shows.

pub mod text;
pub mod janitor;
pub mod update;
pub mod mark;
pub mod tray;
pub mod ui;
pub mod app;
pub mod theme;
pub mod log;
pub mod win;
pub mod autostart;
