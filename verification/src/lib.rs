//! Disk usage browsing core: size formatting, entry ordering and filtering,
//! the size cache, and the key-driven state machine of the browser.
pub mod app;
pub mod format;
pub mod laws;
pub mod outside;
pub mod percent;
pub mod scanner;
pub mod sort;
pub mod text;
pub mod ui;
