//! Navigation and search core of a two-pane terminal command launcher.
//!
//! The crate holds the catalog of command groups, the navigation state with
//! its transitions, the filter that derives the visible list from the state,
//! and the computation of highlighted match ranges. Drawing, key polling and
//! running the chosen command are left to the program around it.

pub mod app;
pub mod config;
pub mod screen;
pub mod session;
pub mod text;
pub mod ui;
