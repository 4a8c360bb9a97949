//! Skagit Flats: the logic of an e-ink trip-planning dashboard.
//!
//! The crate holds the verified parts of the dashboard: the 1-bit pixel
//! buffer and everything that draws into it, the trip recommendation rules,
//! the text formatting of panels, and the parsers for the data feeds.
pub mod render;
pub mod text;
pub mod domain;
pub mod evaluation;
pub mod wrap;
pub mod draw;
pub mod font;
pub mod glyphs;
pub mod presentation;
pub mod grid;
pub mod icons;
pub mod layout;
pub mod strings;
pub mod datetime;
pub mod config;
pub mod sources;
pub mod web;
pub mod display;
pub mod panel;
pub mod app;
pub mod frame;
pub mod page;
pub mod page_shell;

use vstd::prelude::*;

verus! {
}
