//! Deterministic generation of large two-dimensional boolean grids, such as
//! masks of land and sea.
//!
//! A [`continents::Continents`] source scatters land over the plane, and a
//! [`chain::Chain`] of [`stage::Stage`]s refines it: a [`zoom::Zoom`] doubles
//! the resolution and a [`blur::Blur`] smooths at the same resolution. Every
//! random choice is made by a [`rng::NotchRng`] that is reset for the cell the
//! choice is made for, so the value of a cell depends on its coordinates
//! alone, not on the window that is asked for nor on the order in which
//! windows are made.
//!
//! Each stage tells which window of its input it reads to fill a window of
//! its output. A chain composes these answers from its last stage back to
//! its first, and fills a window from its first stage on to its last.

pub mod blur;
pub mod chain;
pub mod continents;
pub mod error;
pub mod image;
pub mod render;
pub mod rng;
pub mod stage;
pub mod window;
pub mod zoom;
