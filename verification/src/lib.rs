//! Progress state for nested loops: a layered counter with carry, a bound
//! policy, arrow renderers for a fixed-width bar, and handles that let
//! several workers advance one shared counter.
//!
//! The library computes; it never writes to the terminal. Every advance
//! returns the text of the status line, and the caller prints it.

pub mod arrow;
pub mod bar;
pub mod bound;
pub mod callback;
pub mod clock;
pub mod counter;
pub mod error;
pub mod text;

pub use crate::bar::{Bar, Progress};
