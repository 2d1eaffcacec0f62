//! A live plot of numeric samples drawn on a grid of characters: the bar
//! renderer, the character grid, the per-series history with its eviction
//! rules, and the render worker that multiplexes many series.
//!
//! Sample values are fixed-point numbers counted in thousandths.

pub mod bar;
pub mod decimal;
pub mod grid;
pub mod history;
pub mod view;
pub mod worker;
