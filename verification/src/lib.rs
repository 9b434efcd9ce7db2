//! Time-series aggregation for a simulation game's save data.
//!
//! A snapshot is one extraction of the game state at an instant. The
//! dashboard folds snapshots into per-game and per-population histories:
//! one series of `(time, value)` points for every tracked metric, each
//! kept sorted by time.
//!
//! - [`scalar`]: numbers, carried by their bit patterns, and their order.
//! - [`series`]: a series in time order; the stable sort and what holds
//!   of it.
//! - [`aurora_db`]: snapshots.
//! - [`model`]: the dashboard as a mathematical value, and what merging
//!   a snapshot means.
//! - [`dashboard`]: the dashboard itself: merging snapshots, replaying
//!   a log.
//! - [`laws`], [`arrival`]: what holds of every dashboard.
//! - [`queries`]: what a dashboard is asked.
//! - [`collector`]: the decisions of the collector that keeps a
//!   dashboard up to date.
//! - [`db`]: a handle on a log of snapshots.
//!
//! The library reads and writes no file. Its callers read the save file
//! and the log, and hand it snapshots.

pub mod arrival;
pub mod aurora_db;
pub mod collector;
pub mod dashboard;
pub mod db;
pub mod laws;
pub mod model;
pub mod queries;
pub mod scalar;
pub mod series;
