//! Scheduling and batching of Git status refreshes for a terminal workspace
//! manager.
//!
//! The crate decides when a refresh is due, which directories it has to look
//! at, which of those share one checkout, and how the answers of Git become
//! the results that workspace rows and panes display. Reading the disk, running
//! Git, clocks and threads belong to the caller: they reach the crate as plain
//! values, or as closures whose answers are taken as they come.
pub mod app;
pub mod batching_laws;
pub mod cache;
pub mod grouping_laws;
pub mod item_laws;
pub mod output;
pub mod pairs;
pub mod path;
pub mod places;
pub mod refresh;
pub mod result_laws;
pub mod scheduling_laws;
pub mod sidebar;
pub mod state_laws;
pub mod status;
pub mod view_laws;
pub mod views;
pub mod workspace;
