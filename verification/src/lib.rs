//! Core of a Linux task manager: bounded metric history, deterministic
//! filtering and sorting of process snapshots, spike classification over
//! consecutive samples, and validation of termination requests.
//!
//! Metric percentages are carried as integers in hundredths of a percent
//! (centipercent), so `2000` stands for `20.00 %`.

pub mod cli;
pub mod control;
pub mod data_structures;
pub mod history;
pub mod process_handler;
pub mod query;
pub mod spike;
pub mod text;
