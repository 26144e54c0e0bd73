//! The decision logic of `ftpdiff`: configuration and run planning, text
//! output, the CSV report and the one-side scan.

pub mod cli;
pub mod config;
pub mod plan;
pub mod output;
pub mod csv_report;
pub mod run;
