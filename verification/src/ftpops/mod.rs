//! The decision logic of `ftpops`: option validation, report reading and
//! filtering, the copy and delete operations with their per-file outcomes,
//! and text output.

pub mod cli;
pub mod csv_input;
pub mod filter;
pub mod ops;
pub mod output;
pub mod validate;
