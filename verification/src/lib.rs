//! Verified core of the ftp-utils suite: directory-listing comparison, the
//! remote walk and the hash pass over an abstract connection, CSV report
//! reading and writing, exclude patterns, configuration merging, and the
//! decision logic of the `ftpdiff` and `ftpops` tools.

pub mod text;
pub mod number;
pub mod diff;
pub mod local;
pub mod remote;
pub mod compare;
pub mod known;
pub mod csv_table;
pub mod csv_source;
pub mod connection;
pub mod ftpdiff;
pub mod exclude;
pub mod hash;
pub mod paint;
pub mod ftpops;
pub mod listing;
pub mod logged;
pub mod laws;
