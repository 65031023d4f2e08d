//! k7z: the verified core of an archive tool for 7z, zip, tar and zstd.

// Strings and paths.
pub mod path;
pub mod text;
pub mod join;

// Formats, requests, errors and reports.
pub mod error;
pub mod format;
pub mod types;
pub mod report;

// Deciding what a task does.
pub mod plan;
pub mod unpack;
pub mod sizes;
pub mod bench;

// The archive backends and what they are trusted to do.
pub mod io;
pub mod crypto;
pub mod sevenz;
pub mod tar_archive;
pub mod zip_archive;
pub mod zstd_stream;

// Inputs of the fuzz targets.
pub mod fuzz;
