//! Requests that k7z is asked to carry out and the reports it gives back.
//! Paths are held as strings.
use vstd::prelude::*;

use crate::format::{ArchiveFormat, OverwriteMode};

verus! {

/// How an archive is encrypted.
#[derive(Debug, Clone)]
pub struct EncryptionSpec {
    pub enabled: bool,
    pub header_encrypted: bool,
    pub cipher: Option<String>,
    pub kdf: Option<String>,
}

/// One entry of an archive as a listing shows it.
#[derive(Debug, Clone)]
pub struct EntryMetadata {
    pub path: String,
    pub is_dir: bool,
    pub size: u64,
    pub compressed_size: Option<u64>,
}

/// Pack `sources` into the archive `output`.
#[derive(Debug, Clone)]
pub struct PackRequest {
    pub sources: Vec<String>,
    pub output: String,
    pub format: ArchiveFormat,
    pub level: Option<u32>,
    pub solid: bool,
    pub password: Option<String>,
}

/// Unpack `archive` into `output_dir`.
#[derive(Debug, Clone)]
pub struct UnpackRequest {
    pub archive: String,
    pub output_dir: String,
    pub overwrite: OverwriteMode,
    pub password: Option<String>,
}

/// List the entries of `archive`.
#[derive(Debug, Clone)]
pub struct ListRequest {
    pub archive: String,
    pub password: Option<String>,
}

/// Read every entry of `archive` to check it.
#[derive(Debug, Clone)]
pub struct TestRequest {
    pub archive: String,
    pub password: Option<String>,
}

/// Pack `source` repeatedly and time it.
#[derive(Debug, Clone)]
pub struct BenchRequest {
    pub source: String,
    pub format: ArchiveFormat,
    pub level: Option<u32>,
    pub iterations: u32,
    pub warmup_iterations: u32,
    pub solid: bool,
    pub password: Option<String>,
}

/// One task for k7z.
#[derive(Debug, Clone)]
pub enum TaskRequest {
    Pack(PackRequest),
    Unpack(UnpackRequest),
    List(ListRequest),
    Test(TestRequest),
    Bench(BenchRequest),
}

/// What packing did.
#[derive(Debug, Clone)]
pub struct PackReport {
    pub archive: String,
    pub entries: usize,
    pub bytes_in: u64,
    pub bytes_out: u64,
}

/// What unpacking did.
#[derive(Debug, Clone)]
pub struct UnpackReport {
    pub output_dir: String,
    pub entries: usize,
    pub bytes_out: u64,
}

/// The entries of an archive.
#[derive(Debug, Clone)]
pub struct ListReport {
    pub entries: Vec<EntryMetadata>,
}

/// How many entries a test read.
#[derive(Debug, Clone)]
pub struct TestReport {
    pub entries_checked: usize,
}

} // verus!
