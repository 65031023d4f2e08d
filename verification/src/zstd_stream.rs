//! Single-file zstd streams: listing and checking a stream held in memory.
use vstd::prelude::*;

use crate::error::{ErrorKind, K7zError};
use crate::format::default_unpack_target;
use crate::io::io_error;
use crate::join::push_name;
use crate::path::file_stem;
use crate::unpack::spec_zst_target;
use crate::types::{EntryMetadata, ListReport, TestReport};

verus! {

/// What `zstd::stream::decode_all` gives for the compressed bytes `data`:
/// the decompressed bytes, or nothing when it fails.
pub uninterp spec fn zstd_decoded(data: Seq<u8>) -> Option<Seq<u8>>;

/// Decompresses a whole zstd stream with `zstd::stream::decode_all`, which
/// reads every frame of the input. The result is a function of the input
/// bytes alone; what it is is not stated here.
#[verifier::external_body]
pub(crate) fn zstd_decode(data: &[u8]) -> (r: Result<Vec<u8>, std::io::Error>)
    ensures
        r is Ok <==> zstd_decoded(data@) is Some,
        r matches Ok(v) ==> zstd_decoded(data@) == Some(v@),
{
    zstd::stream::decode_all(data)
}

/// The listing of a zstd stream: one file entry named `name`, whose size is
/// the length of the decompressed stream and whose compressed size is the one
/// given. A stream that does not decompress is refused with an I/O error.
pub fn list_from_reader(data: &[u8], name: &str, compressed_size: Option<u64>) -> (r: Result<
    ListReport,
    K7zError,
>)
    ensures
        match r {
            Ok(rep) => {
                &&& zstd_decoded(data@) is Some
                &&& rep.entries@.len() == 1
                &&& rep.entries@[0].path@ == name@
                &&& !rep.entries@[0].is_dir
                &&& rep.entries@[0].size == zstd_decoded(data@)->0.len()
                &&& rep.entries@[0].compressed_size == compressed_size
            },
            Err(e) => zstd_decoded(data@) is None && e@.0 == ErrorKind::Io,
        },
{
    match zstd_decode(data) {
        Err(e) => Err(io_error(&e)),
        Ok(decoded) => {
            let mut entries: Vec<EntryMetadata> = Vec::new();
            entries.push(
                EntryMetadata {
                    path: String::from_str(name),
                    is_dir: false,
                    size: decoded.len() as u64,
                    compressed_size,
                },
            );
            Ok(ListReport { entries })
        },
    }
}

/// Checks a zstd stream by decompressing it; it counts as one entry.
pub fn test_from_reader(data: &[u8]) -> (r: Result<TestReport, K7zError>)
    ensures
        match r {
            Ok(rep) => zstd_decoded(data@) is Some && rep.entries_checked == 1,
            Err(e) => zstd_decoded(data@) is None && e@.0 == ErrorKind::Io,
        },
{
    match zstd_decode(data) {
        Err(e) => Err(io_error(&e)),
        Ok(_) => Ok(TestReport { entries_checked: 1 }),
    }
}

/// The name under which a `.zst` archive's single entry is listed.
pub open spec fn spec_list_name(archive: Seq<char>) -> Seq<char> {
    match file_stem(archive) {
        Some(stem) => stem,
        None => "stream"@,
    }
}

/// The name under which a `.zst` archive's single entry is listed: the stem
/// of its file name, or `stream` when it has none.
pub fn list_name(archive: &str) -> (n: String)
    ensures
        n@ == spec_list_name(archive@),
{
    match default_unpack_target(archive) {
        Ok(stem) => stem,
        Err(_) => String::from_str("stream"),
    }
}


/// Law: the entry that a `.zst` listing shows is the file that unpacking the
/// stream writes, in whatever directory it is unpacked to.
pub proof fn law_listed_name_is_unpacked_name(archive: Seq<char>, out: Seq<char>)
    ensures
        spec_zst_target(archive, out) matches Some(t) ==> t == push_name(
            out,
            spec_list_name(archive),
        ),
{
}

} // verus!
