//! Tar archives, plain or compressed with gzip, xz or zstd: listing and
//! checking an archive held in memory.
use vstd::prelude::*;

use crate::error::{ErrorKind, K7zError};
use crate::format::{format_name, ArchiveFormat};
use crate::io::io_error;
use crate::types::{EntryMetadata, ListReport, TestReport};
use crate::unpack::TAR_DIRECTORY;

verus! {

/// One entry of a tar archive as the tar reader shows it: its path, its entry
/// type byte and its size.
#[derive(Debug)]
pub struct TarEntryInfo {
    pub path: String,
    pub entry_type: u8,
    pub size: u64,
}

impl View for TarEntryInfo {
    type V = (Seq<char>, u8, u64);

    open spec fn view(&self) -> (Seq<char>, u8, u64) {
        (self.path@, self.entry_type, self.size)
    }
}

pub open spec fn tar_infos_view(v: Seq<TarEntryInfo>) -> Seq<(Seq<char>, u8, u64)> {
    v.map_values(|e: TarEntryInfo| e@)
}

/// What the `tar` crate reads from the tar bytes `data`: each entry's path
/// (lossily as text), type byte and size, in order; nothing when reading
/// fails.
pub uninterp spec fn tar_entries(data: Seq<u8>) -> Option<Seq<(Seq<char>, u8, u64)>>;

/// What the `tar` crate reads, as `tar_entries` does, from the stream that
/// `flate2::read::GzDecoder` decodes out of `data`.
pub uninterp spec fn gz_tar_entries(data: Seq<u8>) -> Option<Seq<(Seq<char>, u8, u64)>>;

/// What the `tar` crate reads, as `tar_entries` does, from the stream that
/// `xz2::read::XzDecoder` decodes out of `data`.
pub uninterp spec fn xz_tar_entries(data: Seq<u8>) -> Option<Seq<(Seq<char>, u8, u64)>>;

/// What the `tar` crate reads, as `tar_entries` does, from the stream that
/// `zstd::stream::read::Decoder` decodes out of `data`.
pub uninterp spec fn zst_tar_entries(data: Seq<u8>) -> Option<Seq<(Seq<char>, u8, u64)>>;

/// The entries that the `tar` crate reads from the tar bytes `data` when it
/// also reads the content of each one; nothing when reading fails.
pub uninterp spec fn tar_read_content(data: Seq<u8>) -> Option<Seq<(Seq<char>, u8, u64)>>;

/// As `tar_read_content`, through `flate2::read::GzDecoder`.
pub uninterp spec fn gz_tar_read_content(data: Seq<u8>) -> Option<Seq<(Seq<char>, u8, u64)>>;

/// As `tar_read_content`, through `xz2::read::XzDecoder`.
pub uninterp spec fn xz_tar_read_content(data: Seq<u8>) -> Option<Seq<(Seq<char>, u8, u64)>>;

/// As `tar_read_content`, through `zstd::stream::read::Decoder`.
pub uninterp spec fn zst_tar_read_content(data: Seq<u8>) -> Option<Seq<(Seq<char>, u8, u64)>>;

/// Reads the entries of a tar archive with `tar::Archive::entries`, taking
/// from each its path (`Entry::path`, made text with `to_string_lossy`), the
/// byte of its `EntryType` (`as_byte`) and its size. The result is a
/// function of the bytes alone; what it is is not stated here.
#[verifier::external_body]
fn tar_read_entries(data: &[u8]) -> (r: Result<Vec<TarEntryInfo>, std::io::Error>)
    ensures
        r is Ok <==> tar_entries(data@) is Some,
        r matches Ok(v) ==> tar_entries(data@) == Some(tar_infos_view(v@)),
{
    let mut out = Vec::new();
    for item in tar::Archive::new(data).entries()? {
        let entry = item?;
        let path = entry.path()?.to_string_lossy().to_string();
        out.push(TarEntryInfo { path, entry_type: entry.header().entry_type().as_byte(), size: entry.size() });
    }
    Ok(out)
}

/// As `tar_read_entries`, on the stream that `flate2::read::GzDecoder`
/// decodes as the tar reader asks for it.
#[verifier::external_body]
fn gz_tar_read_entries(data: &[u8]) -> (r: Result<Vec<TarEntryInfo>, std::io::Error>)
    ensures
        r is Ok <==> gz_tar_entries(data@) is Some,
        r matches Ok(v) ==> gz_tar_entries(data@) == Some(tar_infos_view(v@)),
{
    let mut out = Vec::new();
    for item in tar::Archive::new(flate2::read::GzDecoder::new(data)).entries()? {
        let entry = item?;
        let path = entry.path()?.to_string_lossy().to_string();
        out.push(TarEntryInfo { path, entry_type: entry.header().entry_type().as_byte(), size: entry.size() });
    }
    Ok(out)
}

/// As `tar_read_entries`, on the stream that `xz2::read::XzDecoder` decodes
/// as the tar reader asks for it.
#[verifier::external_body]
fn xz_tar_read_entries(data: &[u8]) -> (r: Result<Vec<TarEntryInfo>, std::io::Error>)
    ensures
        r is Ok <==> xz_tar_entries(data@) is Some,
        r matches Ok(v) ==> xz_tar_entries(data@) == Some(tar_infos_view(v@)),
{
    let mut out = Vec::new();
    for item in tar::Archive::new(xz2::read::XzDecoder::new(data)).entries()? {
        let entry = item?;
        let path = entry.path()?.to_string_lossy().to_string();
        out.push(TarEntryInfo { path, entry_type: entry.header().entry_type().as_byte(), size: entry.size() });
    }
    Ok(out)
}

/// As `tar_read_entries`, on the stream that `zstd::stream::read::Decoder`
/// (which can refuse at once) decodes as the tar reader asks for it.
#[verifier::external_body]
fn zst_tar_read_entries(data: &[u8]) -> (r: Result<Vec<TarEntryInfo>, std::io::Error>)
    ensures
        r is Ok <==> zst_tar_entries(data@) is Some,
        r matches Ok(v) ==> zst_tar_entries(data@) == Some(tar_infos_view(v@)),
{
    let mut out = Vec::new();
    for item in tar::Archive::new(zstd::stream::read::Decoder::new(data)?).entries()? {
        let entry = item?;
        let path = entry.path()?.to_string_lossy().to_string();
        out.push(TarEntryInfo { path, entry_type: entry.header().entry_type().as_byte(), size: entry.size() });
    }
    Ok(out)
}

/// Reads every entry of a tar archive as `tar_read_entries` does, and its
/// content into `std::io::sink`, one item per entry. The tar reader reads
/// past the content of an entry that is not read anyway, so when this
/// succeeds the headers alone give the same entries.
#[verifier::external_body]
fn tar_read_all(data: &[u8]) -> (r: Result<Vec<TarEntryInfo>, std::io::Error>)
    ensures
        r is Ok <==> tar_read_content(data@) is Some,
        r matches Ok(v) ==> tar_read_content(data@) == Some(tar_infos_view(v@)),
        r matches Ok(v) ==> tar_entries(data@) == Some(tar_infos_view(v@)),
{
    let mut out = Vec::new();
    for item in tar::Archive::new(data).entries()? {
        let mut entry = item?;
        let path = entry.path()?.to_string_lossy().to_string();
        let (entry_type, size) = (entry.header().entry_type().as_byte(), entry.size());
        std::io::copy(&mut entry, &mut std::io::sink())?;
        out.push(TarEntryInfo { path, entry_type, size });
    }
    Ok(out)
}

/// As `tar_read_all`, through `flate2::read::GzDecoder`.
#[verifier::external_body]
fn gz_tar_read_all(data: &[u8]) -> (r: Result<Vec<TarEntryInfo>, std::io::Error>)
    ensures
        r is Ok <==> gz_tar_read_content(data@) is Some,
        r matches Ok(v) ==> gz_tar_read_content(data@) == Some(tar_infos_view(v@)),
        r matches Ok(v) ==> gz_tar_entries(data@) == Some(tar_infos_view(v@)),
{
    let mut out = Vec::new();
    for item in tar::Archive::new(flate2::read::GzDecoder::new(data)).entries()? {
        let mut entry = item?;
        let path = entry.path()?.to_string_lossy().to_string();
        let (entry_type, size) = (entry.header().entry_type().as_byte(), entry.size());
        std::io::copy(&mut entry, &mut std::io::sink())?;
        out.push(TarEntryInfo { path, entry_type, size });
    }
    Ok(out)
}

/// As `tar_read_all`, through `xz2::read::XzDecoder`.
#[verifier::external_body]
fn xz_tar_read_all(data: &[u8]) -> (r: Result<Vec<TarEntryInfo>, std::io::Error>)
    ensures
        r is Ok <==> xz_tar_read_content(data@) is Some,
        r matches Ok(v) ==> xz_tar_read_content(data@) == Some(tar_infos_view(v@)),
        r matches Ok(v) ==> xz_tar_entries(data@) == Some(tar_infos_view(v@)),
{
    let mut out = Vec::new();
    for item in tar::Archive::new(xz2::read::XzDecoder::new(data)).entries()? {
        let mut entry = item?;
        let path = entry.path()?.to_string_lossy().to_string();
        let (entry_type, size) = (entry.header().entry_type().as_byte(), entry.size());
        std::io::copy(&mut entry, &mut std::io::sink())?;
        out.push(TarEntryInfo { path, entry_type, size });
    }
    Ok(out)
}

/// As `tar_read_all`, through `zstd::stream::read::Decoder`.
#[verifier::external_body]
fn zst_tar_read_all(data: &[u8]) -> (r: Result<Vec<TarEntryInfo>, std::io::Error>)
    ensures
        r is Ok <==> zst_tar_read_content(data@) is Some,
        r matches Ok(v) ==> zst_tar_read_content(data@) == Some(tar_infos_view(v@)),
        r matches Ok(v) ==> zst_tar_entries(data@) == Some(tar_infos_view(v@)),
{
    let mut out = Vec::new();
    for item in tar::Archive::new(zstd::stream::read::Decoder::new(data)?).entries()? {
        let mut entry = item?;
        let path = entry.path()?.to_string_lossy().to_string();
        let (entry_type, size) = (entry.header().entry_type().as_byte(), entry.size());
        std::io::copy(&mut entry, &mut std::io::sink())?;
        out.push(TarEntryInfo { path, entry_type, size });
    }
    Ok(out)
}

/// What the tar reader finds in an archive of the tar format `format`, read
/// through the decoder of its compression.
pub open spec fn tar_format_entries(format: ArchiveFormat, data: Seq<u8>) -> Option<
    Seq<(Seq<char>, u8, u64)>,
> {
    match format {
        ArchiveFormat::Tar => tar_entries(data),
        ArchiveFormat::TarGz => gz_tar_entries(data),
        ArchiveFormat::TarXz => xz_tar_entries(data),
        ArchiveFormat::TarZst => zst_tar_entries(data),
        _ => None,
    }
}

/// What the tar reader finds in an archive of the tar format `format` when it
/// also reads the content of every entry.
pub open spec fn tar_format_content(format: ArchiveFormat, data: Seq<u8>) -> Option<
    Seq<(Seq<char>, u8, u64)>,
> {
    match format {
        ArchiveFormat::Tar => tar_read_content(data),
        ArchiveFormat::TarGz => gz_tar_read_content(data),
        ArchiveFormat::TarXz => xz_tar_read_content(data),
        ArchiveFormat::TarZst => zst_tar_read_content(data),
        _ => None,
    }
}

/// A tar format, as opposed to 7z, zip and single-file zstd.
pub open spec fn is_tar_format(format: ArchiveFormat) -> bool {
    format == ArchiveFormat::Tar || format == ArchiveFormat::TarGz || format == ArchiveFormat::TarXz
        || format == ArchiveFormat::TarZst
}

/// How a tar entry is listed: a directory shows size 0, anything else its
/// size; no compressed size is known.
pub open spec fn tar_listed(e: (Seq<char>, u8, u64)) -> (Seq<char>, bool, u64, Option<u64>) {
    let is_dir = e.1 == TAR_DIRECTORY;
    (e.0, is_dir, if is_dir { 0 } else { e.2 }, None)
}

pub open spec fn metadata_view(m: EntryMetadata) -> (Seq<char>, bool, u64, Option<u64>) {
    (m.path@, m.is_dir, m.size, m.compressed_size)
}

pub open spec fn listing_view(r: ListReport) -> Seq<(Seq<char>, bool, u64, Option<u64>)> {
    r.entries@.map_values(|m: EntryMetadata| metadata_view(m))
}

/// What `list` gives for an archive of the format `format`: any format but a
/// tar format is refused with `UnsupportedFormat`, which names it; a tar
/// format gives the listing of what the tar reader finds, or an I/O error
/// when it cannot read the archive.
pub open spec fn tar_list_outcome(
    format: ArchiveFormat,
    data: Seq<u8>,
    r: Result<ListReport, K7zError>,
) -> bool {
    &&& !is_tar_format(format) ==> (r matches Err(e) && e@ == (
        ErrorKind::UnsupportedFormat,
        format_name(format),
    ))
    &&& is_tar_format(format) ==> match r {
        Ok(rep) => tar_lists(format, data, rep),
        Err(e) => tar_format_entries(format, data) is None && e@.0 == ErrorKind::Io,
    }
}

/// What `test` gives for an archive of the format `format`: as `list`, with
/// the count of the entries read with their content.
pub open spec fn tar_test_outcome(
    format: ArchiveFormat,
    data: Seq<u8>,
    r: Result<TestReport, K7zError>,
) -> bool {
    &&& !is_tar_format(format) ==> (r matches Err(e) && e@ == (
        ErrorKind::UnsupportedFormat,
        format_name(format),
    ))
    &&& is_tar_format(format) ==> match r {
        Ok(rep) => tar_checks(format, data, rep),
        Err(e) => tar_format_content(format, data) is None && e@.0 == ErrorKind::Io,
    }
}

/// A listing succeeds exactly when the read `read` did, with one line per
/// entry read.
pub open spec fn listed_from(r: Result<ListReport, K7zError>, read: Option<Seq<(Seq<char>, u8, u64)>>) -> bool {
    &&& r is Ok <==> read is Some
    &&& r matches Ok(rep) ==> rep.entries@.len() == read->0.len()
}

/// A test succeeds exactly when the read `read` did, counting the entries
/// read.
pub open spec fn checked_from(r: Result<TestReport, K7zError>, read: Option<Seq<(Seq<char>, u8, u64)>>) -> bool {
    &&& r is Ok <==> read is Some
    &&& r matches Ok(rep) ==> rep.entries_checked == read->0.len()
}

/// Law: each tar format is listed through its own decoder: a plain tar as
/// its bytes are, a tar.gz through gzip, a tar.xz through xz and a tar.zst
/// through zstd. The listing succeeds exactly when the tar reader can read
/// what that decoder gives, with one line per entry it finds.
pub proof fn law_tar_list_reads_through_its_decoder(data: Seq<u8>, r: Result<ListReport, K7zError>)
    ensures
        tar_list_outcome(ArchiveFormat::Tar, data, r) ==> listed_from(r, tar_entries(data)),
        tar_list_outcome(ArchiveFormat::TarGz, data, r) ==> listed_from(r, gz_tar_entries(data)),
        tar_list_outcome(ArchiveFormat::TarXz, data, r) ==> listed_from(r, xz_tar_entries(data)),
        tar_list_outcome(ArchiveFormat::TarZst, data, r) ==> listed_from(r, zst_tar_entries(data)),
{
    if let Ok(rep) = r {
        assert(listing_view(rep).len() == rep.entries@.len());
    }
}

/// Law: each tar format is checked through its own decoder, as it is listed;
/// the test succeeds exactly when the tar reader can read every entry with
/// its content from what that decoder gives, and counts those entries.
pub proof fn law_tar_test_reads_through_its_decoder(data: Seq<u8>, r: Result<TestReport, K7zError>)
    ensures
        tar_test_outcome(ArchiveFormat::Tar, data, r) ==> checked_from(r, tar_read_content(data)),
        tar_test_outcome(ArchiveFormat::TarGz, data, r) ==> checked_from(
            r,
            gz_tar_read_content(data),
        ),
        tar_test_outcome(ArchiveFormat::TarXz, data, r) ==> checked_from(
            r,
            xz_tar_read_content(data),
        ),
        tar_test_outcome(ArchiveFormat::TarZst, data, r) ==> checked_from(
            r,
            zst_tar_read_content(data),
        ),
{
}

/// The listing of the entries that the tar reader found.
fn listing_of(infos: Vec<TarEntryInfo>) -> (rep: ListReport)
    ensures
        listing_view(rep) == tar_infos_view(infos@).map_values(
            |e: (Seq<char>, u8, u64)| tar_listed(e),
        ),
{
    let ghost es = tar_infos_view(infos@);
    let mut entries: Vec<EntryMetadata> = Vec::new();
    let mut i: usize = 0;
    while i < infos.len()
        invariant
            es == tar_infos_view(infos@),
            i <= infos.len(),
            entries@.len() == i,
            forall|k: int|
                0 <= k < i ==> metadata_view(#[trigger] entries@[k]) == tar_listed(es[k]),
        decreases infos.len() - i,
    {
        let info = &infos[i];
        let is_dir = info.entry_type == TAR_DIRECTORY;
        let size = if is_dir {
            0
        } else {
            info.size
        };
        entries.push(
            EntryMetadata { path: info.path.clone(), is_dir, size, compressed_size: None },
        );
        i = i + 1;
    }
    let rep = ListReport { entries };
    assert(listing_view(rep) =~= es.map_values(|e: (Seq<char>, u8, u64)| tar_listed(e)));
    rep
}

/// `rep` is what `list` gives for an archive of the tar format `format`.
pub open spec fn tar_lists(format: ArchiveFormat, data: Seq<u8>, rep: ListReport) -> bool {
    tar_format_entries(format, data) matches Some(es) && listing_view(rep) == es.map_values(
        |e: (Seq<char>, u8, u64)| tar_listed(e),
    )
}

/// Law: a tar listing shows the entries the tar reader reads, in its order,
/// one line each: the entry's path; it is a directory exactly when its type
/// byte is that of a directory, and then its size shows as 0, else as the
/// entry's size; a tar records no compressed size.
pub proof fn law_tar_listing_shows_each_entry(format: ArchiveFormat, data: Seq<u8>, rep: ListReport)
    requires
        tar_lists(format, data, rep),
    ensures
        tar_format_entries(format, data) matches Some(es) && rep.entries@.len() == es.len()
            && forall|k: int|
            0 <= k < es.len() ==> {
                let m = #[trigger] rep.entries@[k];
                &&& m.path@ == es[k].0
                &&& m.is_dir == (es[k].1 == 0x35u8)
                &&& m.size == (if m.is_dir {
                    0
                } else {
                    es[k].2
                })
                &&& m.compressed_size is None
            },
{
    let es = tar_format_entries(format, data)->0;
    let lv = listing_view(rep);
    assert(lv.len() == rep.entries@.len());
    assert forall|k: int| 0 <= k < es.len() implies {
        let m = #[trigger] rep.entries@[k];
        &&& m.path@ == es[k].0
        &&& m.is_dir == (es[k].1 == 0x35u8)
        &&& m.size == (if m.is_dir {
            0
        } else {
            es[k].2
        })
        &&& m.compressed_size is None
    } by {
        assert(lv[k] == metadata_view(rep.entries@[k]));
        assert(lv[k] == tar_listed(es[k]));
    }
}

/// `rep` is what `test` gives for an archive of the tar format `format`: the
/// entries read with their content, which are those the headers give.
pub open spec fn tar_checks(format: ArchiveFormat, data: Seq<u8>, rep: TestReport) -> bool {
    &&& tar_format_content(format, data) matches Some(es) && rep.entries_checked == es.len()
    &&& tar_format_entries(format, data) == tar_format_content(format, data)
}

/// Law: when `list` and `test` both succeed on the same archive of a tar
/// format, the test checks as many entries as the listing holds.
pub proof fn law_tar_test_counts_listed_entries(
    format: ArchiveFormat,
    data: Seq<u8>,
    listed: ListReport,
    tested: TestReport,
)
    requires
        tar_lists(format, data, listed),
        tar_checks(format, data, tested),
    ensures
        tested.entries_checked == listed.entries@.len(),
{
    let es = tar_format_entries(format, data)->0;
    assert(listing_view(listed).len() == listed.entries@.len());
    assert(es.map_values(|e: (Seq<char>, u8, u64)| tar_listed(e)).len() == es.len());
}

/// The listing of the tar bytes `data`, entry by entry; refused with an I/O
/// error when the archive cannot be read.
pub fn list_from_reader(data: &[u8]) -> (r: Result<ListReport, K7zError>)
    ensures
        match r {
            Ok(rep) => tar_entries(data@) matches Some(es) && listing_view(rep) == es.map_values(
                |e: (Seq<char>, u8, u64)| tar_listed(e),
            ),
            Err(e) => tar_entries(data@) is None && e@.0 == ErrorKind::Io,
        },
{
    match tar_read_entries(data) {
        Ok(infos) => Ok(listing_of(infos)),
        Err(e) => Err(io_error(&e)),
    }
}

/// The listing of an archive of a tar format, read through the decoder of its
/// compression. Any other format is refused with `UnsupportedFormat`, which
/// names it; an archive that cannot be read is an I/O error.
pub fn list(format: ArchiveFormat, data: &[u8]) -> (r: Result<ListReport, K7zError>)
    ensures
        tar_list_outcome(format, data@, r),
{
    let read = match format {
        ArchiveFormat::Tar => tar_read_entries(data),
        ArchiveFormat::TarGz => gz_tar_read_entries(data),
        ArchiveFormat::TarXz => xz_tar_read_entries(data),
        ArchiveFormat::TarZst => zst_tar_read_entries(data),
        _ => {
            return Err(K7zError::UnsupportedFormat(String::from_str(format.as_str())));
        },
    };
    match read {
        Ok(infos) => Ok(listing_of(infos)),
        Err(e) => Err(io_error(&e)),
    }
}

/// Checks an archive of a tar format by reading every entry and its content;
/// the report counts the entries, which are those that `list` lists.
pub fn test(format: ArchiveFormat, data: &[u8]) -> (r: Result<TestReport, K7zError>)
    ensures
        tar_test_outcome(format, data@, r),
{
    let read = match format {
        ArchiveFormat::Tar => tar_read_all(data),
        ArchiveFormat::TarGz => gz_tar_read_all(data),
        ArchiveFormat::TarXz => xz_tar_read_all(data),
        ArchiveFormat::TarZst => zst_tar_read_all(data),
        _ => {
            return Err(K7zError::UnsupportedFormat(String::from_str(format.as_str())));
        },
    };
    match read {
        Ok(infos) => Ok(TestReport { entries_checked: infos.len() }),
        Err(e) => Err(io_error(&e)),
    }
}

} // verus!
