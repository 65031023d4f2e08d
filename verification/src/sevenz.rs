//! 7z archives: the password handed to the 7z reader, and listing and
//! checking an archive held in memory.
use vstd::prelude::*;

use crate::error::{ErrorKind, K7zError};
use crate::tar_archive::{listing_view, metadata_view};
use crate::types::{EntryMetadata, ListReport, TestReport};

verus! {

#[verifier::external_type_specification]
#[verifier::external_body]
pub struct ExPassword(sevenz_rust2::Password);

#[verifier::external_type_specification]
#[verifier::external_body]
pub struct ExSevenZError(sevenz_rust2::Error);

/// The bytes that a 7z password holds.
pub uninterp spec fn password_bytes(p: sevenz_rust2::Password) -> Seq<u8>;

/// The UTF-16 code units of `c` (one, or a surrogate pair above the basic
/// plane), each as two bytes, low byte first.
pub open spec fn utf16_le_char(c: char) -> Seq<u8> {
    let n = c as int;
    if n < 0x10000 {
        seq![(n % 256) as u8, (n / 256) as u8]
    } else {
        let m = n - 0x10000;
        let hi = 0xD800 + m / 1024;
        let lo = 0xDC00 + m % 1024;
        seq![(hi % 256) as u8, (hi / 256) as u8, (lo % 256) as u8, (lo / 256) as u8]
    }
}

/// The UTF-16 encoding of `s`, low byte first: what
/// `sevenz_rust2::Password::from` makes of a password string.
pub open spec fn utf16_le(s: Seq<char>) -> Seq<u8>
    decreases s.len(),
{
    if s.len() == 0 {
        Seq::<u8>::empty()
    } else {
        utf16_le(s.drop_last()) + utf16_le_char(s.last())
    }
}

/// Every character takes at least two bytes.
pub proof fn lemma_utf16_le_len(s: Seq<char>)
    ensures
        utf16_le(s).len() >= 2 * s.len(),
    decreases s.len(),
{
    if s.len() > 0 {
        lemma_utf16_le_len(s.drop_last());
    }
}

/// `sevenz_rust2::Password::empty`: a password of no bytes.
#[verifier::external_body]
fn password_empty() -> (p: sevenz_rust2::Password)
    ensures
        password_bytes(p) == Seq::<u8>::empty(),
{
    sevenz_rust2::Password::empty()
}

/// `sevenz_rust2::Password::from(&str)`: the string's UTF-16 code units
/// (`encode_utf16`), each written with `write_u16` as two bytes, low byte
/// first.
#[verifier::external_body]
fn password_from_str(raw: &str) -> (p: sevenz_rust2::Password)
    ensures
        password_bytes(p) == utf16_le(raw@),
{
    sevenz_rust2::Password::from(raw)
}

/// The bytes of the password that a 7z archive is opened with: those of the
/// given password, unless there is none or it is empty.
pub open spec fn spec_password_from(raw: Option<Seq<char>>) -> Seq<u8> {
    match raw {
        Some(v) => if v.len() > 0 {
            utf16_le(v)
        } else {
            Seq::<u8>::empty()
        },
        None => Seq::<u8>::empty(),
    }
}

proof fn lemma_utf16_le_bmp(s: Seq<char>)
    requires
        forall|k: int| 0 <= k < s.len() ==> 0 <= (#[trigger] s[k] as int) < 0x10000,
    ensures
        utf16_le(s).len() == 2 * s.len(),
        forall|k: int|
            0 <= k < s.len() ==> utf16_le(s)[2 * k] + 256 * utf16_le(s)[2 * k + 1] == (
            #[trigger] s[k]) as int,
    decreases s.len(),
{
    if s.len() > 0 {
        let p = s.drop_last();
        assert forall|k: int| 0 <= k < p.len() implies 0 <= (#[trigger] p[k] as int) < 0x10000 by {
            assert(p[k] == s[k]);
        }
        lemma_utf16_le_bmp(p);
        let u = utf16_le(s);
        let n = s.last() as int;
        assert(u == utf16_le(p) + utf16_le_char(s.last()));
        assert(s[s.len() - 1] == s.last());
        assert(0 <= n < 0x10000);
        assert forall|k: int| 0 <= k < s.len() implies u[2 * k] + 256 * u[2 * k + 1] == (
        #[trigger] s[k]) as int by {
            if k < p.len() {
                assert(s[k] == p[k]);
                assert(u[2 * k] == utf16_le(p)[2 * k]);
                assert(u[2 * k + 1] == utf16_le(p)[2 * k + 1]);
            } else {
                assert(k == p.len());
                let b = utf16_le_char(s.last());
                assert(0 <= n % 256 < 256);
                assert(0 <= n / 256 < 256) by (nonlinear_arith)
                    requires
                        0 <= n < 0x10000,
                ;
                assert(b =~= seq![(n % 256) as u8, (n / 256) as u8]);
                assert(u[2 * k] == b[0]);
                assert(u[2 * k + 1] == b[1]);
                assert(b[0] as int == n % 256);
                assert(b[1] as int == n / 256);
                assert(s[k] == s.last());
            }
        }
    }
}

/// Law: a password of characters of the basic plane takes two bytes per
/// character, the low byte of each character's code first.
pub proof fn law_password_bytes_are_utf16_le(s: Seq<char>)
    requires
        forall|k: int| 0 <= k < s.len() ==> 0 <= (#[trigger] s[k] as int) < 0x10000,
    ensures
        utf16_le(s).len() == 2 * s.len(),
        forall|k: int|
            0 <= k < s.len() ==> utf16_le(s)[2 * k] == (#[trigger] s[k] as int) % 256
                && utf16_le(s)[2 * k + 1] == (s[k] as int) / 256,
{
    lemma_utf16_le_bmp(s);
    assert forall|k: int| 0 <= k < s.len() implies utf16_le(s)[2 * k] == (#[trigger] s[k] as int)
        % 256 && utf16_le(s)[2 * k + 1] == (s[k] as int) / 256 by {
        let lo = utf16_le(s)[2 * k] as int;
        let hi = utf16_le(s)[2 * k + 1] as int;
        assert(lo + 256 * hi == s[k] as int);
        assert(0 <= lo < 256);
    }
}

/// The password to open a 7z archive with: the given one, or the empty
/// password when none or an empty one is given.
pub fn password_from(raw: Option<&str>) -> (p: sevenz_rust2::Password)
    ensures
        password_bytes(p) == spec_password_from(
            match raw {
                Some(v) => Some(v@),
                None => None,
            },
        ),
        (password_bytes(p).len() == 0) <==> (raw is None || raw->0@.len() == 0),
{
    match raw {
        Some(value) => {
            if value.is_empty() {
                password_empty()
            } else {
                proof {
                    lemma_utf16_le_len(value@);
                }
                password_from_str(value)
            }
        },
        None => password_empty(),
    }
}

/// One entry of a 7z archive as the 7z reader shows it.
#[derive(Debug)]
pub struct SevenZEntryInfo {
    pub name: String,
    pub is_dir: bool,
    pub size: u64,
    pub compressed_size: u64,
}

impl View for SevenZEntryInfo {
    type V = (Seq<char>, bool, u64, u64);

    open spec fn view(&self) -> (Seq<char>, bool, u64, u64) {
        (self.name@, self.is_dir, self.size, self.compressed_size)
    }
}

pub open spec fn sevenz_infos_view(v: Seq<SevenZEntryInfo>) -> Seq<(Seq<char>, bool, u64, u64)> {
    v.map_values(|e: SevenZEntryInfo| e@)
}

/// What `sevenz_rust2::Archive::read` finds in the 7z bytes `data`, opened
/// with the password bytes `password`: each file's name, whether it is a
/// directory, its size and its compressed size, in order; nothing when
/// reading fails.
pub uninterp spec fn sevenz_entries(data: Seq<u8>, password: Seq<u8>) -> Option<
    Seq<(Seq<char>, bool, u64, u64)>,
>;

/// Reads the header of a 7z archive with `sevenz_rust2::Archive::read` and
/// takes `name`, `is_directory`, `size` and `compressed_size` of each of its
/// files. The result is a function of the bytes and the password alone; what
/// it is is not stated here.
#[verifier::external_body]
fn sevenz_read_entries(data: &[u8], password: &sevenz_rust2::Password) -> (r: Result<
    Vec<SevenZEntryInfo>,
    sevenz_rust2::Error,
>)
    ensures
        r is Ok <==> sevenz_entries(data@, password_bytes(*password)) is Some,
        r matches Ok(v) ==> sevenz_entries(data@, password_bytes(*password)) == Some(
            sevenz_infos_view(v@),
        ),
{
    let archive = sevenz_rust2::Archive::read(&mut std::io::Cursor::new(data), password)?;
    let mut out = Vec::new();
    for e in archive.files.iter() {
        out.push(SevenZEntryInfo { name: e.name().to_string(), is_dir: e.is_directory(), size: e.size(), compressed_size: e.compressed_size });
    }
    Ok(out)
}

/// What `sevenz_rust2::ArchiveReader::for_each_entries` hands out of the 7z
/// bytes `data`, opened with the password bytes `password`, when the content
/// of every entry is read: each entry's name, whether it is a directory, its
/// size and its compressed size, in the order the reader visits them;
/// nothing when opening or reading fails.
pub uninterp spec fn sevenz_read_content(data: Seq<u8>, password: Seq<u8>) -> Option<
    Seq<(Seq<char>, bool, u64, u64)>,
>;

/// Opens a 7z archive with `sevenz_rust2::ArchiveReader::new` and reads the
/// content of every entry that `for_each_entries` hands out into
/// `std::io::sink` (the reader checks the CRC of what it decodes), one item
/// per entry. The result is a function of the bytes and the password alone.
/// `ArchiveReader::new` reads the header with `Archive::read`, as
/// `sevenz_read_entries` does, and `for_each_entries` hands out each of its
/// files once (each lies in the file range of exactly one block, or in none
/// and is handed out after the blocks), so on success there are as many
/// items as `sevenz_read_entries` finds.
#[verifier::external_body]
fn sevenz_read_all(data: &[u8], password: sevenz_rust2::Password) -> (r: Result<
    Vec<SevenZEntryInfo>,
    sevenz_rust2::Error,
>)
    ensures
        r is Ok <==> sevenz_read_content(data@, password_bytes(password)) is Some,
        r matches Ok(v) ==> sevenz_read_content(data@, password_bytes(password)) == Some(
            sevenz_infos_view(v@),
        ),
        r matches Ok(v) ==> sevenz_entries(data@, password_bytes(password)) matches Some(es)
            && es.len() == v@.len(),
{
    let mut reader = sevenz_rust2::ArchiveReader::new(std::io::Cursor::new(data), password)?;
    let mut out = Vec::new();
    reader.for_each_entries(|e, content| {
        std::io::copy(content, &mut std::io::sink())?;
        out.push(SevenZEntryInfo { name: e.name().to_string(), is_dir: e.is_directory(), size: e.size(), compressed_size: e.compressed_size });
        Ok(true)
    })?;
    Ok(out)
}

/// The message of a 7z error, as its `Display` writes it. Nothing is claimed
/// of the text.
#[verifier::external_body]
fn sevenz_error_text(e: &sevenz_rust2::Error) -> String {
    e.to_string()
}

/// A 7z error as the library's own error: `7z error: ` and its message.
pub fn seven_error(e: &sevenz_rust2::Error) -> (r: K7zError)
    ensures
        r@.0 == ErrorKind::Other,
        r@.1.len() >= "7z error: "@.len(),
        r@.1.subrange(0, "7z error: "@.len() as int) == "7z error: "@,
{
    let prefix = String::from_str("7z error: ");
    let text = sevenz_error_text(e);
    let msg = prefix.concat(text.as_str());
    assert(msg@.subrange(0, "7z error: "@.len() as int) =~= "7z error: "@);
    K7zError::Other(msg)
}

/// How a 7z entry is listed: its name, whether it is a directory, its size
/// and its compressed size.
pub open spec fn sevenz_listed(e: (Seq<char>, bool, u64, u64)) -> (Seq<char>, bool, u64, Option<u64>) {
    (e.0, e.1, e.2, Some(e.3))
}

/// `rep` is what `list_from_reader` gives for the 7z bytes `data` opened with
/// the password bytes `pw`.
pub open spec fn sevenz_lists(data: Seq<u8>, pw: Seq<u8>, rep: ListReport) -> bool {
    sevenz_entries(data, pw) matches Some(es) && listing_view(rep) == es.map_values(
        |e: (Seq<char>, bool, u64, u64)| sevenz_listed(e),
    )
}

/// Law: a 7z listing shows the files the header lists, in its order, one
/// line each: the file's name, whether it is a directory, its size, and its
/// compressed size.
pub proof fn law_sevenz_listing_shows_each_entry(data: Seq<u8>, pw: Seq<u8>, rep: ListReport)
    requires
        sevenz_lists(data, pw, rep),
    ensures
        sevenz_entries(data, pw) matches Some(es) && rep.entries@.len() == es.len() && forall|
            k: int,
        |
            0 <= k < es.len() ==> {
                let m = #[trigger] rep.entries@[k];
                &&& m.path@ == es[k].0
                &&& m.is_dir == es[k].1
                &&& m.size == es[k].2
                &&& m.compressed_size == Some(es[k].3)
            },
{
    let es = sevenz_entries(data, pw)->0;
    let lv = listing_view(rep);
    assert(lv.len() == rep.entries@.len());
    assert forall|k: int| 0 <= k < es.len() implies {
        let m = #[trigger] rep.entries@[k];
        &&& m.path@ == es[k].0
        &&& m.is_dir == es[k].1
        &&& m.size == es[k].2
        &&& m.compressed_size == Some(es[k].3)
    } by {
        assert(lv[k] == metadata_view(rep.entries@[k]));
        assert(lv[k] == sevenz_listed(es[k]));
    }
}

/// `rep` is what `test` gives for the 7z bytes `data` opened with the
/// password bytes `pw`: it counts the entries read with their content, as
/// many as the header lists.
pub open spec fn sevenz_checks(data: Seq<u8>, pw: Seq<u8>, rep: TestReport) -> bool {
    &&& sevenz_read_content(data, pw) matches Some(es) && rep.entries_checked == es.len()
    &&& sevenz_entries(data, pw) matches Some(hs) && hs.len() == rep.entries_checked
}

/// Law: when `list_from_reader` and `test` both succeed on the same 7z bytes
/// and password, the test checks as many entries as the listing holds.
pub proof fn law_sevenz_test_counts_listed_entries(
    data: Seq<u8>,
    pw: Seq<u8>,
    listed: ListReport,
    tested: TestReport,
)
    requires
        sevenz_lists(data, pw, listed),
        sevenz_checks(data, pw, tested),
    ensures
        tested.entries_checked == listed.entries@.len(),
{
    let es = sevenz_entries(data, pw)->0;
    assert(listing_view(listed).len() == listed.entries@.len());
    assert(es.map_values(|e: (Seq<char>, bool, u64, u64)| sevenz_listed(e)).len() == es.len());
}

/// The listing of the 7z bytes `data`, opened with `password` (none or an
/// empty one meaning no password); refused with a 7z error when the archive
/// cannot be read.
pub fn list_from_reader(data: &[u8], password: Option<&str>) -> (r: Result<ListReport, K7zError>)
    ensures
        ({
            let pw = spec_password_from(
                match password {
                    Some(v) => Some(v@),
                    None => None,
                },
            );
            match r {
                Ok(rep) => sevenz_lists(data@, pw, rep),
                Err(e) => sevenz_entries(data@, pw) is None && e@.0 == ErrorKind::Other,
            }
        }),
{
    let pw = password_from(password);
    let infos = match sevenz_read_entries(data, &pw) {
        Ok(v) => v,
        Err(e) => {
            return Err(seven_error(&e));
        },
    };
    let ghost es = sevenz_infos_view(infos@);
    let mut entries: Vec<EntryMetadata> = Vec::new();
    let mut i: usize = 0;
    while i < infos.len()
        invariant
            es == sevenz_infos_view(infos@),
            i <= infos.len(),
            entries@.len() == i,
            forall|k: int|
                0 <= k < i ==> metadata_view(#[trigger] entries@[k]) == sevenz_listed(es[k]),
        decreases infos.len() - i,
    {
        let info = &infos[i];
        entries.push(
            EntryMetadata {
                path: info.name.clone(),
                is_dir: info.is_dir,
                size: info.size,
                compressed_size: Some(info.compressed_size),
            },
        );
        i = i + 1;
    }
    let rep = ListReport { entries };
    assert(listing_view(rep) =~= es.map_values(|e: (Seq<char>, bool, u64, u64)| sevenz_listed(e)));
    Ok(rep)
}

/// Checks the 7z bytes `data`, opened with `password` (none or an empty one
/// meaning no password), by reading the content of every entry; the report
/// counts the entries, as many as `list_from_reader` lists. A failure to open or read the archive is a 7z error.
pub fn test(data: &[u8], password: Option<&str>) -> (r: Result<TestReport, K7zError>)
    ensures
        ({
            let pw = spec_password_from(
                match password {
                    Some(v) => Some(v@),
                    None => None,
                },
            );
            match r {
                Ok(rep) => sevenz_checks(data@, pw, rep),
                Err(e) => sevenz_read_content(data@, pw) is None && e@.0 == ErrorKind::Other,
            }
        }),
{
    let pw = password_from(password);
    match sevenz_read_all(data, pw) {
        Ok(infos) => Ok(TestReport { entries_checked: infos.len() }),
        Err(e) => Err(seven_error(&e)),
    }
}

} // verus!
