//! Archive formats: their names, how a name is parsed, and how a path's file
//! name tells the format of the archive at that path.
use vstd::prelude::*;

use crate::error::{ErrorKind, K7zError};
use crate::join::{lemma_push_name_components, push_name};
use crate::path::{
    components, extension_of, file_name, file_name_range, file_stem, is_normal_name, last_dot,
    last_dot_in, last_sep, lead_span, lemma_last_dot, lemma_last_sep_bounds, seg_span, span_text,
    stem_of,
};
use crate::text::{
    ascii_lower, chars_of, ends_with, ends_with_str, equals_str, lower_char, lower_range,
};

verus! {

/// The archive formats that k7z reads and writes.
#[derive(Clone, Copy, Debug, PartialEq, Eq, Structural)]
pub enum ArchiveFormat {
    SevenZ,
    Zip,
    Tar,
    TarGz,
    TarXz,
    TarZst,
    Zst,
}

/// What to do when an entry to unpack already exists on disk.
#[derive(Clone, Copy, Debug, PartialEq, Eq, Structural)]
pub enum OverwriteMode {
    Ask,
    Always,
    Never,
}

/// The name of a format, as the command line spells it; it is also the
/// extension of the files that hold it.
pub open spec fn format_name(f: ArchiveFormat) -> Seq<char> {
    match f {
        ArchiveFormat::SevenZ => "7z"@,
        ArchiveFormat::Zip => "zip"@,
        ArchiveFormat::Tar => "tar"@,
        ArchiveFormat::TarGz => "tar.gz"@,
        ArchiveFormat::TarXz => "tar.xz"@,
        ArchiveFormat::TarZst => "tar.zst"@,
        ArchiveFormat::Zst => "zst"@,
    }
}

/// The format that a name denotes, compared without regard to ASCII case.
/// Besides the format names, `tgz`, `txz` and `tzst` are accepted.
pub open spec fn spec_parse_format(raw: Seq<char>) -> Option<ArchiveFormat> {
    let l = ascii_lower(raw);
    if l == "7z"@ {
        Some(ArchiveFormat::SevenZ)
    } else if l == "zip"@ {
        Some(ArchiveFormat::Zip)
    } else if l == "tar"@ {
        Some(ArchiveFormat::Tar)
    } else if l == "tar.gz"@ || l == "tgz"@ {
        Some(ArchiveFormat::TarGz)
    } else if l == "tar.xz"@ || l == "txz"@ {
        Some(ArchiveFormat::TarXz)
    } else if l == "tar.zst"@ || l == "tzst"@ {
        Some(ArchiveFormat::TarZst)
    } else if l == "zst"@ {
        Some(ArchiveFormat::Zst)
    } else {
        None
    }
}

/// The format that a single extension (already lower-case) denotes.
pub open spec fn format_of_extension(ext: Seq<char>) -> Option<ArchiveFormat> {
    if ext == "7z"@ {
        Some(ArchiveFormat::SevenZ)
    } else if ext == "zip"@ {
        Some(ArchiveFormat::Zip)
    } else if ext == "tar"@ {
        Some(ArchiveFormat::Tar)
    } else if ext == "zst"@ {
        Some(ArchiveFormat::Zst)
    } else {
        None
    }
}

/// The format that a file name denotes: a compressed-tar suffix first (without
/// regard to ASCII case), then the extension alone.
pub open spec fn format_of_file_name(name: Seq<char>) -> Option<ArchiveFormat> {
    let lower = ascii_lower(name);
    if ends_with(lower, ".tar.gz"@) || ends_with(lower, ".tgz"@) {
        Some(ArchiveFormat::TarGz)
    } else if ends_with(lower, ".tar.xz"@) || ends_with(lower, ".txz"@) {
        Some(ArchiveFormat::TarXz)
    } else if ends_with(lower, ".tar.zst"@) || ends_with(lower, ".tzst"@) {
        Some(ArchiveFormat::TarZst)
    } else {
        match extension_of(name) {
            Some(ext) => format_of_extension(ascii_lower(ext)),
            None => None,
        }
    }
}

/// The format that the file name of the path `p` denotes; none when `p` has
/// no file name.
pub open spec fn spec_detect_format(p: Seq<char>) -> Option<ArchiveFormat> {
    match file_name(p) {
        Some(name) => format_of_file_name(name),
        None => None,
    }
}

impl ArchiveFormat {
    /// The name of this format.
    pub fn as_str(self) -> (s: &'static str)
        ensures
            s@ == format_name(self),
    {
        match self {
            ArchiveFormat::SevenZ => "7z",
            ArchiveFormat::Zip => "zip",
            ArchiveFormat::Tar => "tar",
            ArchiveFormat::TarGz => "tar.gz",
            ArchiveFormat::TarXz => "tar.xz",
            ArchiveFormat::TarZst => "tar.zst",
            ArchiveFormat::Zst => "zst",
        }
    }
}

/// The extension that an archive of this format is written with.
pub fn extension_for(format: ArchiveFormat) -> (s: &'static str)
    ensures
        s@ == format_name(format),
{
    match format {
        ArchiveFormat::SevenZ => "7z",
        ArchiveFormat::Zip => "zip",
        ArchiveFormat::Tar => "tar",
        ArchiveFormat::TarGz => "tar.gz",
        ArchiveFormat::TarXz => "tar.xz",
        ArchiveFormat::TarZst => "tar.zst",
        ArchiveFormat::Zst => "zst",
    }
}

/// Parses a format name. An unknown name is refused with `UnsupportedFormat`,
/// which carries the name as given.
pub fn parse_format(raw: &str) -> (r: Result<ArchiveFormat, K7zError>)
    ensures
        match r {
            Ok(f) => spec_parse_format(raw@) == Some(f),
            Err(e) => {
                &&& spec_parse_format(raw@) is None
                &&& e matches K7zError::UnsupportedFormat(s) && s@ == raw@
            },
        },
{
    let chars = chars_of(raw);
    let l = lower_range(&chars, 0, chars.len());
    assert(chars@.subrange(0, chars@.len() as int) =~= raw@);
    if equals_str(&l, "7z") {
        Ok(ArchiveFormat::SevenZ)
    } else if equals_str(&l, "zip") {
        Ok(ArchiveFormat::Zip)
    } else if equals_str(&l, "tar") {
        Ok(ArchiveFormat::Tar)
    } else if equals_str(&l, "tar.gz") || equals_str(&l, "tgz") {
        Ok(ArchiveFormat::TarGz)
    } else if equals_str(&l, "tar.xz") || equals_str(&l, "txz") {
        Ok(ArchiveFormat::TarXz)
    } else if equals_str(&l, "tar.zst") || equals_str(&l, "tzst") {
        Ok(ArchiveFormat::TarZst)
    } else if equals_str(&l, "zst") {
        Ok(ArchiveFormat::Zst)
    } else {
        Err(K7zError::UnsupportedFormat(String::from_str(raw)))
    }
}

impl std::str::FromStr for ArchiveFormat {
    type Err = K7zError;

    /// Parses a format name as `parse_format` does.
    fn from_str(raw: &str) -> (r: Result<ArchiveFormat, K7zError>)
        ensures
            match r {
                Ok(f) => spec_parse_format(raw@) == Some(f),
                Err(e) => spec_parse_format(raw@) is None && e@ == (
                    ErrorKind::UnsupportedFormat,
                    raw@,
                ),
            },
    {
        parse_format(raw)
    }
}

/// Whether the characters `a..b` of `v` are exactly `..`.
fn is_dot_dot(v: &Vec<char>, a: usize, b: usize) -> (r: bool)
    requires
        a <= b <= v@.len(),
    ensures
        r == (v@.subrange(a as int, b as int) == seq!['.', '.']),
{
    let ghost name = v@.subrange(a as int, b as int);
    let r = b - a == 2 && v[a] == '.' && v[a + 1] == '.';
    proof {
        if name == seq!['.', '.'] {
            assert(name.len() == 2);
            assert(name[0] == seq!['.', '.'][0]);
            assert(name[1] == seq!['.', '.'][1]);
            assert(v@[a as int] == name[0]);
            assert(v@[a + 1] == name[1]);
        }
        if r {
            assert(name =~= seq!['.', '.']);
        }
    }
    r
}

/// The format that one extension denotes, without regard to ASCII case.
fn format_of_extension_range(v: &Vec<char>, a: usize, b: usize) -> (r: Option<ArchiveFormat>)
    requires
        a <= b <= v@.len(),
    ensures
        r == format_of_extension(ascii_lower(v@.subrange(a as int, b as int))),
{
    let e = lower_range(v, a, b);
    if equals_str(&e, "7z") {
        Some(ArchiveFormat::SevenZ)
    } else if equals_str(&e, "zip") {
        Some(ArchiveFormat::Zip)
    } else if equals_str(&e, "tar") {
        Some(ArchiveFormat::Tar)
    } else if equals_str(&e, "zst") {
        Some(ArchiveFormat::Zst)
    } else {
        None
    }
}

/// The format that the file name of `path` denotes, if any.
pub fn detect_format_from_path(path: &str) -> (r: Option<ArchiveFormat>)
    ensures
        r == spec_detect_format(path@),
{
    let chars = chars_of(path);
    let range = file_name_range(&chars);
    match range {
        None => None,
        Some((a, b)) => {
            let ghost name = chars@.subrange(a as int, b as int);
            let lower = lower_range(&chars, a, b);
            if ends_with_str(&lower, ".tar.gz") || ends_with_str(&lower, ".tgz") {
                return Some(ArchiveFormat::TarGz);
            }
            if ends_with_str(&lower, ".tar.xz") || ends_with_str(&lower, ".txz") {
                return Some(ArchiveFormat::TarXz);
            }
            if ends_with_str(&lower, ".tar.zst") || ends_with_str(&lower, ".tzst") {
                return Some(ArchiveFormat::TarZst);
            }
            let dot_dot = is_dot_dot(&chars, a, b);
            if dot_dot {
                return None;
            }
            match last_dot_in(&chars, a, b) {
                None => None,
                Some(i) => {
                    if i == 0 {
                        None
                    } else {
                        assert(name.subrange(i + 1, name.len() as int) =~= chars@.subrange(
                            a + i + 1,
                            b as int,
                        ));
                        format_of_extension_range(&chars, a + i + 1, b)
                    }
                },
            }
        },
    }
}

/// The format of the archive at `path`, inferred from its file name; refused
/// with `UnsupportedFormat` when no format can be inferred.
pub fn detect_archive_format(path: &str) -> (r: Result<ArchiveFormat, K7zError>)
    ensures
        match r {
            Ok(f) => spec_detect_format(path@) == Some(f),
            Err(e) => {
                &&& spec_detect_format(path@) is None
                &&& e matches K7zError::UnsupportedFormat(s) && s@
                    == "cannot infer archive format from path "@ + path@
            },
        },
{
    match detect_format_from_path(path) {
        Some(f) => Ok(f),
        None => Err(
            K7zError::UnsupportedFormat(
                String::from_str("cannot infer archive format from path ").concat(path),
            ),
        ),
    }
}

/// The format to pack into: the one named, parsed as `parse_format` does, or
/// else the one that the output path's file name tells; refused with
/// `UnsupportedFormat` when neither gives one.
pub fn pack_format(named: Option<&str>, output: &str) -> (r: Result<ArchiveFormat, K7zError>)
    ensures
        match named {
            Some(raw) => match r {
                Ok(f) => spec_parse_format(raw@) == Some(f),
                Err(e) => spec_parse_format(raw@) is None && e@ == (
                    ErrorKind::UnsupportedFormat,
                    raw@,
                ),
            },
            None => match r {
                Ok(f) => spec_detect_format(output@) == Some(f),
                Err(e) => spec_detect_format(output@) is None && e@ == (
                    ErrorKind::UnsupportedFormat,
                    "cannot infer archive format from "@ + output@,
                ),
            },
        },
{
    match named {
        Some(raw) => parse_format(raw),
        None => match detect_format_from_path(output) {
            Some(f) => Ok(f),
            None => Err(
                K7zError::UnsupportedFormat(
                    String::from_str("cannot infer archive format from ").concat(output),
                ),
            ),
        },
    }
}

/// Where a single-file `.zst` stream unpacks to: the stem of the archive's file
/// name; refused with `InvalidInput`, naming the archive, when it has none.
pub fn default_unpack_target(archive: &str) -> (r: Result<String, K7zError>)
    ensures
        match r {
            Ok(t) => file_stem(archive@) == Some(t@),
            Err(e) => {
                &&& file_stem(archive@) is None
                &&& e matches K7zError::InvalidInput(s) && s@ == archive@
            },
        },
{
    let chars = chars_of(archive);
    match file_name_range(&chars) {
        None => Err(K7zError::InvalidInput(String::from_str(archive))),
        Some((a, b)) => {
            let ghost name = chars@.subrange(a as int, b as int);
            let dot_dot = is_dot_dot(&chars, a, b);
            let end = match last_dot_in(&chars, a, b) {
                Some(i) => if dot_dot || i == 0 {
                    b
                } else {
                    a + i
                },
                None => b,
            };
            assert(chars@ == archive@);
            assert(stem_of(name) =~= archive@.subrange(a as int, end as int));
            Ok(String::from_str(archive.substring_char(a, end)))
        },
    }
}


/// A string with no ASCII upper-case letter is its own lower-case form.
pub proof fn lemma_lower_of_lower(s: Seq<char>)
    ensures
        ascii_lower(ascii_lower(s)) == ascii_lower(s),
{
    assert(ascii_lower(ascii_lower(s)) =~= ascii_lower(s));
}

/// Law: every format's name parses back to that format.
pub proof fn law_parse_format_name(f: ArchiveFormat)
    ensures
        spec_parse_format(format_name(f)) == Some(f),
{
    reveal_strlit("7z");
    reveal_strlit("zip");
    reveal_strlit("tar");
    reveal_strlit("tar.gz");
    reveal_strlit("tgz");
    reveal_strlit("tar.xz");
    reveal_strlit("txz");
    reveal_strlit("tar.zst");
    reveal_strlit("tzst");
    reveal_strlit("zst");
    let n = format_name(f);
    assert(ascii_lower(n) =~= n);
    match f {
        ArchiveFormat::Tar => {
            assert(n[0] != "zip"@[0]);
        },
        ArchiveFormat::TarXz => {
            assert(n[4] != "tar.gz"@[4]);
        },
        ArchiveFormat::Zst => {
            assert(n[1] != "zip"@[1]);
            assert(n[0] != "tar"@[0]);
            assert(n[0] != "tgz"@[0]);
            assert(n[0] != "txz"@[0]);
        },
        _ => {},
    }
}

/// Law: parsing a format name does not depend on ASCII case.
pub proof fn law_parse_format_ignores_case(raw: Seq<char>)
    ensures
        spec_parse_format(raw) == spec_parse_format(ascii_lower(raw)),
{
    lemma_lower_of_lower(raw);
}


/// `s` followed by `t` ends with `t`.
pub proof fn lemma_ends_with_tail(s: Seq<char>, t: Seq<char>)
    ensures
        ends_with(s + t, t),
{
    assert((s + t).subrange(s.len() as int, (s + t).len() as int) =~= t);
}

/// A string whose `k`-th character from the end differs from that of `suf`
/// does not end with `suf`.
pub proof fn lemma_not_ends_with_at(s: Seq<char>, suf: Seq<char>, k: int)
    requires
        0 <= k < suf.len(),
        k < s.len(),
        s[s.len() - 1 - k] != suf[suf.len() - 1 - k],
    ensures
        !ends_with(s, suf),
{
    if ends_with(s, suf) {
        let tail = s.subrange(s.len() - suf.len(), s.len() as int);
        assert(tail[suf.len() - 1 - k] == s[s.len() - 1 - k]);
    }
}

/// If `a + b` ends with `c + b`, then `a` ends with `c`.
pub proof fn lemma_ends_with_drop_common(a: Seq<char>, b: Seq<char>, c: Seq<char>)
    requires
        ends_with(a + b, c + b),
    ensures
        ends_with(a, c),
{
    let s = a + b;
    let n = s.len();
    let m = (c + b).len();
    assert forall|k: int| 0 <= k < c.len() implies a.subrange(a.len() - c.len(), a.len() as int)[k]
        == c[k] by {
        assert(s.subrange(n - m, n as int)[k] == (c + b)[k]);
    }
    assert(a.subrange(a.len() - c.len(), a.len() as int) =~= c);
}

/// Lower-casing works character by character.
pub proof fn lemma_lower_concat(a: Seq<char>, b: Seq<char>)
    ensures
        ascii_lower(a + b) == ascii_lower(a) + ascii_lower(b),
{
    assert(ascii_lower(a + b) =~= ascii_lower(a) + ascii_lower(b));
}

/// The lower-case form of `stem.EXT`, for a format name EXT, and its last
/// characters.
pub proof fn lemma_named_lower(stem: Seq<char>, f: ArchiveFormat)
    ensures
        ascii_lower(stem + "."@ + format_name(f)) == ascii_lower(stem) + "."@ + format_name(f),
        ends_with(ascii_lower(stem + "."@ + format_name(f)), "."@ + format_name(f)),
{
    reveal_strlit(".");
    reveal_strlit("7z");
    reveal_strlit("zip");
    reveal_strlit("tar");
    reveal_strlit("tar.gz");
    reveal_strlit("tar.xz");
    reveal_strlit("tar.zst");
    reveal_strlit("zst");
    let ext = format_name(f);
    let tail = "."@ + ext;
    assert(ascii_lower(tail) =~= tail);
    assert(stem + "."@ + ext =~= stem + tail);
    lemma_lower_concat(stem, tail);
    assert(ascii_lower(stem) + tail =~= ascii_lower(stem) + "."@ + ext);
    lemma_ends_with_tail(ascii_lower(stem), tail);
}

/// A compressed-tar name `stem.tar.gz`, `stem.tar.xz` or `stem.tar.zst` is
/// recognised by its suffix.
pub proof fn lemma_named_compound(stem: Seq<char>, f: ArchiveFormat)
    requires
        f == ArchiveFormat::TarGz || f == ArchiveFormat::TarXz || f == ArchiveFormat::TarZst,
    ensures
        format_of_file_name(stem + "."@ + format_name(f)) == Some(f),
{
    reveal_strlit(".");
    reveal_strlit("tar.gz");
    reveal_strlit("tar.xz");
    reveal_strlit("tar.zst");
    reveal_strlit(".tar.gz");
    reveal_strlit(".tgz");
    reveal_strlit(".tar.xz");
    reveal_strlit(".txz");
    reveal_strlit(".tar.zst");
    lemma_named_lower(stem, f);
    let tail = "."@ + format_name(f);
    let lower = ascii_lower(stem + "."@ + format_name(f));
    let n = lower.len() as int;
    assert(lower.subrange(n - tail.len(), n) == tail);
    assert(lower[n - 1] == tail[tail.len() - 1]);
    assert(lower[n - 2] == tail[tail.len() - 2]);
    if f == ArchiveFormat::TarGz {
        assert(tail =~= ".tar.gz"@);
    } else if f == ArchiveFormat::TarXz {
        lemma_not_ends_with_at(lower, ".tar.gz"@, 1);
        lemma_not_ends_with_at(lower, ".tgz"@, 1);
        assert(tail =~= ".tar.xz"@);
    } else {
        lemma_not_ends_with_at(lower, ".tar.gz"@, 0);
        lemma_not_ends_with_at(lower, ".tgz"@, 0);
        lemma_not_ends_with_at(lower, ".tar.xz"@, 0);
        lemma_not_ends_with_at(lower, ".txz"@, 0);
        assert(tail =~= ".tar.zst"@);
    }
}

/// A name `stem.EXT` for a single extension EXT matches none of the
/// compressed-tar suffixes (for `zst`, given that the stem does not end with
/// `.tar`).
pub proof fn lemma_named_no_suffix(stem: Seq<char>, f: ArchiveFormat)
    requires
        f == ArchiveFormat::SevenZ || f == ArchiveFormat::Zip || f == ArchiveFormat::Tar || f
            == ArchiveFormat::Zst,
        f == ArchiveFormat::Zst ==> !ends_with(ascii_lower(stem), ".tar"@),
    ensures
        ({
            let lower = ascii_lower(stem + "."@ + format_name(f));
            &&& !ends_with(lower, ".tar.gz"@)
            &&& !ends_with(lower, ".tgz"@)
            &&& !ends_with(lower, ".tar.xz"@)
            &&& !ends_with(lower, ".txz"@)
            &&& !ends_with(lower, ".tar.zst"@)
            &&& !ends_with(lower, ".tzst"@)
        }),
{
    reveal_strlit(".");
    reveal_strlit("7z");
    reveal_strlit("zip");
    reveal_strlit("tar");
    reveal_strlit("zst");
    reveal_strlit(".tar.gz");
    reveal_strlit(".tgz");
    reveal_strlit(".tar.xz");
    reveal_strlit(".txz");
    reveal_strlit(".tar.zst");
    reveal_strlit(".tzst");
    reveal_strlit(".tar");
    lemma_named_lower(stem, f);
    let tail = "."@ + format_name(f);
    let lower = ascii_lower(stem + "."@ + format_name(f));
    let n = lower.len() as int;
    assert(lower.subrange(n - tail.len(), n) == tail);
    assert(lower[n - 1] == tail[tail.len() - 1]);
    assert(lower[n - 2] == tail[tail.len() - 2]);
    if f == ArchiveFormat::SevenZ {
        lemma_not_ends_with_at(lower, ".tar.gz"@, 1);
        lemma_not_ends_with_at(lower, ".tgz"@, 1);
        lemma_not_ends_with_at(lower, ".tar.xz"@, 1);
        lemma_not_ends_with_at(lower, ".txz"@, 1);
    } else {
        lemma_not_ends_with_at(lower, ".tar.gz"@, 0);
        lemma_not_ends_with_at(lower, ".tgz"@, 0);
        lemma_not_ends_with_at(lower, ".tar.xz"@, 0);
        lemma_not_ends_with_at(lower, ".txz"@, 0);
    }
    if f == ArchiveFormat::Zst {
        assert(lower[n - 4] == tail[0]);
        lemma_not_ends_with_at(lower, ".tzst"@, 3);
        if ends_with(lower, ".tar.zst"@) {
            assert(".tar.zst"@ =~= ".tar"@ + tail);
            assert(lower == ascii_lower(stem) + tail);
            lemma_ends_with_drop_common(ascii_lower(stem), tail, ".tar"@);
        }
    } else {
        lemma_not_ends_with_at(lower, ".tar.zst"@, 0);
        lemma_not_ends_with_at(lower, ".tzst"@, 0);
    }
}

/// A name `stem.EXT` for a single extension EXT is recognised by its
/// extension.
pub proof fn lemma_named_simple(stem: Seq<char>, f: ArchiveFormat)
    requires
        stem.len() > 0,
        f == ArchiveFormat::SevenZ || f == ArchiveFormat::Zip || f == ArchiveFormat::Tar || f
            == ArchiveFormat::Zst,
        f == ArchiveFormat::Zst ==> !ends_with(ascii_lower(stem), ".tar"@),
    ensures
        format_of_file_name(stem + "."@ + format_name(f)) == Some(f),
{
    reveal_strlit(".");
    reveal_strlit("7z");
    reveal_strlit("zip");
    reveal_strlit("tar");
    reveal_strlit("zst");
    lemma_named_no_suffix(stem, f);
    let ext = format_name(f);
    let name = stem + "."@ + ext;
    lemma_last_dot(name);
    let d = last_dot(name);
    assert(name[stem.len() as int] == '.');
    assert forall|k: int| stem.len() < k < name.len() implies name[k] != '.' by {
        assert(name[k] == ext[k - stem.len() - 1]);
    }
    assert(d == stem.len());
    assert(name.subrange(d + 1, name.len() as int) =~= ext);
    assert(name != seq!['.', '.']) by {
        assert(name.len() >= 3);
    }
    assert(extension_of(name) == Some(ext));
    assert(ascii_lower(ext) =~= ext);
    if f == ArchiveFormat::Tar {
        assert(ext[0] != "zip"@[0]);
    }
    if f == ArchiveFormat::Zst {
        assert(ext[1] != "zip"@[1]);
        assert(ext[0] != "tar"@[0]);
    }
}

/// Law: an archive whose file name is a stem, a `.` and a format's name (as
/// k7z names the archives it writes) is detected as that format, in any
/// directory. The one exception is a `zst` stream whose stem already ends
/// with `.tar` (in any case): that name reads as `tar.zst`.
pub proof fn law_detect_named_archive(dir: Seq<char>, stem: Seq<char>, f: ArchiveFormat)
    requires
        stem.len() > 0,
        forall|k: int| 0 <= k < stem.len() ==> stem[k] != '/',
        f == ArchiveFormat::Zst ==> !ends_with(ascii_lower(stem), ".tar"@),
    ensures
        spec_detect_format(push_name(dir, stem + "."@ + format_name(f))) == Some(f),
{
    reveal_strlit(".");
    reveal_strlit("7z");
    reveal_strlit("zip");
    reveal_strlit("tar");
    reveal_strlit("tar.gz");
    reveal_strlit("tar.xz");
    reveal_strlit("tar.zst");
    reveal_strlit("zst");
    let ext = format_name(f);
    let name = stem + "."@ + ext;
    assert(is_normal_name(name)) by {
        assert forall|k: int| 0 <= k < name.len() implies name[k] != '/' by {
            if k > stem.len() {
                assert(name[k] == ext[k - stem.len() - 1]);
            }
        }
        assert(name.len() >= 3);
    }
    lemma_push_name_components(dir, name);
    let p = push_name(dir, name);
    assert(file_name(p) == Some(name));
    if f == ArchiveFormat::TarGz || f == ArchiveFormat::TarXz || f == ArchiveFormat::TarZst {
        lemma_named_compound(stem, f);
    } else {
        lemma_named_simple(stem, f);
    }
}


/// Lower-casing commutes with taking a part of a string.
pub proof fn lemma_lower_subrange(s: Seq<char>, a: int, b: int)
    requires
        0 <= a <= b <= s.len(),
    ensures
        ascii_lower(s).subrange(a, b) == ascii_lower(s.subrange(a, b)),
{
    assert(ascii_lower(s).subrange(a, b) =~= ascii_lower(s.subrange(a, b)));
}

/// Lower-casing keeps `/` and `.` where they are, and makes no new ones.
pub proof fn lemma_lower_keeps_punctuation(c: char)
    ensures
        (lower_char(c) == '/') == (c == '/'),
        (lower_char(c) == '.') == (c == '.'),
{
}

/// Lower-casing keeps the last `/` where it is.
pub proof fn lemma_last_sep_lower(s: Seq<char>)
    ensures
        last_sep(ascii_lower(s)) == last_sep(s),
    decreases s.len(),
{
    if s.len() > 0 {
        lemma_lower_keeps_punctuation(s.last());
        assert(ascii_lower(s).drop_last() =~= ascii_lower(s.drop_last()));
        lemma_last_sep_lower(s.drop_last());
    }
}

/// Lower-casing keeps the last `.` where it is.
pub proof fn lemma_last_dot_lower(s: Seq<char>)
    ensures
        last_dot(ascii_lower(s)) == last_dot(s),
    decreases s.len(),
{
    if s.len() > 0 {
        lemma_lower_keeps_punctuation(s.last());
        assert(ascii_lower(s).drop_last() =~= ascii_lower(s.drop_last()));
        lemma_last_dot_lower(s.drop_last());
    }
}

/// A lower-cased segment is `.` or `..` exactly when the segment is.
pub proof fn lemma_dots_lower(seg: Seq<char>)
    ensures
        (ascii_lower(seg) == seq!['.']) == (seg == seq!['.']),
        (ascii_lower(seg) == seq!['.', '.']) == (seg == seq!['.', '.']),
{
    let l = ascii_lower(seg);
    if l == seq!['.'] {
        assert(l[0] == seq!['.'][0]);
        lemma_lower_keeps_punctuation(seg[0]);
        assert(seg =~= seq!['.']);
    }
    if seg == seq!['.'] {
        assert(l =~= seq!['.']);
    }
    if l == seq!['.', '.'] {
        assert(l[0] == seq!['.', '.'][0]);
        assert(l[1] == seq!['.', '.'][1]);
        lemma_lower_keeps_punctuation(seg[0]);
        lemma_lower_keeps_punctuation(seg[1]);
        assert(seg =~= seq!['.', '.']);
    }
    if seg == seq!['.', '.'] {
        assert(l =~= seq!['.', '.']);
    }
}

/// Lower-casing a path keeps its components: their kinds and where they lie.
pub proof fn lemma_components_lower(s: Seq<char>)
    ensures
        components(ascii_lower(s)) == components(s),
    decreases s.len(),
{
    let l = ascii_lower(s);
    lemma_last_sep_lower(s);
    lemma_last_sep_bounds(s);
    let i = last_sep(s);
    if i < 0 {
        lemma_dots_lower(s);
    } else if i == 0 {
        lemma_lower_subrange(s, 1, s.len() as int);
        lemma_dots_lower(s.subrange(1, s.len() as int));
    } else {
        lemma_lower_subrange(s, 0, i);
        lemma_lower_subrange(s, i + 1, s.len() as int);
        lemma_dots_lower(s.subrange(i + 1, s.len() as int));
        lemma_components_lower(s.subrange(0, i));
    }
}

/// Law: detecting a format does not depend on ASCII case.
pub proof fn law_detect_ignores_case(p: Seq<char>)
    ensures
        spec_detect_format(ascii_lower(p)) == spec_detect_format(p),
{
    let l = ascii_lower(p);
    lemma_components_lower(p);
    let c = components(p);
    if c.len() > 0 && c.last().kind == crate::path::ComponentKind::Normal {
        crate::path::lemma_components_ordered(p);
        let sp = c.last();
        assert(0 <= c[c.len() - 1].start && c[c.len() - 1].end <= p.len());
        assert(c[c.len() - 1].start < c[c.len() - 1].end);
        let name = span_text(p, sp);
        lemma_lower_subrange(p, sp.start, sp.end);
        let lname = ascii_lower(name);
        assert(file_name(l) == Some(lname));
        assert(ascii_lower(lname) =~= lname);
        lemma_last_dot_lower(name);
        lemma_dots_lower(name);
        crate::path::lemma_last_dot(name);
        let d = last_dot(name);
        if !(name == seq!['.', '.'] || d <= 0) {
            lemma_lower_subrange(name, d + 1, name.len() as int);
            let ext = name.subrange(d + 1, name.len() as int);
            assert(ascii_lower(ascii_lower(ext)) =~= ascii_lower(ext));
        }
    }
}

} // verus!
