//! Deciding how a task is carried out: which archive backend serves a
//! request, with which settings, and which requests are refused before any
//! file is touched.
use vstd::prelude::*;

use crate::error::{ErrorKind, K7zError};
use crate::format::{detect_archive_format, spec_detect_format, ArchiveFormat};
use crate::path::{file_name, file_name_range};
use crate::text::chars_of;
use crate::types::{ListRequest, PackRequest, TestRequest, UnpackRequest};

verus! {

/// What is known of a source path on disk before packing it.
#[derive(Clone, Copy, Debug, PartialEq, Eq, Structural)]
pub enum SourceKind {
    Missing,
    File,
    Dir,
    Other,
}

/// How a tar stream is compressed, with the level handed to the compressor.
#[derive(Clone, Copy, Debug, PartialEq, Eq, Structural)]
pub enum TarCompression {
    Plain,
    Gzip(u32),
    Xz(u32),
    Zstd(i32),
}

/// How an archive is to be written.
#[derive(Debug)]
pub enum PackPlan {
    /// LZMA2 at `level`; with `encrypt`, AES with the request's password
    /// and an encrypted header.
    SevenZ { level: u32, encrypt: bool },
    /// Entries stored as they are when `stored`, deflated otherwise.
    Zip { stored: bool },
    /// Each source is added under its file name, `names[i]` for source `i`.
    Tar { compression: TarCompression, names: Vec<String> },
    /// A single zstd stream at `level`.
    Zst { level: i32 },
}

/// The mathematical form of a [`PackPlan`].
pub enum PlanView {
    SevenZ { level: u32, encrypt: bool },
    Zip { stored: bool },
    Tar { compression: TarCompression, names: Seq<Seq<char>> },
    Zst { level: i32 },
}

pub open spec fn strings_view(v: Seq<String>) -> Seq<Seq<char>> {
    v.map_values(|s: String| s@)
}

impl View for PackPlan {
    type V = PlanView;

    open spec fn view(&self) -> PlanView {
        match self {
            PackPlan::SevenZ { level, encrypt } => PlanView::SevenZ { level: *level, encrypt: *encrypt },
            PackPlan::Zip { stored } => PlanView::Zip { stored: *stored },
            PackPlan::Tar { compression, names } => PlanView::Tar {
                compression: *compression,
                names: strings_view(names@),
            },
            PackPlan::Zst { level } => PlanView::Zst { level: *level },
        }
    }
}

/// A level given or defaulted, capped at 9.
pub open spec fn capped_level(level: Option<u32>, default: u32) -> u32 {
    let l = match level {
        Some(l) => l,
        None => default,
    };
    if l < 9 {
        l
    } else {
        9
    }
}

/// The zstd level: given or 3, taken as a signed 32-bit number.
pub open spec fn zstd_level(level: Option<u32>) -> i32 {
    match level {
        Some(l) => l as i32,
        None => 3,
    }
}

/// The message for an empty source list.
pub open spec fn no_source_message() -> Seq<char> {
    "at least one source path is required"@
}

/// What is wrong with one source, if anything: it must exist, and, when it is
/// to be named after its file name, it must have one.
pub open spec fn source_problem(src: Seq<char>, kind: SourceKind, needs_name: bool) -> Option<
    (ErrorKind, Seq<char>),
> {
    if kind == SourceKind::Missing {
        Some((ErrorKind::InvalidInput, "source does not exist: "@ + src))
    } else if needs_name && file_name(src) is None {
        Some((ErrorKind::InvalidInput, src))
    } else {
        None
    }
}

/// The problem of the first source that has one.
pub open spec fn first_problem(srcs: Seq<Seq<char>>, kinds: Seq<SourceKind>, needs_name: bool) -> Option<
    (ErrorKind, Seq<char>),
>
    decreases srcs.len(),
{
    if srcs.len() == 0 || kinds.len() == 0 {
        None
    } else {
        match source_problem(srcs[0], kinds[0], needs_name) {
            Some(p) => Some(p),
            None => first_problem(srcs.drop_first(), kinds.drop_first(), needs_name),
        }
    }
}

/// The plan for packing `req`, whose sources are of the kinds `kinds`, or the
/// error that refuses it.
pub open spec fn spec_pack_plan(req: PackRequest, kinds: Seq<SourceKind>) -> Result<
    PlanView,
    (ErrorKind, Seq<char>),
> {
    let srcs = strings_view(req.sources@);
    match req.format {
        ArchiveFormat::SevenZ => if srcs.len() == 0 {
            Err((ErrorKind::InvalidInput, no_source_message()))
        } else if let Some(p) = first_problem(srcs, kinds, false) {
            Err(p)
        } else {
            Ok(
                PlanView::SevenZ {
                    level: capped_level(req.level, 6),
                    encrypt: req.password is Some,
                },
            )
        },
        ArchiveFormat::Zip => if req.password is Some {
            Err((ErrorKind::InvalidInput, "zip encryption is not implemented yet"@))
        } else if srcs.len() == 0 {
            Err((ErrorKind::InvalidInput, no_source_message()))
        } else if let Some(p) = first_problem(srcs, kinds, false) {
            Err(p)
        } else {
            Ok(PlanView::Zip { stored: req.level == Some(0u32) })
        },
        ArchiveFormat::Zst => if req.password is Some {
            Err(
                (
                    ErrorKind::InvalidInput,
                    "zstd stream encryption is not supported in this version"@,
                ),
            )
        } else if srcs.len() != 1 {
            Err((ErrorKind::InvalidInput, ".zst format requires exactly one source file"@))
        } else if kinds[0] != SourceKind::File {
            Err((ErrorKind::InvalidInput, ".zst format supports file input only"@))
        } else {
            Ok(PlanView::Zst { level: zstd_level(req.level) })
        },
        _ => if req.password is Some {
            Err((ErrorKind::InvalidInput, "tar encryption is not supported in this version"@))
        } else if srcs.len() == 0 {
            Err((ErrorKind::InvalidInput, no_source_message()))
        } else if let Some(p) = first_problem(srcs, kinds, true) {
            Err(p)
        } else {
            Ok(
                PlanView::Tar {
                    compression: match req.format {
                        ArchiveFormat::TarGz => TarCompression::Gzip(capped_level(req.level, 6)),
                        ArchiveFormat::TarXz => TarCompression::Xz(capped_level(req.level, 6)),
                        ArchiveFormat::TarZst => TarCompression::Zstd(zstd_level(req.level)),
                        _ => TarCompression::Plain,
                    },
                    names: srcs.map_values(|s: Seq<char>| file_name(s)->0),
                },
            )
        },
    }
}

fn capped_level_exec(level: Option<u32>, default: u32) -> (r: u32)
    ensures
        r == capped_level(level, default),
{
    let l = match level {
        Some(l) => l,
        None => default,
    };
    if l < 9 {
        l
    } else {
        9
    }
}

fn zstd_level_exec(level: Option<u32>) -> (r: i32)
    ensures
        r == zstd_level(level),
{
    match level {
        Some(l) => l as i32,
        None => 3,
    }
}

/// Checks the sources in order and gives the error of the first one with a
/// problem; for tar, also collects the file name of each.
fn check_sources(sources: &Vec<String>, kinds: &Vec<SourceKind>, needs_name: bool) -> (r: Result<
    Vec<String>,
    K7zError,
>)
    requires
        sources.len() == kinds.len(),
    ensures
        match r {
            Ok(names) => {
                &&& first_problem(strings_view(sources@), kinds@, needs_name) is None
                &&& needs_name ==> strings_view(names@) == strings_view(sources@).map_values(
                    |s: Seq<char>| file_name(s)->0,
                )
            },
            Err(e) => first_problem(strings_view(sources@), kinds@, needs_name) == Some(e@),
        },
{
    let ghost srcs = strings_view(sources@);
    let mut names: Vec<String> = Vec::new();
    let mut i: usize = 0;
    assert(srcs.skip(0) =~= srcs);
    assert(kinds@.skip(0) =~= kinds@);
    while i < sources.len()
        invariant
            srcs == strings_view(sources@),
            sources.len() == kinds.len(),
            i <= sources.len(),
            first_problem(srcs.skip(i as int), kinds@.skip(i as int), needs_name) == first_problem(
                srcs,
                kinds@,
                needs_name,
            ),
            names@.len() == i,
            needs_name ==> forall|k: int|
                0 <= k < i ==> (#[trigger] names@[k])@ == file_name(srcs[k])->0,
        decreases sources.len() - i,
    {
        let src = &sources[i];
        assert(srcs.skip(i as int)[0] == src@);
        assert(kinds@.skip(i as int)[0] == kinds@[i as int]);
        assert(srcs.skip(i as int).drop_first() =~= srcs.skip(i + 1));
        assert(kinds@.skip(i as int).drop_first() =~= kinds@.skip(i + 1));
        if kinds[i] == SourceKind::Missing {
            let msg = String::from_str("source does not exist: ").concat(src.as_str());
            return Err(K7zError::InvalidInput(msg));
        }
        if needs_name {
            let chars = chars_of(src.as_str());
            match file_name_range(&chars) {
                None => {
                    return Err(K7zError::InvalidInput(src.clone()));
                },
                Some((a, b)) => {
                    let name = String::from_str(src.as_str().substring_char(a, b));
                    names.push(name);
                },
            }
        } else {
            names.push(String::new());
        }
        i = i + 1;
    }
    assert(srcs.skip(i as int) =~= Seq::<Seq<char>>::empty());
    proof {
        if needs_name {
            assert(strings_view(names@) =~= srcs.map_values(|s: Seq<char>| file_name(s)->0));
        }
    }
    Ok(names)
}

/// Decides how to pack `req`, whose sources were found to be of the kinds
/// `kinds`, one per source; or refuses it, with the error the backend gives.
pub fn pack(req: &PackRequest, kinds: &Vec<SourceKind>) -> (r: Result<PackPlan, K7zError>)
    requires
        kinds.len() == req.sources.len(),
    ensures
        match r {
            Ok(plan) => spec_pack_plan(*req, kinds@) == Ok::<PlanView, (ErrorKind, Seq<char>)>(
                plan@,
            ),
            Err(e) => spec_pack_plan(*req, kinds@) == Err::<PlanView, (ErrorKind, Seq<char>)>(
                e@,
            ),
        },
{
    proof {
        reveal_strlit("at least one source path is required");
    }
    match req.format {
        ArchiveFormat::SevenZ => {
            if req.sources.len() == 0 {
                return Err(
                    K7zError::InvalidInput(String::from_str("at least one source path is required")),
                );
            }
            if let Err(e) = check_sources(&req.sources, kinds, false) {
                return Err(e);
            }
            let level = capped_level_exec(req.level, 6);
            Ok(PackPlan::SevenZ { level, encrypt: req.password.is_some() })
        },
        ArchiveFormat::Zip => {
            if req.password.is_some() {
                return Err(
                    K7zError::InvalidInput(String::from_str("zip encryption is not implemented yet")),
                );
            }
            if req.sources.len() == 0 {
                return Err(
                    K7zError::InvalidInput(String::from_str("at least one source path is required")),
                );
            }
            if let Err(e) = check_sources(&req.sources, kinds, false) {
                return Err(e);
            }
            Ok(PackPlan::Zip { stored: req.level == Some(0u32) })
        },
        ArchiveFormat::Zst => {
            if req.password.is_some() {
                return Err(
                    K7zError::InvalidInput(
                        String::from_str("zstd stream encryption is not supported in this version"),
                    ),
                );
            }
            if req.sources.len() != 1 {
                return Err(
                    K7zError::InvalidInput(
                        String::from_str(".zst format requires exactly one source file"),
                    ),
                );
            }
            if kinds[0] != SourceKind::File {
                return Err(
                    K7zError::InvalidInput(String::from_str(".zst format supports file input only")),
                );
            }
            Ok(PackPlan::Zst { level: zstd_level_exec(req.level) })
        },
        _ => {
            if req.password.is_some() {
                return Err(
                    K7zError::InvalidInput(
                        String::from_str("tar encryption is not supported in this version"),
                    ),
                );
            }
            if req.sources.len() == 0 {
                return Err(
                    K7zError::InvalidInput(String::from_str("at least one source path is required")),
                );
            }
            let names = match check_sources(&req.sources, kinds, true) {
                Ok(names) => names,
                Err(e) => {
                    return Err(e);
                },
            };
            let compression = match req.format {
                ArchiveFormat::TarGz => TarCompression::Gzip(capped_level_exec(req.level, 6)),
                ArchiveFormat::TarXz => TarCompression::Xz(capped_level_exec(req.level, 6)),
                ArchiveFormat::TarZst => TarCompression::Zstd(zstd_level_exec(req.level)),
                _ => TarCompression::Plain,
            };
            Ok(PackPlan::Tar { compression, names })
        },
    }
}

/// The format of the archive to unpack, which decides the backend; refused
/// when the archive's name tells no format.
pub fn unpack(req: &UnpackRequest) -> (r: Result<ArchiveFormat, K7zError>)
    ensures
        match r {
            Ok(f) => spec_detect_format(req.archive@) == Some(f),
            Err(e) => spec_detect_format(req.archive@) is None && e@ == (
                ErrorKind::UnsupportedFormat,
                "cannot infer archive format from path "@ + req.archive@,
            ),
        },
{
    detect_archive_format(req.archive.as_str())
}

/// The format of the archive to list, which decides the backend.
pub fn list(req: &ListRequest) -> (r: Result<ArchiveFormat, K7zError>)
    ensures
        match r {
            Ok(f) => spec_detect_format(req.archive@) == Some(f),
            Err(e) => spec_detect_format(req.archive@) is None && e@ == (
                ErrorKind::UnsupportedFormat,
                "cannot infer archive format from path "@ + req.archive@,
            ),
        },
{
    detect_archive_format(req.archive.as_str())
}

/// The format of the archive to test, which decides the backend.
pub fn test(req: &TestRequest) -> (r: Result<ArchiveFormat, K7zError>)
    ensures
        match r {
            Ok(f) => spec_detect_format(req.archive@) == Some(f),
            Err(e) => spec_detect_format(req.archive@) is None && e@ == (
                ErrorKind::UnsupportedFormat,
                "cannot infer archive format from path "@ + req.archive@,
            ),
        },
{
    detect_archive_format(req.archive.as_str())
}

/// The compression level a plan uses for a request that asked for `asked`:
/// the level asked for when it is at most 9, else 9, and `default` when none
/// was asked for.
pub open spec fn level_rule(asked: Option<u32>, default: u32, used: u32) -> bool {
    &&& used <= 9
    &&& asked is None ==> used == default
    &&& asked matches Some(l) ==> if l <= 9 {
        used == l
    } else {
        used == 9
    }
}

/// When no source has a problem, every source exists, and every source that
/// must be named after its file name has one.
proof fn lemma_no_problem(srcs: Seq<Seq<char>>, kinds: Seq<SourceKind>, needs_name: bool)
    requires
        srcs.len() == kinds.len(),
        first_problem(srcs, kinds, needs_name) is None,
    ensures
        forall|k: int| 0 <= k < kinds.len() ==> #[trigger] kinds[k] != SourceKind::Missing,
        needs_name ==> forall|k: int| 0 <= k < srcs.len() ==> (#[trigger] file_name(srcs[k])) is Some,
    decreases srcs.len(),
{
    if srcs.len() > 0 {
        lemma_no_problem(srcs.drop_first(), kinds.drop_first(), needs_name);
        assert forall|k: int| 0 < k < kinds.len() implies #[trigger] kinds[k] != SourceKind::Missing by {
            assert(kinds[k] == kinds.drop_first()[k - 1]);
        }
        if needs_name {
            assert forall|k: int| 0 < k < srcs.len() implies (#[trigger] file_name(srcs[k])) is Some by {
                assert(srcs[k] == srcs.drop_first()[k - 1]);
            }
        }
    }
}

/// Law: a pack plan uses the backend of the requested format, with the
/// settings the request asks for. A zip stores its entries exactly when level
/// 0 is asked for and deflates them otherwise; 7z, gzip and xz take the level
/// asked for, capped at 9, or 6 by default; zstd takes the level asked for or
/// 3; a 7z is encrypted exactly when a password is given; a tar stores each
/// source under its file name. Only a 7z may have a password, a plan needs at
/// least one source, and every source of a plan exists.
pub proof fn law_pack_plan_follows_the_request(req: PackRequest, kinds: Seq<SourceKind>)
    requires
        kinds.len() == req.sources@.len(),
    ensures
        req.password is Some && req.format != ArchiveFormat::SevenZ ==> spec_pack_plan(
            req,
            kinds,
        ) is Err,
        req.sources@.len() == 0 ==> spec_pack_plan(req, kinds) is Err,
        spec_pack_plan(req, kinds) is Ok ==> forall|k: int|
            0 <= k < kinds.len() ==> #[trigger] kinds[k] != SourceKind::Missing,
        spec_pack_plan(req, kinds) matches Ok(v) ==> match req.format {
            ArchiveFormat::Zip => v matches PlanView::Zip { stored } && (stored <==> req.level
                == Some(0u32)),
            ArchiveFormat::SevenZ => v matches PlanView::SevenZ { level, encrypt } && level_rule(
                req.level,
                6,
                level,
            ) && (encrypt <==> req.password is Some),
            ArchiveFormat::Zst => v matches PlanView::Zst { level } && (req.level is None
                ==> level == 3) && (req.level matches Some(l) ==> (l <= i32::MAX ==> level == l)),
            _ => v matches PlanView::Tar { compression, names } && names.len()
                == req.sources@.len() && (forall|k: int|
                0 <= k < names.len() ==> file_name(req.sources@[k]@) == Some(#[trigger] names[k]))
                && match req.format {
                ArchiveFormat::Tar => compression == TarCompression::Plain,
                ArchiveFormat::TarGz => compression matches TarCompression::Gzip(l) && level_rule(
                    req.level,
                    6,
                    l,
                ),
                ArchiveFormat::TarXz => compression matches TarCompression::Xz(l) && level_rule(
                    req.level,
                    6,
                    l,
                ),
                _ => compression matches TarCompression::Zstd(z) && (req.level is None ==> z == 3)
                    && (req.level matches Some(l) ==> (l <= i32::MAX ==> z == l)),
            },
        },
{
    let srcs = strings_view(req.sources@);
    assert(srcs.len() == kinds.len());
    match req.format {
        ArchiveFormat::SevenZ | ArchiveFormat::Zip => {
            if first_problem(srcs, kinds, false) is None {
                lemma_no_problem(srcs, kinds, false);
            }
        },
        ArchiveFormat::Zst => {},
        _ => {
            if first_problem(srcs, kinds, true) is None {
                lemma_no_problem(srcs, kinds, true);
                let names = srcs.map_values(|s: Seq<char>| file_name(s)->0);
                assert forall|k: int| 0 <= k < names.len() implies file_name(req.sources@[k]@)
                    == Some(#[trigger] names[k]) by {
                    assert(srcs[k] == req.sources@[k]@);
                    assert(file_name(srcs[k]) is Some);
                }
            }
        },
    }
}

} // verus!
