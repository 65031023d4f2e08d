//! Deciding, entry by entry, what unpacking does on disk. The caller reads the
//! archive and touches the disk; these functions say where each entry goes,
//! whether it is written, skipped or refused, and keep the count.
use vstd::prelude::*;

use crate::error::{ErrorKind, K7zError};
use crate::format::{default_unpack_target, OverwriteMode};
use crate::join::{
    climb, kinds_of, lemma_push_path_components, push_name, safe_join, spec_safe_join,
};
use crate::path::{
    components, file_stem, has_root, lemma_components_wf, lemma_stem_has_no_root, path_components,
    spans_of, ComponentKind,
};
use crate::text::chars_of;
use crate::types::{UnpackReport, UnpackRequest};

verus! {

/// What to do with one entry of an archive.
#[derive(Clone, Copy, Debug, PartialEq, Eq, Structural)]
pub enum EntryAction {
    Skip,
    CreateDir,
    WriteFile,
}

/// The tar entry type byte of a hard link.
pub const TAR_HARD_LINK: u8 = 0x31;

/// The tar entry type byte of a symbolic link.
pub const TAR_SYMLINK: u8 = 0x32;

/// The tar entry type byte of a regular file.
pub const TAR_REGULAR: u8 = 0x30;

/// The tar entry type byte of a directory.
pub const TAR_DIRECTORY: u8 = 0x35;

/// `rel` appended to `base` as a path: a path with a root replaces `base`.
pub open spec fn join_path(base: Seq<char>, rel: Seq<char>) -> Seq<char> {
    if has_root(rel) {
        rel
    } else {
        push_name(base, rel)
    }
}

/// Appends the path `rel` to `base`.
pub fn join_path_exec(base: &str, rel: &str) -> (r: String)
    ensures
        r@ == join_path(base@, rel@),
{
    let rel_chars = chars_of(rel);
    if rel_chars.len() > 0 && rel_chars[0] == '/' {
        return String::from_str(rel);
    }
    let base_chars = chars_of(base);
    let mut out = String::from_str(base);
    if base_chars.len() > 0 && base_chars[base_chars.len() - 1] != '/' {
        proof {
            reveal_strlit("/");
        }
        out.append("/");
    }
    out.append(rel);
    out
}

/// Where a tar entry named `path`, of type `entry_type`, is unpacked under
/// `output_dir`. Links are refused, as is any path that would leave
/// `output_dir`.
pub fn tar_entry_destination(output_dir: &str, path: &str, entry_type: u8) -> (r: Result<
    String,
    K7zError,
>)
    ensures
        (entry_type == TAR_SYMLINK || entry_type == TAR_HARD_LINK) ==> (r matches Err(e) && e@ == (
            ErrorKind::InvalidInput,
            "unsupported tar entry type for safety: "@ + path@,
        )),
        !(entry_type == TAR_SYMLINK || entry_type == TAR_HARD_LINK) ==> match r {
            Ok(d) => spec_safe_join(output_dir@, path@) == Some(d@),
            Err(e) => spec_safe_join(output_dir@, path@) is None && e@ == (
                ErrorKind::PathTraversal,
                path@,
            ),
        },
{
    if entry_type == TAR_SYMLINK || entry_type == TAR_HARD_LINK {
        return Err(
            K7zError::InvalidInput(
                String::from_str("unsupported tar entry type for safety: ").concat(path),
            ),
        );
    }
    safe_join(output_dir, path)
}

/// What to do with a tar entry of type `entry_type` whose destination `dest`
/// is present or not: an existing destination is overwritten, skipped, or refused
/// as the mode says; then a directory is created, a regular file written, and
/// anything else skipped.
pub fn tar_entry_action(entry_type: u8, dest: &str, present: bool, overwrite: OverwriteMode) -> (r:
    Result<EntryAction, K7zError>)
    ensures
        present && overwrite == OverwriteMode::Ask ==> (r matches Err(e) && e@ == (
            ErrorKind::AlreadyExists,
            dest@,
        )),
        present && overwrite == OverwriteMode::Never ==> r == Ok::<EntryAction, K7zError>(
            EntryAction::Skip,
        ),
        (!present || overwrite == OverwriteMode::Always) ==> r == Ok::<EntryAction, K7zError>(
            if entry_type == TAR_DIRECTORY {
                EntryAction::CreateDir
            } else if entry_type == TAR_REGULAR {
                EntryAction::WriteFile
            } else {
                EntryAction::Skip
            },
        ),
{
    if present {
        match overwrite {
            OverwriteMode::Always => {},
            OverwriteMode::Never => {
                return Ok(EntryAction::Skip);
            },
            OverwriteMode::Ask => {
                return Err(K7zError::AlreadyExists(String::from_str(dest)));
            },
        }
    }
    if entry_type == TAR_DIRECTORY {
        Ok(EntryAction::CreateDir)
    } else if entry_type == TAR_REGULAR {
        Ok(EntryAction::WriteFile)
    } else {
        Ok(EntryAction::Skip)
    }
}

/// The zip reader's test (`enclosed_name`) that an entry's name is safe to use
/// as a path under the output directory: it holds no NUL, has no root, and
/// walking its components never climbs above where it starts.
pub open spec fn spec_enclosed(name: Seq<char>) -> bool {
    &&& !name.contains('\0')
    &&& climb(kinds_of(components(name)), 0) is Some
}

/// Where a zip entry named `name` is unpacked under `output_dir`: the name
/// joined on, when the zip reader counts it as enclosed; otherwise the entry
/// is refused as a path traversal, which names it.
pub fn zip_entry_destination(output_dir: &str, name: &str) -> (r: Result<String, K7zError>)
    ensures
        match r {
            Ok(d) => spec_enclosed(name@) && d@ == join_path(output_dir@, name@),
            Err(e) => !spec_enclosed(name@) && e@ == (ErrorKind::PathTraversal, name@),
        },
{
    let chars = chars_of(name);
    let mut i: usize = 0;
    while i < chars.len()
        invariant
            chars@ == name@,
            i <= chars.len(),
            forall|k: int| 0 <= k < i ==> chars@[k] != '\0',
        decreases chars.len() - i,
    {
        if chars[i] == '\0' {
            assert(name@[i as int] == '\0');
            return Err(K7zError::PathTraversal(String::from_str(name)));
        }
        i = i + 1;
    }
    assert(!name@.contains('\0'));
    let comps = path_components(&chars);
    let ghost ks = kinds_of(spans_of(comps@));
    let mut depth: usize = 0;
    let mut i: usize = 0;
    assert(ks.skip(0) =~= ks);
    while i < comps.len()
        invariant
            ks == kinds_of(spans_of(comps@)),
            ks == kinds_of(components(name@)),
            i <= comps.len(),
            depth <= i,
            climb(ks, 0) == climb(ks.skip(i as int), depth as int),
        decreases comps.len() - i,
    {
        let kind = comps[i].kind;
        assert(ks.skip(i as int)[0] == kind);
        assert(ks.skip(i as int).drop_first() =~= ks.skip(i + 1));
        match kind {
            ComponentKind::RootDir => {
                return Err(K7zError::PathTraversal(String::from_str(name)));
            },
            ComponentKind::ParentDir => {
                if depth == 0 {
                    return Err(K7zError::PathTraversal(String::from_str(name)));
                }
                depth = depth - 1;
            },
            ComponentKind::Normal => {
                depth = depth + 1;
            },
            ComponentKind::CurDir => {},
        }
        i = i + 1;
    }
    assert(ks.skip(i as int) =~= Seq::<ComponentKind>::empty());
    Ok(join_path_exec(output_dir, name))
}

/// Law: a zip entry is only ever unpacked under the output directory. Its
/// destination begins with the components of `output_dir`, and walking the
/// components that follow them never climbs above `output_dir`.
pub proof fn law_zip_destination_stays_under_output_dir(output_dir: Seq<char>, name: Seq<char>)
    requires
        spec_enclosed(name),
    ensures
        ({
            let d = components(join_path(output_dir, name));
            let b = components(output_dir);
            &&& b.len() <= d.len()
            &&& d.subrange(0, b.len() as int) == b
            &&& climb(kinds_of(d.skip(b.len() as int)), 0) is Some
        }),
{
    lemma_components_wf(name);
    if has_root(name) {
        let ks = kinds_of(components(name));
        assert(ks[0] == ComponentKind::RootDir);
    }
    lemma_push_path_components(output_dir, name, 0);
}

/// What to do with a zip entry: a directory is created; a file whose
/// destination is already there is overwritten, skipped, or refused as the mode says;
/// any other file is written.
pub fn zip_entry_action(is_dir: bool, dest: &str, present: bool, overwrite: OverwriteMode) -> (r:
    Result<EntryAction, K7zError>)
    ensures
        is_dir ==> r == Ok::<EntryAction, K7zError>(EntryAction::CreateDir),
        !is_dir && present && overwrite == OverwriteMode::Ask ==> (r matches Err(e) && e@ == (
            ErrorKind::AlreadyExists,
            dest@,
        )),
        !is_dir && present && overwrite == OverwriteMode::Never ==> r == Ok::<
            EntryAction,
            K7zError,
        >(EntryAction::Skip),
        !is_dir && (!present || overwrite == OverwriteMode::Always) ==> r == Ok::<
            EntryAction,
            K7zError,
        >(EntryAction::WriteFile),
{
    if is_dir {
        return Ok(EntryAction::CreateDir);
    }
    if present {
        match overwrite {
            OverwriteMode::Always => {},
            OverwriteMode::Never => {
                return Ok(EntryAction::Skip);
            },
            OverwriteMode::Ask => {
                return Err(K7zError::AlreadyExists(String::from_str(dest)));
            },
        }
    }
    Ok(EntryAction::WriteFile)
}

/// Where a 7z entry named `name` is unpacked under `output_dir`; refused when
/// the name is absolute or climbs out with `..`.
pub fn sevenz_entry_destination(output_dir: &str, name: &str) -> (r: Result<String, K7zError>)
    ensures
        match r {
            Ok(d) => spec_safe_join(output_dir@, name@) == Some(d@),
            Err(e) => spec_safe_join(output_dir@, name@) is None && e@ == (
                ErrorKind::PathTraversal,
                name@,
            ),
        },
{
    safe_join(output_dir, name)
}

/// What to do with a 7z entry: a directory is created; a file whose
/// destination is already there is overwritten, skipped, or refused (with the message
/// `destination exists: DEST`) as the mode says; any other file is written.
pub fn sevenz_entry_action(is_dir: bool, dest: &str, present: bool, overwrite: OverwriteMode) -> (r:
    Result<EntryAction, K7zError>)
    ensures
        is_dir ==> r == Ok::<EntryAction, K7zError>(EntryAction::CreateDir),
        !is_dir && present && overwrite == OverwriteMode::Ask ==> (r matches Err(e) && e@ == (
            ErrorKind::Other,
            "destination exists: "@ + dest@,
        )),
        !is_dir && present && overwrite == OverwriteMode::Never ==> r == Ok::<
            EntryAction,
            K7zError,
        >(EntryAction::Skip),
        !is_dir && (!present || overwrite == OverwriteMode::Always) ==> r == Ok::<
            EntryAction,
            K7zError,
        >(EntryAction::WriteFile),
{
    if is_dir {
        return Ok(EntryAction::CreateDir);
    }
    if present {
        match overwrite {
            OverwriteMode::Always => {},
            OverwriteMode::Never => {
                return Ok(EntryAction::Skip);
            },
            OverwriteMode::Ask => {
                return Err(
                    K7zError::Other(String::from_str("destination exists: ").concat(dest)),
                );
            },
        }
    }
    Ok(EntryAction::WriteFile)
}

/// Where a single-file zstd stream from `archive` unpacks under `out`.
pub open spec fn spec_zst_target(archive: Seq<char>, out: Seq<char>) -> Option<Seq<char>> {
    match file_stem(archive) {
        Some(stem) => Some(push_name(out, stem)),
        None => None,
    }
}

/// Where a single-file zstd stream unpacks: the stem of the archive's file
/// name, under the output directory; refused, naming the archive, when the
/// archive has no file name.
pub fn zst_unpack_target(req: &UnpackRequest) -> (r: Result<String, K7zError>)
    ensures
        match r {
            Ok(t) => spec_zst_target(req.archive@, req.output_dir@) == Some(t@),
            Err(e) => file_stem(req.archive@) is None && e@ == (
                ErrorKind::InvalidInput,
                req.archive@,
            ),
        },
{
    match default_unpack_target(req.archive.as_str()) {
        Err(e) => Err(e),
        Ok(stem) => {
            let out = join_path_exec(req.output_dir.as_str(), stem.as_str());
            proof {
                lemma_stem_has_no_root(req.archive@);
            }
            Ok(out)
        },
    }
}

/// What to do with the single stream of a `.zst` archive whose target is present
/// or not.
pub fn zst_unpack_action(target: &str, present: bool, overwrite: OverwriteMode) -> (r: Result<
    EntryAction,
    K7zError,
>)
    ensures
        present && overwrite == OverwriteMode::Ask ==> (r matches Err(e) && e@ == (
            ErrorKind::AlreadyExists,
            target@,
        )),
        present && overwrite == OverwriteMode::Never ==> r == Ok::<EntryAction, K7zError>(
            EntryAction::Skip,
        ),
        (!present || overwrite == OverwriteMode::Always) ==> r == Ok::<EntryAction, K7zError>(
            EntryAction::WriteFile,
        ),
{
    if present {
        match overwrite {
            OverwriteMode::Always => {},
            OverwriteMode::Never => {
                return Ok(EntryAction::Skip);
            },
            OverwriteMode::Ask => {
                return Err(K7zError::AlreadyExists(String::from_str(target)));
            },
        }
    }
    Ok(EntryAction::WriteFile)
}

/// `a + b`, or the largest `u64` when the sum does not fit.
pub open spec fn saturating_sum(a: int, b: int) -> u64 {
    if a + b <= u64::MAX {
        (a + b) as u64
    } else {
        u64::MAX
    }
}

/// The report of an unpack that has touched nothing yet.
pub fn empty_report(output_dir: &str) -> (r: UnpackReport)
    ensures
        r.output_dir@ == output_dir@,
        r.entries == 0,
        r.bytes_out == 0,
{
    UnpackReport { output_dir: String::from_str(output_dir), entries: 0, bytes_out: 0 }
}

/// Counts one entry that was acted on: a created directory or a written file
/// counts as an entry, and a file adds the bytes written to it (saturating).
pub fn record_entry(report: &mut UnpackReport, action: EntryAction, written: u64)
    requires
        old(report).entries < usize::MAX,
    ensures
        final(report).output_dir == old(report).output_dir,
        final(report).entries == old(report).entries + (if action == EntryAction::Skip {
            0int
        } else {
            1int
        }),
        final(report).bytes_out == (if action == EntryAction::WriteFile {
            saturating_sum(old(report).bytes_out as int, written as int)
        } else {
            old(report).bytes_out
        }),
{
    match action {
        EntryAction::Skip => {},
        EntryAction::CreateDir => {
            report.entries = report.entries + 1;
        },
        EntryAction::WriteFile => {
            report.entries = report.entries + 1;
            report.bytes_out = report.bytes_out.saturating_add(written);
        },
    }
}

} // verus!
