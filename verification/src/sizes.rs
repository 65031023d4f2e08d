//! Adding up what a walk over the sources found.
use vstd::prelude::*;

use crate::types::PackReport;
use crate::unpack::saturating_sum;

verus! {

/// One path that a walk over a source met: whether it is a regular file
/// (following symbolic links) and its length in bytes.
#[derive(Clone, Copy, Debug, PartialEq, Eq, Structural)]
pub struct FsEntry {
    pub is_file: bool,
    pub len: u64,
}

/// What a walk that does not follow symbolic links saw at one path.
#[derive(Clone, Copy, Debug, PartialEq, Eq, Structural)]
pub enum WalkKind {
    File,
    Dir,
    Symlink,
    Other,
}

/// The total length of the regular files among `entries`.
pub open spec fn file_bytes(entries: Seq<FsEntry>) -> int
    decreases entries.len(),
{
    if entries.len() == 0 {
        0
    } else {
        file_bytes(entries.drop_last()) + (if entries.last().is_file {
            entries.last().len as int
        } else {
            0
        })
    }
}

/// The number of regular files and directories among `kinds`.
pub open spec fn files_and_dirs(kinds: Seq<WalkKind>) -> int
    decreases kinds.len(),
{
    if kinds.len() == 0 {
        0
    } else {
        files_and_dirs(kinds.drop_last()) + (if kinds.last() == WalkKind::File || kinds.last()
            == WalkKind::Dir {
            1int
        } else {
            0int
        })
    }
}

pub proof fn lemma_file_bytes_nonneg(entries: Seq<FsEntry>)
    ensures
        file_bytes(entries) >= 0,
    decreases entries.len(),
{
    if entries.len() > 0 {
        lemma_file_bytes_nonneg(entries.drop_last());
    }
}

/// The regular files of two lists of entries put together hold the bytes of
/// both.
pub proof fn lemma_file_bytes_concat(a: Seq<FsEntry>, b: Seq<FsEntry>)
    ensures
        file_bytes(a + b) == file_bytes(a) + file_bytes(b),
    decreases b.len(),
{
    if b.len() == 0 {
        assert(a + b =~= a);
    } else {
        lemma_file_bytes_concat(a, b.drop_last());
        assert((a + b).drop_last() =~= a + b.drop_last());
    }
}

/// Law: the input size of two lists of entries put together is the
/// saturating sum of their input sizes, and no entries hold no bytes.
pub proof fn law_input_size_concat(a: Seq<FsEntry>, b: Seq<FsEntry>)
    ensures
        saturating_sum(file_bytes(a + b), 0) == saturating_sum(
            saturating_sum(file_bytes(a), 0) as int,
            saturating_sum(file_bytes(b), 0) as int,
        ),
        saturating_sum(file_bytes(Seq::<FsEntry>::empty()), 0) == 0,
{
    lemma_file_bytes_concat(a, b);
    lemma_file_bytes_nonneg(a);
    lemma_file_bytes_nonneg(b);
}

/// The number of bytes to pack: the total length of the regular files that
/// the walk over the sources met, or the largest `u64` when the total does not
/// fit.
pub fn calculate_input_size(entries: &Vec<FsEntry>) -> (total: u64)
    ensures
        total == saturating_sum(file_bytes(entries@), 0),
{
    let mut total: u64 = 0;
    let mut i: usize = 0;
    while i < entries.len()
        invariant
            i <= entries.len(),
            total == saturating_sum(file_bytes(entries@.subrange(0, i as int)), 0),
        decreases entries.len() - i,
    {
        let e = entries[i];
        let ghost before = entries@.subrange(0, i as int);
        let ghost after = entries@.subrange(0, i + 1);
        assert(after.drop_last() =~= before);
        proof {
            lemma_file_bytes_nonneg(before);
        }
        if e.is_file {
            total = total.saturating_add(e.len);
        }
        i = i + 1;
    }
    assert(entries@.subrange(0, i as int) =~= entries@);
    total
}

/// The number of regular files and directories that a walk met.
pub fn count_files_and_dirs(kinds: &Vec<WalkKind>) -> (n: usize)
    ensures
        n == files_and_dirs(kinds@),
{
    let mut n: usize = 0;
    let mut i: usize = 0;
    while i < kinds.len()
        invariant
            i <= kinds.len(),
            n == files_and_dirs(kinds@.subrange(0, i as int)),
            n <= i,
        decreases kinds.len() - i,
    {
        let k = kinds[i];
        assert(kinds@.subrange(0, i + 1).drop_last() =~= kinds@.subrange(0, i as int));
        if k == WalkKind::File || k == WalkKind::Dir {
            n = n + 1;
        }
        i = i + 1;
    }
    assert(kinds@.subrange(0, i as int) =~= kinds@);
    n
}

/// What was found at one source of a packing: whether it is a regular file
/// and, when it is not, what a walk under it saw.
#[derive(Clone, Debug)]
pub struct SourceWalk {
    pub is_file: bool,
    pub kinds: Vec<WalkKind>,
}

/// The entries that one source adds to a 7z or zip archive: itself when it is
/// a regular file, else each regular file and directory under it.
pub open spec fn source_entries(is_file: bool, kinds: Seq<WalkKind>) -> int {
    if is_file {
        1
    } else {
        files_and_dirs(kinds)
    }
}

/// The entries that the sources add, from the first source on.
pub open spec fn input_count(sources: Seq<SourceWalk>) -> int
    decreases sources.len(),
{
    if sources.len() == 0 {
        0
    } else {
        source_entries(sources[0].is_file, sources[0].kinds@) + input_count(sources.drop_first())
    }
}

pub proof fn lemma_files_and_dirs_nonneg(kinds: Seq<WalkKind>)
    ensures
        files_and_dirs(kinds) >= 0,
    decreases kinds.len(),
{
    if kinds.len() > 0 {
        lemma_files_and_dirs_nonneg(kinds.drop_last());
    }
}

pub proof fn lemma_input_count_nonneg(sources: Seq<SourceWalk>)
    ensures
        input_count(sources) >= 0,
    decreases sources.len(),
{
    if sources.len() > 0 {
        lemma_files_and_dirs_nonneg(sources[0].kinds@);
        lemma_input_count_nonneg(sources.drop_first());
    }
}

/// The number of entries that a 7z archive of the sources holds: one per
/// regular file source, and each regular file and directory that the walk
/// under any other source saw.
pub fn count_inputs(sources: &Vec<SourceWalk>) -> (n: usize)
    requires
        input_count(sources@) <= usize::MAX,
    ensures
        n == input_count(sources@),
{
    let mut n: usize = 0;
    let mut i: usize = 0;
    assert(sources@.subrange(0, sources@.len() as int) =~= sources@);
    while i < sources.len()
        invariant
            i <= sources.len(),
            n + input_count(sources@.subrange(i as int, sources@.len() as int)) == input_count(
                sources@,
            ),
            input_count(sources@) <= usize::MAX,
        decreases sources.len() - i,
    {
        let ghost rest = sources@.subrange(i as int, sources@.len() as int);
        assert(rest.drop_first() =~= sources@.subrange(i + 1, sources@.len() as int));
        assert(rest[0] == sources@[i as int]);
        proof {
            lemma_input_count_nonneg(rest.drop_first());
        }
        let s = &sources[i];
        if s.is_file {
            n = n + 1;
        } else {
            let c = count_files_and_dirs(&s.kinds);
            n = n + c;
        }
        i = i + 1;
    }
    assert(sources@.subrange(i as int, sources@.len() as int) =~= Seq::<SourceWalk>::empty());
    n
}

/// The running count of entries a tar archive holds once one more source is
/// added: a regular file source adds one entry, a directory source each of
/// the `walked` paths met under it, itself included.
pub fn add_source_entries(count: usize, is_dir: bool, walked: usize) -> (r: usize)
    requires
        count + (if is_dir {
            walked as int
        } else {
            1int
        }) <= usize::MAX,
    ensures
        r == count + (if is_dir {
            walked as int
        } else {
            1int
        }),
{
    if is_dir {
        count + walked
    } else {
        count + 1
    }
}

/// Adds one packing's bytes in and out to running totals, saturating.
pub fn add_pack_totals(totals: (u64, u64), report: &PackReport) -> (r: (u64, u64))
    ensures
        r.0 == saturating_sum(totals.0 as int, report.bytes_in as int),
        r.1 == saturating_sum(totals.1 as int, report.bytes_out as int),
{
    (totals.0.saturating_add(report.bytes_in), totals.1.saturating_add(report.bytes_out))
}

/// Law: adding up with saturation gives the true total when it fits, and the
/// largest `u64` otherwise, however the total is split into steps.
pub proof fn law_saturating_steps(a: int, b: int, c: int)
    requires
        a >= 0,
        b >= 0,
        c >= 0,
        a <= u64::MAX,
    ensures
        saturating_sum(saturating_sum(a, b) as int, c) == saturating_sum(a, b + c),
{
}

proof fn lemma_files_and_dirs_concat(a: Seq<WalkKind>, b: Seq<WalkKind>)
    ensures
        files_and_dirs(a + b) == files_and_dirs(a) + files_and_dirs(b),
    decreases b.len(),
{
    if b.len() == 0 {
        assert(a + b =~= a);
    } else {
        lemma_files_and_dirs_concat(a, b.drop_last());
        assert((a + b).drop_last() =~= a + b.drop_last());
    }
}

/// Law: a walk's count adds up over its parts, and counts one for each
/// regular file and each directory, none for a symbolic link or anything
/// else.
pub proof fn law_walk_count(a: Seq<WalkKind>, b: Seq<WalkKind>, k: WalkKind)
    ensures
        files_and_dirs(a + b) == files_and_dirs(a) + files_and_dirs(b),
        files_and_dirs(Seq::<WalkKind>::empty()) == 0,
        files_and_dirs(seq![k]) == (if k == WalkKind::File || k == WalkKind::Dir {
            1int
        } else {
            0int
        }),
{
    lemma_files_and_dirs_concat(a, b);
    assert(seq![k].drop_last() =~= Seq::<WalkKind>::empty());
    assert(files_and_dirs(seq![k].drop_last()) == 0);
    assert(seq![k].last() == k);
}

/// Law: the bytes to pack add up over parts of the walk, and count the
/// length of each regular file and nothing of anything else.
pub proof fn law_file_bytes(a: Seq<FsEntry>, b: Seq<FsEntry>, e: FsEntry)
    ensures
        file_bytes(a + b) == file_bytes(a) + file_bytes(b),
        file_bytes(Seq::<FsEntry>::empty()) == 0,
        file_bytes(seq![e]) == (if e.is_file {
            e.len as int
        } else {
            0int
        }),
{
    lemma_file_bytes_concat(a, b);
    assert(seq![e].drop_last() =~= Seq::<FsEntry>::empty());
}

proof fn lemma_input_count_concat(a: Seq<SourceWalk>, b: Seq<SourceWalk>)
    ensures
        input_count(a + b) == input_count(a) + input_count(b),
    decreases a.len(),
{
    if a.len() == 0 {
        assert(a + b =~= b);
    } else {
        lemma_input_count_concat(a.drop_first(), b);
        assert((a + b).drop_first() =~= a.drop_first() + b);
        assert((a + b)[0] == a[0]);
    }
}

/// Law: the entries that sources add up over the sources; a regular file
/// source adds one entry, any other source the regular files and
/// directories that the walk under it met.
pub proof fn law_input_count(a: Seq<SourceWalk>, b: Seq<SourceWalk>, w: SourceWalk)
    ensures
        input_count(a + b) == input_count(a) + input_count(b),
        input_count(Seq::<SourceWalk>::empty()) == 0,
        input_count(seq![w]) == (if w.is_file {
            1int
        } else {
            files_and_dirs(w.kinds@)
        }),
{
    lemma_input_count_concat(a, b);
    assert(seq![w].drop_first() =~= Seq::<SourceWalk>::empty());
}

} // verus!
