//! The decisions of a benchmark run: which requests are refused, where each
//! packed archive goes, and what each packing is asked to do.
use vstd::prelude::*;

use crate::error::{ErrorKind, K7zError};
use crate::format::{
    extension_for, format_name, lemma_not_ends_with_at, law_detect_named_archive,
    spec_detect_format,
};
use crate::join::push_name;
use crate::text::{ascii_lower, decimal, lemma_decimal_digits, push_decimal};
use crate::types::{BenchRequest, PackRequest};
use crate::unpack::{join_path, join_path_exec};

verus! {

/// Refuses a benchmark whose source is absent, then one of no iterations.
pub fn bench_check(req: &BenchRequest, source_present: bool) -> (r: Result<(), K7zError>)
    ensures
        !source_present ==> (r matches Err(e) && e@ == (
            ErrorKind::InvalidInput,
            "source does not exist: "@ + req.source@,
        )),
        source_present && req.iterations == 0 ==> (r matches Err(e) && e@ == (
            ErrorKind::InvalidInput,
            "iterations must be greater than 0"@,
        )),
        source_present && req.iterations != 0 ==> r is Ok,
{
    if !source_present {
        return Err(
            K7zError::InvalidInput(
                String::from_str("source does not exist: ").concat(req.source.as_str()),
            ),
        );
    }
    if req.iterations == 0 {
        return Err(K7zError::InvalidInput(String::from_str("iterations must be greater than 0")));
    }
    Ok(())
}

/// The file name of the archive of iteration `i` (counted from 0):
/// `bench-N.EXT`, with N = i + 1 and EXT the format's extension.
pub open spec fn bench_file_name(req: BenchRequest, i: u32) -> Seq<char> {
    "bench-"@ + decimal((i + 1) as nat) + "."@ + format_name(req.format)
}

/// Where iteration `i` of a benchmark writes its archive, under `root`.
pub fn bench_archive_path(req: &BenchRequest, root: &str, i: u32) -> (p: String)
    ensures
        p@ == join_path(root@, bench_file_name(*req, i)),
{
    let mut name = String::from_str("bench-");
    push_decimal(&mut name, (i as u64) + 1);
    name.append(".");
    name.append(extension_for(req.format));
    join_path_exec(root, name.as_str())
}

fn clone_password(p: &Option<String>) -> (r: Option<String>)
    ensures
        r == *p,
{
    match p {
        Some(s) => Some(s.clone()),
        None => None,
    }
}

/// The packing that one iteration of a benchmark performs: the source alone,
/// into `archive`, with the benchmark's format, level, solidity and password.
pub fn bench_pack_request(req: &BenchRequest, archive: String) -> (p: PackRequest)
    ensures
        p.sources@.len() == 1,
        p.sources@[0] == req.source,
        p.output == archive,
        p.format == req.format,
        p.level == req.level,
        p.solid == req.solid,
        p.password == req.password,
{
    let mut sources: Vec<String> = Vec::new();
    sources.push(req.source.clone());
    PackRequest {
        sources,
        output: archive,
        format: req.format,
        level: req.level,
        solid: req.solid,
        password: clone_password(&req.password),
    }
}


/// Law: every archive that a benchmark writes is named so that its format is
/// detected again from its path, whatever the directory.
pub proof fn law_bench_archives_are_detected(req: BenchRequest, root: Seq<char>, i: u32)
    ensures
        spec_detect_format(join_path(root, bench_file_name(req, i))) == Some(req.format),
{
    reveal_strlit("bench-");
    reveal_strlit(".");
    reveal_strlit(".tar");
    let digits = decimal((i + 1) as nat);
    lemma_decimal_digits((i + 1) as nat);
    let stem = "bench-"@ + digits;
    let name = bench_file_name(req, i);
    assert(name =~= stem + "."@ + format_name(req.format));
    assert forall|k: int| 0 <= k < stem.len() implies stem[k] != '/' by {
        if k >= 6 {
            assert(stem[k] == digits[k - 6]);
        }
    }
    let ls = ascii_lower(stem);
    assert(ls[ls.len() - 1] == stem[stem.len() - 1]);
    assert(stem[stem.len() - 1] == digits[digits.len() - 1]);
    lemma_not_ends_with_at(ls, ".tar"@, 0);
    law_detect_named_archive(root, stem, req.format);
    assert(name[0] == 'b');
    assert(join_path(root, name) == push_name(root, name));
}

} // verus!
