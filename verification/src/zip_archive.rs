//! Zip archives: listing and checking an archive held in memory, and the names
//! under which packed files are stored.
use vstd::prelude::*;

use crate::error::{ErrorKind, K7zError};
use crate::io::io_error;
use crate::join::{lemma_push_name_components, lemma_push_name_parts, push_name};
use crate::path::{components, is_normal_name, lemma_components_wf, parts, path_components};
use crate::tar_archive::{listing_view, metadata_view};
use crate::text::chars_of;
use crate::sizes::WalkKind;
use crate::types::{EntryMetadata, ListReport, TestReport};

verus! {

#[verifier::external_type_specification]
#[verifier::external_body]
pub struct ExZipError(zip::result::ZipError);

/// One entry of a zip archive as the zip reader shows it.
#[derive(Debug)]
pub struct ZipEntryInfo {
    pub name: String,
    pub is_dir: bool,
    pub size: u64,
    pub compressed_size: u64,
}

impl View for ZipEntryInfo {
    type V = (Seq<char>, bool, u64, u64);

    open spec fn view(&self) -> (Seq<char>, bool, u64, u64) {
        (self.name@, self.is_dir, self.size, self.compressed_size)
    }
}

pub open spec fn zip_infos_view(v: Seq<ZipEntryInfo>) -> Seq<(Seq<char>, bool, u64, u64)> {
    v.map_values(|e: ZipEntryInfo| e@)
}

/// The zip reader counts an entry as a directory when its name ends with `/`
/// or `\`.
pub open spec fn zip_name_is_dir(name: Seq<char>) -> bool {
    name.len() > 0 && (name.last() == '/' || name.last() == '\\')
}

/// What the `zip` crate reads from the zip bytes `data`: each entry's name,
/// whether it is a directory, its size and its compressed size, in the order
/// of the central directory; nothing when reading fails.
pub uninterp spec fn zip_entries(data: Seq<u8>) -> Option<Seq<(Seq<char>, bool, u64, u64)>>;

/// The number of entries that the `zip` crate reads from `data` when it can
/// also read (and so check) the content of every entry; nothing when reading
/// fails.
pub uninterp spec fn zip_readable(data: Seq<u8>) -> Option<nat>;

/// Reads the entries of a zip archive with `zip::ZipArchive::new` and
/// `by_index`, taking from each `name`, `is_dir`, `size` and
/// `compressed_size`. The result is a function of the bytes alone; of it only
/// how `is_dir` follows from the name is stated.
#[verifier::external_body]
fn zip_read_entries(data: &[u8]) -> (r: Result<Vec<ZipEntryInfo>, zip::result::ZipError>)
    ensures
        r is Ok <==> zip_entries(data@) is Some,
        r matches Ok(v) ==> zip_entries(data@) == Some(zip_infos_view(v@)),
        r matches Ok(v) ==> forall|k: int|
            0 <= k < v@.len() ==> (#[trigger] v@[k]).is_dir == zip_name_is_dir(v@[k].name@),
{
    let mut archive = zip::ZipArchive::new(std::io::Cursor::new(data))?;
    let mut out = Vec::new();
    for i in 0..archive.len() {
        let e = archive.by_index(i)?;
        out.push(ZipEntryInfo { name: e.name().to_string(), is_dir: e.is_dir(), size: e.size(), compressed_size: e.compressed_size() });
    }
    Ok(out)
}

/// Why checking a zip archive failed: the archive could not be read, or the
/// content of an entry could not.
pub enum ZipCheckFailure {
    Archive(zip::result::ZipError),
    Read(std::io::Error),
}

/// Reads every entry of a zip archive with `zip::ZipArchive::by_index`, and
/// its content into `std::io::sink` (which checks its CRC), and counts the
/// entries. The result is a function of the bytes alone. `by_index` finds
/// each entry from the central directory alone, whatever was read before, so
/// when this succeeds `zip_read_entries` reads as many entries.
#[verifier::external_body]
fn zip_read_all(data: &[u8]) -> (r: Result<usize, ZipCheckFailure>)
    ensures
        r is Ok <==> zip_readable(data@) is Some,
        r matches Ok(n) ==> zip_readable(data@) == Some(n as nat),
        r matches Ok(n) ==> zip_entries(data@) matches Some(es) && es.len() == n as nat,
{
    let mut archive = zip::ZipArchive::new(std::io::Cursor::new(data)).map_err(ZipCheckFailure::Archive)?;
    for i in 0..archive.len() {
        let mut e = archive.by_index(i).map_err(ZipCheckFailure::Archive)?;
        std::io::copy(&mut e, &mut std::io::sink()).map_err(ZipCheckFailure::Read)?;
    }
    Ok(archive.len())
}

/// The message of a zip error, as its `Display` writes it. Nothing is
/// claimed of the text.
#[verifier::external_body]
fn zip_error_text(e: &zip::result::ZipError) -> String {
    e.to_string()
}

/// A zip error as the library's own error: `zip error: ` and its message.
pub fn zip_error(e: &zip::result::ZipError) -> (r: K7zError)
    ensures
        r@.0 == ErrorKind::Other,
        r@.1.len() >= "zip error: "@.len(),
        r@.1.subrange(0, "zip error: "@.len() as int) == "zip error: "@,
{
    let prefix = String::from_str("zip error: ");
    let text = zip_error_text(e);
    let msg = prefix.concat(text.as_str());
    assert(msg@.subrange(0, "zip error: "@.len() as int) =~= "zip error: "@);
    K7zError::Other(msg)
}

/// How a zip entry is listed: its name, whether it is a directory, its size
/// and its compressed size.
pub open spec fn zip_listed(e: (Seq<char>, bool, u64, u64)) -> (Seq<char>, bool, u64, Option<u64>) {
    (e.0, e.1, e.2, Some(e.3))
}

/// The listing of the zip bytes `data`, entry by entry; refused with a zip
/// error when the archive cannot be read.
pub fn list_from_reader(data: &[u8]) -> (r: Result<ListReport, K7zError>)
    ensures
        match r {
            Ok(rep) => zip_lists(data@, rep),
            Err(e) => zip_entries(data@) is None && e@.0 == ErrorKind::Other,
        },
{
    let infos = match zip_read_entries(data) {
        Ok(v) => v,
        Err(e) => {
            return Err(zip_error(&e));
        },
    };
    let ghost es = zip_infos_view(infos@);
    let mut entries: Vec<EntryMetadata> = Vec::new();
    let mut i: usize = 0;
    while i < infos.len()
        invariant
            es == zip_infos_view(infos@),
            i <= infos.len(),
            entries@.len() == i,
            forall|k: int|
                0 <= k < i ==> metadata_view(#[trigger] entries@[k]) == zip_listed(es[k]),
        decreases infos.len() - i,
    {
        let info = &infos[i];
        entries.push(
            EntryMetadata {
                path: info.name.clone(),
                is_dir: info.is_dir,
                size: info.size,
                compressed_size: Some(info.compressed_size),
            },
        );
        i = i + 1;
    }
    let rep = ListReport { entries };
    assert(listing_view(rep) =~= es.map_values(|e: (Seq<char>, bool, u64, u64)| zip_listed(e)));
    Ok(rep)
}

/// `rep` is what `list_from_reader` gives for the zip bytes `data`.
pub open spec fn zip_lists(data: Seq<u8>, rep: ListReport) -> bool {
    zip_entries(data) matches Some(es) && listing_view(rep) == es.map_values(
        |e: (Seq<char>, bool, u64, u64)| zip_listed(e),
    )
}

/// `rep` is what `test` gives for the zip bytes `data`: it counts the
/// entries read with their content, as many as the central directory lists.
pub open spec fn zip_checks(data: Seq<u8>, rep: TestReport) -> bool {
    &&& zip_readable(data) == Some(rep.entries_checked as nat)
    &&& zip_entries(data) matches Some(es) && es.len() == rep.entries_checked
}

/// Law: when `list_from_reader` and `test` both succeed on the same zip
/// bytes, the test checks as many entries as the listing holds.
pub proof fn law_zip_test_counts_listed_entries(
    data: Seq<u8>,
    listed: ListReport,
    tested: TestReport,
)
    requires
        zip_lists(data, listed),
        zip_checks(data, tested),
    ensures
        tested.entries_checked == listed.entries@.len(),
{
    let es = zip_entries(data)->0;
    assert(listing_view(listed).len() == listed.entries@.len());
    assert(es.map_values(|e: (Seq<char>, bool, u64, u64)| zip_listed(e)).len() == es.len());
}

/// Law: a zip listing shows the entries the zip reader reads, in its order,
/// one line each: the entry's name, whether it is a directory, its size, and
/// the compressed size the archive records for it.
pub proof fn law_zip_listing_shows_each_entry(data: Seq<u8>, rep: ListReport)
    requires
        zip_lists(data, rep),
    ensures
        zip_entries(data) matches Some(es) && rep.entries@.len() == es.len() && forall|k: int|
            0 <= k < es.len() ==> {
                let m = #[trigger] rep.entries@[k];
                &&& m.path@ == es[k].0
                &&& m.is_dir == es[k].1
                &&& m.size == es[k].2
                &&& m.compressed_size == Some(es[k].3)
            },
{
    let es = zip_entries(data)->0;
    let lv = listing_view(rep);
    assert(lv.len() == rep.entries@.len());
    assert forall|k: int| 0 <= k < es.len() implies {
        let m = #[trigger] rep.entries@[k];
        &&& m.path@ == es[k].0
        &&& m.is_dir == es[k].1
        &&& m.size == es[k].2
        &&& m.compressed_size == Some(es[k].3)
    } by {
        assert(lv[k] == metadata_view(rep.entries@[k]));
        assert(lv[k] == zip_listed(es[k]));
    }
}

/// Checks the zip bytes `data` by reading every entry and its content; the
/// report counts the entries, as many as `list_from_reader` lists. A failure
/// to read the archive is a zip error, a failure to read an entry's content
/// an I/O error.
pub fn test(data: &[u8]) -> (r: Result<TestReport, K7zError>)
    ensures
        match r {
            Ok(rep) => zip_checks(data@, rep),
            Err(e) => zip_readable(data@) is None && (e@.0 == ErrorKind::Other || e@.0
                == ErrorKind::Io),
        },
{
    match zip_read_all(data) {
        Ok(n) => Ok(TestReport { entries_checked: n }),
        Err(ZipCheckFailure::Archive(e)) => Err(zip_error(&e)),
        Err(ZipCheckFailure::Read(e)) => Err(io_error(&e)),
    }
}

/// `s` with every `\` turned into `/`.
pub open spec fn forward_slashes(s: Seq<char>) -> Seq<char> {
    s.map_values(|c: char| if c == '\\' { '/' } else { c })
}

/// What is left of `path` once the components of `base` are taken off its
/// front, as the standard library's `Path::strip_prefix` gives it: the
/// characters from the first remaining component to the end of the last one;
/// nothing when the components of `base` do not begin those of `path`.
pub open spec fn strip_prefix(base: Seq<char>, path: Seq<char>) -> Option<Seq<char>> {
    let b = parts(base);
    let p = parts(path);
    let c = components(path);
    if !(b.len() <= p.len() && p.subrange(0, b.len() as int) == b) {
        None
    } else if b.len() == p.len() {
        Some(Seq::<char>::empty())
    } else {
        Some(path.subrange(c[b.len() as int].start, c.last().end))
    }
}

/// Whether the components `bc` of `base` and `pc` of `path` agree at `k`.
fn same_part(base: &str, bc: &Vec<crate::path::Component>, path: &str, pc: &Vec<
    crate::path::Component,
>, k: usize) -> (r: bool)
    requires
        k < bc.len(),
        k < pc.len(),
        crate::path::spans_of(bc@) == components(base@),
        crate::path::spans_of(pc@) == components(path@),
    ensures
        r == (parts(base@)[k as int] == parts(path@)[k as int]),
{
    proof {
        crate::path::lemma_components_wf(base@);
        crate::path::lemma_components_wf(path@);
    }
    let b = bc[k];
    let p = pc[k];
    assert(0 <= components(base@)[k as int].start <= components(base@)[k as int].end
        <= base@.len());
    assert(0 <= components(path@)[k as int].start <= components(path@)[k as int].end
        <= path@.len());
    assert(components(base@)[k as int] == b@);
    assert(components(path@)[k as int] == p@);
    if b.kind != p.kind {
        return false;
    }
    let bt = base.substring_char(b.start, b.end);
    let pt = path.substring_char(p.start, p.end);
    let bs = String::from_str(bt);
    let ps = String::from_str(pt);
    let eq = bs == ps;
    assert(eq == (bt@ == pt@));
    eq
}

/// The name under which a packed file `path` is stored, relative to `base`,
/// with `/` as the only separator; refused with `InvalidInput`, naming `path`,
/// when `path` does not lie under `base` or nothing of it is left.
pub fn normalize_name(base: &str, path: &str) -> (r: Result<String, K7zError>)
    ensures
        match r {
            Ok(name) => strip_prefix(base@, path@) matches Some(rest) && rest.len() > 0 && name@
                == forward_slashes(rest),
            Err(e) => (strip_prefix(base@, path@) matches Some(rest) ==> rest.len() == 0) && e@
                == (ErrorKind::InvalidInput, path@),
        },
{
    let bchars = chars_of(base);
    let pchars = chars_of(path);
    let bc = path_components(&bchars);
    let pc = path_components(&pchars);
    proof {
        crate::path::lemma_components_wf(path@);
        crate::path::lemma_components_ordered(path@);
    }
    let ghost b = parts(base@);
    let ghost p = parts(path@);
    if bc.len() > pc.len() {
        return Err(K7zError::InvalidInput(String::from_str(path)));
    }
    let mut k: usize = 0;
    while k < bc.len()
        invariant
            bc.len() <= pc.len(),
            k <= bc.len(),
            crate::path::spans_of(bc@) == components(base@),
            crate::path::spans_of(pc@) == components(path@),
            b == parts(base@),
            p == parts(path@),
            forall|j: int| 0 <= j < k ==> b[j] == p[j],
        decreases bc.len() - k,
    {
        if !same_part(base, &bc, path, &pc, k) {
            assert(p.subrange(0, b.len() as int)[k as int] != b[k as int]);
            return Err(K7zError::InvalidInput(String::from_str(path)));
        }
        k = k + 1;
    }
    assert(p.subrange(0, b.len() as int) =~= b);
    if bc.len() == pc.len() {
        return Err(K7zError::InvalidInput(String::from_str(path)));
    }
    let first = pc[bc.len()];
    let last = pc[pc.len() - 1];
    assert(components(path@)[bc.len() as int] == first@);
    assert(components(path@).last() == last@);
    assert(components(path@)[pc.len() - 1] == last@);
    assert(first.start < last.end) by {
        let c = components(path@);
        if bc.len() < pc.len() - 1 {
            assert(c[bc.len() as int].end <= c[pc.len() - 1].start);
        }
        assert(c[bc.len() as int].start < c[bc.len() as int].end);
        assert(c[pc.len() - 1].start < c[pc.len() - 1].end);
    }
    assert(last.end <= path@.len()) by {
        assert(0 <= components(path@)[pc.len() - 1].start && components(path@)[pc.len() - 1].end <= path@.len());
    }
    let ghost rest = path@.subrange(first.start as int, last.end as int);
    let mut name = String::new();
    let mut i = first.start;
    while i < last.end
        invariant
            first.start <= i <= last.end <= path@.len(),
            rest == path@.subrange(first.start as int, last.end as int),
            pchars@ == path@,
            name@ == forward_slashes(path@.subrange(first.start as int, i as int)),
        decreases last.end - i,
    {
        if pchars[i] == '\\' {
            proof {
                reveal_strlit("/");
            }
            name.append("/");
        } else {
            name.append(path.substring_char(i, i + 1));
        }
        i = i + 1;
        assert(name@ =~= forward_slashes(path@.subrange(first.start as int, i as int)));
    }
    Ok(name)
}


/// Law: taking `base` off a path made by appending the name `n` to `base`
/// gives back `n`; so a file pushed under a directory is stored under its own
/// name.
pub proof fn law_strip_prefix_undoes_push(base: Seq<char>, n: Seq<char>)
    requires
        is_normal_name(n),
    ensures
        strip_prefix(base, push_name(base, n)) == Some(n),
{
    let s = push_name(base, n);
    lemma_push_name_components(base, n);
    lemma_push_name_parts(base, n);
    let b = parts(base);
    let p = parts(s);
    assert(p.subrange(0, b.len() as int) =~= b);
    let c = components(s);
    assert(c[b.len() as int] == c.last());
}

/// `base` with the names `ns` pushed on one after another, each after a `/`.
pub open spec fn push_names(base: Seq<char>, ns: Seq<Seq<char>>) -> Seq<char>
    decreases ns.len(),
{
    if ns.len() == 0 {
        base
    } else {
        push_name(push_names(base, ns.drop_last()), ns.last())
    }
}

/// Every one of `ns` can be a normal component.
pub open spec fn all_normal_names(ns: Seq<Seq<char>>) -> bool {
    forall|k: int| 0 <= k < ns.len() ==> is_normal_name(#[trigger] ns[k])
}

/// Pushing normal names onto `base` adds one normal component each, after
/// those of `base`; the first starts at `d` and the pushed names, from there
/// to the end, read `n1/.../nk`.
proof fn lemma_push_names(base: Seq<char>, ns: Seq<Seq<char>>)
    requires
        ns.len() > 0,
        all_normal_names(ns),
    ensures
        ({
            let s = push_names(base, ns);
            let d = push_name(base, ns[0]).len() - ns[0].len();
            let cb = components(base);
            &&& components(s).len() == cb.len() + ns.len()
            &&& components(s).subrange(0, cb.len() as int) == cb
            &&& components(s)[cb.len() as int].start == d
            &&& components(s).last().end == s.len()
            &&& parts(s).subrange(0, parts(base).len() as int) == parts(base)
            &&& 0 <= d < s.len()
            &&& s.subrange(d, s.len() as int) == push_names(Seq::<char>::empty(), ns)
            &&& s.last() != '/'
        }),
    decreases ns.len(),
{
    let s = push_names(base, ns);
    let n = ns.last();
    assert(is_normal_name(ns[ns.len() - 1]));
    let cb = components(base);
    if ns.len() == 1 {
        assert(ns.drop_last() =~= Seq::<Seq<char>>::empty());
        assert(ns[0] == n);
        lemma_push_name_components(base, n);
        lemma_push_name_parts(base, n);
        assert(components(s).subrange(0, cb.len() as int) =~= cb);
        assert(parts(s).subrange(0, parts(base).len() as int) =~= parts(base));
        let e = Seq::<char>::empty();
        assert(push_names(e, ns.drop_last()) == e);
        assert(push_names(e, ns) == push_name(e, n));
        assert(push_name(e, n) =~= n);
        assert(s.last() == n.last());
    } else {
        let ns1 = ns.drop_last();
        assert(all_normal_names(ns1)) by {
            assert forall|k: int| 0 <= k < ns1.len() implies is_normal_name(#[trigger] ns1[k]) by {
                assert(ns1[k] == ns[k]);
            }
        }
        lemma_push_names(base, ns1);
        assert(ns1[0] == ns[0]);
        let s1 = push_names(base, ns1);
        let d = push_name(base, ns[0]).len() - ns[0].len();
        lemma_push_name_components(s1, n);
        lemma_push_name_parts(s1, n);
        let c1 = components(s1);
        assert(components(s) == c1.push(components(s).last()));
        assert(components(s).subrange(0, cb.len() as int) =~= c1.subrange(0, cb.len() as int));
        assert(components(s)[cb.len() as int] == c1[cb.len() as int]);
        assert(parts(s).subrange(0, parts(base).len() as int) =~= parts(s1).subrange(
            0,
            parts(base).len() as int,
        ));
        let e = Seq::<char>::empty();
        let j1 = push_names(e, ns1);
        assert(s =~= s1 + seq!['/'] + n);
        assert(j1.len() > 0 && j1.last() == s1.last());
        assert(push_names(e, ns) == push_name(j1, n));
        assert(s.subrange(d, s.len() as int) =~= j1 + seq!['/'] + n);
        assert(s.last() == n.last());
    }
}

/// Law: taking `base` off a path made by pushing the names `n1`, ..., `nk`
/// (k >= 1) onto `base` gives back `n1/.../nk`: every pushed component is
/// kept, so a file deep under a packed directory is stored under its whole
/// path from there.
pub proof fn law_strip_prefix_undoes_pushes(base: Seq<char>, ns: Seq<Seq<char>>)
    requires
        ns.len() > 0,
        all_normal_names(ns),
    ensures
        strip_prefix(base, push_names(base, ns)) == Some(push_names(Seq::<char>::empty(), ns)),
{
    lemma_push_names(base, ns);
    let s = push_names(base, ns);
    lemma_components_wf(base);
    assert(parts(base).len() == components(base).len());
    assert(parts(s).len() == components(s).len());
}

/// What packing adds to a zip archive for one path that the walk met.
#[derive(Debug)]
pub enum ZipAddition {
    Directory(String),
    File(String),
    Nothing,
}

/// The addition for a path of kind `kind` stored under `name`, and the number
/// of additions made so far once it is made: a directory is added under
/// `name` with a `/` after it, a regular file under `name`, each counted once;
/// anything else is passed over and not counted.
pub fn zip_walk_step(kind: WalkKind, name: String, count: usize) -> (r: (ZipAddition, usize))
    requires
        kind == WalkKind::File || kind == WalkKind::Dir ==> count < usize::MAX,
    ensures
        kind == WalkKind::Dir ==> (r.0 matches ZipAddition::Directory(n) && n@ == name@.push('/')
            && r.1 == count + 1),
        kind == WalkKind::File ==> (r.0 matches ZipAddition::File(n) && n@ == name@ && r.1 == count
            + 1),
        !(kind == WalkKind::File || kind == WalkKind::Dir) ==> (r.0 is Nothing && r.1 == count),
{
    match kind {
        WalkKind::Dir => {
            proof {
                reveal_strlit("/");
            }
            let n = name.concat("/");
            assert(n@ =~= name@.push('/'));
            (ZipAddition::Directory(n), count + 1)
        },
        WalkKind::File => (ZipAddition::File(name), count + 1),
        _ => (ZipAddition::Nothing, count),
    }
}

} // verus!
