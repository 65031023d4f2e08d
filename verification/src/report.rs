//! The lines of text that show a report to the user.
use vstd::prelude::*;

use crate::text::{decimal, ends_with, lemma_decimal_digits, push_decimal};
use crate::types::{EntryMetadata, ListReport, PackReport, TestReport, UnpackReport};

verus! {

pub open spec fn spec_pack_line(r: PackReport) -> Seq<char> {
    "packed "@ + decimal(r.entries as nat) + " entries -> "@ + r.archive@ + " ("@ + decimal(
        r.bytes_in as nat,
    ) + " bytes -> "@ + decimal(r.bytes_out as nat) + " bytes)"@
}

pub open spec fn spec_unpack_line(r: UnpackReport) -> Seq<char> {
    "unpacked "@ + decimal(r.entries as nat) + " entries into "@ + r.output_dir@ + " ("@
        + decimal(r.bytes_out as nat) + " bytes)"@
}

pub open spec fn spec_test_line(r: TestReport) -> Seq<char> {
    "test passed: checked "@ + decimal(r.entries_checked as nat) + " entries"@
}

/// One line of a listing: the kind, the path and the size, then the
/// compressed size when it is known, separated by tabs.
pub open spec fn spec_entry_line(e: EntryMetadata) -> Seq<char> {
    let kind = if e.is_dir {
        "dir "@
    } else {
        "file"@
    };
    let head = kind + "\t"@ + e.path@ + "\t"@ + decimal(e.size as nat) + " bytes"@;
    match e.compressed_size {
        Some(c) => head + "\t"@ + decimal(c as nat) + " bytes"@,
        None => head,
    }
}

/// The line that reports a packing.
pub fn pack_line(r: &PackReport) -> (s: String)
    ensures
        s@ == spec_pack_line(*r),
{
    let mut s = String::from_str("packed ");
    push_decimal(&mut s, r.entries as u64);
    s.append(" entries -> ");
    s.append(r.archive.as_str());
    s.append(" (");
    push_decimal(&mut s, r.bytes_in);
    s.append(" bytes -> ");
    push_decimal(&mut s, r.bytes_out);
    s.append(" bytes)");
    s
}

/// The line that reports an unpacking.
pub fn unpack_line(r: &UnpackReport) -> (s: String)
    ensures
        s@ == spec_unpack_line(*r),
{
    let mut s = String::from_str("unpacked ");
    push_decimal(&mut s, r.entries as u64);
    s.append(" entries into ");
    s.append(r.output_dir.as_str());
    s.append(" (");
    push_decimal(&mut s, r.bytes_out);
    s.append(" bytes)");
    s
}

/// The line that reports a test.
pub fn test_line(r: &TestReport) -> (s: String)
    ensures
        s@ == spec_test_line(*r),
{
    let mut s = String::from_str("test passed: checked ");
    push_decimal(&mut s, r.entries_checked as u64);
    s.append(" entries");
    s
}

/// The line that lists one entry.
pub fn entry_line(e: &EntryMetadata) -> (s: String)
    ensures
        s@ == spec_entry_line(*e),
{
    let mut s = if e.is_dir {
        String::from_str("dir ")
    } else {
        String::from_str("file")
    };
    s.append("\t");
    s.append(e.path.as_str());
    s.append("\t");
    push_decimal(&mut s, e.size);
    s.append(" bytes");
    match e.compressed_size {
        Some(c) => {
            s.append("\t");
            push_decimal(&mut s, c);
            s.append(" bytes");
        },
        None => {},
    }
    s
}

/// The lines of a listing, one per entry, in order.
pub fn list_lines(r: &ListReport) -> (lines: Vec<String>)
    ensures
        lines@.len() == r.entries@.len(),
        forall|k: int| 0 <= k < lines@.len() ==> (#[trigger] lines@[k])@ == spec_entry_line(r.entries@[k]),
{
    let mut lines: Vec<String> = Vec::new();
    let mut i: usize = 0;
    while i < r.entries.len()
        invariant
            i <= r.entries@.len(),
            lines@.len() == i,
            forall|k: int| 0 <= k < i ==> (#[trigger] lines@[k])@ == spec_entry_line(r.entries@[k]),
        decreases r.entries.len() - i,
    {
        let line = entry_line(&r.entries[i]);
        lines.push(line);
        i = i + 1;
    }
    lines
}

/// How many times `c` occurs in `s`.
pub open spec fn count_char(s: Seq<char>, c: char) -> nat
    decreases s.len(),
{
    if s.len() == 0 {
        0
    } else {
        count_char(s.drop_last(), c) + if s.last() == c {
            1nat
        } else {
            0nat
        }
    }
}

proof fn lemma_count_concat(a: Seq<char>, b: Seq<char>, c: char)
    ensures
        count_char(a + b, c) == count_char(a, c) + count_char(b, c),
    decreases b.len(),
{
    if b.len() == 0 {
        assert(a + b =~= a);
    } else {
        lemma_count_concat(a, b.drop_last(), c);
        assert((a + b).drop_last() =~= a + b.drop_last());
    }
}

proof fn lemma_count_absent(s: Seq<char>, c: char)
    requires
        forall|k: int| 0 <= k < s.len() ==> s[k] != c,
    ensures
        count_char(s, c) == 0,
    decreases s.len(),
{
    if s.len() > 0 {
        lemma_count_absent(s.drop_last(), c);
    }
}

proof fn lemma_count_one_tab()
    ensures
        count_char("\t"@, '\t') == 1,
{
    reveal_strlit("\t");
    let t = "\t"@;
    assert(t.len() == 1 && t[0] == '\t');
    assert(t.drop_last() =~= Seq::<char>::empty());
    assert(count_char(t.drop_last(), '\t') == 0);
    assert(t.last() == '\t');
}

proof fn lemma_no_tab_in_number(n: nat)
    ensures
        count_char(decimal(n) + " bytes"@, '\t') == 0,
{
    reveal_strlit(" bytes");
    lemma_decimal_digits(n);
    let s = decimal(n) + " bytes"@;
    assert forall|k: int| 0 <= k < s.len() implies s[k] != '\t' by {
        if k < decimal(n).len() {
            assert(s[k] == decimal(n)[k]);
        }
    }
    lemma_count_absent(s, '\t');
}

/// Law: a listing line has the columns kind, path, size, and compressed size
/// only when it is known, separated by tabs: it holds two tabs more than the
/// path does, three when the compressed size is known, and its last column is
/// the compressed size when known, else the size, in decimal and in bytes.
pub proof fn law_entry_line_columns(e: EntryMetadata)
    ensures
        count_char(spec_entry_line(e), '\t') == count_char(e.path@, '\t') + (
        if e.compressed_size is Some {
            3nat
        } else {
            2nat
        }),
        ends_with(
            spec_entry_line(e),
            "\t"@ + decimal(
                (match e.compressed_size {
                    Some(c) => c,
                    None => e.size,
                }) as nat,
            ) + " bytes"@,
        ),
{
    reveal_strlit("dir ");
    reveal_strlit("file");
    let kind = if e.is_dir {
        "dir "@
    } else {
        "file"@
    };
    assert forall|k: int| 0 <= k < kind.len() implies kind[k] != '\t' by {}
    lemma_count_absent(kind, '\t');
    let tab = "\t"@;
    lemma_count_one_tab();
    let sz = decimal(e.size as nat) + " bytes"@;
    lemma_no_tab_in_number(e.size as nat);
    let head = kind + tab + e.path@ + tab + sz;
    assert(head =~= kind + tab + e.path@ + tab + (decimal(e.size as nat) + " bytes"@));
    lemma_count_concat(kind, tab, '\t');
    lemma_count_concat(kind + tab, e.path@, '\t');
    lemma_count_concat(kind + tab + e.path@, tab, '\t');
    lemma_count_concat(kind + tab + e.path@ + tab, sz, '\t');
    match e.compressed_size {
        Some(c) => {
            let cz = decimal(c as nat) + " bytes"@;
            lemma_no_tab_in_number(c as nat);
            lemma_count_concat(head, tab, '\t');
            lemma_count_concat(head + tab, cz, '\t');
            assert(spec_entry_line(e) =~= head + tab + cz);
            let suf = tab + cz;
            assert(head + tab + cz =~= head + suf);
            assert((head + suf).subrange(head.len() as int, (head + suf).len() as int) =~= suf);
            assert(tab + decimal(c as nat) + " bytes"@ =~= suf);
        },
        None => {
            assert(spec_entry_line(e) =~= head);
            let pre = kind + tab + e.path@;
            let suf = tab + sz;
            assert(head =~= pre + suf);
            assert((pre + suf).subrange(pre.len() as int, (pre + suf).len() as int) =~= suf);
            assert(tab + decimal(e.size as nat) + " bytes"@ =~= suf);
        },
    }
}

} // verus!
