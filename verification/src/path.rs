//! Unix path syntax: how a path string splits into components.
//!
//! A path is read as the standard library reads a Unix path: `/` separates
//! segments; a leading `/` is the root; empty segments and `.` segments are
//! dropped, except that a path whose first segment is `.` starts with the
//! current directory; `..` is the parent directory; every other segment is a
//! normal component. Each component remembers the characters it spans.
use vstd::prelude::*;

verus! {

/// The kind of one component of a path.
#[derive(Clone, Copy, Debug, PartialEq, Eq, Structural)]
pub enum ComponentKind {
    RootDir,
    CurDir,
    ParentDir,
    Normal,
}

/// One component of a path: its kind and the characters `start..end` of the
/// path that it spans.
#[derive(Clone, Copy, Debug, PartialEq, Eq, Structural)]
pub struct Component {
    pub kind: ComponentKind,
    pub start: usize,
    pub end: usize,
}

/// The mathematical form of a [`Component`].
pub struct Span {
    pub kind: ComponentKind,
    pub start: int,
    pub end: int,
}

impl View for Component {
    type V = Span;

    open spec fn view(&self) -> Span {
        Span { kind: self.kind, start: self.start as int, end: self.end as int }
    }
}

pub open spec fn spans_of(v: Seq<Component>) -> Seq<Span> {
    v.map_values(|c: Component| c@)
}

/// Index of the last `/` in `s`, or -1 when there is none.
pub open spec fn last_sep(s: Seq<char>) -> int
    decreases s.len(),
{
    if s.len() == 0 {
        -1
    } else if s.last() == '/' {
        s.len() - 1
    } else {
        last_sep(s.drop_last())
    }
}

pub proof fn lemma_last_sep_bounds(s: Seq<char>)
    ensures
        -1 <= last_sep(s) < s.len(),
        last_sep(s) >= 0 ==> s[last_sep(s)] == '/',
        forall|k: int| last_sep(s) < k < s.len() ==> s[k] != '/',
    decreases s.len(),
{
    if s.len() > 0 && s.last() != '/' {
        let p = s.drop_last();
        lemma_last_sep_bounds(p);
        assert forall|k: int| last_sep(s) < k < s.len() implies s[k] != '/' by {
            if k < p.len() {
                assert(s[k] == p[k]);
            }
        }
    }
}

/// The component that a segment `seg` starting at `start` yields, when it is
/// not the first segment of a relative path.
pub open spec fn seg_span(seg: Seq<char>, start: int) -> Seq<Span> {
    if seg.len() == 0 || seg == seq!['.'] {
        seq![]
    } else if seg == seq!['.', '.'] {
        seq![Span { kind: ComponentKind::ParentDir, start, end: start + seg.len() }]
    } else {
        seq![Span { kind: ComponentKind::Normal, start, end: start + seg.len() }]
    }
}

/// The component that the first segment `seg` of a relative path yields.
pub open spec fn lead_span(seg: Seq<char>) -> Seq<Span> {
    if seg == seq!['.'] {
        seq![Span { kind: ComponentKind::CurDir, start: 0, end: 1 }]
    } else {
        seg_span(seg, 0)
    }
}

/// The components of the path `s`, in order.
pub open spec fn components(s: Seq<char>) -> Seq<Span>
    decreases s.len(),
{
    let i = last_sep(s);
    if i < 0 {
        lead_span(s)
    } else if i == 0 {
        seq![Span { kind: ComponentKind::RootDir, start: 0, end: 1 }] + seg_span(
            s.subrange(1, s.len() as int),
            1,
        )
    } else {
        proof {
            lemma_last_sep_bounds(s);
        }
        components(s.subrange(0, i)) + seg_span(s.subrange(i + 1, s.len() as int), i + 1)
    }
}

/// The characters that a component spans.
pub open spec fn span_text(s: Seq<char>, sp: Span) -> Seq<char> {
    s.subrange(sp.start, sp.end)
}

/// A component read as its kind and its characters.
pub open spec fn part_of(s: Seq<char>, sp: Span) -> (ComponentKind, Seq<char>) {
    (sp.kind, span_text(s, sp))
}

/// The components of `s`, each as its kind and its characters.
pub open spec fn parts(s: Seq<char>) -> Seq<(ComponentKind, Seq<char>)> {
    components(s).map_values(|sp: Span| part_of(s, sp))
}

/// `seg` can be a normal component: it is not empty, holds no `/`, and is
/// neither `.` nor `..`.
pub open spec fn is_normal_name(seg: Seq<char>) -> bool {
    &&& seg.len() > 0
    &&& forall|k: int| 0 <= k < seg.len() ==> seg[k] != '/'
    &&& seg != seq!['.']
    &&& seg != seq!['.', '.']
}

/// The spans lie in order inside `s`, and normal components are normal names.
pub open spec fn spans_well_formed(s: Seq<char>, sps: Seq<Span>) -> bool {
    &&& forall|k: int|
        0 <= k < sps.len() ==> 0 <= #[trigger] sps[k].start <= sps[k].end <= s.len()
    &&& forall|k: int|
        0 <= k < sps.len() && #[trigger] sps[k].kind == ComponentKind::Normal ==> is_normal_name(
            span_text(s, sps[k]),
        )
    &&& forall|k: int|
        0 <= k < sps.len() && #[trigger] sps[k].kind == ComponentKind::RootDir ==> k == 0
            && sps[k].start == 0 && s.len() > 0 && s[0] == '/'
    &&& forall|k: int|
        0 <= k < sps.len() && #[trigger] sps[k].kind == ComponentKind::CurDir ==> k == 0
            && sps[k].start == 0
}

/// The path starts at the root.
pub open spec fn has_root(s: Seq<char>) -> bool {
    s.len() > 0 && s[0] == '/'
}

pub proof fn lemma_seg_span_wf(s: Seq<char>, a: int, b: int)
    requires
        0 <= a <= b <= s.len(),
        forall|k: int| a <= k < b ==> s[k] != '/',
    ensures
        spans_well_formed(s, seg_span(s.subrange(a, b), a)),
        seg_span(s.subrange(a, b), a).len() <= 1,
{
    let seg = s.subrange(a, b);
    let r = seg_span(seg, a);
    if r.len() == 1 {
        assert(span_text(s, r[0]) =~= seg);
    }
}

/// The spans of `components(s)` are well formed, and the path has a root
/// exactly when its first component is the root.
pub proof fn lemma_components_wf(s: Seq<char>)
    ensures
        spans_well_formed(s, components(s)),
        has_root(s) <==> (components(s).len() > 0 && components(s)[0].kind
            == ComponentKind::RootDir),
    decreases s.len(),
{
    lemma_last_sep_bounds(s);
    let i = last_sep(s);
    if i < 0 {
        lemma_seg_span_wf(s, 0, s.len() as int);
        assert(s.subrange(0, s.len() as int) =~= s);
        if s == seq!['.'] {
        } else {
        }
    } else if i == 0 {
        lemma_seg_span_wf(s, 1, s.len() as int);
        let r = seg_span(s.subrange(1, s.len() as int), 1);
        let c = components(s);
        assert(c =~= seq![Span { kind: ComponentKind::RootDir, start: 0, end: 1 }] + r);
        assert forall|k: int| 0 <= k < c.len() implies 0 <= #[trigger] c[k].start <= c[k].end
            <= s.len() by {
            if k > 0 {
                assert(c[k] == r[k - 1]);
            }
        }
        assert forall|k: int|
            0 <= k < c.len() && #[trigger] c[k].kind == ComponentKind::Normal implies is_normal_name(
            span_text(s, c[k]),
        ) by {
            assert(c[k] == r[k - 1]);
        }
    } else {
        let p = s.subrange(0, i);
        lemma_components_wf(p);
        lemma_seg_span_wf(s, i + 1, s.len() as int);
        let cp = components(p);
        let r = seg_span(s.subrange(i + 1, s.len() as int), i + 1);
        let c = components(s);
        assert(c == cp + r);
        assert forall|k: int| 0 <= k < c.len() implies 0 <= #[trigger] c[k].start <= c[k].end
            <= s.len() by {
            if k >= cp.len() {
                assert(c[k] == r[k - cp.len()]);
            } else {
                assert(c[k] == cp[k]);
            }
        }
        assert forall|k: int|
            0 <= k < c.len() && #[trigger] c[k].kind == ComponentKind::Normal implies is_normal_name(
            span_text(s, c[k]),
        ) by {
            if k >= cp.len() {
                assert(c[k] == r[k - cp.len()]);
            } else {
                assert(c[k] == cp[k]);
                assert(span_text(s, c[k]) =~= span_text(p, cp[k]));
            }
        }
        assert forall|k: int|
            0 <= k < c.len() && #[trigger] c[k].kind == ComponentKind::RootDir implies k == 0
            && c[k].start == 0 && s.len() > 0 && s[0] == '/' by {
            if k >= cp.len() {
                assert(c[k] == r[k - cp.len()]);
            } else {
                assert(c[k] == cp[k]);
            }
        }
        assert forall|k: int|
            0 <= k < c.len() && #[trigger] c[k].kind == ComponentKind::CurDir implies k == 0
            && c[k].start == 0 by {
            if k >= cp.len() {
                assert(c[k] == r[k - cp.len()]);
            } else {
                assert(c[k] == cp[k]);
            }
        }
        if has_root(s) {
            assert(has_root(p));
        }
        if c.len() > 0 && c[0].kind == ComponentKind::RootDir {
            if cp.len() == 0 {
                assert(c[0] == r[0]);
            } else {
                assert(c[0] == cp[0]);
            }
        }
    }
}

/// Every span covers at least one character, and the spans follow one
/// another without overlap.
pub open spec fn spans_ordered(sps: Seq<Span>) -> bool {
    &&& forall|k: int| 0 <= k < sps.len() ==> #[trigger] sps[k].start < sps[k].end
    &&& forall|i: int, j: int| 0 <= i < j < sps.len() ==> #[trigger] sps[i].end <= #[trigger] sps[j].start
}

/// The components of `s` each cover at least one character, follow one
/// another in order, and end within `s`.
pub proof fn lemma_components_ordered(s: Seq<char>)
    ensures
        spans_ordered(components(s)),
        forall|k: int| 0 <= k < components(s).len() ==> 0 <= #[trigger] components(s)[k].start
            && components(s)[k].end <= s.len(),
    decreases s.len(),
{
    lemma_last_sep_bounds(s);
    let i = last_sep(s);
    let c = components(s);
    if i < 0 {
        assert(s.subrange(0, s.len() as int) =~= s);
    } else if i == 0 {
        let r = seg_span(s.subrange(1, s.len() as int), 1);
        assert(c =~= seq![Span { kind: ComponentKind::RootDir, start: 0, end: 1 }] + r);
        assert forall|a: int, b: int| 0 <= a < b < c.len() implies #[trigger] c[a].end
            <= #[trigger] c[b].start by {
            assert(c[b] == r[b - 1]);
        }
        assert forall|k: int| 0 <= k < c.len() implies 0 <= #[trigger] c[k].start && c[k].end
            <= s.len() by {
            if k > 0 {
                assert(c[k] == r[k - 1]);
            }
        }
    } else {
        let p = s.subrange(0, i);
        lemma_components_ordered(p);
        let cp = components(p);
        let r = seg_span(s.subrange(i + 1, s.len() as int), i + 1);
        lemma_seg_span_wf(s, i + 1, s.len() as int);
        assert(c == cp + r);
        assert forall|k: int| 0 <= k < c.len() implies #[trigger] c[k].start < c[k].end by {
            if k < cp.len() {
                assert(c[k] == cp[k]);
            } else {
                assert(c[k] == r[k - cp.len()]);
            }
        }
        assert forall|a: int, b: int| 0 <= a < b < c.len() implies #[trigger] c[a].end
            <= #[trigger] c[b].start by {
            if b < cp.len() {
                assert(c[a] == cp[a]);
                assert(c[b] == cp[b]);
            } else {
                assert(c[b] == r[b - cp.len()]);
                assert(r[b - cp.len()].start == i + 1);
                if a < cp.len() {
                    assert(c[a] == cp[a]);
                    assert(0 <= cp[a].start && cp[a].end <= p.len());
                } else {
                    assert(c[a] == r[a - cp.len()]);
                }
            }
        }
        assert forall|k: int| 0 <= k < c.len() implies 0 <= #[trigger] c[k].start && c[k].end
            <= s.len() by {
            if k < cp.len() {
                assert(c[k] == cp[k]);
            } else {
                assert(c[k] == r[k - cp.len()]);
            }
        }
    }
}

/// The last `/` before position `j` is the one just before `start`.
pub proof fn lemma_last_sep_prefix(s: Seq<char>, start: int, j: int)
    requires
        0 <= start <= j <= s.len(),
        start == 0 || s[start - 1] == '/',
        forall|k: int| start <= k < j ==> s[k] != '/',
    ensures
        last_sep(s.subrange(0, j)) == start - 1,
    decreases j - start,
{
    if j > start {
        assert(s.subrange(0, j).drop_last() =~= s.subrange(0, j - 1));
        lemma_last_sep_prefix(s, start, j - 1);
    } else if start == 0 {
    } else {
    }
}

/// The components of the prefix `s[..j]`, where the last `/` in it sits just
/// before `start`.
pub proof fn lemma_components_step(s: Seq<char>, start: int, j: int)
    requires
        0 <= start <= j <= s.len(),
        start == 0 || s[start - 1] == '/',
        forall|k: int| start <= k < j ==> s[k] != '/',
    ensures
        components(s.subrange(0, j)) == (if start == 0 {
            lead_span(s.subrange(0, j))
        } else {
            components(s.subrange(0, start)) + seg_span(s.subrange(start, j), start)
        }),
{
    let u = s.subrange(0, j);
    lemma_last_sep_prefix(s, start, j);
    if start == 0 {
    } else if start == 1 {
        assert(u.subrange(1, u.len() as int) =~= s.subrange(1, j));
        let v = s.subrange(0, 1);
        assert(last_sep(v) == 0) by {
            lemma_last_sep_prefix(s, 1, 1);
        }
        assert(v.subrange(1, v.len() as int) =~= Seq::<char>::empty());
        assert(components(v) =~= seq![Span { kind: ComponentKind::RootDir, start: 0, end: 1 }]);
    } else {
        assert(u.subrange(0, start - 1) =~= s.subrange(0, start - 1));
        assert(u.subrange(start, u.len() as int) =~= s.subrange(start, j));
        let v = s.subrange(0, start);
        assert(last_sep(v) == start - 1) by {
            lemma_last_sep_prefix(s, start, start);
        }
        assert(v.subrange(0, start - 1) =~= s.subrange(0, start - 1));
        assert(v.subrange(start, v.len() as int) =~= Seq::<char>::empty());
        assert(components(v) =~= components(s.subrange(0, start - 1)));
    }
}

/// The component that the characters `start..end` of `s` yield, computed.
fn segment_component(s: &Vec<char>, start: usize, end: usize, leading: bool) -> (r: Option<
    Component,
>)
    requires
        start <= end <= s@.len(),
        leading ==> start == 0,
    ensures
        match r {
            None => (if leading {
                lead_span(s@.subrange(start as int, end as int))
            } else {
                seg_span(s@.subrange(start as int, end as int), start as int)
            }) == Seq::<Span>::empty(),
            Some(c) => (if leading {
                lead_span(s@.subrange(start as int, end as int))
            } else {
                seg_span(s@.subrange(start as int, end as int), start as int)
            }) == seq![c@],
        },
{
    let ghost seg = s@.subrange(start as int, end as int);
    let len = end - start;
    if len == 0 {
        return None;
    }
    if len == 1 && s[start] == '.' {
        assert(seg =~= seq!['.']);
        if leading {
            return Some(Component { kind: ComponentKind::CurDir, start: 0, end: 1 });
        }
        return None;
    }
    assert(seg != seq!['.']) by {
        if len == 1 {
            assert(seg[0] == s@[start as int]);
            assert(seg[0] != seq!['.'][0]);
        }
    }
    if len == 2 && s[start] == '.' && s[start + 1] == '.' {
        assert(seg =~= seq!['.', '.']);
        return Some(Component { kind: ComponentKind::ParentDir, start, end });
    }
    assert(seg != seq!['.', '.']) by {
        if len == 2 {
            if seg[0] != '.' {
                assert(seg[0] != seq!['.', '.'][0]);
            } else {
                assert(seg[1] != seq!['.', '.'][1]);
            }
        }
    }
    Some(Component { kind: ComponentKind::Normal, start, end })
}

/// Splits the path whose characters are `s` into its components.
pub fn path_components(s: &Vec<char>) -> (r: Vec<Component>)
    ensures
        spans_of(r@) == components(s@),
{
    let n = s.len();
    let mut res: Vec<Component> = Vec::new();
    let mut start: usize = 0;
    let mut j: usize = 0;
    assert(s@.subrange(0, 0) =~= Seq::<char>::empty());
    assert(spans_of(res@) =~= components(s@.subrange(0, 0)));
    while j < n
        invariant
            n == s@.len(),
            start <= j <= n,
            start == 0 || s@[start - 1] == '/',
            forall|k: int| start <= k < j ==> s@[k] != '/',
            spans_of(res@) == components(s@.subrange(0, start as int)),
        decreases n - j,
    {
        if s[j] == '/' {
            let ghost old_res = spans_of(res@);
            proof {
                lemma_components_step(s@, start as int, j as int);
                let t = s@.subrange(0, j + 1);
                lemma_last_sep_prefix(s@, j + 1, j + 1);
                assert(t.subrange(j + 1, t.len() as int) =~= Seq::<char>::empty());
                assert(t.subrange(0, j as int) =~= s@.subrange(0, j as int));
                if j > 0 {
                    assert(components(t) =~= components(s@.subrange(0, j as int)));
                } else {
                    assert(components(t) =~= seq![
                        Span { kind: ComponentKind::RootDir, start: 0, end: 1 },
                    ]);
                }
            }
            if j == 0 {
                res = Vec::new();
                res.push(Component { kind: ComponentKind::RootDir, start: 0, end: 1 });
                assert(spans_of(res@) =~= seq![
                    Span { kind: ComponentKind::RootDir, start: 0, end: 1 },
                ]);
            } else {
                let c = segment_component(s, start, j, start == 0);
                if let Some(c) = c {
                    res.push(c);
                }
                assert(start == 0 ==> old_res =~= Seq::<Span>::empty());
                assert(spans_of(res@) =~= components(s@.subrange(0, j as int)));
            }
            start = j + 1;
        }
        j = j + 1;
    }
    proof {
        lemma_components_step(s@, start as int, n as int);
        assert(s@.subrange(0, n as int) =~= s@);
    }
    let ghost old_res = spans_of(res@);
    let c = segment_component(s, start, n, start == 0);
    if let Some(c) = c {
        res.push(c);
    }
    assert(start == 0 ==> old_res =~= Seq::<Span>::empty());
    assert(spans_of(res@) =~= components(s@));
    res
}


/// The last component of `s` when it is a normal one: the file name.
pub open spec fn file_name(s: Seq<char>) -> Option<Seq<char>> {
    let c = components(s);
    if c.len() > 0 && c.last().kind == ComponentKind::Normal {
        Some(span_text(s, c.last()))
    } else {
        None
    }
}

/// Index of the last `.` in `s`, or -1 when there is none.
pub open spec fn last_dot(s: Seq<char>) -> int
    decreases s.len(),
{
    if s.len() == 0 {
        -1
    } else if s.last() == '.' {
        s.len() - 1
    } else {
        last_dot(s.drop_last())
    }
}

pub proof fn lemma_last_dot(s: Seq<char>)
    ensures
        -1 <= last_dot(s) < s.len(),
        last_dot(s) >= 0 ==> s[last_dot(s)] == '.',
        forall|k: int| last_dot(s) < k < s.len() ==> s[k] != '.',
    decreases s.len(),
{
    if s.len() > 0 && s.last() != '.' {
        let p = s.drop_last();
        lemma_last_dot(p);
        assert forall|k: int| last_dot(s) < k < s.len() implies s[k] != '.' by {
            if k < p.len() {
                assert(s[k] == p[k]);
            }
        }
    }
}

/// The part of a file name before its last `.`; the whole name when the name
/// has no `.` but at its start, or is `..`.
pub open spec fn stem_of(name: Seq<char>) -> Seq<char> {
    let i = last_dot(name);
    if name == seq!['.', '.'] || i <= 0 {
        name
    } else {
        name.subrange(0, i)
    }
}

/// The part of a file name after its last `.`, when there is a `.` that is
/// not its first character and the name is not `..`.
pub open spec fn extension_of(name: Seq<char>) -> Option<Seq<char>> {
    let i = last_dot(name);
    if name == seq!['.', '.'] || i <= 0 {
        None
    } else {
        Some(name.subrange(i + 1, name.len() as int))
    }
}

/// The stem of the file name of `s`.
pub open spec fn file_stem(s: Seq<char>) -> Option<Seq<char>> {
    match file_name(s) {
        Some(name) => Some(stem_of(name)),
        None => None,
    }
}

/// The extension of the file name of `s`.
pub open spec fn extension(s: Seq<char>) -> Option<Seq<char>> {
    match file_name(s) {
        Some(name) => extension_of(name),
        None => None,
    }
}

/// A file name is a normal name, and its stem is a non-empty part of it that
/// does not start at the root.
pub proof fn lemma_stem_has_no_root(s: Seq<char>)
    ensures
        file_name(s) matches Some(name) ==> is_normal_name(name),
        file_stem(s) matches Some(stem) ==> stem.len() > 0 && !has_root(stem),
{
    lemma_components_wf(s);
    let c = components(s);
    if c.len() > 0 && c.last().kind == ComponentKind::Normal {
        let k = c.len() - 1;
        assert(c[k] == c.last());
        let name = span_text(s, c.last());
        assert(is_normal_name(name));
        lemma_last_dot(name);
        let stem = stem_of(name);
        assert(stem.len() > 0 && stem[0] == name[0]);
    }
}

/// Where the file name of the path `s` lies in it, if it has one.
pub fn file_name_range(s: &Vec<char>) -> (r: Option<(usize, usize)>)
    ensures
        match r {
            None => file_name(s@) is None,
            Some((a, b)) => a <= b <= s@.len() && file_name(s@) == Some(s@.subrange(a as int, b as int)),
        },
{
    let comps = path_components(s);
    proof {
        lemma_components_wf(s@);
    }
    let n = comps.len();
    if n == 0 {
        return None;
    }
    let c = comps[n - 1];
    assert(spans_of(comps@).last() == c@);
    match c.kind {
        ComponentKind::Normal => {
            assert(components(s@)[n - 1] == c@);
            Some((c.start, c.end))
        },
        _ => None,
    }
}

/// Index, relative to `a`, of the last `.` among the characters `a..b` of `v`.
pub fn last_dot_in(v: &Vec<char>, a: usize, b: usize) -> (r: Option<usize>)
    requires
        a <= b <= v@.len(),
    ensures
        match r {
            None => last_dot(v@.subrange(a as int, b as int)) == -1,
            Some(i) => a + i < b && last_dot(v@.subrange(a as int, b as int)) == i,
        },
{
    let ghost seg = v@.subrange(a as int, b as int);
    proof {
        lemma_last_dot(seg);
    }
    let mut k = b;
    while k > a
        invariant
            a <= k <= b <= v@.len(),
            seg == v@.subrange(a as int, b as int),
            -1 <= last_dot(seg) < seg.len(),
            last_dot(seg) >= 0 ==> seg[last_dot(seg)] == '.',
            forall|j: int| last_dot(seg) < j < seg.len() ==> seg[j] != '.',
            forall|j: int| k <= j < b ==> v@[j] != '.',
        decreases k - a,
    {
        if v[k - 1] == '.' {
            assert(seg[k - 1 - a] == '.');
            return Some(k - 1 - a);
        }
        k = k - 1;
    }
    proof {
        if last_dot(seg) >= 0 {
            assert(seg[last_dot(seg)] == v@[a + last_dot(seg)]);
        }
    }
    None
}

} // verus!
