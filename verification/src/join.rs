//! Joining an archive entry's relative path onto an output directory without
//! ever leaving that directory.
use vstd::prelude::*;

use crate::error::K7zError;
use crate::path::{
    components, has_root, is_normal_name, last_sep, lemma_components_wf, lemma_last_sep_bounds,
    lemma_last_sep_prefix, part_of, parts, path_components, seg_span, span_text, spans_of,
    spans_well_formed, ComponentKind, Span,
};
use crate::text::chars_of;

verus! {

/// `base` with the normal name `name` appended as one more component: a `/`
/// goes between them unless `base` is empty or already ends with `/`.
pub open spec fn push_name(base: Seq<char>, name: Seq<char>) -> Seq<char> {
    if base.len() == 0 || base.last() == '/' {
        base + name
    } else {
        base + seq!['/'] + name
    }
}

/// Appends the components `sps` of `rel` onto `out`, one at a time: `.` is
/// skipped, a normal component is pushed, and a parent or root component
/// makes the join fail.
pub open spec fn join_spans(out: Seq<char>, rel: Seq<char>, sps: Seq<Span>) -> Option<Seq<char>>
    decreases sps.len(),
{
    if sps.len() == 0 {
        Some(out)
    } else {
        let sp = sps[0];
        match sp.kind {
            ComponentKind::CurDir => join_spans(out, rel, sps.drop_first()),
            ComponentKind::Normal => join_spans(
                push_name(out, span_text(rel, sp)),
                rel,
                sps.drop_first(),
            ),
            _ => None,
        }
    }
}

/// `rel` joined onto `base`, or `None` when `rel` is absolute or climbs out
/// with a `..` component.
pub open spec fn spec_safe_join(base: Seq<char>, rel: Seq<char>) -> Option<Seq<char>> {
    if has_root(rel) {
        None
    } else {
        join_spans(base, rel, components(rel))
    }
}

/// The normal components among `sps`, each as its kind and its characters.
pub open spec fn normal_parts(rel: Seq<char>, sps: Seq<Span>) -> Seq<(ComponentKind, Seq<char>)>
    decreases sps.len(),
{
    if sps.len() == 0 {
        seq![]
    } else {
        let rest = normal_parts(rel, sps.drop_first());
        if sps[0].kind == ComponentKind::Normal {
            seq![(ComponentKind::Normal, span_text(rel, sps[0]))] + rest
        } else {
            rest
        }
    }
}

/// Every normal span lies inside `rel` and spans a normal name.
pub open spec fn normal_spans_ok(rel: Seq<char>, sps: Seq<Span>) -> bool {
    forall|k: int|
        0 <= k < sps.len() && #[trigger] sps[k].kind == ComponentKind::Normal ==> {
            &&& 0 <= sps[k].start <= sps[k].end <= rel.len()
            &&& is_normal_name(span_text(rel, sps[k]))
        }
}

/// Joins `relative` onto `base`. An absolute `relative`, or one with a `..`
/// component, is refused with `PathTraversal`, which names `relative`.
pub fn safe_join(base: &str, relative: &str) -> (r: Result<String, K7zError>)
    ensures
        match r {
            Ok(out) => spec_safe_join(base@, relative@) == Some(out@),
            Err(e) => {
                &&& spec_safe_join(base@, relative@) is None
                &&& e matches K7zError::PathTraversal(s) && s@ == relative@
            },
        },
{
    let rel = chars_of(relative);
    if rel.len() > 0 && rel[0] == '/' {
        return Err(K7zError::PathTraversal(String::from_str(relative)));
    }
    let comps = path_components(&rel);
    proof {
        lemma_components_wf(rel@);
    }
    let ghost sps = spans_of(comps@);
    let base_chars = chars_of(base);
    let mut needs_sep = base_chars.len() > 0 && base_chars[base_chars.len() - 1] != '/';
    let mut out = String::from_str(base);
    let mut i: usize = 0;
    assert(sps.skip(0) =~= sps);
    while i < comps.len()
        invariant
            sps == spans_of(comps@),
            sps == components(relative@),
            rel@ == relative@,
            !has_root(relative@),
            spans_well_formed(relative@, sps),
            i <= comps.len(),
            join_spans(out@, relative@, sps.skip(i as int)) == spec_safe_join(base@, relative@),
            needs_sep == !(out@.len() == 0 || out@.last() == '/'),
        decreases comps.len() - i,
    {
        let c = comps[i];
        assert(sps.skip(i as int)[0] == c@);
        assert(sps.skip(i as int).drop_first() =~= sps.skip(i + 1));
        match c.kind {
            ComponentKind::CurDir => {},
            ComponentKind::Normal => {
                let ghost before = out@;
                assert(c@ == sps[i as int]);
                let name = relative.substring_char(c.start, c.end);
                if needs_sep {
                    proof {
                        reveal_strlit("/");
                    }
                    out.append("/");
                }
                out.append(name);
                assert(out@ == push_name(before, span_text(relative@, c@)));
                assert(out@.last() == name@.last());
                needs_sep = true;
            },
            _ => {
                return Err(K7zError::PathTraversal(String::from_str(relative)));
            },
        }
        i = i + 1;
    }
    assert(sps.skip(i as int) =~= Seq::<Span>::empty());
    Ok(out)
}

/// Pushing a normal name adds exactly one normal component, spanning the name,
/// and leaves the components before it as they were.
pub proof fn lemma_push_name_components(o: Seq<char>, t: Seq<char>)
    requires
        is_normal_name(t),
    ensures
        components(push_name(o, t)) == components(o).push(
            Span {
                kind: ComponentKind::Normal,
                start: push_name(o, t).len() - t.len(),
                end: push_name(o, t).len() as int,
            },
        ),
        push_name(o, t).subrange(0, o.len() as int) == o,
        push_name(o, t).subrange(push_name(o, t).len() - t.len(), push_name(o, t).len() as int)
            == t,
{
    let s = push_name(o, t);
    let new = Span { kind: ComponentKind::Normal, start: s.len() - t.len(), end: s.len() as int };
    assert(s.subrange(0, o.len() as int) =~= o);
    assert(s.subrange(s.len() - t.len(), s.len() as int) =~= t);
    if o.len() == 0 {
        assert(s =~= t);
        lemma_last_sep_prefix(t, 0, t.len() as int);
        assert(t.subrange(0, t.len() as int) =~= t);
        assert(o =~= Seq::<char>::empty());
        lemma_last_sep_prefix(o, 0, 0);
        assert(o.subrange(0, 0) =~= o);
        assert(components(o) =~= Seq::<Span>::empty());
        assert(components(s) =~= components(o).push(new));
    } else if o.last() == '/' {
        lemma_last_sep_prefix(s, o.len() as int, s.len() as int);
        assert(s.subrange(0, s.len() as int) =~= s);
        assert(s.subrange(o.len() as int, s.len() as int) =~= t);
        lemma_last_sep_prefix(o, o.len() as int, o.len() as int);
        assert(o.subrange(0, o.len() as int) =~= o);
        assert(o.subrange(o.len() as int, o.len() as int) =~= Seq::<char>::empty());
        if o.len() == 1 {
            assert(components(o) =~= seq![Span { kind: ComponentKind::RootDir, start: 0, end: 1 }]);
            assert(components(s) =~= components(o).push(new));
        } else {
            assert(s.subrange(0, o.len() - 1) =~= o.subrange(0, o.len() - 1));
            assert(components(o) =~= components(o.subrange(0, o.len() - 1)));
            assert(components(s) =~= components(o).push(new));
        }
    } else {
        lemma_last_sep_prefix(s, o.len() as int + 1, s.len() as int);
        assert(s.subrange(0, s.len() as int) =~= s);
        assert(s.subrange(o.len() as int + 1, s.len() as int) =~= t);
        assert(components(s) =~= components(o).push(new));
    }
}

/// Pushing a normal name adds exactly one normal part, the name, after the
/// parts of `o`.
pub proof fn lemma_push_name_parts(o: Seq<char>, t: Seq<char>)
    requires
        is_normal_name(t),
    ensures
        parts(push_name(o, t)) == parts(o).push((ComponentKind::Normal, t)),
{
    let s = push_name(o, t);
    lemma_push_name_components(o, t);
    lemma_components_wf(o);
    let co = components(o);
    let cs = components(s);
    assert forall|k: int| 0 <= k < co.len() implies part_of(s, #[trigger] co[k]) == part_of(o, co[k])
        by {
        assert(s.subrange(co[k].start, co[k].end) =~= o.subrange(co[k].start, co[k].end));
    }
    assert(parts(s) =~= parts(o).push((ComponentKind::Normal, t))) by {
        assert(parts(s).len() == co.len() + 1);
        assert forall|k: int| 0 <= k < parts(s).len() implies parts(s)[k] == parts(o).push(
            (ComponentKind::Normal, t),
        )[k] by {
            if k < co.len() {
                assert(cs[k] == co[k]);
            }
        }
    }
}

/// What a successful fold of `sps` onto `o` gives: the parts of `o`, then the
/// normal parts of `sps`.
pub proof fn lemma_join_spans_parts(o: Seq<char>, rel: Seq<char>, sps: Seq<Span>)
    requires
        normal_spans_ok(rel, sps),
    ensures
        join_spans(o, rel, sps) matches Some(r) ==> parts(r) == parts(o) + normal_parts(rel, sps),
    decreases sps.len(),
{
    if sps.len() > 0 {
        let rest = sps.drop_first();
        assert(normal_spans_ok(rel, rest)) by {
            assert forall|k: int|
                0 <= k < rest.len() && #[trigger] rest[k].kind == ComponentKind::Normal implies {
                &&& 0 <= rest[k].start <= rest[k].end <= rel.len()
                &&& is_normal_name(span_text(rel, rest[k]))
            } by {
                assert(rest[k] == sps[k + 1]);
            }
        }
        match sps[0].kind {
            ComponentKind::CurDir => {
                lemma_join_spans_parts(o, rel, rest);
            },
            ComponentKind::Normal => {
                let t = span_text(rel, sps[0]);
                lemma_push_name_parts(o, t);
                lemma_join_spans_parts(push_name(o, t), rel, rest);
                assert(parts(o).push((ComponentKind::Normal, t)) + normal_parts(rel, rest)
                    =~= parts(o) + normal_parts(rel, sps));
            },
            _ => {},
        }
    } else {
        assert(parts(o) + normal_parts(rel, sps) =~= parts(o));
    }
}

/// The fold fails exactly when some component is a parent or a root.
pub proof fn lemma_join_spans_fails(o: Seq<char>, rel: Seq<char>, sps: Seq<Span>)
    ensures
        join_spans(o, rel, sps) is None <==> exists|k: int|
            0 <= k < sps.len() && (#[trigger] sps[k].kind == ComponentKind::ParentDir
                || sps[k].kind == ComponentKind::RootDir),
    decreases sps.len(),
{
    if sps.len() > 0 {
        let rest = sps.drop_first();
        let next = match sps[0].kind {
            ComponentKind::Normal => push_name(o, span_text(rel, sps[0])),
            _ => o,
        };
        lemma_join_spans_fails(next, rel, rest);
        if join_spans(o, rel, sps) is None {
            if sps[0].kind == ComponentKind::ParentDir || sps[0].kind == ComponentKind::RootDir {
            } else {
                let k = choose|k: int|
                    0 <= k < rest.len() && (#[trigger] rest[k].kind == ComponentKind::ParentDir
                        || rest[k].kind == ComponentKind::RootDir);
                assert(sps[k + 1] == rest[k]);
            }
        } else {
            assert forall|k: int| 0 <= k < sps.len() implies !(#[trigger] sps[k].kind
                == ComponentKind::ParentDir || sps[k].kind == ComponentKind::RootDir) by {
                if k > 0 {
                    assert(sps[k] == rest[k - 1]);
                }
            }
        }
    }
}

/// Law: a successful join stays inside `base`. The components of the joined
/// path are those of `base`, followed only by the normal components of `rel`,
/// in their order; so nothing of `base` is undone and no `..` is added.
pub proof fn law_safe_join_stays_under_base(base: Seq<char>, rel: Seq<char>)
    ensures
        spec_safe_join(base, rel) matches Some(out) ==> {
            &&& parts(out) == parts(base) + normal_parts(rel, components(rel))
            &&& forall|k: int|
                parts(base).len() <= k < parts(out).len() ==> (#[trigger] parts(out)[k]).0
                    == ComponentKind::Normal
        },
{
    let sps = components(rel);
    lemma_components_wf(rel);
    if !has_root(rel) {
        assert(normal_spans_ok(rel, sps));
        lemma_join_spans_parts(base, rel, sps);
        lemma_normal_parts_all_normal(rel, sps);
        if let Some(out) = spec_safe_join(base, rel) {
            let np = normal_parts(rel, sps);
            assert forall|k: int| parts(base).len() <= k < parts(out).len() implies (
            #[trigger] parts(out)[k]).0 == ComponentKind::Normal by {
                assert(parts(out)[k] == np[k - parts(base).len()]);
            }
        }
    }
}

pub proof fn lemma_normal_parts_all_normal(rel: Seq<char>, sps: Seq<Span>)
    ensures
        forall|k: int|
            0 <= k < normal_parts(rel, sps).len() ==> (#[trigger] normal_parts(rel, sps)[k]).0
                == ComponentKind::Normal,
    decreases sps.len(),
{
    if sps.len() > 0 {
        let rest = sps.drop_first();
        lemma_normal_parts_all_normal(rel, rest);
        let np = normal_parts(rel, sps);
        if sps[0].kind == ComponentKind::Normal {
            assert forall|k: int| 0 <= k < np.len() implies (#[trigger] np[k]).0
                == ComponentKind::Normal by {
                if k > 0 {
                    assert(np[k] == normal_parts(rel, rest)[k - 1]);
                }
            }
        }
    }
}

/// Law: the join is refused exactly when `rel` is absolute or has a `..`
/// component.
pub proof fn law_safe_join_refuses_exactly(base: Seq<char>, rel: Seq<char>)
    ensures
        spec_safe_join(base, rel) is None <==> (has_root(rel) || exists|k: int|
            0 <= k < components(rel).len() && #[trigger] components(rel)[k].kind
                == ComponentKind::ParentDir),
{
    let sps = components(rel);
    lemma_components_wf(rel);
    lemma_join_spans_fails(base, rel, sps);
    if !has_root(rel) {
        if join_spans(base, rel, sps) is None {
            let k = choose|k: int|
                0 <= k < sps.len() && (#[trigger] sps[k].kind == ComponentKind::ParentDir
                    || sps[k].kind == ComponentKind::RootDir);
            assert(sps[k].kind == ComponentKind::ParentDir);
        }
    }
}

/// `b` joined onto `a` as `PathBuf::join` does: an absolute `b` replaces
/// `a`; any other is appended after a `/`, none being added when `a` is empty
/// or already ends with one.
pub open spec fn path_join(a: Seq<char>, b: Seq<char>) -> Seq<char> {
    if has_root(b) {
        b
    } else {
        push_name(a, b)
    }
}

/// One more `/`-free segment joined on, as the join treats the component it
/// yields: nothing for an empty segment or `.`, a refusal for `..`, else the
/// segment pushed as a name.
pub open spec fn seg_step(x: Option<Seq<char>>, seg: Seq<char>) -> Option<Seq<char>> {
    match x {
        None => None,
        Some(p) => if seg.len() == 0 || seg == seq!['.'] {
            Some(p)
        } else if seg == seq!['.', '.'] {
            None
        } else {
            Some(push_name(p, seg))
        },
    }
}

/// Every component of `s` joined onto `o`.
pub open spec fn join_all(o: Seq<char>, s: Seq<char>) -> Option<Seq<char>> {
    join_spans(o, s, components(s))
}

/// Joining two runs of components is joining the first, then the second.
proof fn lemma_join_spans_append(o: Seq<char>, rel: Seq<char>, a: Seq<Span>, b: Seq<Span>)
    ensures
        join_spans(o, rel, a + b) == match join_spans(o, rel, a) {
            Some(p) => join_spans(p, rel, b),
            None => None,
        },
    decreases a.len(),
{
    if a.len() == 0 {
        assert(a + b =~= b);
    } else {
        assert((a + b)[0] == a[0]);
        assert((a + b).drop_first() =~= a.drop_first() + b);
        match a[0].kind {
            ComponentKind::CurDir => lemma_join_spans_append(o, rel, a.drop_first(), b),
            ComponentKind::Normal => lemma_join_spans_append(
                push_name(o, span_text(rel, a[0])),
                rel,
                a.drop_first(),
                b,
            ),
            _ => {},
        }
    }
}

/// Spans that lie inside the prefix `p` of `s` read the same in both.
proof fn lemma_join_spans_prefix(o: Seq<char>, s: Seq<char>, p: Seq<char>, sps: Seq<Span>)
    requires
        p.len() <= s.len(),
        s.subrange(0, p.len() as int) == p,
        forall|k: int| 0 <= k < sps.len() ==> 0 <= #[trigger] sps[k].start <= sps[k].end <= p.len(),
    ensures
        join_spans(o, s, sps) == join_spans(o, p, sps),
    decreases sps.len(),
{
    if sps.len() > 0 {
        let rest = sps.drop_first();
        assert forall|k: int| 0 <= k < rest.len() implies 0 <= #[trigger] rest[k].start
            <= rest[k].end <= p.len() by {
            assert(rest[k] == sps[k + 1]);
        }
        let sp = sps[0];
        assert(0 <= sp.start <= sp.end <= p.len());
        assert(span_text(s, sp) =~= span_text(p, sp)) by {
            assert forall|k: int| 0 <= k < sp.end - sp.start implies span_text(s, sp)[k]
                == span_text(p, sp)[k] by {
                assert(s.subrange(0, p.len() as int)[sp.start + k] == s[sp.start + k]);
            }
        }
        lemma_join_spans_prefix(o, s, p, rest);
        lemma_join_spans_prefix(push_name(o, span_text(s, sp)), s, p, rest);
    }
}

/// The component of a `/`-free segment of `s` joins as `seg_step` says.
proof fn lemma_join_seg(o: Seq<char>, s: Seq<char>, seg: Seq<char>, start: int)
    requires
        0 <= start,
        start + seg.len() <= s.len(),
        s.subrange(start, start + seg.len()) == seg,
    ensures
        join_spans(o, s, seg_span(seg, start)) == seg_step(Some(o), seg),
{
    let sps = seg_span(seg, start);
    if sps.len() == 1 {
        let rest = sps.drop_first();
        assert(rest =~= Seq::<Span>::empty());
        assert(span_text(s, sps[0]) == seg);
        if sps[0].kind == ComponentKind::Normal {
            assert(join_spans(push_name(o, seg), s, rest) == Some(push_name(o, seg)));
        }
    } else {
        assert(sps =~= Seq::<Span>::empty());
    }
}

/// How joining all of `s` unfolds at its last `/`.
proof fn lemma_join_all_step(o: Seq<char>, s: Seq<char>)
    requires
        !has_root(s),
    ensures
        last_sep(s) < 0 ==> join_all(o, s) == seg_step(Some(o), s),
        last_sep(s) >= 0 ==> last_sep(s) > 0 && join_all(o, s) == seg_step(
            join_all(o, s.subrange(0, last_sep(s))),
            s.subrange(last_sep(s) + 1, s.len() as int),
        ),
{
    lemma_last_sep_bounds(s);
    let i = last_sep(s);
    if i < 0 {
        if s == seq!['.'] {
            let sps = components(s);
            assert(sps.drop_first() =~= Seq::<Span>::empty());
        } else {
            assert(s.subrange(0, s.len() as int) =~= s);
            lemma_join_seg(o, s, s, 0);
        }
    } else {
        assert(i > 0);
        let pre = s.subrange(0, i);
        let tail = s.subrange(i + 1, s.len() as int);
        lemma_components_wf(pre);
        lemma_join_spans_append(o, s, components(pre), seg_span(tail, i + 1));
        lemma_join_spans_prefix(o, s, pre, components(pre));
        assert(s.subrange(i + 1, i + 1 + tail.len()) =~= tail);
        match join_spans(o, s, components(pre)) {
            Some(q) => lemma_join_seg(q, s, tail, i + 1),
            None => {},
        }
    }
}

/// Nothing joined onto `o` leaves it as it is.
proof fn lemma_join_all_empty(o: Seq<char>)
    ensures
        join_all(o, Seq::<char>::empty()) == Some(o),
{
    let e = Seq::<char>::empty();
    assert(components(e) =~= Seq::<Span>::empty());
}

/// Joining `push_name(r1, r2)` is joining `r1`, then `r2`.
#[verifier::rlimit(40)]
proof fn lemma_join_all_push(o: Seq<char>, r1: Seq<char>, r2: Seq<char>)
    requires
        !has_root(r1),
        !has_root(r2),
    ensures
        join_all(o, push_name(r1, r2)) == match join_all(o, r1) {
            Some(p) => join_all(p, r2),
            None => None,
        },
    decreases r2.len(),
{
    let s = push_name(r1, r2);
    let d = s.len() - r2.len();
    assert(s.subrange(d, s.len() as int) =~= r2);
    lemma_last_sep_bounds(r2);
    let j = last_sep(r2);
    if r1.len() == 0 {
        assert(s =~= r2);
        lemma_join_all_empty(o);
        assert(r1 =~= Seq::<char>::empty());
    } else if j < 0 {
        let i = d - 1;
        assert(s[i] == '/');
        assert forall|k: int| d <= k < s.len() implies s[k] != '/' by {
            assert(s[k] == r2[k - d]);
        }
        lemma_last_sep_prefix(s, d, s.len() as int);
        assert(s.subrange(0, s.len() as int) =~= s);
        assert(s.subrange(i + 1, s.len() as int) =~= r2);
        if i == 0 {
            assert(r1[0] == '/');
        }
        lemma_join_all_step(o, s);
        if r1.last() == '/' {
            assert(s.subrange(0, i) =~= r1.subrange(0, i));
            lemma_join_all_step(o, r1);
            assert(r1.subrange(i + 1, r1.len() as int) =~= Seq::<char>::empty());
        } else {
            assert(s.subrange(0, i) =~= r1);
        }
        match join_all(o, r1) {
            Some(p) => lemma_join_all_step(p, r2),
            None => {},
        }
    } else {
        assert(j > 0);
        let r2p = r2.subrange(0, j);
        let tail = r2.subrange(j + 1, r2.len() as int);
        assert(r2p[0] == r2[0]);
        lemma_join_all_push(o, r1, r2p);
        let i = d + j;
        assert(s[i] == r2[j]);
        assert forall|k: int| i + 1 <= k < s.len() implies s[k] != '/' by {
            assert(s[k] == r2[k - d]);
        }
        lemma_last_sep_prefix(s, i + 1, s.len() as int);
        assert(s.subrange(0, s.len() as int) =~= s);
        assert(s.subrange(0, i) =~= push_name(r1, r2p));
        assert(s.subrange(i + 1, s.len() as int) =~= tail);
        assert(s[0] == r1[0]);
        lemma_join_all_step(o, s);
        match join_all(o, r1) {
            Some(p) => lemma_join_all_step(p, r2),
            None => {},
        }
    }
}

/// Law: joining `r1` and then `r2` onto `base` gives what joining
/// `r1.join(r2)` onto `base` gives, and is refused exactly when that is.
pub proof fn law_safe_join_in_two_steps(base: Seq<char>, r1: Seq<char>, r2: Seq<char>)
    ensures
        spec_safe_join(base, path_join(r1, r2)) == match spec_safe_join(base, r1) {
            Some(p) => spec_safe_join(p, r2),
            None => None,
        },
{
    if has_root(r1) {
        if !has_root(r2) {
            assert(push_name(r1, r2)[0] == r1[0]);
        }
    } else if !has_root(r2) {
        if r1.len() > 0 {
            assert(push_name(r1, r2)[0] == r1[0]);
        } else {
            assert(push_name(r1, r2) =~= r2);
        }
        lemma_join_all_push(base, r1, r2);
    }
}

/// The kinds of the components `sps`, in order.
pub open spec fn kinds_of(sps: Seq<Span>) -> Seq<ComponentKind> {
    sps.map_values(|sp: Span| sp.kind)
}

/// Walks the component kinds `ks` from `depth` levels below the start: a
/// normal component goes one level down, `..` one level up, `.` nowhere. The
/// walk ends at the depth reached, or in nothing when it meets a root or a
/// `..` would climb above the start.
pub open spec fn climb(ks: Seq<ComponentKind>, depth: int) -> Option<int>
    decreases ks.len(),
{
    if ks.len() == 0 {
        Some(depth)
    } else {
        match ks[0] {
            ComponentKind::RootDir => None,
            ComponentKind::ParentDir => if depth > 0 {
                climb(ks.drop_first(), depth - 1)
            } else {
                None
            },
            ComponentKind::Normal => climb(ks.drop_first(), depth + 1),
            ComponentKind::CurDir => climb(ks.drop_first(), depth),
        }
    }
}

/// Walking two runs of kinds is walking the first, then the second from where
/// the first ended.
pub proof fn lemma_climb_append(a: Seq<ComponentKind>, b: Seq<ComponentKind>, depth: int)
    ensures
        climb(a + b, depth) == match climb(a, depth) {
            Some(e) => climb(b, e),
            None => None,
        },
    decreases a.len(),
{
    if a.len() == 0 {
        assert(a + b =~= b);
    } else {
        assert((a + b)[0] == a[0]);
        assert((a + b).drop_first() =~= a.drop_first() + b);
        match a[0] {
            ComponentKind::ParentDir => lemma_climb_append(a.drop_first(), b, depth - 1),
            ComponentKind::Normal => lemma_climb_append(a.drop_first(), b, depth + 1),
            ComponentKind::CurDir => lemma_climb_append(a.drop_first(), b, depth),
            _ => {},
        }
    }
}

proof fn lemma_kinds_append(a: Seq<Span>, b: Seq<Span>)
    ensures
        kinds_of(a + b) == kinds_of(a) + kinds_of(b),
{
    assert(kinds_of(a + b) =~= kinds_of(a) + kinds_of(b));
}

/// A `/`-free segment walks as the path made of it alone.
proof fn lemma_seg_climb(seg: Seq<char>, start: int, depth: int)
    requires
        last_sep(seg) < 0,
    ensures
        climb(kinds_of(seg_span(seg, start)), depth) == climb(kinds_of(components(seg)), depth),
{
    if seg == seq!['.'] {
        let k = kinds_of(components(seg));
        assert(k.drop_first() =~= Seq::<ComponentKind>::empty());
        assert(kinds_of(seg_span(seg, start)) =~= Seq::<ComponentKind>::empty());
    } else {
        let a = kinds_of(seg_span(seg, start));
        let b = kinds_of(seg_span(seg, 0));
        assert(a =~= b);
    }
}

/// Pushing a `/`-free segment onto a non-empty `base` adds at most the one
/// component of that segment.
proof fn lemma_push_seg_components(base: Seq<char>, name: Seq<char>)
    requires
        base.len() > 0,
        last_sep(name) < 0,
    ensures
        components(push_name(base, name)) == components(base) + seg_span(
            name,
            push_name(base, name).len() - name.len(),
        ),
{
    let s = push_name(base, name);
    let d = s.len() - name.len();
    lemma_last_sep_bounds(name);
    lemma_last_sep_bounds(base);
    let i = d - 1;
    assert(s.subrange(d, s.len() as int) =~= name);
    assert(s[i] == '/');
    assert forall|k: int| d <= k < s.len() implies s[k] != '/' by {
        assert(s[k] == name[k - d]);
    }
    lemma_last_sep_prefix(s, d, s.len() as int);
    assert(s.subrange(0, s.len() as int) =~= s);
    assert(s.subrange(i + 1, s.len() as int) =~= name);
    if base.last() == '/' {
        let bp = base.subrange(0, i);
        assert(base.subrange(i + 1, base.len() as int) =~= Seq::<char>::empty());
        if i > 0 {
            assert(s.subrange(0, i) =~= bp);
            assert(components(base) =~= components(bp));
        }
    } else {
        assert(s.subrange(0, i) =~= base);
    }
}

/// Pushing a path whose last `/` is at `j > 0` splits at that `/`.
proof fn lemma_push_split(base: Seq<char>, name: Seq<char>)
    requires
        last_sep(name) > 0,
    ensures
        components(push_name(base, name)) == components(
            push_name(base, name.subrange(0, last_sep(name))),
        ) + seg_span(
            name.subrange(last_sep(name) + 1, name.len() as int),
            push_name(base, name).len() - name.len() + last_sep(name) + 1,
        ),
        components(name) == components(name.subrange(0, last_sep(name))) + seg_span(
            name.subrange(last_sep(name) + 1, name.len() as int),
            last_sep(name) + 1,
        ),
{
    let s = push_name(base, name);
    let d = s.len() - name.len();
    lemma_last_sep_bounds(name);
    let j = last_sep(name);
    let pre = name.subrange(0, j);
    let tail = name.subrange(j + 1, name.len() as int);
    assert(s.subrange(d, s.len() as int) =~= name);
    let i = d + j;
    assert(s[i] == name[j]);
    assert forall|k: int| i + 1 <= k < s.len() implies s[k] != '/' by {
        assert(s[k] == name[k - d]);
    }
    lemma_last_sep_prefix(s, i + 1, s.len() as int);
    assert(s.subrange(0, s.len() as int) =~= s);
    assert(s.subrange(0, i) =~= push_name(base, pre));
    assert(s.subrange(i + 1, s.len() as int) =~= tail);
}

/// Pushing a path `name` onto `base` keeps the components of `base` in
/// front, and what follows them walks as `name` does.
pub proof fn lemma_push_path_components(base: Seq<char>, name: Seq<char>, depth: int)
    requires
        !has_root(name),
    ensures
        components(base).len() <= components(push_name(base, name)).len(),
        components(push_name(base, name)).subrange(0, components(base).len() as int)
            == components(base),
        climb(
            kinds_of(components(push_name(base, name)).skip(components(base).len() as int)),
            depth,
        ) == climb(kinds_of(components(name)), depth),
    decreases name.len(),
{
    let s = push_name(base, name);
    let n = components(base).len() as int;
    lemma_last_sep_bounds(name);
    let j = last_sep(name);
    if base.len() == 0 {
        assert(s =~= name);
        let e = Seq::<char>::empty();
        assert(base =~= e);
        assert(components(e) =~= Seq::<Span>::empty());
        assert(components(s).subrange(0, 0) =~= Seq::<Span>::empty());
        assert(components(s).skip(0) =~= components(s));
    } else if j < 0 {
        let seg = seg_span(name, s.len() - name.len());
        lemma_push_seg_components(base, name);
        assert(components(s).subrange(0, n) =~= components(base));
        assert(components(s).skip(n) =~= seg);
        lemma_seg_climb(name, s.len() - name.len(), depth);
    } else {
        assert(j > 0);
        let pre = name.subrange(0, j);
        let tail = name.subrange(j + 1, name.len() as int);
        assert(pre[0] == name[0]);
        let sp = push_name(base, pre);
        lemma_push_path_components(base, pre, depth);
        lemma_push_split(base, name);
        let seg = seg_span(tail, s.len() - name.len() + j + 1);
        let seg2 = seg_span(tail, j + 1);
        let cp = components(sp);
        assert(components(s).subrange(0, n) =~= cp.subrange(0, n));
        assert(components(s).skip(n) =~= cp.skip(n) + seg);
        assert(kinds_of(seg) =~= kinds_of(seg2));
        lemma_kinds_append(cp.skip(n), seg);
        lemma_kinds_append(components(pre), seg2);
        lemma_climb_append(kinds_of(cp.skip(n)), kinds_of(seg), depth);
        lemma_climb_append(kinds_of(components(pre)), kinds_of(seg2), depth);
    }
}

} // verus!
