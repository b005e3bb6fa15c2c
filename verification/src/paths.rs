//! A component model of `/`-separated paths.
//!
//! A path is read as an optional lead followed by its normal components: the
//! `/`-separated segments that are neither empty nor `"."`. The lead is a root
//! marker for an absolute path (a leading `/`), or a current-directory marker
//! for a relative path that begins with the segment `"."`; a `"."` anywhere
//! else is dropped. Two paths are equal when their leads and components
//! agree, and a path starts with another when the other's lead and components
//! are a prefix of its own, as `std::path::Path` compares them.
use vstd::prelude::*;
use vstd::string::StringExecFns;

use crate::ordering::{is_strict_total, is_total_preorder, lemma_lex_irreflexive, lemma_lex_skip, lemma_lex_total, lemma_lex_transitive, lex_lt};
use crate::text::str_eq;

verus! {

broadcast use vstd::seq_lib::group_seq_properties;

/// The `/`-separated segments of `p`, empty segments included; never empty.
pub open spec fn segments(p: Seq<char>) -> Seq<Seq<char>>
    decreases p.len(),
{
    if p.len() == 0 {
        seq![Seq::<char>::empty()]
    } else {
        let s = segments(p.drop_last());
        if p.last() == '/' {
            s.push(Seq::<char>::empty())
        } else {
            s.update(s.len() - 1, s.last().push(p.last()))
        }
    }
}

/// A segment that names something: not empty and not `"."`.
pub open spec fn is_normal(seg: Seq<char>) -> bool {
    seg.len() > 0 && seg != seq!['.']
}

/// The normal components of `p`, in order.
pub open spec fn components(p: Seq<char>) -> Seq<Seq<char>> {
    segments(p).filter(normal_segment())
}

/// [`is_normal`] as a predicate value, for filtering.
pub open spec fn normal_segment() -> spec_fn(Seq<char>) -> bool {
    |seg: Seq<char>| is_normal(seg)
}

/// `true` when `p` begins at the filesystem root.
pub open spec fn is_absolute(p: Seq<char>) -> bool {
    p.len() > 0 && p[0] == '/'
}

/// `true` when `p` is relative and begins with the segment `"."`, which
/// `std::path` keeps as a current-directory component.
pub open spec fn has_cur_dir(p: Seq<char>) -> bool {
    &&& !is_absolute(p)
    &&& p.len() > 0
    &&& p[0] == '.'
    &&& (p.len() == 1 || p[1] == '/')
}

/// Component-wise path equality.
pub open spec fn same_path(a: Seq<char>, b: Seq<char>) -> bool {
    path_key(a) == path_key(b)
}

/// `base` is a component-wise prefix of `p`.
pub open spec fn path_starts_with(p: Seq<char>, base: Seq<char>) -> bool {
    path_key(base).is_prefix_of(path_key(p))
}

/// The views of a sequence of strings.
pub open spec fn views(v: Seq<String>) -> Seq<Seq<char>> {
    v.map_values(|s: String| s@)
}

proof fn lemma_segments_nonempty(p: Seq<char>)
    ensures
        segments(p).len() >= 1,
    decreases p.len(),
{
    if p.len() > 0 {
        lemma_segments_nonempty(p.drop_last());
    }
}

/// Whether a segment is a normal component.
fn segment_is_normal(seg: &String) -> (r: bool)
    ensures
        r == is_normal(seg@),
{
    proof {
        reveal_strlit(".");
        assert("."@ =~= seq!['.']);
    }
    seg.as_str().unicode_len() > 0 && !crate::text::str_eq(seg.as_str(), ".")
}

/// The segments after one more character.
proof fn lemma_segments_push(p: Seq<char>, c: char)
    ensures
        segments(p.push(c)) == (if c == '/' {
            segments(p).push(Seq::<char>::empty())
        } else {
            segments(p).update(segments(p).len() - 1, segments(p).last().push(c))
        }),
{
    assert(p.push(c).drop_last() =~= p);
}

/// The normal components of `p`.
pub fn split_components(p: &str) -> (r: Vec<String>)
    ensures
        views(r@) == components(p@),
{
    let n = p.unicode_len();
    let mut done: Vec<String> = Vec::new();
    let mut cur = String::new();
    let mut i: usize = 0;
    let ghost pred = normal_segment();
    proof {
        reveal_with_fuel(segments, 2);
        assert(p@.subrange(0, 0) =~= Seq::<char>::empty());
        assert(segments(Seq::<char>::empty()).drop_last() =~= Seq::<Seq<char>>::empty());
        reveal(Seq::filter);
        assert(views(done@) =~= Seq::<Seq<char>>::empty());
    }
    while i < n
        invariant
            n == p@.len(),
            i <= n,
            pred == normal_segment(),
            segments(p@.subrange(0, i as int)).len() >= 1,
            cur@ == segments(p@.subrange(0, i as int)).last(),
            views(done@) == segments(p@.subrange(0, i as int)).drop_last().filter(pred),
        decreases n - i,
    {
        let c = p.get_char(i);
        let ghost pre = p@.subrange(0, i as int);
        let ghost post = p@.subrange(0, i + 1);
        assert(post =~= pre.push(c));
        proof {
            lemma_segments_push(pre, c);
            lemma_segments_nonempty(pre);
            lemma_segments_nonempty(post);
        }
        let ghost segs = segments(pre);
        assert(segs =~= segs.drop_last().push(segs.last()));
        proof {
            segs.drop_last().lemma_filter_push(segs.last(), pred);
        }
        if c == '/' {
            assert(segments(post).drop_last() =~= segs);
            let ghost done_before = views(done@);
            if segment_is_normal(&cur) {
                done.push(cur);
                assert(views(done@) =~= done_before.push(segs.last()));
            }
            cur = String::new();
        } else {
            cur.push(c);
            assert(segments(post).drop_last() =~= segs.drop_last());
        }
        i = i + 1;
    }
    assert(p@.subrange(0, n as int) =~= p@);
    let ghost segs = segments(p@);
    proof {
        lemma_segments_nonempty(p@);
        assert(segs =~= segs.drop_last().push(segs.last()));
        segs.drop_last().lemma_filter_push(segs.last(), pred);
    }
    let ghost done_before = views(done@);
    if segment_is_normal(&cur) {
        done.push(cur);
        assert(views(done@) =~= done_before.push(segs.last()));
    }
    done
}

/// The file name of `p`: its last component, unless that is `".."` or
/// there is none.
pub open spec fn file_name_of(p: Seq<char>) -> Option<Seq<char>> {
    let c = components(p);
    if c.len() > 0 && c.last() != seq!['.', '.'] {
        Some(c.last())
    } else {
        None
    }
}

/// Index of the last `'.'` in `s`, or -1 when there is none.
pub open spec fn last_dot(s: Seq<char>) -> int
    decreases s.len(),
{
    if s.len() == 0 {
        -1
    } else if s.last() == '.' {
        s.len() - 1
    } else {
        last_dot(s.drop_last())
    }
}

/// The extension of a file name: the text after its last `'.'`, when that
/// dot is not the first character.
pub open spec fn extension_of_name(name: Seq<char>) -> Option<Seq<char>> {
    let k = last_dot(name);
    if k > 0 {
        Some(name.subrange(k + 1, name.len() as int))
    } else {
        None
    }
}

/// The extension of the file name of `p`.
pub open spec fn extension_of(p: Seq<char>) -> Option<Seq<char>> {
    match file_name_of(p) {
        Some(name) => extension_of_name(name),
        None => None,
    }
}

pub proof fn lemma_last_dot_facts(s: Seq<char>)
    ensures
        -1 <= last_dot(s) < s.len(),
        last_dot(s) >= 0 ==> s[last_dot(s)] == '.',
        forall|j: int| last_dot(s) < j < s.len() ==> s[j] != '.',
    decreases s.len(),
{
    if s.len() > 0 && s.last() != '.' {
        lemma_last_dot_facts(s.drop_last());
        assert forall|j: int| last_dot(s) < j < s.len() implies s[j] != '.' by {
            if j < s.len() - 1 {
                assert(s[j] == s.drop_last()[j]);
            }
        }
    }
}

/// Whether `p` begins at the root.
pub fn path_is_absolute(p: &str) -> (r: bool)
    ensures
        r == is_absolute(p@),
{
    p.unicode_len() > 0 && p.get_char(0) == '/'
}

/// Whether `p` begins with the current-directory segment `"."`.
pub fn path_has_cur_dir(p: &str) -> (r: bool)
    ensures
        r == has_cur_dir(p@),
{
    let n = p.unicode_len();
    n > 0 && p.get_char(0) == '.' && (n == 1 || p.get_char(1) == '/')
}

/// Element-wise equality of two lists of strings.
pub fn strings_equal(a: &Vec<String>, b: &Vec<String>) -> (r: bool)
    ensures
        r == (views(a@) == views(b@)),
{
    if a.len() != b.len() {
        assert(views(a@).len() != views(b@).len());
        return false;
    }
    let r = strings_prefix(a, b);
    proof {
        if r {
            assert(views(a@) =~= views(b@));
        }
    }
    r
}

/// Whether the strings of `a` are a prefix of those of `b`.
pub fn strings_prefix(a: &Vec<String>, b: &Vec<String>) -> (r: bool)
    ensures
        r == views(a@).is_prefix_of(views(b@)),
{
    if a.len() > b.len() {
        return false;
    }
    let mut i: usize = 0;
    while i < a.len()
        invariant
            a.len() <= b.len(),
            i <= a.len(),
            forall|j: int| 0 <= j < i ==> a@[j]@ == b@[j]@,
        decreases a.len() - i,
    {
        if !crate::text::str_eq(a[i].as_str(), b[i].as_str()) {
            assert(views(a@)[i as int] != views(b@)[i as int]);
            return false;
        }
        i = i + 1;
    }
    assert(views(a@) =~= views(b@).subrange(0, a.len() as int));
    true
}

/// Component-wise equality of two paths.
pub fn paths_equal(a: &str, b: &str) -> (r: bool)
    ensures
        r == same_path(a@, b@),
{
    let ka = path_order_key(a);
    let kb = path_order_key(b);
    strings_equal(&ka, &kb)
}

/// Whether `base` is a component-wise prefix of `p`.
pub fn path_has_prefix(p: &str, base: &str) -> (r: bool)
    ensures
        r == path_starts_with(p@, base@),
{
    let kp = path_order_key(p);
    let kb = path_order_key(base);
    strings_prefix(&kb, &kp)
}

/// The path written from a root marker and components: a leading `/` when
/// absolute, then the components separated by `/`.
pub open spec fn join_components(absolute: bool, comps: Seq<Seq<char>>) -> Seq<char>
    decreases comps.len(),
{
    if comps.len() == 0 {
        if absolute {
            seq!['/']
        } else {
            Seq::empty()
        }
    } else if comps.len() == 1 {
        (if absolute {
            seq!['/']
        } else {
            Seq::<char>::empty()
        }) + comps[0]
    } else {
        join_components(absolute, comps.drop_last()) + seq!['/'] + comps.last()
    }
}

/// The text `"."` followed by the components, if there are any.
pub open spec fn dot_joined(comps: Seq<Seq<char>>) -> Seq<char> {
    if comps.len() == 0 {
        seq!['.']
    } else {
        seq!['.', '/'] + join_components(false, comps)
    }
}

/// The text of the parent of `p`: its lead and every component but the last.
/// A path made of a root alone, or of nothing, has no parent; the parent of
/// `"."` alone is the empty path.
pub open spec fn parent_of(p: Seq<char>) -> Option<Seq<char>> {
    if has_cur_dir(p) {
        if components(p).len() == 0 {
            Some(Seq::empty())
        } else {
            Some(dot_joined(components(p).drop_last()))
        }
    } else if components(p).len() == 0 {
        None
    } else {
        Some(join_components(is_absolute(p), components(p).drop_last()))
    }
}

/// Segments of two texts joined by a separator.
proof fn lemma_segments_concat(a: Seq<char>, b: Seq<char>)
    ensures
        segments(a.push('/') + b) == segments(a) + segments(b),
    decreases b.len(),
{
    lemma_segments_push(a, '/');
    if b.len() == 0 {
        assert(a.push('/') + b =~= a.push('/'));
        assert(segments(b) =~= seq![Seq::<char>::empty()]);
        assert(segments(a).push(Seq::<char>::empty()) =~= segments(a) + seq![Seq::<char>::empty()]);
    } else {
        lemma_segments_concat(a, b.drop_last());
        assert(a.push('/') + b =~= (a.push('/') + b.drop_last()).push(b.last()));
        lemma_segments_push(a.push('/') + b.drop_last(), b.last());
        lemma_segments_push(b.drop_last(), b.last());
        assert(b.drop_last().push(b.last()) =~= b);
        lemma_segments_nonempty(b.drop_last());
        let sa = segments(a);
        let sb = segments(b.drop_last());
        if b.last() == '/' {
            assert((sa + sb).push(Seq::<char>::empty()) =~= sa + sb.push(Seq::<char>::empty()));
        } else {
            assert((sa + sb).update((sa + sb).len() - 1, (sa + sb).last().push(b.last())) =~= sa + sb.update(
                sb.len() - 1,
                sb.last().push(b.last()),
            ));
        }
    }
}

/// A relative path joined from normal components does not begin with `"."`.
proof fn lemma_join_no_cur_dir(comps: Seq<Seq<char>>)
    requires
        forall|i: int| 0 <= i < comps.len() ==> is_normal(#[trigger] comps[i]),
        forall|i: int, j: int| 0 <= i < comps.len() && 0 <= j < comps[i].len() ==> comps[i][j] != '/',
    ensures
        !has_cur_dir(join_components(false, comps)),
{
    if comps.len() > 0 {
        lemma_join_head(comps);
        let c = comps[0];
        let j = join_components(false, comps);
        assert(j[0] == c[0]);
        if c.len() == 1 && c[0] == '.' {
            assert(c =~= seq!['.']);
        }
        if c.len() >= 2 {
            assert(j[1] == c[1]);
        }
    }
}

/// A relative join begins with its first component, followed by a separator
/// when more come.
proof fn lemma_join_head(comps: Seq<Seq<char>>)
    requires
        comps.len() >= 1,
    ensures
        join_components(false, comps).len() >= comps[0].len(),
        join_components(false, comps).subrange(0, comps[0].len() as int) == comps[0],
        comps.len() >= 2 ==> join_components(false, comps).len() > comps[0].len() && join_components(
            false,
            comps,
        )[comps[0].len() as int] == '/',
    decreases comps.len(),
{
    let c = comps[0];
    if comps.len() == 1 {
        assert(Seq::<char>::empty() + c =~= c);
        assert(c.subrange(0, c.len() as int) =~= c);
    } else {
        let rest = comps.drop_last();
        lemma_join_head(rest);
        assert(rest[0] == c);
        let jr = join_components(false, rest);
        let j = join_components(false, comps);
        assert(j == jr + seq!['/'] + comps.last());
        assert(j.subrange(0, c.len() as int) =~= jr.subrange(0, c.len() as int));
        if comps.len() == 2 {
            assert(jr =~= c);
        }
    }
}

/// The text `"."` joined with normal components reads back as a
/// current-directory lead and those components.
proof fn lemma_dot_joined(comps: Seq<Seq<char>>)
    requires
        forall|i: int| 0 <= i < comps.len() ==> is_normal(#[trigger] comps[i]),
        forall|i: int, j: int| 0 <= i < comps.len() && 0 <= j < comps[i].len() ==> comps[i][j] != '/',
    ensures
        has_cur_dir(dot_joined(comps)),
        components(dot_joined(comps)) == comps,
{
    reveal_with_fuel(segments, 2);
    reveal_with_fuel(Seq::filter, 2);
    assert(seq!['.'].drop_last() =~= Seq::<char>::empty());
    assert(segments(seq!['.']) =~= seq![seq!['.']]);
    assert(seq![seq!['.']].drop_last() =~= Seq::<Seq<char>>::empty());
    assert(seq![seq!['.']].filter(normal_segment()) =~= Seq::<Seq<char>>::empty());
    if comps.len() > 0 {
        let j = join_components(false, comps);
        lemma_join_components(false, comps);
        lemma_segments_concat(seq!['.'], j);
        assert(seq!['.'].push('/') + j =~= seq!['.', '/'] + j);
        Seq::filter_distributes_over_add(seq![seq!['.']], segments(j), normal_segment());
        assert(Seq::<Seq<char>>::empty() + components(j) =~= components(j));
    }
}

/// No segment holds a separator.
pub proof fn lemma_segments_no_slash(p: Seq<char>)
    ensures
        forall|i: int, j: int|
            0 <= i < segments(p).len() && 0 <= j < segments(p)[i].len() ==> segments(p)[i][j] != '/',
    decreases p.len(),
{
    if p.len() > 0 {
        lemma_segments_no_slash(p.drop_last());
        lemma_segments_nonempty(p.drop_last());
        let s = segments(p.drop_last());
        assert forall|i: int, j: int|
            0 <= i < segments(p).len() && 0 <= j < segments(p)[i].len() implies segments(p)[i][j] != '/' by {
            if p.last() == '/' {
                if i < s.len() {
                    assert(segments(p)[i] == s[i]);
                }
            } else {
                if i < s.len() - 1 {
                    assert(segments(p)[i] == s[i]);
                } else {
                    assert(segments(p)[i] == s.last().push(p.last()));
                    if j < s.last().len() {
                        assert(segments(p)[i][j] == s[s.len() - 1][j]);
                    }
                }
            }
        }
    }
}

/// Every component is normal and holds no separator.
pub proof fn lemma_components_plain(p: Seq<char>)
    ensures
        forall|i: int| 0 <= i < components(p).len() ==> is_normal(#[trigger] components(p)[i]),
        forall|i: int, j: int|
            0 <= i < components(p).len() && 0 <= j < components(p)[i].len() ==> components(p)[i][j] != '/',
{
    let segs = segments(p);
    lemma_segments_no_slash(p);
    assert forall|i: int| 0 <= i < components(p).len() implies is_normal(#[trigger] components(p)[i]) by {
        segs.lemma_filter_pred(normal_segment(), i);
    }
    assert forall|i: int, j: int|
        0 <= i < components(p).len() && 0 <= j < components(p)[i].len() implies components(p)[i][j] != '/' by {
        segs.lemma_filter_contains_rev(normal_segment(), components(p)[i]);
        assert(segs.filter(normal_segment()).contains(components(p)[i]));
        assert(segs.contains(components(p)[i]));
        let k = choose|k: int| 0 <= k < segs.len() && segs[k] == components(p)[i];
        assert(segs[k][j] != '/');
    }
}

/// Appending text without separators extends the last segment.
proof fn lemma_segments_append_plain(a: Seq<char>, t: Seq<char>)
    requires
        forall|j: int| 0 <= j < t.len() ==> t[j] != '/',
    ensures
        segments(a + t) == segments(a).update(segments(a).len() - 1, segments(a).last() + t),
    decreases t.len(),
{
    lemma_segments_nonempty(a);
    if t.len() == 0 {
        assert(a + t =~= a);
        assert(segments(a).last() + t =~= segments(a).last());
        assert(segments(a).update(segments(a).len() - 1, segments(a).last()) =~= segments(a));
    } else {
        lemma_segments_append_plain(a, t.drop_last());
        assert(a + t =~= (a + t.drop_last()).push(t.last()));
        lemma_segments_push(a + t.drop_last(), t.last());
        let s = segments(a);
        let s1 = s.update(s.len() - 1, s.last() + t.drop_last());
        assert(s1.last() == s.last() + t.drop_last());
        assert((s.last() + t.drop_last()).push(t.last()) =~= s.last() + t);
        assert(s1.update(s1.len() - 1, s1.last().push(t.last())) =~= s.update(s.len() - 1, s.last() + t));
    }
}

/// The joined path reads back as the same root marker and components.
pub proof fn lemma_join_components(absolute: bool, comps: Seq<Seq<char>>)
    requires
        forall|i: int| 0 <= i < comps.len() ==> is_normal(#[trigger] comps[i]),
        forall|i: int, j: int| 0 <= i < comps.len() && 0 <= j < comps[i].len() ==> comps[i][j] != '/',
    ensures
        components(join_components(absolute, comps)) == comps,
        is_absolute(join_components(absolute, comps)) == absolute,
    decreases comps.len(),
{
    let ghost pred = normal_segment();
    let prefix = if absolute {
        seq!['/']
    } else {
        Seq::<char>::empty()
    };
    reveal_with_fuel(segments, 2);
    assert(seq!['/'].drop_last() =~= Seq::<char>::empty());
    assert(segments(seq!['/']) =~= seq![Seq::<char>::empty(), Seq::<char>::empty()]);
    reveal_with_fuel(Seq::filter, 3);
    assert(seq![Seq::<char>::empty(), Seq::<char>::empty()].drop_last() =~= seq![Seq::<char>::empty()]);
    assert(seq![Seq::<char>::empty()].drop_last() =~= Seq::<Seq<char>>::empty());
    if comps.len() == 0 {
        assert(components(Seq::<char>::empty()) =~= Seq::<Seq<char>>::empty());
        assert(components(seq!['/']) =~= Seq::<Seq<char>>::empty());
    } else if comps.len() == 1 {
        let c = comps[0];
        assert(forall|j: int| 0 <= j < c.len() ==> c[j] != '/');
        lemma_segments_append_plain(prefix, c);
        let segs = segments(prefix + c);
        if absolute {
            assert(segs =~= seq![Seq::<char>::empty(), Seq::<char>::empty() + c]);
            assert(Seq::<char>::empty() + c =~= c);
            assert(segs.drop_last() =~= seq![Seq::<char>::empty()]);
        } else {
            assert(segs =~= seq![Seq::<char>::empty() + c]);
            assert(Seq::<char>::empty() + c =~= c);
            assert(segs.drop_last() =~= Seq::<Seq<char>>::empty());
            assert(prefix + c =~= c);
            assert(c.len() > 0);
            assert(c[0] != '/');
        }
        assert(components(prefix + c) =~= seq![c]);
        assert(comps =~= seq![c]);
        if absolute {
            assert((prefix + c)[0] == '/');
        }
    } else {
        let rest = comps.drop_last();
        let c = comps.last();
        lemma_join_components(absolute, rest);
        let j = join_components(absolute, rest);
        assert forall|k: int| 0 <= k < c.len() implies c[k] != '/' by {
            assert(c[k] == comps[comps.len() - 1][k]);
        }
        lemma_segments_push(j, '/');
        lemma_segments_nonempty(j);
        lemma_segments_append_plain(j.push('/'), c);
        assert(j + seq!['/'] + c =~= j.push('/') + c);
        let sj = segments(j);
        assert(segments(j.push('/')) == sj.push(Seq::<char>::empty()));
        assert(segments(j.push('/') + c) =~= sj.push(Seq::<char>::empty() + c));
        assert(Seq::<char>::empty() + c =~= c);
        sj.lemma_filter_push(c, pred);
        assert(is_normal(comps[comps.len() - 1]));
        assert(comps =~= rest.push(c));
        if absolute {
            assert((j + seq!['/'] + c)[0] == j[0]);
        } else {
            assert(rest.len() >= 1);
            assert(j.len() > 0);
            assert((j + seq!['/'] + c)[0] == j[0]);
        }
    }
}

/// The concatenation of strings with `/` between them and an optional root.
pub fn join_path(absolute: bool, comps: &Vec<String>, count: usize) -> (r: String)
    requires
        count <= comps@.len(),
    ensures
        r@ == join_components(absolute, views(comps@).subrange(0, count as int)),
{
    let mut out = String::new();
    if absolute {
        out.push('/');
    }
    let mut i: usize = 0;
    proof {
        assert(views(comps@).subrange(0, 0) =~= Seq::<Seq<char>>::empty());
        if !absolute {
            assert(out@ =~= Seq::<char>::empty());
        }
    }
    while i < count
        invariant
            count <= comps@.len(),
            i <= count,
            out@ == join_components(absolute, views(comps@).subrange(0, i as int)),
        decreases count - i,
    {
        let ghost before = out@;
        let ghost cs = views(comps@).subrange(0, i + 1);
        assert(cs.drop_last() =~= views(comps@).subrange(0, i as int));
        assert(cs.last() == comps@[i as int]@);
        if i > 0 {
            out.push('/');
        }
        out.append(comps[i].as_str());
        proof {
            if i == 0 {
                assert(cs =~= seq![comps@[0]@]);
                if absolute {
                    assert(out@ =~= seq!['/'] + comps@[0]@);
                } else {
                    assert(out@ =~= Seq::<char>::empty() + comps@[0]@);
                }
            } else {
                assert(out@ =~= before + seq!['/'] + comps@[i as int]@);
            }
        }
        i += 1;
    }
    out
}

/// The parent of `p`: its root marker and every component but the last,
/// joined by `/`; `None` when `p` has no component.
pub fn parent_path(p: &str) -> (r: Option<String>)
    ensures
        match parent_of(p@) {
            None => r is None,
            Some(q) => r matches Some(s) && s@ == q,
        },
        r matches Some(q) ==> path_key(q@) == path_key(p@).drop_last(),
{
    let comps = split_components(p);
    let ghost cs = components(p@);
    proof {
        lemma_components_plain(p@);
        reveal_with_fuel(Seq::filter, 2);
        assert(segments(Seq::<char>::empty()) == seq![Seq::<char>::empty()]);
        assert(seq![Seq::<char>::empty()].drop_last() =~= Seq::<Seq<char>>::empty());
        assert(components(Seq::<char>::empty()) =~= Seq::<Seq<char>>::empty());
    }
    if comps.len() == 0 {
        if path_has_cur_dir(p) {
            proof {
                assert((seq![seq!['.']] + cs).drop_last() =~= Seq::<Seq<char>>::empty());
            }
            return Some(String::new());
        }
        return None;
    }
    let n = comps.len() - 1;
    proof {
        assert(views(comps@).subrange(0, n as int) =~= cs.drop_last());
        assert forall|i: int| 0 <= i < cs.drop_last().len() implies is_normal(#[trigger] cs.drop_last()[i]) by {
            assert(cs.drop_last()[i] == cs[i]);
        }
        assert forall|i: int, j: int|
            0 <= i < cs.drop_last().len() && 0 <= j < cs.drop_last()[i].len() implies cs.drop_last()[i][j] != '/' by {
            assert(cs.drop_last()[i] == cs[i]);
        }
    }
    if path_has_cur_dir(p) {
        proof {
            lemma_dot_joined(cs.drop_last());
            assert((seq![seq!['.']] + cs).drop_last() =~= seq![seq!['.']] + cs.drop_last());
        }
        if n == 0 {
            proof {
                reveal_strlit(".");
                assert("."@ =~= seq!['.']);
            }
            Some(String::from_str("."))
        } else {
            let tail = join_path(false, &comps, n);
            let mut q = String::from_str("./");
            q.append(tail.as_str());
            proof {
                reveal_strlit("./");
                assert("./"@ =~= seq!['.', '/']);
            }
            Some(q)
        }
    } else {
        let q = join_path(path_is_absolute(p), &comps, n);
        proof {
            lemma_join_components(is_absolute(p@), cs.drop_last());
            if !is_absolute(p@) {
                lemma_join_no_cur_dir(cs.drop_last());
            } else {
                assert((seq![seq!['/']] + cs).drop_last() =~= seq![seq!['/']] + cs.drop_last());
            }
        }
        Some(q)
    }
}

/// The file name of `p`.
pub fn file_name(p: &str) -> (r: Option<String>)
    ensures
        r matches Some(n) ==> file_name_of(p@) == Some(n@),
        r is None ==> file_name_of(p@) is None,
{
    let comps = split_components(p);
    if comps.len() == 0 {
        return None;
    }
    let last = comps.len() - 1;
    proof {
        reveal_strlit("..");
        assert(".."@ =~= seq!['.', '.']);
    }
    if crate::text::str_eq(comps[last].as_str(), "..") {
        None
    } else {
        Some(comps[last].clone())
    }
}

/// The extension of a file name.
pub fn name_extension(name: &str) -> (r: Option<String>)
    ensures
        r matches Some(e) ==> extension_of_name(name@) == Some(e@),
        r is None ==> extension_of_name(name@) is None,
{
    let n = name.unicode_len();
    let mut k: usize = n;
    proof { lemma_last_dot_facts(name@); }
    while k > 0 && name.get_char(k - 1) != '.'
        invariant
            n == name@.len(),
            k <= n,
            last_dot(name@) < k,
            -1 <= last_dot(name@),
            last_dot(name@) >= 0 ==> name@[last_dot(name@)] == '.',
            forall|j: int| k <= j < n ==> name@[j] != '.',
        decreases k,
    {
        k = k - 1;
    }
    // now k == 0 (no dot) or name[k - 1] is the last dot
    proof {
        if k > 0 {
            assert(last_dot(name@) == k - 1);
        } else {
            assert(last_dot(name@) == -1);
        }
    }
    if k > 1 {
        Some(name.substring_char(k, n).to_owned())
    } else {
        None
    }
}

/// The extension of the file name of `p`.
pub fn path_extension(p: &str) -> (r: Option<String>)
    ensures
        r matches Some(e) ==> extension_of(p@) == Some(e@),
        r is None ==> extension_of(p@) is None,
{
    match file_name(p) {
        Some(name) => name_extension(name.as_str()),
        None => None,
    }
}


// ---------------------------------------------------------------------------
// Path order
// ---------------------------------------------------------------------------

/// The components by which `std::path::Path` compares `p`: a root marker
/// (`"/"`) first when `p` is absolute, a current-directory marker (`"."`)
/// first when it begins with that segment, then the normal components.
pub open spec fn path_key(p: Seq<char>) -> Seq<Seq<char>> {
    if is_absolute(p) {
        seq![seq!['/']] + components(p)
    } else if has_cur_dir(p) {
        seq![seq!['.']] + components(p)
    } else {
        components(p)
    }
}

/// The place of a component among the kinds of `std::path::Component`:
/// the root first, then the current directory `.`, then the parent
/// directory `..`, then names.
pub open spec fn component_class(c: Seq<char>) -> int {
    if c == seq!['/'] {
        0
    } else if c == seq!['.'] {
        1
    } else if c == seq!['.', '.'] {
        2
    } else {
        3
    }
}

/// Characters in the order of their code points, which is the byte order
/// of their UTF-8 encoding.
pub open spec fn char_order() -> spec_fn(char, char) -> bool {
    |x: char, y: char| (x as int) < (y as int)
}

/// Component `a` sorts strictly before component `b`.
pub open spec fn component_lt(a: Seq<char>, b: Seq<char>) -> bool {
    ||| component_class(a) < component_class(b)
    ||| (component_class(a) == 3 && component_class(b) == 3 && lex_lt(a, b, char_order()))
}

/// [`component_lt`] as a relation value.
pub open spec fn component_order() -> spec_fn(Seq<char>, Seq<char>) -> bool {
    |a: Seq<char>, b: Seq<char>| component_lt(a, b)
}

/// Path `a` sorts strictly before path `b`: their components compared in
/// dictionary order.
pub open spec fn path_lt(a: Seq<char>, b: Seq<char>) -> bool {
    lex_lt(path_key(a), path_key(b), component_order())
}

proof fn lemma_char_order_strict_total()
    ensures
        is_strict_total(char_order()),
{
    let lt = char_order();
    assert forall|x: char, y: char| x != y implies #[trigger] lt(x, y) || #[trigger] lt(y, x) by {
        assert((x as int) != (y as int));
    }
}

/// Components are strictly and totally ordered.
proof fn lemma_component_order_strict_total()
    ensures
        is_strict_total(component_order()),
{
    let lt = component_order();
    lemma_char_order_strict_total();
    assert forall|x: Seq<char>| !#[trigger] lt(x, x) by {
        lemma_lex_irreflexive(x, char_order());
    }
    assert forall|x: Seq<char>, y: Seq<char>, z: Seq<char>| #[trigger] lt(x, y) && #[trigger] lt(y, z) implies lt(x, z) by {
        if component_class(x) == 3 && component_class(y) == 3 && component_class(z) == 3 {
            lemma_lex_transitive(x, y, z, char_order());
        }
    }
    assert forall|x: Seq<char>, y: Seq<char>| x != y implies #[trigger] lt(x, y) || #[trigger] lt(y, x) by {
        if component_class(x) == 3 && component_class(y) == 3 {
            lemma_lex_total(x, y, char_order());
        }
    }
}

/// "Not after" in path order is a total preorder on paths: any two paths
/// can be ordered, transitively. Paths with the same components are tied.
pub proof fn lemma_path_order_total_preorder()
    ensures
        is_total_preorder(|a: Seq<char>, b: Seq<char>| !path_lt(b, a)),
{
    let le = |a: Seq<char>, b: Seq<char>| !path_lt(b, a);
    let lt = component_order();
    lemma_component_order_strict_total();
    assert forall|x: Seq<char>, y: Seq<char>| #[trigger] le(x, y) || le(y, x) by {
        if path_key(x) == path_key(y) {
            lemma_lex_irreflexive(path_key(x), lt);
        } else if path_lt(x, y) && path_lt(y, x) {
            lemma_lex_transitive(path_key(x), path_key(y), path_key(x), lt);
            lemma_lex_irreflexive(path_key(x), lt);
        }
    }
    assert forall|x: Seq<char>, y: Seq<char>, z: Seq<char>| #[trigger] le(x, y) && #[trigger] le(y, z) implies le(x, z) by {
        if path_lt(z, x) {
            if path_key(x) != path_key(y) {
                lemma_lex_total(path_key(x), path_key(y), lt);
                lemma_lex_transitive(path_key(z), path_key(x), path_key(y), lt);
            }
        }
    }
}

/// Whether `a` sorts strictly before `b`, character by character.
fn chars_less(a: &str, b: &str) -> (r: bool)
    ensures
        r == lex_lt(a@, b@, char_order()),
{
    let n = a.unicode_len();
    let m = b.unicode_len();
    let mut i: usize = 0;
    while i < n && i < m
        invariant
            i <= n,
            i <= m,
            n == a@.len(),
            m == b@.len(),
            a@.take(i as int) == b@.take(i as int),
        decreases n - i,
    {
        let x = a.get_char(i);
        let y = b.get_char(i);
        if x != y {
            proof {
                lemma_lex_skip(a@, b@, i as int, char_order());
                assert(a@.skip(i as int)[0] == x && b@.skip(i as int)[0] == y);
            }
            return (x as u32) < (y as u32);
        }
        assert(a@.take(i + 1) =~= a@.take(i as int).push(x));
        assert(b@.take(i + 1) =~= b@.take(i as int).push(y));
        i = i + 1;
    }
    proof {
        lemma_lex_skip(a@, b@, i as int, char_order());
    }
    n < m
}

/// The kind of a component, as [`component_class`] ranks it.
fn component_rank(c: &str) -> (r: u8)
    ensures
        r as int == component_class(c@),
{
    proof {
        reveal_strlit("/");
        reveal_strlit(".");
        reveal_strlit("..");
        assert("/"@ =~= seq!['/']);
        assert("."@ =~= seq!['.']);
        assert(".."@ =~= seq!['.', '.']);
    }
    if str_eq(c, "/") {
        0
    } else if str_eq(c, ".") {
        1
    } else if str_eq(c, "..") {
        2
    } else {
        3
    }
}

/// Whether component `a` sorts strictly before component `b`.
fn component_less(a: &str, b: &str) -> (r: bool)
    ensures
        r == component_lt(a@, b@),
{
    let ra = component_rank(a);
    let rb = component_rank(b);
    if ra != rb {
        ra < rb
    } else if ra == 3 {
        chars_less(a, b)
    } else {
        false
    }
}

/// Whether the component list `a` sorts strictly before `b`.
pub fn components_less(a: &Vec<String>, b: &Vec<String>) -> (r: bool)
    ensures
        r == lex_lt(views(a@), views(b@), component_order()),
{
    let n = a.len();
    let m = b.len();
    let ghost va = views(a@);
    let ghost vb = views(b@);
    let mut i: usize = 0;
    while i < n && i < m
        invariant
            i <= n,
            i <= m,
            n == a@.len(),
            m == b@.len(),
            va == views(a@),
            vb == views(b@),
            va.take(i as int) == vb.take(i as int),
        decreases n - i,
    {
        let x = a[i].as_str();
        let y = b[i].as_str();
        assert(va[i as int] == a@[i as int]@ && vb[i as int] == b@[i as int]@);
        if !str_eq(x, y) {
            proof {
                lemma_lex_skip(va, vb, i as int, component_order());
                assert(va.skip(i as int)[0] == x@ && vb.skip(i as int)[0] == y@);
            }
            return component_less(x, y);
        }
        assert(va.take(i + 1) =~= va.take(i as int).push(x@));
        assert(vb.take(i + 1) =~= vb.take(i as int).push(y@));
        i = i + 1;
    }
    proof {
        lemma_lex_skip(va, vb, i as int, component_order());
    }
    n < m
}

/// The components by which `p` is ordered.
pub fn path_order_key(p: &str) -> (r: Vec<String>)
    ensures
        views(r@) == path_key(p@),
{
    let comps = split_components(p);
    let lead: Option<&str> = if path_is_absolute(p) {
        Some("/")
    } else if path_has_cur_dir(p) {
        Some(".")
    } else {
        None
    };
    match lead {
        None => comps,
        Some(m) => {
            let ghost mark: Seq<char> = if is_absolute(p@) {
                seq!['/']
            } else {
                seq!['.']
            };
            proof {
                reveal_strlit("/");
                reveal_strlit(".");
                assert("/"@ =~= seq!['/']);
                assert("."@ =~= seq!['.']);
            }
            assert(m@ == mark);
            let mut r: Vec<String> = Vec::new();
            r.push(String::from_str(m));
            let mut i: usize = 0;
            assert(views(r@) =~= seq![mark] + views(comps@).take(0));
            while i < comps.len()
                invariant
                    i <= comps@.len(),
                    views(r@) == seq![mark] + views(comps@).take(i as int),
                decreases comps.len() - i,
            {
                let c = comps[i].clone();
                let ghost before = r@;
                r.push(c);
                assert(views(comps@)[i as int] == c@);
                assert(r@ == before.push(c));
                assert(views(r@) =~= views(before).push(c@));
                assert(views(comps@).take(i + 1) =~= views(comps@).take(i as int).push(c@));
                assert(views(r@) =~= seq![mark] + views(comps@).take(i + 1));
                i = i + 1;
            }
            assert(views(comps@).take(comps@.len() as int) =~= views(comps@));
            r
        },
    }
}

/// Whether path `a` sorts strictly before path `b`, as `std::path::Path`
/// orders them.
pub fn path_less(a: &str, b: &str) -> (r: bool)
    ensures
        r == path_lt(a@, b@),
{
    let ka = path_order_key(a);
    let kb = path_order_key(b);
    components_less(&ka, &kb)
}


// ---------------------------------------------------------------------------
// Extending a directory path
// ---------------------------------------------------------------------------

/// A path text that can be extended by a component: empty, the root `/`,
/// or text that does not end in a separator.
pub open spec fn extendable(p: Seq<char>) -> bool {
    p.len() == 0 || p == seq!['/'] || p.last() != '/'
}

/// A component that may follow the path `parent`: a normal component without
/// separators, or, after the empty path, a root or current-directory marker.
pub open spec fn may_follow(parent: Seq<char>, c: Seq<char>) -> bool {
    ||| (is_normal(c) && forall|j: int| 0 <= j < c.len() ==> c[j] != '/')
    ||| (parent.len() == 0 && (c == seq!['/'] || c == seq!['.']))
}

proof fn lemma_segments_plain(c: Seq<char>)
    requires
        forall|j: int| 0 <= j < c.len() ==> c[j] != '/',
    ensures
        segments(c) == seq![c],
{
    lemma_segments_append_plain(Seq::<char>::empty(), c);
    assert(Seq::<char>::empty() + c =~= c);
    assert(segments(Seq::<char>::empty()) == seq![Seq::<char>::empty()]);
    assert(seq![Seq::<char>::empty()].update(0, Seq::<char>::empty() + c) =~= seq![c]);
}

/// The path of entry `c` of directory `parent`.
pub fn child_path(parent: &str, c: &str) -> (r: String)
    requires
        extendable(parent@),
        may_follow(parent@, c@),
    ensures
        path_key(r@) == path_key(parent@).push(c@),
        extendable(r@),
{
    let ghost pred = normal_segment();
    proof {
        reveal_with_fuel(Seq::filter, 2);
        reveal_with_fuel(segments, 2);
        assert(segments(Seq::<char>::empty()) == seq![Seq::<char>::empty()]);
        assert(seq![Seq::<char>::empty()].drop_last() =~= Seq::<Seq<char>>::empty());
        assert(components(Seq::<char>::empty()) =~= Seq::<Seq<char>>::empty());
        assert(path_key(Seq::<char>::empty()) =~= Seq::<Seq<char>>::empty());
    }
    let n = parent.unicode_len();
    if n == 0 {
        let r = String::from_str(c);
        proof {
            if c@ == seq!['/'] {
                lemma_join_components(true, Seq::empty());
                assert(join_components(true, Seq::<Seq<char>>::empty()) == seq!['/']);
                assert(path_key(c@) =~= seq![seq!['/']]);
            } else if c@ == seq!['.'] {
                lemma_dot_joined(Seq::empty());
                assert(dot_joined(Seq::<Seq<char>>::empty()) == seq!['.']);
                assert(path_key(c@) =~= seq![seq!['.']]);
            } else {
                lemma_segments_plain(c@);
                assert(seq![c@].drop_last() =~= Seq::<Seq<char>>::empty());
                assert(components(c@) =~= seq![c@]);
                if c@[0] == '.' && c@.len() == 1 {
                    assert(c@ =~= seq!['.']);
                }
                assert(!has_cur_dir(c@));
                assert(path_key(c@) =~= seq![c@]);
            }
            assert(Seq::<Seq<char>>::empty().push(c@) =~= seq![c@]);
        }
        return r;
    }
    if n == 1 && parent.get_char(0) == '/' {
        let mut r = String::from_str("/");
        r.append(c);
        proof {
            reveal_strlit("/");
            assert(parent@ =~= seq!['/']);
            assert(r@ =~= seq!['/'] + c@);
            lemma_join_components(true, seq![c@]);
            assert(join_components(true, seq![c@]) == seq!['/'] + c@);
            lemma_join_components(true, Seq::empty());
            assert(join_components(true, Seq::<Seq<char>>::empty()) == seq!['/']);
            assert(path_key(parent@) =~= seq![seq!['/']]);
            assert(path_key(r@) =~= seq![seq!['/'], c@]);
        }
        return r;
    }
    let mut r = String::from_str(parent);
    r.push('/');
    r.append(c);
    proof {
        let a = parent@;
        assert(r@ =~= a.push('/') + c@);
        lemma_segments_concat(a, c@);
        lemma_segments_plain(c@);
        Seq::filter_distributes_over_add(segments(a), seq![c@], pred);
        reveal_with_fuel(Seq::filter, 2);
        assert(seq![c@].drop_last() =~= Seq::<Seq<char>>::empty());
        assert(seq![c@].filter(pred) =~= seq![c@]);
        assert(components(r@) =~= components(a).push(c@));
        assert(r@[0] == a[0]);
        if a.len() >= 2 {
            assert(r@[1] == a[1]);
        } else {
            assert(r@[1] == '/');
        }
        assert(is_absolute(r@) == is_absolute(a));
        assert(has_cur_dir(r@) == has_cur_dir(a));
        if is_absolute(a) {
            assert(path_key(r@) =~= path_key(a).push(c@));
        } else if has_cur_dir(a) {
            assert(path_key(r@) =~= path_key(a).push(c@));
        } else {
            assert(path_key(r@) =~= path_key(a).push(c@));
        }
        assert(r@.last() == c@.last());
    }
    r
}
/// The empty path has no components.
pub proof fn lemma_path_key_empty()
    ensures
        path_key(Seq::<char>::empty()) == Seq::<Seq<char>>::empty(),
        extendable(Seq::<char>::empty()),
{
    reveal_with_fuel(Seq::filter, 2);
    assert(segments(Seq::<char>::empty()) == seq![Seq::<char>::empty()]);
    assert(seq![Seq::<char>::empty()].drop_last() =~= Seq::<Seq<char>>::empty());
    assert(components(Seq::<char>::empty()) =~= Seq::<Seq<char>>::empty());
}

/// Each component of a path's key is a normal component without separators,
/// except the first, which may be the root or current-directory marker.
pub proof fn lemma_key_component(p: Seq<char>, k: int)
    requires
        0 <= k < path_key(p).len(),
    ensures
        (is_normal(path_key(p)[k]) && forall|j: int| 0 <= j < path_key(p)[k].len() ==> path_key(p)[k][j] != '/')
            || (k == 0 && (path_key(p)[k] == seq!['/'] || path_key(p)[k] == seq!['.'])),
{
    lemma_components_plain(p);
    let cs = components(p);
    if is_absolute(p) || has_cur_dir(p) {
        if k > 0 {
            let lead = if is_absolute(p) { seq![seq!['/']] } else { seq![seq!['.']] };
            assert(path_key(p) == lead + cs);
            assert(path_key(p)[k] == cs[k - 1]);
        }
    } else {
        assert(path_key(p)[k] == cs[k]);
    }
}

} // verus!
