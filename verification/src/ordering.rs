//! Stable ordering of records by a numeric rank, ascending or descending.
//!
//! The order is the one a stable sort produces: records are ordered by rank,
//! and records of equal rank keep the order in which they came.
use vstd::prelude::*;

verus! {

broadcast use vstd::seq_lib::group_seq_properties;

/// A record that carries a numeric rank to be ordered by.
pub trait Ranked: Sized {
    spec fn rank(&self) -> int;

    fn rank_value(&self) -> (r: u64)
        ensures
            r as int == self.rank(),
    ;
}

/// `a` may stand before `b` in the chosen direction.
pub open spec fn goes_before(a: int, b: int, descending: bool) -> bool {
    if descending {
        a >= b
    } else {
        a <= b
    }
}

/// The position at which `x` enters the ordered sequence `s`: after every
/// record that may stand before it.
pub open spec fn insert_pos<T: Ranked>(s: Seq<T>, x: T, descending: bool) -> int
    decreases s.len(),
{
    if s.len() == 0 {
        0
    } else if goes_before(s.last().rank(), x.rank(), descending) {
        s.len() as int
    } else {
        insert_pos(s.drop_last(), x, descending)
    }
}

/// The stable ordering of `s` by rank.
pub open spec fn sort_ranked<T: Ranked>(s: Seq<T>, descending: bool) -> Seq<T>
    decreases s.len(),
{
    if s.len() == 0 {
        s
    } else {
        let prev = sort_ranked(s.drop_last(), descending);
        prev.insert(insert_pos(prev, s.last(), descending), s.last())
    }
}

/// `s` is ordered by rank in the chosen direction.
pub open spec fn is_ranked<T: Ranked>(s: Seq<T>, descending: bool) -> bool {
    forall|i: int, j: int| 0 <= i < j < s.len() ==> goes_before(s[i].rank(), s[j].rank(), descending)
}

/// The records of `s` whose rank is `k`, in order.
pub open spec fn with_rank<T: Ranked>(s: Seq<T>, k: int) -> Seq<T> {
    s.filter(rank_is::<T>(k))
}

/// The predicate "has rank `k`".
pub open spec fn rank_is<T: Ranked>(k: int) -> spec_fn(T) -> bool {
    |x: T| x.rank() == k
}

proof fn lemma_insert_pos<T: Ranked>(s: Seq<T>, x: T, descending: bool)
    ensures
        0 <= insert_pos(s, x, descending) <= s.len(),
        insert_pos(s, x, descending) > 0 ==> goes_before(
            s[insert_pos(s, x, descending) - 1].rank(),
            x.rank(),
            descending,
        ),
        forall|j: int|
            insert_pos(s, x, descending) <= j < s.len() ==> !goes_before(
                #[trigger] s[j].rank(),
                x.rank(),
                descending,
            ),
    decreases s.len(),
{
    if s.len() > 0 && !goes_before(s.last().rank(), x.rank(), descending) {
        lemma_insert_pos(s.drop_last(), x, descending);
        let p = insert_pos(s, x, descending);
        assert forall|j: int| p <= j < s.len() implies !goes_before(
            #[trigger] s[j].rank(),
            x.rank(),
            descending,
        ) by {
            if j < s.len() - 1 {
                assert(s[j] == s.drop_last()[j]);
            }
        }
        if p > 0 {
            assert(s[p - 1] == s.drop_last()[p - 1]);
        }
    }
}

/// Inserting at a position that fits the scan from the back is the ordered insertion.
proof fn lemma_insert_pos_unique<T: Ranked>(s: Seq<T>, x: T, descending: bool, p: int)
    requires
        0 <= p <= s.len(),
        p > 0 ==> goes_before(s[p - 1].rank(), x.rank(), descending),
        forall|j: int| p <= j < s.len() ==> !goes_before(#[trigger] s[j].rank(), x.rank(), descending),
    ensures
        insert_pos(s, x, descending) == p,
    decreases s.len(),
{
    if s.len() > 0 {
        if p == s.len() {
        } else {
            assert(!goes_before(s[s.len() - 1].rank(), x.rank(), descending));
            assert forall|j: int| p <= j < s.drop_last().len() implies !goes_before(
                #[trigger] s.drop_last()[j].rank(),
                x.rank(),
                descending,
            ) by {
                assert(s.drop_last()[j] == s[j]);
            }
            if p > 0 {
                assert(s.drop_last()[p - 1] == s[p - 1]);
            }
            lemma_insert_pos_unique(s.drop_last(), x, descending, p);
        }
    }
}

/// Stable insertion sort by rank.
pub fn sort_by_rank<T: Ranked>(v: Vec<T>, descending: bool) -> (r: Vec<T>)
    ensures
        r@ == sort_ranked(v@, descending),
{
    let ghost orig = v@;
    assert(orig.len() == v.len());
    let mut rest = v;
    let mut out: Vec<T> = Vec::new();
    let mut i: usize = 0;
    assert(orig.subrange(0, 0) =~= Seq::<T>::empty());
    while rest.len() > 0
        invariant
            i <= orig.len(),
            orig.len() <= usize::MAX,
            rest@ == orig.subrange(i as int, orig.len() as int),
            out@ == sort_ranked(orig.subrange(0, i as int), descending),
        decreases rest.len(),
    {
        assert(rest@.len() == orig.len() - i);
        assert(rest@[0] == orig[i as int]);
        let ghost before = rest@;
        let x = rest.remove(0);
        assert(rest@ =~= orig.subrange(i + 1, orig.len() as int));
        let key = x.rank_value();
        let mut p = out.len();
        while p > 0 && !goes_before_exec(out[p - 1].rank_value(), key, descending)
            invariant
                p <= out.len(),
                key as int == x.rank(),
                forall|j: int| p <= j < out.len() ==> !goes_before(#[trigger] out@[j].rank(), x.rank(), descending),
            decreases p,
        {
            p = p - 1;
        }
        proof {
            lemma_insert_pos_unique(out@, x, descending, p as int);
            let pre = orig.subrange(0, i as int);
            let post = orig.subrange(0, i + 1);
            assert(post.drop_last() =~= pre);
            assert(post.last() == x);
        }
        out.insert(p, x);
        i = i + 1;
    }
    assert(orig.subrange(0, orig.len() as int) =~= orig);
    out
}

/// Executable form of [`goes_before`].
pub fn goes_before_exec(a: u64, b: u64, descending: bool) -> (r: bool)
    ensures
        r == goes_before(a as int, b as int, descending),
{
    if descending {
        a >= b
    } else {
        a <= b
    }
}

/// The stable ordering is ordered by rank.
pub proof fn lemma_sort_ranked_is_ranked<T: Ranked>(s: Seq<T>, descending: bool)
    ensures
        is_ranked(sort_ranked(s, descending), descending),
        sort_ranked(s, descending).len() == s.len(),
    decreases s.len(),
{
    if s.len() > 0 {
        let prev = sort_ranked(s.drop_last(), descending);
        lemma_sort_ranked_is_ranked(s.drop_last(), descending);
        let x = s.last();
        let p = insert_pos(prev, x, descending);
        lemma_insert_pos(prev, x, descending);
        let r = prev.insert(p, x);
        assert(r == sort_ranked(s, descending));
        assert forall|i: int, j: int| 0 <= i < j < r.len() implies goes_before(
            r[i].rank(),
            r[j].rank(),
            descending,
        ) by {
            if j < p {
                assert(r[i] == prev[i] && r[j] == prev[j]);
            } else if j == p {
                assert(r[i] == prev[i]);
                if i < p - 1 {
                    assert(goes_before(prev[i].rank(), prev[p - 1].rank(), descending));
                }
            } else if i == p {
                assert(r[j] == prev[j - 1]);
                assert(!goes_before(prev[j - 1].rank(), x.rank(), descending));
            } else if i < p {
                assert(r[i] == prev[i] && r[j] == prev[j - 1]);
            } else {
                assert(r[i] == prev[i - 1] && r[j] == prev[j - 1]);
            }
        }
    }
}

/// The stable ordering holds the same records, each as often.
pub proof fn lemma_sort_ranked_permutes<T: Ranked>(s: Seq<T>, descending: bool)
    ensures
        sort_ranked(s, descending).to_multiset() == s.to_multiset(),
    decreases s.len(),
{
    broadcast use vstd::seq_lib::group_to_multiset_ensures;

    if s.len() > 0 {
        let prev = sort_ranked(s.drop_last(), descending);
        lemma_sort_ranked_permutes(s.drop_last(), descending);
        let x = s.last();
        let p = insert_pos(prev, x, descending);
        lemma_insert_pos(prev, x, descending);
        vstd::seq_lib::to_multiset_insert(prev, p, x);
        assert(s =~= s.drop_last().push(x));
    }
}

/// The stable ordering keeps records of equal rank in the order in which
/// they came.
pub proof fn lemma_sort_ranked_stable<T: Ranked>(s: Seq<T>, descending: bool, k: int)
    ensures
        with_rank(sort_ranked(s, descending), k) == with_rank(s, k),
    decreases s.len(),
{
    let pred = rank_is::<T>(k);
    if s.len() == 0 {
        reveal(Seq::filter);
    } else {
        let prev = sort_ranked(s.drop_last(), descending);
        lemma_sort_ranked_stable(s.drop_last(), descending, k);
        let x = s.last();
        let p = insert_pos(prev, x, descending);
        lemma_insert_pos(prev, x, descending);
        let r = prev.insert(p, x);
        assert(r =~= prev.subrange(0, p) + seq![x] + prev.subrange(p, prev.len() as int));
        assert(prev =~= prev.subrange(0, p) + prev.subrange(p, prev.len() as int));
        Seq::filter_distributes_over_add(prev.subrange(0, p) + seq![x], prev.subrange(p, prev.len() as int), pred);
        Seq::filter_distributes_over_add(prev.subrange(0, p), seq![x], pred);
        Seq::filter_distributes_over_add(prev.subrange(0, p), prev.subrange(p, prev.len() as int), pred);
        assert(s =~= s.drop_last().push(x));
        s.drop_last().lemma_filter_push(x, pred);
        reveal_with_fuel(Seq::filter, 2);
        assert(seq![x].drop_last() =~= Seq::<T>::empty());
        if x.rank() == k {
            let tail = prev.subrange(p, prev.len() as int);
            assert forall|j: int| 0 <= j < tail.len() implies !pred(#[trigger] tail[j]) by {
                assert(tail[j] == prev[p + j]);
                assert(!goes_before(prev[p + j].rank(), x.rank(), descending));
            }
            tail.lemma_all_neg_filter_empty(pred);
            assert(tail.filter(pred) =~= Seq::<T>::empty());
            assert(prev.subrange(0, p).filter(pred) + seq![x] + Seq::<T>::empty()
                =~= prev.subrange(0, p).filter(pred).push(x));
            assert(prev.subrange(0, p).filter(pred) + Seq::<T>::empty()
                =~= prev.subrange(0, p).filter(pred));
        } else {
            assert(seq![x].filter(pred) =~= Seq::<T>::empty());
            assert(prev.subrange(0, p).filter(pred) + Seq::<T>::empty()
                =~= prev.subrange(0, p).filter(pred));
        }
    }
}


// ---------------------------------------------------------------------------
// Stable ordering by a relation
// ---------------------------------------------------------------------------

/// `before` is a total preorder: any two records can be ordered, and the
/// order is transitive. Records that may each stand before the other are
/// tied.
pub open spec fn is_total_preorder<T>(before: spec_fn(T, T) -> bool) -> bool {
    &&& forall|x: T, y: T| #[trigger] before(x, y) || before(y, x)
    &&& forall|x: T, y: T, z: T| #[trigger] before(x, y) && #[trigger] before(y, z) ==> before(x, z)
}

/// The position at which `x` enters `s`: after the last record that may
/// stand before it.
pub open spec fn insert_pos_by<T>(s: Seq<T>, x: T, before: spec_fn(T, T) -> bool) -> int
    decreases s.len(),
{
    if s.len() == 0 {
        0
    } else if before(s.last(), x) {
        s.len() as int
    } else {
        insert_pos_by(s.drop_last(), x, before)
    }
}

/// The stable ordering of `s` by `before`: what a stable sort with the
/// matching comparator produces.
pub open spec fn sort_by_relation<T>(s: Seq<T>, before: spec_fn(T, T) -> bool) -> Seq<T>
    decreases s.len(),
{
    if s.len() == 0 {
        s
    } else {
        let prev = sort_by_relation(s.drop_last(), before);
        prev.insert(insert_pos_by(prev, s.last(), before), s.last())
    }
}

/// Every record of `s` may stand before every later one.
pub open spec fn is_sorted_by<T>(s: Seq<T>, before: spec_fn(T, T) -> bool) -> bool {
    forall|i: int, j: int| 0 <= i < j < s.len() ==> before(#[trigger] s[i], #[trigger] s[j])
}

/// The predicate "tied with `k`".
pub open spec fn tied_with<T>(before: spec_fn(T, T) -> bool, k: T) -> spec_fn(T) -> bool {
    |x: T| before(x, k) && before(k, x)
}

proof fn lemma_insert_pos_by<T>(s: Seq<T>, x: T, before: spec_fn(T, T) -> bool)
    ensures
        0 <= insert_pos_by(s, x, before) <= s.len(),
        insert_pos_by(s, x, before) > 0 ==> before(s[insert_pos_by(s, x, before) - 1], x),
        forall|j: int| insert_pos_by(s, x, before) <= j < s.len() ==> !before(#[trigger] s[j], x),
    decreases s.len(),
{
    if s.len() > 0 && !before(s.last(), x) {
        lemma_insert_pos_by(s.drop_last(), x, before);
        let p = insert_pos_by(s, x, before);
        assert forall|j: int| p <= j < s.len() implies !before(#[trigger] s[j], x) by {
            if j < s.len() - 1 {
                assert(s[j] == s.drop_last()[j]);
            }
        }
        if p > 0 {
            assert(s[p - 1] == s.drop_last()[p - 1]);
        }
    }
}

pub proof fn lemma_insert_pos_by_unique<T>(s: Seq<T>, x: T, before: spec_fn(T, T) -> bool, p: int)
    requires
        0 <= p <= s.len(),
        p > 0 ==> before(s[p - 1], x),
        forall|j: int| p <= j < s.len() ==> !before(#[trigger] s[j], x),
    ensures
        insert_pos_by(s, x, before) == p,
    decreases s.len(),
{
    if s.len() > 0 && p < s.len() {
        assert(!before(s[s.len() - 1], x));
        assert forall|j: int| p <= j < s.drop_last().len() implies !before(
            #[trigger] s.drop_last()[j],
            x,
        ) by {
            assert(s.drop_last()[j] == s[j]);
        }
        if p > 0 {
            assert(s.drop_last()[p - 1] == s[p - 1]);
        }
        lemma_insert_pos_by_unique(s.drop_last(), x, before, p);
    }
}

/// The stable ordering by a total preorder is sorted by it.
pub proof fn lemma_sort_by_relation_sorted<T>(s: Seq<T>, before: spec_fn(T, T) -> bool)
    requires
        is_total_preorder(before),
    ensures
        is_sorted_by(sort_by_relation(s, before), before),
        sort_by_relation(s, before).len() == s.len(),
    decreases s.len(),
{
    if s.len() > 0 {
        let prev = sort_by_relation(s.drop_last(), before);
        lemma_sort_by_relation_sorted(s.drop_last(), before);
        let x = s.last();
        let p = insert_pos_by(prev, x, before);
        lemma_insert_pos_by(prev, x, before);
        let r = prev.insert(p, x);
        assert forall|i: int, j: int| 0 <= i < j < r.len() implies before(
            #[trigger] r[i],
            #[trigger] r[j],
        ) by {
            if j < p {
                assert(r[i] == prev[i] && r[j] == prev[j]);
            } else if j == p {
                assert(r[i] == prev[i]);
                if i < p - 1 {
                    assert(before(prev[i], prev[p - 1]));
                }
            } else if i == p {
                assert(r[j] == prev[j - 1]);
                assert(!before(prev[j - 1], x));
                assert(before(prev[j - 1], x) || before(x, prev[j - 1]));
            } else if i < p {
                assert(r[i] == prev[i] && r[j] == prev[j - 1]);
            } else {
                assert(r[i] == prev[i - 1] && r[j] == prev[j - 1]);
            }
        }
    }
}

/// The stable ordering holds the same records, each as often.
pub proof fn lemma_sort_by_relation_permutes<T>(s: Seq<T>, before: spec_fn(T, T) -> bool)
    ensures
        sort_by_relation(s, before).to_multiset() == s.to_multiset(),
    decreases s.len(),
{
    broadcast use vstd::seq_lib::group_to_multiset_ensures;

    if s.len() > 0 {
        let prev = sort_by_relation(s.drop_last(), before);
        lemma_sort_by_relation_permutes(s.drop_last(), before);
        let x = s.last();
        let p = insert_pos_by(prev, x, before);
        lemma_insert_pos_by(prev, x, before);
        vstd::seq_lib::to_multiset_insert(prev, p, x);
        assert(s =~= s.drop_last().push(x));
    }
}

/// The stable ordering by a total preorder keeps tied records in the order
/// in which they came.
pub proof fn lemma_sort_by_relation_stable<T>(s: Seq<T>, before: spec_fn(T, T) -> bool, k: T)
    requires
        is_total_preorder(before),
    ensures
        sort_by_relation(s, before).filter(tied_with(before, k)) == s.filter(tied_with(before, k)),
    decreases s.len(),
{
    let pred = tied_with(before, k);
    if s.len() == 0 {
        reveal(Seq::filter);
    } else {
        let prev = sort_by_relation(s.drop_last(), before);
        lemma_sort_by_relation_stable(s.drop_last(), before, k);
        let x = s.last();
        let p = insert_pos_by(prev, x, before);
        lemma_insert_pos_by(prev, x, before);
        let r = prev.insert(p, x);
        assert(r =~= prev.subrange(0, p) + seq![x] + prev.subrange(p, prev.len() as int));
        assert(prev =~= prev.subrange(0, p) + prev.subrange(p, prev.len() as int));
        Seq::filter_distributes_over_add(prev.subrange(0, p) + seq![x], prev.subrange(p, prev.len() as int), pred);
        Seq::filter_distributes_over_add(prev.subrange(0, p), seq![x], pred);
        Seq::filter_distributes_over_add(prev.subrange(0, p), prev.subrange(p, prev.len() as int), pred);
        assert(s =~= s.drop_last().push(x));
        s.drop_last().lemma_filter_push(x, pred);
        reveal_with_fuel(Seq::filter, 2);
        assert(seq![x].drop_last() =~= Seq::<T>::empty());
        if pred(x) {
            let tail = prev.subrange(p, prev.len() as int);
            assert forall|j: int| 0 <= j < tail.len() implies !pred(#[trigger] tail[j]) by {
                assert(tail[j] == prev[p + j]);
                assert(!before(prev[p + j], x));
                if before(tail[j], k) {
                    assert(before(k, x));
                }
            }
            tail.lemma_all_neg_filter_empty(pred);
            assert(tail.filter(pred) =~= Seq::<T>::empty());
            assert(prev.subrange(0, p).filter(pred) + seq![x] + Seq::<T>::empty()
                =~= prev.subrange(0, p).filter(pred).push(x));
            assert(prev.subrange(0, p).filter(pred) + Seq::<T>::empty()
                =~= prev.subrange(0, p).filter(pred));
        } else {
            assert(seq![x].filter(pred) =~= Seq::<T>::empty());
            assert(prev.subrange(0, p).filter(pred) + Seq::<T>::empty()
                =~= prev.subrange(0, p).filter(pred));
        }
    }
}

// ---------------------------------------------------------------------------
// Lexicographic order
// ---------------------------------------------------------------------------

/// `lt` is a strict total order.
pub open spec fn is_strict_total<T>(lt: spec_fn(T, T) -> bool) -> bool {
    &&& forall|x: T| !#[trigger] lt(x, x)
    &&& forall|x: T, y: T, z: T| #[trigger] lt(x, y) && #[trigger] lt(y, z) ==> lt(x, z)
    &&& forall|x: T, y: T| x != y ==> #[trigger] lt(x, y) || #[trigger] lt(y, x)
}

/// `a` comes strictly before `b` in the dictionary order that `lt` induces
/// on sequences: at the first place they differ `a` holds the smaller
/// element, or `a` is a proper prefix of `b`.
pub open spec fn lex_lt<T>(a: Seq<T>, b: Seq<T>, lt: spec_fn(T, T) -> bool) -> bool
    decreases a.len(),
{
    if a.len() == 0 {
        b.len() > 0
    } else if b.len() == 0 {
        false
    } else if a[0] == b[0] {
        lex_lt(a.drop_first(), b.drop_first(), lt)
    } else {
        lt(a[0], b[0])
    }
}

/// The dictionary order is irreflexive.
pub proof fn lemma_lex_irreflexive<T>(a: Seq<T>, lt: spec_fn(T, T) -> bool)
    ensures
        !lex_lt(a, a, lt),
    decreases a.len(),
{
    if a.len() > 0 {
        lemma_lex_irreflexive(a.drop_first(), lt);
    }
}

/// The dictionary order is transitive.
pub proof fn lemma_lex_transitive<T>(a: Seq<T>, b: Seq<T>, c: Seq<T>, lt: spec_fn(T, T) -> bool)
    requires
        is_strict_total(lt),
        lex_lt(a, b, lt),
        lex_lt(b, c, lt),
    ensures
        lex_lt(a, c, lt),
    decreases a.len(),
{
    if a.len() > 0 {
        if a[0] == b[0] && b[0] == c[0] {
            lemma_lex_transitive(a.drop_first(), b.drop_first(), c.drop_first(), lt);
        } else if a[0] != b[0] && b[0] != c[0] {
            assert(lt(a[0], c[0]));
            if a[0] == c[0] {
                assert(!lt(a[0], a[0]));
            }
        }
    }
}

/// Two different sequences are ordered one way or the other.
pub proof fn lemma_lex_total<T>(a: Seq<T>, b: Seq<T>, lt: spec_fn(T, T) -> bool)
    requires
        is_strict_total(lt),
        a != b,
    ensures
        lex_lt(a, b, lt) || lex_lt(b, a, lt),
    decreases a.len(),
{
    if a.len() > 0 && b.len() > 0 {
        if a[0] == b[0] {
            assert(a =~= seq![a[0]] + a.drop_first());
            assert(b =~= seq![b[0]] + b.drop_first());
            lemma_lex_total(a.drop_first(), b.drop_first(), lt);
        } else {
            assert(lt(a[0], b[0]) || lt(b[0], a[0]));
        }
    } else if a.len() == 0 && b.len() == 0 {
        assert(a =~= b);
    }
}

/// After a common prefix of length `i`, the dictionary order is decided by
/// what follows it.
pub proof fn lemma_lex_skip<T>(a: Seq<T>, b: Seq<T>, i: int, lt: spec_fn(T, T) -> bool)
    requires
        0 <= i <= a.len(),
        i <= b.len(),
        a.take(i) == b.take(i),
    ensures
        lex_lt(a, b, lt) == lex_lt(a.skip(i), b.skip(i), lt),
    decreases i,
{
    if i > 0 {
        assert(a[0] == a.take(i)[0] && b[0] == b.take(i)[0]);
        assert(a.drop_first().take(i - 1) =~= a.take(i).drop_first());
        assert(b.drop_first().take(i - 1) =~= b.take(i).drop_first());
        assert(a.drop_first().skip(i - 1) =~= a.skip(i));
        assert(b.drop_first().skip(i - 1) =~= b.skip(i));
        lemma_lex_skip(a.drop_first(), b.drop_first(), i - 1, lt);
    } else {
        assert(a.skip(0) =~= a && b.skip(0) =~= b);
    }
}

} // verus!
