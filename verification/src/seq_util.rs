//! Facts about sequences used by the loops of the library.

use vstd::prelude::*;

verus! {

/// Filtering one more element of a prefix.
pub proof fn lemma_filter_take_step<A>(s: Seq<A>, i: int, p: spec_fn(A) -> bool)
    requires
        0 <= i < s.len(),
    ensures
        s.take(i + 1).filter(p) == if p(s[i]) {
            s.take(i).filter(p).push(s[i])
        } else {
            s.take(i).filter(p)
        },
{
    reveal(Seq::filter);
    assert(s.take(i + 1).drop_last() =~= s.take(i));
}

/// Filtering the empty prefix.
pub proof fn lemma_filter_take_zero<A>(s: Seq<A>, p: spec_fn(A) -> bool)
    ensures
        s.take(0).filter(p) == Seq::<A>::empty(),
{
    reveal(Seq::filter);
    assert(s.take(0) =~= Seq::<A>::empty());
}

/// Filtering keeps a sequence whole when every element passes.
pub proof fn lemma_filter_keeps_all<A>(s: Seq<A>, p: spec_fn(A) -> bool)
    requires
        forall|i: int| 0 <= i < s.len() ==> p(#[trigger] s[i]),
    ensures
        s.filter(p) == s,
    decreases s.len(),
{
    reveal(Seq::filter);
    if s.len() > 0 {
        lemma_filter_keeps_all(s.drop_last(), p);
        assert(p(s[s.len() - 1]));
        assert(s.drop_last().push(s.last()) =~= s);
    }
}

/// Filtering keeps the order of what it keeps: a relation that holds of
/// every earlier-later pair of a sequence holds of every such pair of the
/// filtered sequence.
pub proof fn lemma_filter_keeps_order<A>(s: Seq<A>, p: spec_fn(A) -> bool, lt: spec_fn(A, A) -> bool)
    requires
        forall|i: int, j: int| 0 <= i < j < s.len() ==> lt(#[trigger] s[i], #[trigger] s[j]),
    ensures
        forall|i: int, j: int|
            0 <= i < j < s.filter(p).len() ==> lt(#[trigger] s.filter(p)[i], #[trigger] s.filter(p)[j]),
    decreases s.len(),
{
    reveal(Seq::filter);
    if s.len() > 0 {
        let init = s.drop_last();
        lemma_filter_keeps_order(init, p, lt);
        let f = init.filter(p);
        if p(s.last()) {
            assert forall|i: int, j: int| 0 <= i < j < f.push(s.last()).len() implies lt(
                #[trigger] f.push(s.last())[i],
                #[trigger] f.push(s.last())[j],
            ) by {
                if j == f.len() {
                    assert(f.contains(f[i]));
                    init.lemma_filter_contains_rev(p, f[i]);
                    let m = choose|m: int| 0 <= m < init.len() && init[m] == f[i];
                    assert(s[m] == f[i]);
                    assert(lt(s[m], s[s.len() - 1]));
                } else {
                    assert(f.push(s.last())[i] == f[i] && f.push(s.last())[j] == f[j]);
                }
            }
        }
    }
}

/// Filtering, then mapping, is mapping-and-filtering.
pub proof fn lemma_filter_then_map<A, B>(s: Seq<A>, p: spec_fn(A) -> bool, g: spec_fn(A) -> B)
    ensures
        s.filter(p).map_values(g) == s.filter_map(
            |x: A|
                if p(x) {
                    Some(g(x))
                } else {
                    None
                },
        ),
    decreases s.len(),
{
    reveal(Seq::filter);
    let h = |x: A|
        if p(x) {
            Some(g(x))
        } else {
            None
        };
    if s.len() == 0 {
        assert(s.filter(p).map_values(g) =~= Seq::<B>::empty());
    } else {
        lemma_filter_then_map(s.drop_last(), p, g);
        let init = s.drop_last().filter(p);
        if p(s.last()) {
            assert(init.push(s.last()).map_values(g) =~= init.map_values(g) + seq![g(s.last())]);
        }
    }
}

/// Mapping-and-filtering twice is mapping-and-filtering once with the two
/// steps composed (`f12`).
pub proof fn lemma_filter_map_twice<A, B, C>(
    s: Seq<A>,
    f1: spec_fn(A) -> Option<B>,
    f2: spec_fn(B) -> Option<C>,
    f12: spec_fn(A) -> Option<C>,
)
    requires
        forall|x: A|
            #[trigger] f12(x) == match f1(x) {
                Some(y) => f2(y),
                None => None,
            },
    ensures
        s.filter_map(f1).filter_map(f2) == s.filter_map(f12),
    decreases s.len(),
{
    if s.len() > 0 {
        lemma_filter_map_twice(s.drop_last(), f1, f2, f12);
        let rest = s.drop_last().filter_map(f1);
        assert(f12(s.last()) == match f1(s.last()) {
            Some(y) => f2(y),
            None => None,
        });
        match f1(s.last()) {
            Some(y) => {
                let t = rest + seq![y];
                assert(t.drop_last() =~= rest);
                assert(t.last() == y);
            },
            None => {},
        }
    }
}

/// Two filters commute.
pub proof fn lemma_filter_commute<A>(s: Seq<A>, p: spec_fn(A) -> bool, q: spec_fn(A) -> bool)
    ensures
        s.filter(p).filter(q) == s.filter(q).filter(p),
    decreases s.len(),
{
    reveal(Seq::filter);
    if s.len() > 0 {
        lemma_filter_commute(s.drop_last(), p, q);
        let x = s.last();
        let a = s.drop_last().filter(p);
        let b = s.drop_last().filter(q);
        if p(x) {
            assert(a.push(x).drop_last() =~= a);
        }
        if q(x) {
            assert(b.push(x).drop_last() =~= b);
        }
        if p(x) && q(x) {
            assert(a.filter(q).push(x).drop_last() =~= a.filter(q));
            assert(b.filter(p).push(x).drop_last() =~= b.filter(p));
        }
    }
}

/// Some element of a filtered sequence satisfies `q` exactly when some
/// element of the sequence satisfies both the filter's predicate and `q`.
pub proof fn lemma_filter_exists<A>(s: Seq<A>, p: spec_fn(A) -> bool, q: spec_fn(A) -> bool)
    ensures
        (exists|j: int| 0 <= j < s.filter(p).len() && q(#[trigger] s.filter(p)[j])) <==> (exists|
            j: int,
        |
            0 <= j < s.len() && p(#[trigger] s[j]) && q(s[j])),
{
    broadcast use Seq::lemma_filter_contains_rev, Seq::lemma_filter_contains, Seq::lemma_filter_pred;

    let f = s.filter(p);
    if exists|j: int| 0 <= j < f.len() && q(#[trigger] f[j]) {
        let j = choose|j: int| 0 <= j < f.len() && q(#[trigger] f[j]);
        assert(f.contains(f[j]));
        let k = choose|k: int| 0 <= k < s.len() && s[k] == f[j];
        assert(p(s[k]) && q(s[k]));
    }
    if exists|j: int| 0 <= j < s.len() && p(#[trigger] s[j]) && q(s[j]) {
        let j = choose|j: int| 0 <= j < s.len() && p(#[trigger] s[j]) && q(s[j]);
        assert(f.contains(s[j]));
        let k = choose|k: int| 0 <= k < f.len() && f[k] == s[j];
        assert(q(f[k]));
    }
}

/// `xs` is an order-preserving sub-list of `ys` up to `rel`: its elements
/// stand, in order, in `rel` to elements of `ys` at increasing positions.
pub open spec fn sublist_by<A, B>(xs: Seq<A>, ys: Seq<B>, rel: spec_fn(A, B) -> bool) -> bool {
    exists|idx: Seq<int>|
        #![trigger idx.len()]
        idx.len() == xs.len() && (forall|i: int|
            0 <= i < idx.len() ==> 0 <= #[trigger] idx[i] < ys.len() && rel(xs[i], ys[idx[i]]))
            && (forall|i: int, j: int| 0 <= i < j < idx.len() ==> #[trigger] idx[i] < #[trigger] idx[j])
}

/// When every element that the second step keeps is kept by the first
/// step too, as something `rel` relates it to, mapping-and-filtering with
/// the second step gives an order-preserving sub-list of the first.
pub proof fn lemma_filter_map_sublist<A, B>(
    s: Seq<A>,
    f1: spec_fn(A) -> Option<B>,
    f2: spec_fn(A) -> Option<B>,
    rel: spec_fn(B, B) -> bool,
)
    requires
        forall|x: A|
            (#[trigger] f2(x)) is Some ==> f1(x) is Some && rel(f2(x)->0, f1(x)->0),
    ensures
        sublist_by(s.filter_map(f2), s.filter_map(f1), rel),
    decreases s.len(),
{
    if s.len() == 0 {
        let idx = Seq::<int>::empty();
        assert(idx.len() == s.filter_map(f2).len());
    } else {
        lemma_filter_map_sublist(s.drop_last(), f1, f2, rel);
        let r1 = s.drop_last().filter_map(f1);
        let r2 = s.drop_last().filter_map(f2);
        let idx0 = choose|idx: Seq<int>|
            #![trigger idx.len()]
            idx.len() == r2.len() && (forall|i: int|
                0 <= i < idx.len() ==> 0 <= #[trigger] idx[i] < r1.len() && rel(r2[i], r1[idx[i]]))
                && (forall|i: int, j: int|
                0 <= i < j < idx.len() ==> #[trigger] idx[i] < #[trigger] idx[j]);
        let x = s.last();
        let t1 = s.filter_map(f1);
        let t2 = s.filter_map(f2);
        if f2(x) is Some {
            let idx = idx0.push(r1.len() as int);
            assert(t1 == r1 + seq![f1(x)->0]);
            assert(t2 == r2 + seq![f2(x)->0]);
            assert(idx.len() == t2.len());
            assert forall|i: int| 0 <= i < idx.len() implies 0 <= #[trigger] idx[i] < t1.len() && rel(
                t2[i],
                t1[idx[i]],
            ) by {
                if i < idx0.len() {
                    assert(idx[i] == idx0[i]);
                }
            }
            assert forall|i: int, j: int| 0 <= i < j < idx.len() implies #[trigger] idx[i]
                < #[trigger] idx[j] by {
                if j < idx0.len() {
                    assert(idx[i] == idx0[i] && idx[j] == idx0[j]);
                } else {
                    assert(idx[i] == idx0[i]);
                }
            }
        } else {
            assert(t2 == r2);
            if f1(x) is Some {
                assert(t1 == r1 + seq![f1(x)->0]);
                assert forall|i: int| 0 <= i < idx0.len() implies 0 <= #[trigger] idx0[i] < t1.len()
                    && rel(t2[i], t1[idx0[i]]) by {
                    assert(t1[idx0[i]] == r1[idx0[i]]);
                }
            }
            assert(idx0.len() == t2.len());
        }
    }
}

/// A filtered sequence is an order-preserving sub-list of the sequence.
pub proof fn lemma_filter_sublist<A>(s: Seq<A>, p: spec_fn(A) -> bool)
    ensures
        sublist_by(s.filter(p), s, |x: A, y: A| x == y),
    decreases s.len(),
{
    reveal(Seq::filter);
    let eq = |x: A, y: A| x == y;
    if s.len() == 0 {
        let idx = Seq::<int>::empty();
        assert(idx.len() == s.filter(p).len());
    } else {
        lemma_filter_sublist(s.drop_last(), p);
        let r = s.drop_last().filter(p);
        let idx0 = choose|idx: Seq<int>|
            #![trigger idx.len()]
            idx.len() == r.len() && (forall|i: int|
                0 <= i < idx.len() ==> 0 <= #[trigger] idx[i] < s.drop_last().len() && eq(
                    r[i],
                    s.drop_last()[idx[i]],
                )) && (forall|i: int, j: int|
                0 <= i < j < idx.len() ==> #[trigger] idx[i] < #[trigger] idx[j]);
        assert forall|i: int| 0 <= i < idx0.len() implies 0 <= #[trigger] idx0[i] < s.len() && eq(
            r[i],
            s[idx0[i]],
        ) by {
            assert(s[idx0[i]] == s.drop_last()[idx0[i]]);
        }
        if p(s.last()) {
            let idx = idx0.push(s.len() - 1);
            let t = r.push(s.last());
            assert(idx.len() == t.len());
            assert forall|i: int| 0 <= i < idx.len() implies 0 <= #[trigger] idx[i] < s.len() && eq(
                t[i],
                s[idx[i]],
            ) by {
                if i < idx0.len() {
                    assert(idx[i] == idx0[i]);
                }
            }
            assert forall|i: int, j: int| 0 <= i < j < idx.len() implies #[trigger] idx[i]
                < #[trigger] idx[j] by {
                if j < idx0.len() {
                    assert(idx[i] == idx0[i] && idx[j] == idx0[j]);
                } else {
                    assert(idx[i] == idx0[i]);
                }
            }
        } else {
            assert(idx0.len() == s.filter(p).len());
        }
    }
}

/// What a sequence with one more element contains.
pub proof fn lemma_contains_push<A>(s: Seq<A>, a: A, x: A)
    ensures
        s.push(a).contains(x) <==> (s.contains(x) || x == a),
{
    if s.contains(x) {
        let i = choose|i: int| 0 <= i < s.len() && s[i] == x;
        assert(s.push(a)[i] == x);
    }
    if x == a {
        assert(s.push(a)[s.len() as int] == x);
    }
    if s.push(a).contains(x) {
        let i = choose|i: int| 0 <= i < s.push(a).len() && s.push(a)[i] == x;
        if i < s.len() {
            assert(s[i] == x);
        }
    }
}

/// Mapping-and-filtering one more element of a prefix.
pub proof fn lemma_filter_map_take_step<A, B>(s: Seq<A>, i: int, f: spec_fn(A) -> Option<B>)
    requires
        0 <= i < s.len(),
    ensures
        s.take(i + 1).filter_map(f) == match f(s[i]) {
            Some(b) => s.take(i).filter_map(f).push(b),
            None => s.take(i).filter_map(f),
        },
{
    assert(s.take(i + 1).drop_last() =~= s.take(i));
    assert(s.take(i + 1).last() == s[i]);
    match f(s[i]) {
        Some(b) => {
            assert(s.take(i).filter_map(f) + seq![b] =~= s.take(i).filter_map(f).push(b));
        },
        None => {},
    }
}

/// Mapping-and-filtering the empty prefix.
pub proof fn lemma_filter_map_take_zero<A, B>(s: Seq<A>, f: spec_fn(A) -> Option<B>)
    ensures
        s.take(0).filter_map(f) == Seq::<B>::empty(),
{
    assert(s.take(0) =~= Seq::<A>::empty());
}

/// The sequences joined end to end.
pub open spec fn concat_seqs<A>(parts: Seq<Seq<A>>) -> Seq<A>
    decreases parts.len(),
{
    if parts.len() == 0 {
        Seq::empty()
    } else {
        concat_seqs(parts.drop_last()) + parts.last()
    }
}

/// Joining one more part of a prefix.
pub proof fn lemma_concat_seqs_take_step<A>(parts: Seq<Seq<A>>, i: int)
    requires
        0 <= i < parts.len(),
    ensures
        concat_seqs(parts.take(i + 1)) == concat_seqs(parts.take(i)) + parts[i],
{
    assert(parts.take(i + 1).drop_last() =~= parts.take(i));
}

/// Joining the empty prefix.
pub proof fn lemma_concat_seqs_take_zero<A>(parts: Seq<Seq<A>>)
    ensures
        concat_seqs(parts.take(0)) == Seq::<A>::empty(),
{
    assert(parts.take(0) =~= Seq::<Seq<A>>::empty());
}

/// `t` runs in `s` from index `i`.
pub open spec fn runs_at<A>(s: Seq<A>, t: Seq<A>, i: int) -> bool {
    0 <= i && i + t.len() <= s.len() && s.subrange(i, i + t.len()) == t
}

/// A sequence runs at the start of itself followed by another.
pub proof fn lemma_runs_left<A>(a: Seq<A>, b: Seq<A>)
    ensures
        runs_at(a + b, a, 0),
{
    assert((a + b).subrange(0, a.len() as int) =~= a);
}

/// A sequence runs right after the sequence it follows.
pub proof fn lemma_runs_right<A>(a: Seq<A>, b: Seq<A>)
    ensures
        runs_at(a + b, b, a.len() as int),
{
    assert((a + b).subrange(a.len() as int, (a.len() + b.len()) as int) =~= b);
}

/// What runs in a part of a sequence runs in the sequence.
pub proof fn lemma_runs_trans<A>(s: Seq<A>, t: Seq<A>, u: Seq<A>, i: int, j: int)
    requires
        runs_at(s, t, i),
        runs_at(t, u, j),
    ensures
        runs_at(s, u, i + j),
{
    assert(s.subrange(i + j, i + j + u.len()) =~= t.subrange(j, j + u.len()));
}

/// Each part runs in the parts joined end to end, right after the parts
/// before it.
pub proof fn lemma_concat_seqs_part<A>(parts: Seq<Seq<A>>, i: int)
    requires
        0 <= i < parts.len(),
    ensures
        runs_at(concat_seqs(parts), parts[i], concat_seqs(parts.take(i)).len() as int),
    decreases parts.len(),
{
    let init = parts.drop_last();
    let a = concat_seqs(init);
    if i == parts.len() - 1 {
        assert(parts.take(i) =~= init);
        lemma_runs_right(a, parts.last());
    } else {
        lemma_concat_seqs_part(init, i);
        assert(init.take(i) =~= parts.take(i));
        lemma_runs_left(a, parts.last());
        lemma_runs_trans(a + parts.last(), a, parts[i], 0, concat_seqs(parts.take(i)).len() as int);
    }
}

} // verus!
