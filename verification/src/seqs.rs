//! Facts about sequences that the rest of the crate builds on.

use vstd::prelude::*;

verus! {

/// The value at the first position of `s` where `f` gives one.
pub open spec fn first_some<A, B>(s: Seq<A>, f: spec_fn(A) -> Option<B>) -> Option<B>
    decreases s.len(),
{
    if s.len() == 0 {
        None
    } else {
        match f(s[0]) {
            Some(b) => Some(b),
            None => first_some(s.drop_first(), f),
        }
    }
}

/// What `f` gives for `x`, as a sequence of at most one item.
pub open spec fn maybe<A, B>(x: A, f: spec_fn(A) -> Option<B>) -> Seq<B> {
    match f(x) {
        Some(b) => seq![b],
        None => Seq::empty(),
    }
}

/// `filter_map` taken apart at the front of the sequence.
pub proof fn lemma_filter_map_prepend<A, B>(x: A, rest: Seq<A>, f: spec_fn(A) -> Option<B>)
    ensures
        (seq![x] + rest).filter_map(f) == maybe(x, f) + rest.filter_map(f),
    decreases rest.len(),
{
    let all = seq![x] + rest;
    if rest.len() == 0 {
        assert(all =~= seq![x]);
        Seq::lemma_filter_map_singleton(x, f);
        assert(maybe(x, f) + rest.filter_map(f) =~= maybe(x, f));
    } else {
        assert(all.drop_last() =~= seq![x] + rest.drop_last());
        assert(all.last() == rest.last());
        lemma_filter_map_prepend(x, rest.drop_last(), f);
        assert(all.filter_map(f) =~= maybe(x, f) + rest.filter_map(f));
    }
}

/// [`first_some`] finds nothing exactly when `f` gives nothing anywhere.
pub proof fn lemma_first_some_none<A, B>(s: Seq<A>, f: spec_fn(A) -> Option<B>)
    ensures
        first_some(s, f) is None <==> forall|i: int| 0 <= i < s.len() ==> f(#[trigger] s[i]) is None,
    decreases s.len(),
{
    if s.len() > 0 {
        lemma_first_some_none(s.drop_first(), f);
        if first_some(s, f) is None {
            assert forall|i: int| 0 <= i < s.len() implies f(#[trigger] s[i]) is None by {
                if i > 0 {
                    assert(s.drop_first()[i - 1] == s[i]);
                }
            }
        } else if f(s[0]) is None {
            let j = choose|j: int|
                0 <= j < s.drop_first().len() && !(f(#[trigger] s.drop_first()[j]) is None);
            assert(s[j + 1] == s.drop_first()[j]);
        }
    }
}

/// [`first_some`] over two sequences put together: what the first gives, or
/// else what the second gives.
pub proof fn lemma_first_some_add<A, B>(a: Seq<A>, b: Seq<A>, f: spec_fn(A) -> Option<B>)
    ensures
        first_some(a + b, f) == match first_some(a, f) {
            Some(v) => Some(v),
            None => first_some(b, f),
        },
    decreases a.len(),
{
    if a.len() == 0 {
        assert(a + b =~= b);
    } else {
        assert((a + b).drop_first() =~= a.drop_first() + b);
        lemma_first_some_add(a.drop_first(), b, f);
    }
}

/// [`first_some`] after a prefix in which `f` gives nothing is
/// [`first_some`] of what is left.
pub proof fn lemma_first_some_skip<A, B>(s: Seq<A>, f: spec_fn(A) -> Option<B>, i: int)
    requires
        0 <= i <= s.len(),
        first_some(s.take(i), f) is None,
    ensures
        first_some(s, f) == first_some(s.skip(i), f),
{
    assert(s =~= s.take(i) + s.skip(i));
    lemma_first_some_add(s.take(i), s.skip(i), f);
}

/// [`first_some`] of a prefix one longer.
pub proof fn lemma_first_some_take_succ<A, B>(s: Seq<A>, f: spec_fn(A) -> Option<B>, i: int)
    requires
        0 <= i < s.len(),
    ensures
        first_some(s.take(i + 1), f) == match first_some(s.take(i), f) {
            Some(v) => Some(v),
            None => f(s[i]),
        },
{
    assert(s.take(i + 1) =~= s.take(i) + seq![s[i]]);
    lemma_first_some_add(s.take(i), seq![s[i]], f);
    reveal_with_fuel(first_some, 2);
    assert(seq![s[i]].drop_first() =~= Seq::<A>::empty());
}

/// Where `f` gives nothing before position `i` and something at it, that
/// is what [`first_some`] finds.
pub proof fn lemma_first_some_found<A, B>(s: Seq<A>, f: spec_fn(A) -> Option<B>, i: int)
    requires
        0 <= i < s.len(),
        first_some(s.take(i), f) is None,
        f(s[i]) is Some,
    ensures
        first_some(s, f) == f(s[i]),
{
    lemma_first_some_skip(s, f, i);
    assert(s.skip(i)[0] == s[i]);
}

/// What [`first_some`] finds is what `f` gives at some position, before
/// which it gives nothing.
pub proof fn lemma_first_some_witness<A, B>(s: Seq<A>, f: spec_fn(A) -> Option<B>) -> (i: int)
    requires
        first_some(s, f) is Some,
    ensures
        0 <= i < s.len(),
        f(s[i]) == first_some(s, f),
        forall|j: int| 0 <= j < i ==> f(#[trigger] s[j]) is None,
    decreases s.len(),
{
    if f(s[0]) is Some {
        0
    } else {
        let k = lemma_first_some_witness(s.drop_first(), f);
        assert(s.drop_first()[k] == s[k + 1]);
        assert forall|j: int| 0 <= j < k + 1 implies f(#[trigger] s[j]) is None by {
            if j > 0 {
                assert(s.drop_first()[j - 1] == s[j]);
            }
        }
        k + 1
    }
}

/// Two functions that give the same at every position of a sequence lead
/// [`first_some`] to the same.
pub proof fn lemma_first_some_same<A, B>(
    s: Seq<A>,
    f: spec_fn(A) -> Option<B>,
    g: spec_fn(A) -> Option<B>,
)
    requires
        forall|i: int| 0 <= i < s.len() ==> f(#[trigger] s[i]) == g(s[i]),
    ensures
        first_some(s, f) == first_some(s, g),
    decreases s.len(),
{
    if s.len() > 0 {
        assert(f(s[0]) == g(s[0]));
        assert forall|i: int| 0 <= i < s.drop_first().len() implies f(
            #[trigger] s.drop_first()[i],
        ) == g(s.drop_first()[i]) by {
            assert(s.drop_first()[i] == s[i + 1]);
        }
        lemma_first_some_same(s.drop_first(), f, g);
    }
}

/// Every item of every part is an item of the parts put together.
pub proof fn lemma_flatten_contains<A>(parts: Seq<Seq<A>>, k: int, t: int)
    requires
        0 <= k < parts.len(),
        0 <= t < parts[k].len(),
    ensures
        parts.flatten().contains(parts[k][t]),
    decreases parts.len(),
{
    let rest = parts.drop_first().flatten();
    if k == 0 {
        assert(parts.flatten()[t] == parts[0][t]);
    } else {
        lemma_flatten_contains(parts.drop_first(), k - 1, t);
        let at = choose|at: int| 0 <= at < rest.len() && rest[at] == parts[k][t];
        assert(parts.flatten()[parts[0].len() + at] == parts[k][t]);
    }
}

/// Where `f` gives nothing in the whole sequence, [`first_some`] finds
/// nothing.
pub proof fn lemma_first_some_exhausted<A, B>(s: Seq<A>, f: spec_fn(A) -> Option<B>)
    requires
        first_some(s.take(s.len() as int), f) is None,
    ensures
        first_some(s, f) is None,
{
    assert(s.take(s.len() as int) =~= s);
}

} // verus!
