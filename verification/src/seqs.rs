//! Lemmas about sequences that are mapped and then flattened.

use vstd::prelude::*;

verus! {

/// Each element replaced by a sequence, and the sequences joined.
pub open spec fn flat_map<A, B>(s: Seq<A>, f: spec_fn(A) -> Seq<B>) -> Seq<B> {
    s.map_values(f).flatten()
}

pub proof fn lemma_flat_map_empty<A, B>(f: spec_fn(A) -> Seq<B>)
    ensures
        flat_map(Seq::<A>::empty(), f) == Seq::<B>::empty(),
{
    assert(Seq::<A>::empty().map_values(f) =~= Seq::<Seq<B>>::empty());
}

pub proof fn lemma_flat_map_push<A, B>(s: Seq<A>, x: A, f: spec_fn(A) -> Seq<B>)
    ensures
        flat_map(s.push(x), f) == flat_map(s, f) + f(x),
{
    assert(s.push(x).map_values(f) =~= s.map_values(f).push(f(x)));
    s.map_values(f).lemma_flatten_push(f(x));
}

pub proof fn lemma_flat_map_concat<A, B>(a: Seq<A>, b: Seq<A>, f: spec_fn(A) -> Seq<B>)
    ensures
        flat_map(a + b, f) == flat_map(a, f) + flat_map(b, f),
{
    assert((a + b).map_values(f) =~= a.map_values(f) + b.map_values(f));
    vstd::seq_lib::lemma_flatten_concat(a.map_values(f), b.map_values(f));
}

/// Mapping and flattening a prefix that is one element longer.
pub proof fn lemma_flat_map_take<A, B>(s: Seq<A>, i: int, f: spec_fn(A) -> Seq<B>)
    requires
        0 <= i < s.len(),
    ensures
        flat_map(s.take(i + 1), f) == flat_map(s.take(i), f) + f(s[i]),
        flat_map(s.take(i + 1), f).len() <= flat_map(s, f).len(),
{
    assert(s.take(i + 1) =~= s.take(i).push(s[i]));
    lemma_flat_map_push(s.take(i), s[i], f);
    assert(s =~= s.take(i + 1) + s.skip(i + 1));
    lemma_flat_map_concat(s.take(i + 1), s.skip(i + 1), f);
}

/// What one element maps to is part of what the whole sequence maps to.
pub proof fn lemma_flat_map_contains<A, B>(s: Seq<A>, i: int, f: spec_fn(A) -> Seq<B>)
    requires
        0 <= i < s.len(),
    ensures
        forall|k: int| 0 <= k < f(s[i]).len() ==> flat_map(s, f).contains(#[trigger] f(s[i])[k]),
{
    lemma_flat_map_take(s, i, f);
    assert(s =~= s.take(i + 1) + s.skip(i + 1));
    lemma_flat_map_concat(s.take(i + 1), s.skip(i + 1), f);
    let before = flat_map(s.take(i), f).len();
    assert forall|k: int| 0 <= k < f(s[i]).len() implies flat_map(s, f).contains(
        #[trigger] f(s[i])[k],
    ) by {
        assert(flat_map(s, f)[before + k] == f(s[i])[k]);
    }
}

} // verus!
