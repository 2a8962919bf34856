//! Facts about sequences that the systems' loops rest on.

use vstd::prelude::*;

verus! {

/// The one element of `made`, or none.
pub open spec fn optional<B>(made: Option<B>) -> Seq<B> {
    match made {
        Some(b) => seq![b],
        None => Seq::empty(),
    }
}

/// Mapping and filtering one element more appends what that element gives.
pub proof fn lemma_filter_map_step<A, B>(s: Seq<A>, f: spec_fn(A) -> Option<B>, k: int)
    requires
        0 <= k < s.len(),
    ensures
        s.take(k + 1).filter_map(f) == s.take(k).filter_map(f) + optional(f(s[k])),
{
    assert(s.take(k + 1).drop_last() =~= s.take(k));
    assert(s.take(k + 1).last() == s[k]);
}

/// Filtering one element more appends that element where it passes.
pub proof fn lemma_filter_step<A>(s: Seq<A>, p: spec_fn(A) -> bool, k: int)
    requires
        0 <= k < s.len(),
    ensures
        s.take(k + 1).filter(p) == if p(s[k]) {
            s.take(k).filter(p).push(s[k])
        } else {
            s.take(k).filter(p)
        },
{
    reveal(Seq::filter);
    assert(s.take(k + 1).drop_last() =~= s.take(k));
    assert(s.take(k + 1).last() == s[k]);
}

/// Nothing passes a filter of the empty sequence.
pub proof fn lemma_filter_empty<A>(p: spec_fn(A) -> bool)
    ensures
        Seq::<A>::empty().filter(p) == Seq::<A>::empty(),
{
    reveal(Seq::filter);
}

/// What a filter lets pass is an element of the sequence, and passes.
pub proof fn lemma_filtered_is_member<A>(s: Seq<A>, p: spec_fn(A) -> bool, j: int)
    requires
        0 <= j < s.filter(p).len(),
    ensures
        s.contains(s.filter(p)[j]),
        p(s.filter(p)[j]),
{
    s.lemma_filter_pred(p, j);
    let elem = s.filter(p)[j];
    assert(s.filter(p).contains(elem));
    s.lemma_filter_contains_rev(p, elem);
}

/// Whether the keys of the elements grow along the sequence.
pub open spec fn grows<A>(s: Seq<A>, key: spec_fn(A) -> u64) -> bool {
    forall|i: int, j: int| 0 <= i < j < s.len() ==> key(#[trigger] s[i]) < key(#[trigger] s[j])
}

/// What a filter leaves of a sequence whose keys grow has keys that grow.
pub proof fn lemma_filter_keeps_growth<A>(
    s: Seq<A>,
    key: spec_fn(A) -> u64,
    p: spec_fn(A) -> bool,
)
    requires
        grows(s, key),
    ensures
        grows(s.filter(p), key),
    decreases s.len(),
{
    reveal(Seq::filter);
    if s.len() > 0 {
        let rest = s.drop_last();
        assert forall|i: int, j: int| 0 <= i < j < rest.len() implies key(#[trigger] rest[i])
            < key(#[trigger] rest[j]) by {
            assert(rest[i] == s[i] && rest[j] == s[j]);
        }
        lemma_filter_keeps_growth(rest, key, p);
        let kept = rest.filter(p);
        if p(s.last()) {
            assert forall|a: int| 0 <= a < kept.len() implies key(#[trigger] kept[a]) < key(
                s.last(),
            ) by {
                lemma_filtered_is_member(rest, p, a);
                let k = choose|k: int| 0 <= k < rest.len() && rest[k] == kept[a];
                assert(key(s[k]) < key(s[s.len() - 1]));
            }
        }
    }
}

/// A filter on what a mapping gives is the mapping of a filter: where `p`
/// lets pass what `q` lets pass after `f`, filtering before or after `f`
/// comes to the same.
pub proof fn lemma_filter_through_map<A, B>(
    s: Seq<A>,
    f: spec_fn(A) -> B,
    p: spec_fn(A) -> bool,
    q: spec_fn(B) -> bool,
)
    requires
        forall|a: A| #[trigger] p(a) == q(f(a)),
    ensures
        s.filter(p).map_values(f) == s.map_values(f).filter(q),
    decreases s.len(),
{
    reveal(Seq::filter);
    if s.len() == 0 {
        assert(s.filter(p).map_values(f) =~= s.map_values(f).filter(q));
    } else {
        let rest = s.drop_last();
        lemma_filter_through_map(rest, f, p, q);
        assert(s.map_values(f).drop_last() =~= rest.map_values(f));
        assert(s.map_values(f).last() == f(s.last()));
        assert(p(s.last()) == q(f(s.last())));
        assert(s.filter(p).map_values(f) =~= s.map_values(f).filter(q));
    }
}

} // verus!
