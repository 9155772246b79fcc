//! Facts about mapped and filtered sequences, as loops over rows need them.

use vstd::prelude::*;

verus! {

/// What one more row adds to a filtered view of the rows before it.
pub proof fn lemma_filter_step<A, B>(
    v: Seq<A>,
    i: int,
    f: spec_fn(A) -> B,
    keep: spec_fn(B) -> bool,
)
    requires
        0 <= i < v.len(),
    ensures
        v.take(i + 1).map_values(f).filter(keep) == if keep(f(v[i])) {
            v.take(i).map_values(f).filter(keep).push(f(v[i]))
        } else {
            v.take(i).map_values(f).filter(keep)
        },
{
    assert(v.take(i + 1) =~= v.take(i).push(v[i]));
    assert(v.take(i + 1).map_values(f) =~= v.take(i).map_values(f).push(f(v[i])));
    v.take(i).map_values(f).lemma_filter_push(f(v[i]), keep);
}

/// What one more row adds to a mapped view of the rows before it.
pub proof fn lemma_map_step<A, B>(v: Seq<A>, i: int, f: spec_fn(A) -> B)
    requires
        0 <= i < v.len(),
    ensures
        v.take(i + 1).map_values(f) == v.take(i).map_values(f).push(f(v[i])),
{
    assert(v.take(i + 1) =~= v.take(i).push(v[i]));
    assert(v.take(i + 1).map_values(f) =~= v.take(i).map_values(f).push(f(v[i])));
}

/// Mapping after a push is a push after mapping.
pub proof fn lemma_map_push<A, B>(v: Seq<A>, x: A, f: spec_fn(A) -> B)
    ensures
        v.push(x).map_values(f) == v.map_values(f).push(f(x)),
{
    assert(v.push(x).map_values(f) =~= v.map_values(f).push(f(x)));
}

/// Nothing is kept of no rows.
pub proof fn lemma_filter_none<A, B>(v: Seq<A>, f: spec_fn(A) -> B, keep: spec_fn(B) -> bool)
    ensures
        v.take(0).map_values(f).filter(keep) == Seq::<B>::empty(),
{
    reveal(Seq::filter);
    assert(v.take(0).map_values(f) =~= Seq::<B>::empty());
}

/// A filter that every row passes keeps the rows as they are.
pub proof fn lemma_filter_keeps_all<A>(s: Seq<A>, keep: spec_fn(A) -> bool)
    requires
        forall|i: int| 0 <= i < s.len() ==> keep(#[trigger] s[i]),
    ensures
        s.filter(keep) == s,
    decreases s.len(),
{
    reveal(Seq::filter);
    if s.len() > 0 {
        let head = s.drop_last();
        assert forall|i: int| 0 <= i < head.len() implies keep(#[trigger] head[i]) by {
            assert(head[i] == s[i]);
        }
        lemma_filter_keeps_all(head, keep);
        assert(head.push(s.last()) =~= s);
    }
}

/// A filter that no row passes keeps nothing.
pub proof fn lemma_filter_keeps_none<A>(s: Seq<A>, keep: spec_fn(A) -> bool)
    requires
        forall|i: int| 0 <= i < s.len() ==> !keep(#[trigger] s[i]),
    ensures
        s.filter(keep) == Seq::<A>::empty(),
    decreases s.len(),
{
    reveal(Seq::filter);
    if s.len() > 0 {
        let head = s.drop_last();
        assert forall|i: int| 0 <= i < head.len() implies !keep(#[trigger] head[i]) by {
            assert(head[i] == s[i]);
        }
        lemma_filter_keeps_none(head, keep);
    }
}

/// What a filter keeps passes it and stood in the input, and every row of
/// the input that passes it is kept.
pub proof fn lemma_filter_members<A>(s: Seq<A>, keep: spec_fn(A) -> bool)
    ensures
        forall|i: int| 0 <= i < s.filter(keep).len() ==> keep(#[trigger] s.filter(keep)[i]),
        forall|i: int|
            0 <= i < s.filter(keep).len() ==> s.contains(#[trigger] s.filter(keep)[i]),
        forall|i: int| 0 <= i < s.len() && keep(s[i]) ==> s.filter(keep).contains(#[trigger] s[i]),
    decreases s.len(),
{
    reveal(Seq::filter);
    if s.len() > 0 {
        let head = s.drop_last();
        let out = s.filter(keep);
        let before = head.filter(keep);
        lemma_filter_members(head, keep);
        assert forall|i: int| 0 <= i < out.len() implies keep(#[trigger] out[i]) && s.contains(
            out[i],
        ) by {
            if i < before.len() {
                assert(out[i] == before[i]);
                let j = choose|j: int| 0 <= j < head.len() && head[j] == before[i];
                assert(s[j] == out[i]);
            } else {
                assert(out[i] == s.last());
                assert(s[s.len() - 1] == out[i]);
            }
        }
        assert forall|i: int| 0 <= i < s.len() && keep(s[i]) implies out.contains(
            #[trigger] s[i],
        ) by {
            if i < head.len() {
                assert(head[i] == s[i]);
                let j = choose|j: int| 0 <= j < before.len() && before[j] == head[i];
                assert(out[j] == s[i]);
            } else {
                assert(out[out.len() - 1] == s[i]);
            }
        }
    }
}

/// Filtering a second time changes nothing.
pub proof fn lemma_filter_twice<A>(s: Seq<A>, keep: spec_fn(A) -> bool)
    ensures
        s.filter(keep).filter(keep) == s.filter(keep),
{
    lemma_filter_members(s, keep);
    lemma_filter_keeps_all(s.filter(keep), keep);
}

} // verus!
