//! Facts about sequences that the proofs of the rules lean on.

use vstd::prelude::*;

verus! {

/// Appending four sequences one by one appends their concatenation.
pub proof fn lemma_joined<A>(s: Seq<A>, a: Seq<A>, b: Seq<A>, c: Seq<A>, d: Seq<A>)
    ensures
        s + a + b + c + d == s + (a + b + c + d),
{
}

/// Membership in a concatenation of two sequences.
pub proof fn lemma_contains_add<A>(a: Seq<A>, b: Seq<A>, v: A)
    ensures
        (a + b).contains(v) <==> a.contains(v) || b.contains(v),
{
    if a.contains(v) {
        let i = choose|i: int| 0 <= i < a.len() && a[i] == v;
        assert((a + b)[i] == v);
    }
    if b.contains(v) {
        let i = choose|i: int| 0 <= i < b.len() && b[i] == v;
        assert((a + b)[a.len() + i] == v);
    }
    if (a + b).contains(v) {
        let i = choose|i: int| 0 <= i < (a + b).len() && (a + b)[i] == v;
        if i < a.len() {
            assert(a[i] == v);
        } else {
            assert(b[i - a.len()] == v);
        }
    }
}

/// Membership in a concatenation of four sequences.
pub proof fn lemma_contains_joined<A>(a: Seq<A>, b: Seq<A>, c: Seq<A>, d: Seq<A>, v: A)
    ensures
        (a + b + c + d).contains(v) <==> a.contains(v) || b.contains(v) || c.contains(v)
            || d.contains(v),
{
    lemma_contains_add(a, b, v);
    lemma_contains_add(a + b, c, v);
    lemma_contains_add(a + b + c, d, v);
}

/// Filtering keeps a sequence whose elements all pass.
pub proof fn lemma_filter_all<A>(s: Seq<A>, p: spec_fn(A) -> bool)
    requires
        forall|i: int| 0 <= i < s.len() ==> p(#[trigger] s[i]),
    ensures
        s.filter(p) == s,
    decreases s.len(),
{
    reveal(Seq::filter);
    if s.len() > 0 {
        lemma_filter_all(s.drop_last(), p);
        assert(s.drop_last().push(s.last()) =~= s);
    }
}

/// Filtering empties a sequence none of whose elements pass.
pub proof fn lemma_filter_none<A>(s: Seq<A>, p: spec_fn(A) -> bool)
    requires
        forall|i: int| 0 <= i < s.len() ==> !p(#[trigger] s[i]),
    ensures
        s.filter(p) == Seq::<A>::empty(),
    decreases s.len(),
{
    reveal(Seq::filter);
    if s.len() > 0 {
        lemma_filter_none(s.drop_last(), p);
    }
}

/// Filtering a sequence with one more element.
pub proof fn lemma_filter_push<A>(s: Seq<A>, a: A, p: spec_fn(A) -> bool)
    ensures
        s.push(a).filter(p) == if p(a) {
            s.filter(p).push(a)
        } else {
            s.filter(p)
        },
{
    reveal(Seq::filter);
    assert(s.push(a).drop_last() =~= s);
}

} // verus!
