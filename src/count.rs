//! Counting the elements of a sequence that satisfy a predicate.

use vstd::prelude::*;

verus! {

/// The number of elements of `s` that satisfy `p`.
pub open spec fn count_where<A>(s: Seq<A>, p: spec_fn(A) -> bool) -> nat
    decreases s.len(),
{
    if s.len() == 0 {
        0
    } else {
        count_where(s.drop_last(), p) + if p(s.last()) {
            1nat
        } else {
            0nat
        }
    }
}

pub open spec fn one_if(b: bool) -> nat {
    if b {
        1
    } else {
        0
    }
}

pub proof fn lemma_count_push<A>(s: Seq<A>, p: spec_fn(A) -> bool, a: A)
    ensures
        count_where(s.push(a), p) == count_where(s, p) + one_if(p(a)),
{
    assert(s.push(a).drop_last() =~= s);
}

pub proof fn lemma_count_update<A>(s: Seq<A>, p: spec_fn(A) -> bool, i: int, a: A)
    requires
        0 <= i < s.len(),
    ensures
        count_where(s.update(i, a), p) + one_if(p(s[i])) == count_where(s, p) + one_if(p(a)),
    decreases s.len(),
{
    if i == s.len() - 1 {
        assert(s.update(i, a).drop_last() =~= s.drop_last());
    } else {
        lemma_count_update(s.drop_last(), p, i, a);
        assert(s.update(i, a).drop_last() =~= s.drop_last().update(i, a));
    }
}

pub proof fn lemma_count_zero<A>(s: Seq<A>, p: spec_fn(A) -> bool)
    ensures
        count_where(s, p) == 0 <==> forall|i: int| 0 <= i < s.len() ==> !p(#[trigger] s[i]),
    decreases s.len(),
{
    if s.len() > 0 {
        lemma_count_zero(s.drop_last(), p);
        if count_where(s, p) == 0 {
            assert forall|i: int| 0 <= i < s.len() implies !p(#[trigger] s[i]) by {
                if i < s.len() - 1 {
                    assert(s[i] == s.drop_last()[i]);
                }
            }
        }
        if forall|i: int| 0 <= i < s.len() ==> !p(#[trigger] s[i]) {
            assert forall|i: int| 0 <= i < s.len() - 1 implies !p(#[trigger] s.drop_last()[i]) by {
                assert(s[i] == s.drop_last()[i]);
            }
            assert(!p(s[s.len() - 1]));
        }
    }
}

} // verus!
