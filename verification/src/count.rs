use vstd::prelude::*;

verus! {

/// Number of elements of `s` that satisfy `p`.
pub open spec fn count_if<A>(s: Seq<A>, p: spec_fn(A) -> bool) -> int
    decreases s.len(),
{
    if s.len() == 0 {
        0
    } else {
        count_if(s.drop_last(), p) + if p(s.last()) {
            1int
        } else {
            0int
        }
    }
}

/// Replacing the element at `i` adjusts the count by the indicators of the
/// old and new elements.
pub proof fn lemma_count_if_update<A>(s: Seq<A>, i: int, a: A, p: spec_fn(A) -> bool)
    requires
        0 <= i < s.len(),
    ensures
        count_if(s.update(i, a), p) == count_if(s, p) - (if p(s[i]) {
            1int
        } else {
            0int
        }) + (if p(a) {
            1int
        } else {
            0int
        }),
    decreases s.len(),
{
    let t = s.update(i, a);
    if i == s.len() - 1 {
        assert(t.drop_last() =~= s.drop_last());
        assert(t.last() == a);
    } else {
        assert(t.drop_last() =~= s.drop_last().update(i, a));
        assert(t.last() == s.last());
        lemma_count_if_update(s.drop_last(), i, a, p);
    }
}

/// If every element satisfying `p` also satisfies `q`, `p`'s count is at
/// most `q`'s.
pub proof fn lemma_count_if_le<A>(s: Seq<A>, p: spec_fn(A) -> bool, q: spec_fn(A) -> bool)
    requires
        forall|i: int| 0 <= i < s.len() && p(#[trigger] s[i]) ==> q(s[i]),
    ensures
        count_if(s, p) <= count_if(s, q),
    decreases s.len(),
{
    if s.len() > 0 {
        assert(forall|i: int|
            0 <= i < s.drop_last().len() && p(#[trigger] s.drop_last()[i]) ==> q(s.drop_last()[i]));
        lemma_count_if_le(s.drop_last(), p, q);
    }
}

/// Elementwise equivalent predicates have equal counts.
pub proof fn lemma_count_if_equiv<A>(s: Seq<A>, p: spec_fn(A) -> bool, q: spec_fn(A) -> bool)
    requires
        forall|i: int| 0 <= i < s.len() ==> (p(#[trigger] s[i]) <==> q(s[i])),
    ensures
        count_if(s, p) == count_if(s, q),
    decreases s.len(),
{
    if s.len() > 0 {
        assert(forall|i: int|
            0 <= i < s.drop_last().len() ==> (p(#[trigger] s.drop_last()[i]) <==> q(
                s.drop_last()[i],
            )));
        lemma_count_if_equiv(s.drop_last(), p, q);
    }
}

/// Counts of a predicate over two sequences that agree elementwise on the
/// predicate are equal.
pub proof fn lemma_count_if_pointwise<A>(s1: Seq<A>, s2: Seq<A>, p: spec_fn(A) -> bool)
    requires
        s1.len() == s2.len(),
        forall|i: int| 0 <= i < s1.len() ==> (p(#[trigger] s1[i]) <==> p(#[trigger] s2[i])),
    ensures
        count_if(s1, p) == count_if(s2, p),
    decreases s1.len(),
{
    if s1.len() > 0 {
        assert(forall|i: int|
            0 <= i < s1.drop_last().len() ==> (p(#[trigger] s1.drop_last()[i]) <==> p(
                #[trigger] s2.drop_last()[i],
            )));
        lemma_count_if_pointwise(s1.drop_last(), s2.drop_last(), p);
    }
}

/// Elementwise complementary predicates split the length of the sequence.
pub proof fn lemma_count_if_complement<A>(s: Seq<A>, p: spec_fn(A) -> bool, q: spec_fn(A) -> bool)
    requires
        forall|i: int| 0 <= i < s.len() ==> (q(#[trigger] s[i]) <==> !p(s[i])),
    ensures
        count_if(s, p) + count_if(s, q) == s.len(),
    decreases s.len(),
{
    if s.len() > 0 {
        assert(forall|i: int|
            0 <= i < s.drop_last().len() ==> (q(#[trigger] s.drop_last()[i]) <==> !p(
                s.drop_last()[i],
            )));
        lemma_count_if_complement(s.drop_last(), p, q);
    }
}

/// A predicate that no element satisfies counts zero.
pub proof fn lemma_count_if_zero<A>(s: Seq<A>, p: spec_fn(A) -> bool)
    requires
        forall|i: int| 0 <= i < s.len() ==> !p(#[trigger] s[i]),
    ensures
        count_if(s, p) == 0,
    decreases s.len(),
{
    if s.len() > 0 {
        assert(forall|i: int| 0 <= i < s.drop_last().len() ==> !p(#[trigger] s.drop_last()[i]));
        lemma_count_if_zero(s.drop_last(), p);
    }
}

} // verus!
