//! Counting the items of a sequence that have a property.

use vstd::prelude::*;

verus! {

/// Counting after mapping is counting by what the items are mapped to.
pub proof fn lemma_count_mapped<A, B>(
    s: Seq<A>,
    f: spec_fn(A) -> B,
    p: spec_fn(B) -> bool,
    q: spec_fn(A) -> bool,
)
    requires
        forall|a: A| #[trigger] q(a) == p(f(a)),
    ensures
        s.map_values(f).filter(p).len() == s.filter(q).len(),
    decreases s.len(),
{
    reveal(Seq::filter);
    if s.len() > 0 {
        lemma_count_mapped(s.drop_last(), f, p, q);
        assert(s.map_values(f).drop_last() =~= s.drop_last().map_values(f));
        assert(q(s.last()) == p(f(s.last())));
    }
}

/// Taking an item out takes it off the count.
proof fn lemma_count_without<A>(s: Seq<A>, p: spec_fn(A) -> bool, i: int)
    requires
        0 <= i < s.len(),
    ensures
        s.filter(p).len() == s.remove(i).filter(p).len() + if p(s[i]) {
            1nat
        } else {
            0
        },
    decreases s.len(),
{
    reveal(Seq::filter);
    let last = s.len() - 1;
    if i == last {
        assert(s.remove(i) =~= s.drop_last());
    } else {
        lemma_count_without(s.drop_last(), p, i);
        assert(s.remove(i).drop_last() =~= s.drop_last().remove(i));
        assert(s.remove(i).last() == s.last());
    }
}

/// Counting does not depend on the order.
pub proof fn lemma_count_ignores_order<A>(a: Seq<A>, b: Seq<A>, p: spec_fn(A) -> bool)
    requires
        a.to_multiset() == b.to_multiset(),
    ensures
        a.filter(p).len() == b.filter(p).len(),
    decreases a.len(),
{
    reveal(Seq::filter);
    a.to_multiset_ensures();
    b.to_multiset_ensures();
    if a.len() > 0 {
        let last = a.len() - 1;
        assert(a.to_multiset().count(a[last]) > 0);
        assert(b.contains(a[last]));
        let i = choose|i: int| 0 <= i < b.len() && b[i] == a[last];
        assert(a.remove(last) =~= a.drop_last());
        lemma_count_ignores_order(a.drop_last(), b.remove(i), p);
        lemma_count_without(b, p, i);
    }
}

/// Where the first `k` items have the property, at least `k` are counted, and where
/// no others have it, at most `k` are.
pub proof fn lemma_count_first<A>(s: Seq<A>, p: spec_fn(A) -> bool, k: int)
    requires
        0 <= k <= s.len(),
    ensures
        (forall|i: int| 0 <= i < k ==> p(#[trigger] s[i])) ==> s.filter(p).len() >= k,
        (forall|i: int| k <= i < s.len() ==> !p(#[trigger] s[i])) ==> s.filter(p).len() <= k,
    decreases s.len(),
{
    reveal(Seq::filter);
    s.lemma_filter_len(p);
    if k < s.len() {
        let t = s.drop_last();
        lemma_count_first(t, p, k);
        assert(forall|i: int| 0 <= i < t.len() ==> t[i] == s[i]);
        if forall|i: int| 0 <= i < k ==> p(#[trigger] s[i]) {
            assert forall|i: int| 0 <= i < k implies p(#[trigger] t[i]) by {
                assert(p(s[i]));
            }
        }
        if forall|i: int| k <= i < s.len() ==> !p(#[trigger] s[i]) {
            assert forall|i: int| k <= i < t.len() implies !p(#[trigger] t[i]) by {
                assert(!p(s[i]));
            }
            assert(!p(s[s.len() - 1]));
        }
    } else if s.len() > 0 {
        let t = s.drop_last();
        lemma_count_first(t, p, k - 1);
        if forall|i: int| 0 <= i < k ==> p(#[trigger] s[i]) {
            assert forall|i: int| 0 <= i < k - 1 implies p(#[trigger] t[i]) by {
                assert(p(s[i]));
            }
            assert(p(s[k - 1]));
        }
    }
}

/// Properties that agree on the items count the same.
pub proof fn lemma_count_same<A>(s: Seq<A>, p: spec_fn(A) -> bool, q: spec_fn(A) -> bool)
    requires
        forall|i: int| 0 <= i < s.len() ==> p(#[trigger] s[i]) == q(s[i]),
    ensures
        s.filter(p).len() == s.filter(q).len(),
    decreases s.len(),
{
    reveal(Seq::filter);
    if s.len() > 0 {
        let t = s.drop_last();
        assert forall|i: int| 0 <= i < t.len() implies p(#[trigger] t[i]) == q(t[i]) by {
            assert(p(s[i]) == q(s[i]));
        }
        lemma_count_same(t, p, q);
        assert(p(s[s.len() - 1]) == q(s[s.len() - 1]));
    }
}

} // verus!
