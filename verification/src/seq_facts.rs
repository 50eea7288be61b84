use vstd::prelude::*;

verus! {

/// Index of the first occurrence of `x` in `s`, or `s.len()` when `x` does not occur.
pub open spec fn first_index<A>(s: Seq<A>, x: A) -> nat
    decreases s.len(),
{
    if s.len() == 0 {
        0
    } else if s[0] == x {
        0
    } else {
        1 + first_index(s.drop_first(), x)
    }
}

pub proof fn lemma_concat_contains<A>(a: Seq<A>, b: Seq<A>, x: A)
    ensures
        (a + b).contains(x) <==> (a.contains(x) || b.contains(x)),
{
    if a.contains(x) {
        let i = choose|i: int| 0 <= i < a.len() && a[i] == x;
        assert((a + b)[i] == x);
    }
    if b.contains(x) {
        let j = choose|j: int| 0 <= j < b.len() && b[j] == x;
        assert((a + b)[a.len() + j] == x);
    }
    if (a + b).contains(x) {
        let k = choose|k: int| 0 <= k < (a + b).len() && (a + b)[k] == x;
        if k < a.len() {
            assert(a[k] == x);
        } else {
            assert(b[k - a.len()] == x);
        }
    }
}

pub proof fn lemma_first_index_bounds<A>(s: Seq<A>, x: A)
    ensures
        first_index(s, x) <= s.len(),
        first_index(s, x) < s.len() <==> s.contains(x),
        first_index(s, x) < s.len() ==> s[first_index(s, x) as int] == x,
        forall|j: int| 0 <= j < first_index(s, x) ==> s[j] != x,
    decreases s.len(),
{
    if s.len() == 0 {
    } else if s[0] == x {
        assert(s.contains(x));
    } else {
        let t = s.drop_first();
        lemma_first_index_bounds(t, x);
        assert forall|j: int| 0 <= j < first_index(s, x) implies s[j] != x by {
            if j > 0 {
                assert(s[j] == t[j - 1]);
            }
        }
        if s.contains(x) {
            let k = choose|k: int| 0 <= k < s.len() && s[k] == x;
            assert(k > 0);
            assert(t[k - 1] == x);
        }
        if t.contains(x) {
            let k = choose|k: int| 0 <= k < t.len() && t[k] == x;
            assert(s[k + 1] == x);
        }
    }
}

pub proof fn lemma_first_index_concat<A>(a: Seq<A>, b: Seq<A>, x: A)
    ensures
        first_index(a + b, x) == if a.contains(x) {
            first_index(a, x)
        } else {
            a.len() + first_index(b, x)
        },
    decreases a.len(),
{
    if a.len() == 0 {
        assert(a + b =~= b);
    } else if a[0] == x {
        assert(a.contains(x));
        assert((a + b)[0] == x);
    } else {
        lemma_first_index_concat(a.drop_first(), b, x);
        assert((a + b).drop_first() =~= a.drop_first() + b);
        assert((a + b)[0] == a[0]);
        if a.contains(x) {
            let k = choose|k: int| 0 <= k < a.len() && a[k] == x;
            assert(a.drop_first()[k - 1] == x);
        }
        if a.drop_first().contains(x) {
            let k = choose|k: int| 0 <= k < a.drop_first().len() && a.drop_first()[k] == x;
            assert(a[k + 1] == x);
        }
    }
}

proof fn lemma_distinct_counts<A>(s: Seq<A>)
    requires
        s.no_duplicates(),
    ensures
        forall|x: A| #[trigger] s.to_multiset().count(x) == if s.contains(x) {
            1nat
        } else {
            0nat
        },
{
    broadcast use vstd::seq_lib::group_to_multiset_ensures;

    s.lemma_multiset_has_no_duplicates();
    assert forall|x: A| #[trigger] s.to_multiset().count(x) == if s.contains(x) {
        1nat
    } else {
        0nat
    } by {
        if s.contains(x) {
            assert(s.to_multiset().count(x) > 0);
            assert(s.to_multiset().contains(x));
        }
    }
}

/// With `b` free of repetitions, `a` holds the same multiset of items as `b` exactly when both
/// have the same length, `a` is free of repetitions, and every item of `a` is in `b`.
pub proof fn lemma_same_multiset<A>(a: Seq<A>, b: Seq<A>)
    requires
        b.no_duplicates(),
    ensures
        (a.to_multiset() =~= b.to_multiset()) <==> (a.len() == b.len() && a.no_duplicates()
            && forall|x: A| a.contains(x) ==> b.contains(x)),
{
    broadcast use vstd::seq_lib::group_to_multiset_ensures;
    broadcast use vstd::seq_lib::seq_to_set_is_finite;

    lemma_distinct_counts(b);
    if a.to_multiset() =~= b.to_multiset() {
        assert(a.len() == a.to_multiset().len());
        assert forall|x: A| a.contains(x) implies b.contains(x) by {
            assert(a.to_multiset().count(x) > 0);
        }
        assert forall|x: A| a.to_multiset().contains(x) implies a.to_multiset().count(x) == 1 by {
            assert(b.to_multiset().count(x) > 0);
        }
        a.lemma_multiset_has_no_duplicates_conv();
    }
    if a.len() == b.len() && a.no_duplicates() && forall|x: A| a.contains(x) ==> b.contains(x) {
        lemma_distinct_counts(a);
        a.unique_seq_to_set();
        b.unique_seq_to_set();
        assert(a.to_set().subset_of(b.to_set()));
        vstd::set_lib::lemma_subset_equality(a.to_set(), b.to_set());
        assert forall|x: A| #[trigger] a.to_multiset().count(x) == b.to_multiset().count(x) by {
            if b.contains(x) {
                assert(b.to_set().contains(x));
                assert(a.to_set().contains(x));
            }
        }
        assert(a.to_multiset() =~= b.to_multiset());
    }
}

} // verus!
