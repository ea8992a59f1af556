//! Strictly sorted vectors of strings and of string pairs: the sets and the keyed tables the
//! generators build, kept in the order their output is written in.
use vstd::prelude::*;

use crate::text::{lemma_seq_lt_irreflexive, lemma_seq_lt_total, lemma_seq_lt_transitive, seq_lt, str_lt, views};

verus! {

/// Every string of `s` comes strictly before the ones after it.
pub open spec fn strictly_sorted(s: Seq<Seq<char>>) -> bool {
    forall|a: int, b: int| 0 <= a < b < s.len() ==> seq_lt(#[trigger] s[a], #[trigger] s[b])
}

/// The strings of `v`, as a set.
pub open spec fn string_set(v: Seq<String>) -> Set<Seq<char>> {
    views(v).to_set()
}

/// Adds `x` to the strictly sorted strings of `v`, where it is not already.
pub fn insert_sorted(v: &mut Vec<String>, x: String)
    requires
        strictly_sorted(views(old(v)@)),
    ensures
        strictly_sorted(views(final(v)@)),
        string_set(final(v)@) == string_set(old(v)@).insert(x@),
{
    let ghost old_views = views(v@);
    let mut k: usize = 0;
    while k < v.len()
        invariant
            k <= v.len(),
            views(v@) == old_views,
            strictly_sorted(old_views),
            forall|m: int| 0 <= m < k ==> seq_lt(#[trigger] old_views[m], x@),
        ensures
            k <= v.len(),
            views(v@) == old_views,
            forall|m: int| 0 <= m < k ==> seq_lt(#[trigger] old_views[m], x@),
            k < v.len() ==> !seq_lt(old_views[k as int], x@),
        decreases v.len() - k,
    {
        if !str_lt(v[k].as_str(), x.as_str()) {
            break;
        }
        k += 1;
    }
    if k < v.len() && v[k] == x {
        assert(views(v@).contains(x@)) by {
            assert(views(v@)[k as int] == x@);
        }
        assert(views(v@).to_set() =~= views(v@).to_set().insert(x@));
        return;
    }
    let ghost xv = x@;
    if k < v.len() {
        proof {
            lemma_seq_lt_total(old_views[k as int], xv);
        }
    }
    v.insert(k, x);
    assert(views(v@) =~= old_views.insert(k as int, xv));
    assert forall|a: int, b: int| 0 <= a < b < views(v@).len() implies seq_lt(
        #[trigger] views(v@)[a],
        #[trigger] views(v@)[b],
    ) by {
        let s = views(v@);
        if b < k {
        } else if b == k {
        } else if a < k {
            // a < k < b: old[a] < x < old[b - 1]
            assert(s[b] == old_views[b - 1]);
            if b - 1 > k {
                lemma_seq_lt_transitive(xv, old_views[k as int], old_views[b - 1]);
            }
            lemma_seq_lt_transitive(old_views[a], xv, old_views[b - 1]);
        } else if a == k {
            if b - 1 > k {
                lemma_seq_lt_transitive(xv, old_views[k as int], old_views[b - 1]);
            }
        } else {
            assert(s[a] == old_views[a - 1]);
            assert(s[b] == old_views[b - 1]);
        }
    }
    assert(views(v@).to_set() =~= old_views.to_set().insert(xv)) by {
        assert forall|y: Seq<char>| views(v@).to_set().contains(y) implies old_views.to_set().insert(
            xv,
        ).contains(y) by {
            let i = choose|i: int| 0 <= i < views(v@).len() && views(v@)[i] == y;
            if i < k {
                assert(old_views[i] == y);
            } else if i > k {
                assert(old_views[i - 1] == y);
            }
        }
        assert forall|y: Seq<char>| old_views.to_set().insert(xv).contains(y) implies views(
            v@,
        ).to_set().contains(y) by {
            if y == xv {
                assert(views(v@)[k as int] == y);
            } else {
                let i = choose|i: int| 0 <= i < old_views.len() && old_views[i] == y;
                if i < k {
                    assert(views(v@)[i] == y);
                } else {
                    assert(views(v@)[i + 1] == y);
                }
            }
        }
    }
}

/// The order of string pairs: by the first string, then by the second.
pub open spec fn pair_lt(a: (Seq<char>, Seq<char>), b: (Seq<char>, Seq<char>)) -> bool {
    seq_lt(a.0, b.0) || (a.0 == b.0 && seq_lt(a.1, b.1))
}

/// The pair order is a strict total order.
pub proof fn lemma_pair_lt_order(
    a: (Seq<char>, Seq<char>),
    b: (Seq<char>, Seq<char>),
    c: (Seq<char>, Seq<char>),
)
    ensures
        !pair_lt(a, a),
        a != b ==> (pair_lt(a, b) || pair_lt(b, a)),
        !(pair_lt(a, b) && pair_lt(b, a)),
        pair_lt(a, b) && pair_lt(b, c) ==> pair_lt(a, c),
{
    lemma_seq_lt_irreflexive(a.0);
    lemma_seq_lt_irreflexive(a.1);
    lemma_seq_lt_total(a.0, b.0);
    lemma_seq_lt_total(a.1, b.1);
    if pair_lt(a, b) && pair_lt(b, c) {
        if seq_lt(a.0, b.0) && seq_lt(b.0, c.0) {
            lemma_seq_lt_transitive(a.0, b.0, c.0);
        }
        if a.0 == b.0 && b.0 == c.0 {
            lemma_seq_lt_transitive(a.1, b.1, c.1);
        }
    }
}

/// Whether the pair `(a0, a1)` comes before `(b0, b1)`.
pub fn pair_less(a0: &str, a1: &str, b0: &str, b1: &str) -> (r: bool)
    ensures
        r == pair_lt((a0@, a1@), (b0@, b1@)),
{
    if str_lt(a0, b0) {
        true
    } else if str_lt(b0, a0) {
        false
    } else {
        proof {
            lemma_seq_lt_total(a0@, b0@);
        }
        str_lt(a1, b1)
    }
}

// ---------------------------------------------------------------------------------------------
// Sorted sequences are determined by what they hold
// ---------------------------------------------------------------------------------------------

/// `lt` is a strict total order.
pub open spec fn strict_total_order<A>(lt: spec_fn(A, A) -> bool) -> bool {
    &&& forall|x: A| !#[trigger] lt(x, x)
    &&& forall|x: A, y: A| #[trigger] lt(x, y) ==> !lt(y, x)
    &&& forall|x: A, y: A| x != y ==> #[trigger] lt(x, y) || lt(y, x)
}

/// Every item of `s` comes strictly before the ones after it under `lt`.
pub open spec fn increasing<A>(s: Seq<A>, lt: spec_fn(A, A) -> bool) -> bool {
    forall|i: int, j: int| 0 <= i < j < s.len() ==> lt(#[trigger] s[i], #[trigger] s[j])
}

/// No item of `s` comes before an earlier one under `lt`.
pub open spec fn nondecreasing<A>(s: Seq<A>, lt: spec_fn(A, A) -> bool) -> bool {
    forall|i: int, j: int| 0 <= i < j < s.len() ==> !lt(#[trigger] s[j], #[trigger] s[i])
}

/// Two sequences increasing under a strict total order and holding the same items are the same.
pub proof fn lemma_increasing_unique<A>(a: Seq<A>, b: Seq<A>, lt: spec_fn(A, A) -> bool)
    requires
        strict_total_order(lt),
        increasing(a, lt),
        increasing(b, lt),
        a.to_set() == b.to_set(),
    ensures
        a == b,
    decreases a.len(),
{
    if a.len() == 0 {
        if b.len() > 0 {
            assert(b.to_set().contains(b[0]));
        }
        assert(a =~= b);
    } else if b.len() == 0 {
        assert(a.to_set().contains(a[0]));
    } else {
        assert(b.to_set().contains(a[0]));
        assert(a.to_set().contains(b[0]));
        let k = choose|k: int| 0 <= k < b.len() && b[k] == a[0];
        let m = choose|m: int| 0 <= m < a.len() && a[m] == b[0];
        if a[0] != b[0] {
            assert(k > 0 && m > 0);
            assert(lt(b[0], b[k]));
            assert(lt(a[0], a[m]));
        }
        let a1 = a.drop_first();
        let b1 = b.drop_first();
        assert forall|x: A| a1.to_set().contains(x) <==> b1.to_set().contains(x) by {
            if a1.contains(x) {
                let i = choose|i: int| 0 <= i < a1.len() && a1[i] == x;
                assert(a[i + 1] == x);
                assert(lt(a[0], a[i + 1]));
                assert(a.to_set().contains(x));
                assert(b.to_set().contains(x));
                let j = choose|j: int| 0 <= j < b.len() && b[j] == x;
                assert(j != 0);
                assert(b1[j - 1] == x);
            }
            if b1.contains(x) {
                let i = choose|i: int| 0 <= i < b1.len() && b1[i] == x;
                assert(b[i + 1] == x);
                assert(lt(b[0], b[i + 1]));
                assert(a.to_set().contains(x));
                let j = choose|j: int| 0 <= j < a.len() && a[j] == x;
                assert(j != 0);
                assert(a1[j - 1] == x);
            }
        }
        assert(a1.to_set() =~= b1.to_set());
        assert(increasing(a1, lt)) by {
            assert forall|i: int, j: int| 0 <= i < j < a1.len() implies lt(#[trigger] a1[i], #[trigger] a1[j]) by {
                assert(a1[i] == a[i + 1] && a1[j] == a[j + 1]);
            }
        }
        assert(increasing(b1, lt)) by {
            assert forall|i: int, j: int| 0 <= i < j < b1.len() implies lt(#[trigger] b1[i], #[trigger] b1[j]) by {
                assert(b1[i] == b[i + 1] && b1[j] == b[j + 1]);
            }
        }
        lemma_increasing_unique(a1, b1, lt);
        assert(a =~= seq![a[0]] + a1);
        assert(b =~= seq![b[0]] + b1);
    }
}

/// Two sequences sorted under a strict total order and holding the same items as often are the
/// same.
pub proof fn lemma_sorted_permutation_unique<A>(a: Seq<A>, b: Seq<A>, lt: spec_fn(A, A) -> bool)
    requires
        strict_total_order(lt),
        nondecreasing(a, lt),
        nondecreasing(b, lt),
        a.to_multiset() == b.to_multiset(),
    ensures
        a == b,
    decreases a.len(),
{
    a.to_multiset_ensures();
    b.to_multiset_ensures();
    if a.len() == 0 {
        assert(a =~= b);
    } else {
        assert(a.to_multiset().count(a[0]) > 0) by {
            assert(a.contains(a[0]));
        }
        assert(b.contains(a[0]));
        assert(b.to_multiset().count(b[0]) > 0) by {
            assert(b.contains(b[0]));
        }
        assert(a.contains(b[0]));
        let k = choose|k: int| 0 <= k < b.len() && b[k] == a[0];
        let m = choose|m: int| 0 <= m < a.len() && a[m] == b[0];
        if a[0] != b[0] {
            assert(k > 0 && m > 0);
            assert(!lt(b[k], b[0]));
            assert(!lt(a[m], a[0]));
            assert(lt(a[0], b[0]) || lt(b[0], a[0]));
        }
        let a1 = a.drop_first();
        let b1 = b.drop_first();
        assert(a.remove(0) =~= a1);
        assert(b.remove(0) =~= b1);
        assert(a1.to_multiset() =~= b1.to_multiset());
        assert(nondecreasing(a1, lt)) by {
            assert forall|i: int, j: int| 0 <= i < j < a1.len() implies !lt(#[trigger] a1[j], #[trigger] a1[i]) by {
                assert(a1[i] == a[i + 1] && a1[j] == a[j + 1]);
            }
        }
        assert(nondecreasing(b1, lt)) by {
            assert forall|i: int, j: int| 0 <= i < j < b1.len() implies !lt(#[trigger] b1[j], #[trigger] b1[i]) by {
                assert(b1[i] == b[i + 1] && b1[j] == b[j + 1]);
            }
        }
        lemma_sorted_permutation_unique(a1, b1, lt);
        assert(a =~= seq![a[0]] + a1);
        assert(b =~= seq![b[0]] + b1);
    }
}

/// `seq_lt` is a strict total order.
pub proof fn lemma_seq_lt_strict_total()
    ensures
        strict_total_order(|x: Seq<char>, y: Seq<char>| seq_lt(x, y)),
{
    assert forall|x: Seq<char>| !seq_lt(x, x) by {
        lemma_seq_lt_irreflexive(x);
    }
    assert forall|x: Seq<char>, y: Seq<char>| seq_lt(x, y) implies !seq_lt(y, x) by {
        lemma_seq_lt_irreflexive(x);
        if seq_lt(y, x) {
            lemma_seq_lt_transitive(x, y, x);
        }
    }
    assert forall|x: Seq<char>, y: Seq<char>| x != y implies seq_lt(x, y) || seq_lt(y, x) by {
        lemma_seq_lt_total(x, y);
    }
}

/// `pair_lt` is a strict total order.
pub proof fn lemma_pair_lt_strict_total()
    ensures
        strict_total_order(|x: (Seq<char>, Seq<char>), y: (Seq<char>, Seq<char>)| pair_lt(x, y)),
{
    assert forall|x: (Seq<char>, Seq<char>), y: (Seq<char>, Seq<char>)| #[trigger] pair_lt(x, y) implies !pair_lt(y, x) by {
        lemma_pair_lt_order(x, y, x);
    }
    assert forall|x: (Seq<char>, Seq<char>), y: (Seq<char>, Seq<char>)| x != y implies #[trigger] pair_lt(x, y) || pair_lt(y, x) by {
        lemma_pair_lt_order(x, y, x);
    }
    assert forall|x: (Seq<char>, Seq<char>)| !#[trigger] pair_lt(x, x) by {
        lemma_pair_lt_order(x, x, x);
    }
}

/// Two strictly sorted sequences of strings holding the same strings are the same.
pub proof fn lemma_strictly_sorted_unique(a: Seq<Seq<char>>, b: Seq<Seq<char>>)
    requires
        strictly_sorted(a),
        strictly_sorted(b),
        a.to_set() == b.to_set(),
    ensures
        a == b,
{
    let lt = |x: Seq<char>, y: Seq<char>| seq_lt(x, y);
    lemma_seq_lt_strict_total();
    assert(increasing(a, lt));
    assert(increasing(b, lt));
    lemma_increasing_unique(a, b, lt);
}

} // verus!
