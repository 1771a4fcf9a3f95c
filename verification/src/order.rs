//! Sequences that stand in a strict order, and what follows for them.

use vstd::prelude::*;
use vstd::relations::sorted_by;

verus! {

/// Whether `before` never holds both ways round.
pub open spec fn asymmetric_on_all<A>(before: spec_fn(A, A) -> bool) -> bool {
    forall|a: A, b: A| !(#[trigger] before(a, b) && before(b, a))
}

/// Two sequences that hold the same values, each in the same strict order, are
/// one sequence.
pub proof fn lemma_strict_order_unique<A>(x: Seq<A>, y: Seq<A>, before: spec_fn(A, A) -> bool)
    requires
        sorted_by(x, before),
        sorted_by(y, before),
        asymmetric_on_all(before),
        x.to_set() == y.to_set(),
    ensures
        x == y,
    decreases x.len(),
{
    if x.len() == 0 {
        if y.len() > 0 {
            assert(y.contains(y[0]));
            assert(y.to_set().contains(y[0]));
            assert(x.contains(y[0]));
        }
        assert(x =~= y);
    } else {
        assert(x.contains(x[0]));
        assert(x.to_set().contains(x[0]));
        assert(y.contains(x[0]));
        let m = choose|m: int| 0 <= m < y.len() && y[m] == x[0];
        assert(y.contains(y[0]));
        assert(y.to_set().contains(y[0]));
        assert(x.contains(y[0]));
        let k = choose|k: int| 0 <= k < x.len() && x[k] == y[0];
        if k > 0 && m > 0 {
            assert(before(x[0], x[k]));
            assert(before(y[0], y[m]));
        }
        assert(x[0] == y[0]);
        let xs = x.drop_first();
        let ys = y.drop_first();
        assert forall|a: A| xs.to_set().contains(a) == ys.to_set().contains(a) by {
            if xs.contains(a) {
                let i = choose|i: int| 0 <= i < xs.len() && xs[i] == a;
                assert(x[i + 1] == a);
                assert(before(x[0], x[i + 1]));
                assert(x.contains(a));
                assert(x.to_set().contains(a));
                assert(y.contains(a));
                let j = choose|j: int| 0 <= j < y.len() && y[j] == a;
                assert(j > 0);
                assert(ys[j - 1] == a);
            }
            if ys.contains(a) {
                let i = choose|i: int| 0 <= i < ys.len() && ys[i] == a;
                assert(y[i + 1] == a);
                assert(before(y[0], y[i + 1]));
                assert(y.contains(a));
                assert(y.to_set().contains(a));
                assert(x.contains(a));
                let j = choose|j: int| 0 <= j < x.len() && x[j] == a;
                assert(j > 0);
                assert(xs[j - 1] == a);
            }
        }
        assert(xs.to_set() =~= ys.to_set());
        assert forall|i: int, j: int| 0 <= i < j < xs.len() implies before(xs[i], xs[j]) by {
            assert(before(x[i + 1], x[j + 1]));
        }
        assert forall|i: int, j: int| 0 <= i < j < ys.len() implies before(ys[i], ys[j]) by {
            assert(before(y[i + 1], y[j + 1]));
        }
        lemma_strict_order_unique(xs, ys, before);
        assert(x =~= seq![x[0]] + xs);
        assert(y =~= seq![y[0]] + ys);
    }
}

/// The values of `values` in the strict order `before`: the one sequence that
/// holds just these values, each before all that follow it.
pub open spec fn in_order<A>(values: Set<A>, before: spec_fn(A, A) -> bool) -> Seq<A> {
    choose|s: Seq<A>| s.to_set() == values && sorted_by(s, before)
}

/// A sequence that holds just the values of `values`, each before all that
/// follow it, is `values` in the order `before`.
pub proof fn lemma_in_order_is<A>(s: Seq<A>, values: Set<A>, before: spec_fn(A, A) -> bool)
    requires
        s.to_set() == values,
        sorted_by(s, before),
        asymmetric_on_all(before),
    ensures
        in_order(values, before) == s,
{
    lemma_strict_order_unique(s, in_order(values, before), before);
}

/// Whether `before` decides between any two different values of `s`, and is
/// transitive on the values of `s`.
pub open spec fn orders_all_of<A>(s: Seq<A>, before: spec_fn(A, A) -> bool) -> bool {
    &&& forall|a: A, b: A|
        s.contains(a) && s.contains(b) && a != b ==> #[trigger] before(a, b) || before(b, a)
    &&& forall|a: A, b: A, c: A|
        s.contains(a) && s.contains(b) && s.contains(c) && #[trigger] before(a, b)
            && #[trigger] before(b, c) ==> before(a, c)
}

/// The values of a sequence can be put in the order `before`, where `before`
/// decides between any two of them and is transitive on them.
pub proof fn lemma_some_order<A>(s: Seq<A>, before: spec_fn(A, A) -> bool) -> (r: Seq<A>)
    requires
        orders_all_of(s, before),
    ensures
        r.to_set() == s.to_set(),
        sorted_by(r, before),
    decreases s.len(),
{
    if s.len() == 0 {
        s
    } else {
        let rest = s.drop_last();
        let x = s.last();
        assert forall|a: A| rest.contains(a) implies s.contains(a) by {
            let i = choose|i: int| 0 <= i < rest.len() && rest[i] == a;
            assert(s[i] == a);
        }
        assert(s.contains(x)) by {
            assert(s[s.len() - 1] == x);
        }
        let sorted = lemma_some_order(rest, before);
        assert forall|a: A| sorted.contains(a) implies s.contains(a) by {
            assert(sorted.to_set().contains(a));
            assert(rest.to_set().contains(a));
        }
        if sorted.contains(x) {
            assert forall|a: A| sorted.to_set().contains(a) == s.to_set().contains(a) by {
                if s.contains(a) {
                    let i = choose|i: int| 0 <= i < s.len() && s[i] == a;
                    if i < rest.len() {
                        assert(rest[i] == a);
                        assert(rest.to_set().contains(a));
                    }
                }
            }
            assert(sorted.to_set() =~= s.to_set());
            sorted
        } else {
            let k = lemma_place_for(sorted, x, before, 0);
            let r = sorted.take(k) + seq![x] + sorted.skip(k);
            assert forall|a: A| r.to_set().contains(a) == s.to_set().contains(a) by {
                if r.contains(a) {
                    let i = choose|i: int| 0 <= i < r.len() && r[i] == a;
                    if i < k {
                        assert(sorted[i] == a);
                        assert(sorted.contains(a));
                    } else if i > k {
                        assert(sorted[i - 1] == a);
                        assert(sorted.contains(a));
                    }
                }
                if s.contains(a) {
                    let i = choose|i: int| 0 <= i < s.len() && s[i] == a;
                    if i < rest.len() {
                        assert(rest[i] == a);
                        assert(rest.to_set().contains(a));
                        assert(sorted.contains(a));
                        let j = choose|j: int| 0 <= j < sorted.len() && sorted[j] == a;
                        if j < k {
                            assert(r[j] == a);
                        } else {
                            assert(r[j + 1] == a);
                        }
                    } else {
                        assert(r[k] == a);
                    }
                }
            }
            assert(r.to_set() =~= s.to_set());
            assert forall|i: int, j: int| 0 <= i < j < r.len() implies before(r[i], r[j]) by {
                if j < k {
                    assert(before(sorted[i], sorted[j]));
                } else if j == k {
                    assert(sorted.contains(sorted[i]));
                    assert(!before(x, sorted[i]));
                    assert(before(sorted[i], x) || before(x, sorted[i]));
                } else if i < k {
                    assert(before(sorted[i], sorted[j - 1]));
                } else if i == k {
                    assert(sorted.contains(sorted[k]));
                    assert(sorted.contains(sorted[j - 1]));
                    assert(before(x, sorted[k]));
                    if j - 1 > k {
                        assert(before(sorted[k], sorted[j - 1]));
                    }
                } else {
                    assert(before(sorted[i - 1], sorted[j - 1]));
                }
            }
            r
        }
    }
}

/// The first place of `sorted`, from `from` on, whose value `x` precedes; the
/// length of `sorted` where `x` precedes none.
proof fn lemma_place_for<A>(sorted: Seq<A>, x: A, before: spec_fn(A, A) -> bool, from: int) -> (k:
    int)
    requires
        0 <= from <= sorted.len(),
        forall|i: int| 0 <= i < from ==> !before(x, #[trigger] sorted[i]),
    ensures
        0 <= k <= sorted.len(),
        forall|i: int| 0 <= i < k ==> !before(x, #[trigger] sorted[i]),
        k < sorted.len() ==> before(x, sorted[k]),
    decreases sorted.len() - from,
{
    if from == sorted.len() || before(x, sorted[from]) {
        from
    } else {
        lemma_place_for(sorted, x, before, from + 1)
    }
}

/// The values of a sequence in the order `before` are just these values, each
/// before all that follow it, where `before` decides between any two of them,
/// is transitive on them and never holds both ways round.
pub proof fn lemma_in_order_exists<A>(s: Seq<A>, before: spec_fn(A, A) -> bool)
    requires
        orders_all_of(s, before),
    ensures
        in_order(s.to_set(), before).to_set() == s.to_set(),
        sorted_by(in_order(s.to_set(), before), before),
{
    let r = lemma_some_order(s, before);
}

/// A rearrangement of values that differ from one another, in which no value
/// stands behind one that it should precede, is in strict order, as far as
/// `before` decides between any two of the values.
pub proof fn lemma_sorted_rearrangement<A>(r: Seq<A>, s: Seq<A>, before: spec_fn(A, A) -> bool)
    requires
        r.to_multiset() == s.to_multiset(),
        s.no_duplicates(),
        forall|i: int, j: int| 0 <= i < j < r.len() ==> !before(#[trigger] r[j], #[trigger] r[i]),
        forall|i: int, j: int|
            0 <= i < s.len() && 0 <= j < s.len() && i != j ==> before(
                #[trigger] s[i],
                #[trigger] s[j],
            ) || before(s[j], s[i]),
    ensures
        sorted_by(r, before),
        r.to_set() == s.to_set(),
        r.no_duplicates(),
        r.len() == s.len(),
{
    broadcast use vstd::seq_lib::group_to_multiset_ensures;

    s.lemma_multiset_has_no_duplicates();
    r.lemma_multiset_has_no_duplicates_conv();
    assert(r.len() == r.to_multiset().len());
    assert(s.len() == s.to_multiset().len());
    assert forall|a: A| r.to_set().contains(a) == s.to_set().contains(a) by {
        assert(r.contains(a) <==> r.to_multiset().count(a) > 0);
        assert(s.contains(a) <==> s.to_multiset().count(a) > 0);
    }
    assert(r.to_set() =~= s.to_set());
    assert forall|i: int, j: int| 0 <= i < j < r.len() implies before(r[i], r[j]) by {
        assert(r.contains(r[i]));
        assert(r.contains(r[j]));
        assert(r.to_set().contains(r[i]));
        assert(r.to_set().contains(r[j]));
        assert(s.to_set().contains(r[i]));
        assert(s.to_set().contains(r[j]));
        let p = choose|p: int| 0 <= p < s.len() && s[p] == r[i];
        let q = choose|q: int| 0 <= q < s.len() && s[q] == r[j];
        assert(r[i] != r[j]);
        assert(before(s[p], s[q]) || before(s[q], s[p]));
    }
}

/// Filtering one value more: the value joins what was kept before where it
/// passes, and is left out where it does not.
pub proof fn lemma_filter_step<A>(s: Seq<A>, pred: spec_fn(A) -> bool, i: int)
    requires
        0 <= i < s.len(),
    ensures
        s.take(i + 1).filter(pred) == if pred(s[i]) {
            s.take(i).filter(pred).push(s[i])
        } else {
            s.take(i).filter(pred)
        },
{
    reveal(Seq::filter);
    assert(s.take(i + 1).drop_last() =~= s.take(i));
}

} // verus!
