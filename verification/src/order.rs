//! Sorting by a rank.
use vstd::prelude::*;

verus! {

/// What can be put in order.
pub trait Ranked: Sized {
    spec fn ahead(self, other: Self) -> bool;

    /// Whether this comes before `other`.
    fn is_ahead(&self, other: &Self) -> (r: bool)
        ensures
            r == self.ahead(*other),
    ;
}

/// `x` put into a sorted sequence: behind all that it does not come before.
pub open spec fn placed<T: Ranked>(s: Seq<T>, x: T) -> Seq<T>
    decreases s.len(),
{
    if s.len() == 0 || !x.ahead(s.last()) {
        s.push(x)
    } else {
        placed(s.drop_last(), x).push(s.last())
    }
}

/// The sequence in order; what has the same rank stays in the order in which it came.
pub open spec fn sorted<T: Ranked>(s: Seq<T>) -> Seq<T>
    decreases s.len(),
{
    if s.len() == 0 {
        Seq::empty()
    } else {
        placed(sorted(s.drop_last()), s.last())
    }
}

proof fn lemma_placed_at<T: Ranked>(s: Seq<T>, x: T, at: int)
    requires
        0 <= at <= s.len(),
        at > 0 ==> !x.ahead(s[at - 1]),
        forall|i: int| at <= i < s.len() ==> x.ahead(#[trigger] s[i]),
    ensures
        placed(s, x) == s.insert(at, x),
    decreases s.len(),
{
    if at == s.len() {
        assert(s.insert(at, x) =~= s.push(x));
    } else {
        assert(x.ahead(s[s.len() - 1]));
        lemma_placed_at(s.drop_last(), x, at);
        assert(s.insert(at, x) =~= s.drop_last().insert(at, x).push(s.last()));
    }
}

/// Puts a list in order.
pub fn sort<T: Ranked>(list: Vec<T>) -> (r: Vec<T>)
    ensures
        r@ == sorted(list@),
{
    let ghost all = list@;
    let mut left = list;
    let mut out: Vec<T> = Vec::new();
    while left.len() > 0
        invariant
            left@.len() <= all.len(),
            left@ == all.skip(all.len() - left@.len()),
            out@ == sorted(all.take(all.len() - left@.len())),
        decreases left.len(),
    {
        let ghost done = all.len() - left@.len();
        let x = left.remove(0);
        let mut at: usize = out.len();
        while at > 0 && x.is_ahead(&out[at - 1])
            invariant
                at <= out.len(),
                forall|i: int| at <= i < out.len() ==> x.ahead(#[trigger] out@[i]),
            decreases at,
        {
            at = at - 1;
        }
        proof {
            lemma_placed_at(out@, x, at as int);
            assert(all.take(done + 1).drop_last() =~= all.take(done));
            assert(all.take(done + 1).last() == x);
            assert(left@ =~= all.skip(done + 1));
        }
        out.insert(at, x);
    }
    assert(all.take(all.len() as int) =~= all);
    out
}

/// The rank is an order: nothing comes before itself, and what comes before something that comes no later than a
/// third comes before the third.
pub open spec fn is_order<T: Ranked>() -> bool {
    &&& forall|a: T, b: T| #[trigger] a.ahead(b) ==> !b.ahead(a)
    &&& forall|a: T, b: T, c: T| !(#[trigger] b.ahead(a)) && !(#[trigger] c.ahead(b)) ==> !c.ahead(a)
}

pub open spec fn in_order<T: Ranked>(s: Seq<T>) -> bool {
    forall|i: int, j: int| 0 <= i < j < s.len() ==> !(#[trigger] s[j]).ahead(#[trigger] s[i])
}

/// Sorting keeps what there is and puts it in order.
pub proof fn law_sorting_permutes_into_order<T: Ranked>(s: Seq<T>)
    requires
        is_order::<T>(),
    ensures
        sorted(s).to_multiset() == s.to_multiset(),
        sorted(s).len() == s.len(),
        in_order(sorted(s)),
    decreases s.len(),
{
    broadcast use vstd::seq_lib::group_to_multiset_ensures;

    if s.len() > 0 {
        law_sorting_permutes_into_order(s.drop_last());
        lemma_placed_keeps_order(sorted(s.drop_last()), s.last());
        assert(s.drop_last().push(s.last()) =~= s);
    } else {
        assert(sorted(s) =~= s);
    }
}

proof fn lemma_placed_keeps_order<T: Ranked>(s: Seq<T>, x: T)
    requires
        is_order::<T>(),
        in_order(s),
    ensures
        placed(s, x).to_multiset() == s.to_multiset().insert(x),
        placed(s, x).len() == s.len() + 1,
        in_order(placed(s, x)),
        forall|i: int| 0 <= i <= s.len() ==> placed(s, x)[i] == x || s.contains(#[trigger] placed(s, x)[i]),
    decreases s.len(),
{
    broadcast use vstd::seq_lib::group_to_multiset_ensures;

    let p = placed(s, x);
    if s.len() == 0 || !x.ahead(s.last()) {
        assert forall|i: int, j: int| 0 <= i < j < p.len() implies !(#[trigger] p[j]).ahead(
            #[trigger] p[i],
        ) by {
            if j == s.len() {
                if i < s.len() - 1 {
                    assert(!s[s.len() - 1].ahead(s[i]));
                }
            }
        }
        assert forall|i: int| 0 <= i <= s.len() implies p[i] == x || s.contains(#[trigger] p[i]) by {
            if i < s.len() {
                assert(s[i] == p[i]);
            }
        }
    } else {
        let t = s.drop_last();
        lemma_placed_keeps_order(t, x);
        let q = placed(t, x);
        assert(t.push(s.last()) =~= s);
        assert forall|i: int, j: int| 0 <= i < j < p.len() implies !(#[trigger] p[j]).ahead(
            #[trigger] p[i],
        ) by {
            if j == s.len() {
                assert(p[i] == q[i]);
                if q[i] != x {
                    assert(t.contains(q[i]));
                    let k = choose|k: int| 0 <= k < t.len() && t[k] == q[i];
                    assert(s[k] == q[i]);
                    assert(!s[s.len() - 1].ahead(s[k]));
                }
            } else {
                assert(p[i] == q[i] && p[j] == q[j]);
            }
        }
        assert forall|i: int| 0 <= i <= s.len() implies p[i] == x || s.contains(#[trigger] p[i]) by {
            if i < s.len() {
                assert(p[i] == q[i]);
                if q[i] != x {
                    assert(t.contains(q[i]));
                    let k = choose|k: int| 0 <= k < t.len() && t[k] == q[i];
                    assert(s[k] == q[i]);
                }
            } else {
                assert(s[s.len() - 1] == p[i]);
            }
        }
    }
}

/// No two have the same rank.
pub open spec fn ranked_apart<T: Ranked>(s: Seq<T>) -> bool {
    forall|i: int, j: int|
        0 <= i < j < s.len() ==> (#[trigger] s[i]).ahead(#[trigger] s[j]) || s[j].ahead(s[i])
}

proof fn lemma_order_is_unique<T: Ranked>(x: Seq<T>, y: Seq<T>)
    requires
        is_order::<T>(),
        in_order(x),
        in_order(y),
        ranked_apart(x),
        x.to_multiset() == y.to_multiset(),
    ensures
        x == y,
    decreases x.len(),
{
    broadcast use vstd::seq_lib::group_to_multiset_ensures;

    assert(x.len() == x.to_multiset().len() && y.len() == y.to_multiset().len());
    if x.len() == 0 {
        assert(x =~= y);
    } else {
        let m = x.last();
        let n = y.last();
        assert(x.contains(m) && y.contains(n));
        assert(x.contains(n) && y.contains(m)) by {
            assert(x.to_multiset().count(m) > 0);
            assert(y.to_multiset().count(n) > 0);
        }
        let k = choose|k: int| 0 <= k < x.len() && x[k] == n;
        let l = choose|l: int| 0 <= l < y.len() && y[l] == m;
        if k < x.len() - 1 && l < y.len() - 1 {
            assert(!x[x.len() - 1].ahead(x[k]));
            assert(!y[y.len() - 1].ahead(y[l]));
            assert(x[k].ahead(x[x.len() - 1]) || x[x.len() - 1].ahead(x[k]));
        }
        assert(m == n);
        assert(x.remove(x.len() - 1) =~= x.drop_last());
        assert(y.remove(y.len() - 1) =~= y.drop_last());
        lemma_order_is_unique(x.drop_last(), y.drop_last());
        assert(x =~= x.drop_last().push(m));
        assert(y =~= y.drop_last().push(n));
    }
}

/// Where no two have the same rank, the order in which they came does not show in the sorted sequence.
pub proof fn law_sorting_forgets_the_order<T: Ranked>(a: Seq<T>, b: Seq<T>)
    requires
        is_order::<T>(),
        ranked_apart(a),
        a.to_multiset() == b.to_multiset(),
    ensures
        sorted(a) == sorted(b),
{
    broadcast use vstd::seq_lib::group_to_multiset_ensures;

    law_sorting_permutes_into_order(a);
    law_sorting_permutes_into_order(b);
    let x = sorted(a);
    assert(a.no_duplicates()) by {
        assert forall|i: int, j: int| 0 <= i < a.len() && 0 <= j < a.len() && i != j implies a[i]
            != a[j] by {
            if i < j {
                assert(a[i].ahead(a[j]) || a[j].ahead(a[i]));
            } else {
                assert(a[j].ahead(a[i]) || a[i].ahead(a[j]));
            }
        }
    }
    a.lemma_multiset_has_no_duplicates();
    x.lemma_multiset_has_no_duplicates_conv();
    assert forall|i: int, j: int| 0 <= i < j < x.len() implies (#[trigger] x[i]).ahead(
        #[trigger] x[j],
    ) || x[j].ahead(x[i]) by {
        assert(x.contains(x[i]) && x.contains(x[j]));
        assert(a.contains(x[i]) && a.contains(x[j])) by {
            assert(x.to_multiset().count(x[i]) > 0 && x.to_multiset().count(x[j]) > 0);
            assert(a.to_multiset().count(x[i]) > 0 && a.to_multiset().count(x[j]) > 0);
        }
        let p = choose|p: int| 0 <= p < a.len() && a[p] == x[i];
        let q = choose|q: int| 0 <= q < a.len() && a[q] == x[j];
        assert(p != q);
    }
    lemma_order_is_unique(x, sorted(b));
}

/// What has the rank of `x`.
pub open spec fn of_rank<T: Ranked>(x: T) -> spec_fn(T) -> bool {
    |y: T| !y.ahead(x) && !x.ahead(y)
}

/// What has the same rank stays in the order in which it came.
pub proof fn law_sorting_is_stable<T: Ranked>(s: Seq<T>, x: T)
    requires
        is_order::<T>(),
    ensures
        sorted(s).filter(of_rank(x)) == s.filter(of_rank(x)),
    decreases s.len(),
{
    if s.len() > 0 {
        let t = s.drop_last();
        law_sorting_is_stable(t, x);
        lemma_placed_behind_its_equals(sorted(t), s.last(), x);
        lemma_filter_push(sorted(t), s.last(), of_rank(x));
        lemma_filter_push(t, s.last(), of_rank(x));
        assert(t.push(s.last()) =~= s);
    } else {
        assert(sorted(s) =~= s);
    }
}

proof fn lemma_filter_push<T>(s: Seq<T>, new: T, pred: spec_fn(T) -> bool)
    ensures
        s.push(new).filter(pred) == if pred(new) {
            s.filter(pred).push(new)
        } else {
            s.filter(pred)
        },
{
    reveal(Seq::filter);
    assert(s.push(new).drop_last() =~= s);
}

proof fn lemma_placed_behind_its_equals<T: Ranked>(s: Seq<T>, new: T, x: T)
    requires
        is_order::<T>(),
    ensures
        placed(s, new).filter(of_rank(x)) == s.push(new).filter(of_rank(x)),
    decreases s.len(),
{
    if s.len() > 0 && new.ahead(s.last()) {
        let t = s.drop_last();
        lemma_placed_behind_its_equals(t, new, x);
        assert(!(of_rank(x)(new) && of_rank(x)(s.last())));
        lemma_filter_push(placed(t, new), s.last(), of_rank(x));
        lemma_filter_push(t, new, of_rank(x));
        lemma_filter_push(t, s.last(), of_rank(x));
        lemma_filter_push(s, new, of_rank(x));
        assert(t.push(s.last()) =~= s);
    }
}

} // verus!
