//! Putting items in order without disturbing those that tie.

use vstd::prelude::*;

verus! {

/// Items that can be put in order.
pub trait Ranked: Sized {
    /// Whether this item comes before `other`.
    spec fn before(self, other: Self) -> bool;

    /// Whether the item takes part in the order.
    spec fn orderly(self) -> bool;

    /// Among items that take part, `before` is a strict order in which ties are transitive.
    proof fn before_is_order(a: Self, b: Self, c: Self)
        requires
            a.orderly(),
            b.orderly(),
            c.orderly(),
            a.before(b),
        ensures
            !b.before(a),
            a.before(c) || c.before(b),
    ;

    fn is_before(&self, other: &Self) -> (r: bool)
        ensures
            r == self.before(*other),
    ;
}

/// `p` lists every index below `n` once.
pub open spec fn is_arrangement(p: Seq<int>, n: nat) -> bool {
    &&& p.len() == n
    &&& forall|i: int| 0 <= i < p.len() ==> 0 <= #[trigger] p[i] < n
    &&& p.no_duplicates()
}

/// `out` holds the items at the indices that `p` lists, in that order.
pub open spec fn arranges<T>(out: Seq<T>, items: Seq<T>, p: Seq<int>) -> bool {
    &&& is_arrangement(p, items.len())
    &&& out.len() == items.len()
    &&& forall|i: int| 0 <= i < p.len() ==> #[trigger] out[i] == items[p[i]]
}

/// Whether the item at `a` has to stand before the item at `b`: by its rank, or, where the
/// two tie, by its place.
pub open spec fn leads<T: Ranked>(items: Seq<T>, a: int, b: int) -> bool {
    items[a].before(items[b]) || (!items[b].before(items[a]) && a < b)
}

/// `p` lists the indices by rank, and those of items that tie in their given order.
pub open spec fn in_stable_order<T: Ranked>(items: Seq<T>, p: Seq<int>) -> bool {
    forall|i: int, j: int| 0 <= i < j < p.len() ==> leads(items, #[trigger] p[i], #[trigger] p[j])
}

pub open spec fn all_orderly<T: Ranked>(items: Seq<T>) -> bool {
    forall|i: int| 0 <= i < items.len() ==> (#[trigger] items[i]).orderly()
}

/// `out` is `items` put in order, ties left as they were.
pub open spec fn sorted_from<T: Ranked>(out: Seq<T>, items: Seq<T>) -> bool {
    exists|p: Seq<int>|
        {
            &&& #[trigger] arranges(out, items, p)
            &&& all_orderly(items) ==> in_stable_order(items, p)
        }
}

/// Puts items in order; items that tie stay in their given order.
pub fn stable_sort<T: Ranked>(items: Vec<T>) -> (out: Vec<T>)
    ensures
        sorted_from(out@, items@),
{
    let ghost all = items@;
    let ghost mut p: Seq<int> = Seq::empty();
    let mut rest = items;
    let mut out: Vec<T> = Vec::new();
    while rest.len() > 0
        invariant
            rest@ =~= all.take(rest@.len() as int),
            rest@.len() <= all.len(),
            out@.len() + rest@.len() == all.len(),
            p.len() == out@.len(),
            p.no_duplicates(),
            forall|i: int| 0 <= i < p.len() ==> rest@.len() <= #[trigger] p[i] < all.len(),
            forall|i: int| 0 <= i < p.len() ==> #[trigger] out@[i] == all[p[i]],
            all_orderly(all) ==> in_stable_order(all, p),
        decreases rest@.len(),
    {
        let ghost k = rest@.len() - 1;
        let x = rest.pop().unwrap();
        assert(x == all[k]);
        let mut at: usize = 0;
        while at < out.len() && out[at].is_before(&x)
            invariant
                at <= out@.len(),
                forall|i: int| 0 <= i < at ==> (#[trigger] out@[i]).before(x),
            decreases out@.len() - at,
        {
            at = at + 1;
        }
        let ghost old_out = out@;
        let ghost old_p = p;
        out.insert(at, x);
        proof {
            p = old_p.insert(at as int, k);
            assert(forall|i: int| 0 <= i < p.len() ==> #[trigger] p[i] == (if i < at {
                old_p[i]
            } else if i == at {
                k
            } else {
                old_p[i - 1]
            }));
            if all_orderly(all) {
                assert forall|i: int, j: int| 0 <= i < j < p.len() implies leads(
                    all,
                    #[trigger] p[i],
                    #[trigger] p[j],
                ) by {
                    let pi = if i < at {
                        i
                    } else {
                        i - 1
                    };
                    let pj = j - 1;
                    if j < at {
                        assert(leads(all, old_p[i], old_p[j]));
                    } else if j == at {
                        assert(old_out[i].before(x));
                    } else if i == at {
                        let y = old_out[pj];
                        assert(y == all[old_p[pj]]);
                        if y.before(x) {
                            let z = old_out[at as int];
                            assert(z == all[old_p[at as int]]);
                            assert(!z.before(x));
                            assert(at < pj);
                            assert(leads(all, old_p[at as int], old_p[pj]));
                            T::before_is_order(y, x, z);
                            if z.before(y) {
                                T::before_is_order(z, y, y);
                            }
                        }
                    } else {
                        assert(leads(all, old_p[pi], old_p[pj]));
                    }
                }
            }
        }
    }
    assert(arranges(out@, all, p));
    out
}

/// The items of a sorted list are those that were given, each as often.
pub proof fn lemma_sorted_keeps_items<T: Ranked>(out: Seq<T>, items: Seq<T>)
    requires
        sorted_from(out, items),
    ensures
        out.len() == items.len(),
        forall|i: int| 0 <= i < out.len() ==> items.contains(#[trigger] out[i]),
        forall|i: int| 0 <= i < items.len() ==> out.contains(#[trigger] items[i]),
{
    let p = choose|p: Seq<int>|
        {
            &&& #[trigger] arranges(out, items, p)
            &&& all_orderly(items) ==> in_stable_order(items, p)
        };
    assert forall|i: int| 0 <= i < items.len() implies out.contains(#[trigger] items[i]) by {
        lemma_arrangement_covers(p, items.len(), i);
        let k = choose|k: int| 0 <= k < p.len() && p[k] == i;
        assert(out[k] == items[i]);
    }
}

/// Every index occurs in an arrangement.
pub proof fn lemma_arrangement_covers(p: Seq<int>, n: nat, i: int)
    requires
        is_arrangement(p, n),
        0 <= i < n,
    ensures
        exists|k: int| 0 <= k < p.len() && p[k] == i,
{
    if !p.contains(i) {
        let all = vstd::set_lib::set_int_range(0, n as int);
        vstd::set_lib::lemma_int_range(0, n as int);
        p.unique_seq_to_set();
        assert(p.to_set().subset_of(all.remove(i)));
        vstd::set_lib::lemma_len_subset(p.to_set(), all.remove(i));
    }
}

/// There is one way to put items in order without disturbing those that tie.
pub proof fn lemma_sorted_once<T: Ranked>(a: Seq<T>, b: Seq<T>, items: Seq<T>)
    requires
        sorted_from(a, items),
        sorted_from(b, items),
        all_orderly(items),
    ensures
        a == b,
{
    let p = choose|p: Seq<int>|
        {
            &&& #[trigger] arranges(a, items, p)
            &&& all_orderly(items) ==> in_stable_order(items, p)
        };
    let q = choose|q: Seq<int>|
        {
            &&& #[trigger] arranges(b, items, q)
            &&& all_orderly(items) ==> in_stable_order(items, q)
        };
    lemma_one_stable_order(items, p, q, items.len() as int);
    assert(a =~= b);
}

proof fn lemma_one_stable_order<T: Ranked>(items: Seq<T>, p: Seq<int>, q: Seq<int>, n: int)
    requires
        all_orderly(items),
        is_arrangement(p, items.len()),
        is_arrangement(q, items.len()),
        in_stable_order(items, p),
        in_stable_order(items, q),
        0 <= n <= items.len(),
    ensures
        forall|i: int| 0 <= i < n ==> #[trigger] p[i] == q[i],
    decreases n,
{
    if n > 0 {
        let k = n - 1;
        lemma_one_stable_order(items, p, q, k);
        let (x, y) = (p[k], q[k]);
        if x != y {
            lemma_arrangement_covers(q, items.len(), x);
            lemma_arrangement_covers(p, items.len(), y);
            let i = choose|i: int| 0 <= i < q.len() && q[i] == x;
            let j = choose|j: int| 0 <= j < p.len() && p[j] == y;
            if i < k {
                assert(p[i] == x);
            }
            if j < k {
                assert(q[j] == y);
            }
            assert(leads(items, q[k], q[i]));
            assert(leads(items, p[k], p[j]));
            if items[x].before(items[y]) {
                T::before_is_order(items[x], items[y], items[y]);
            }
            if items[y].before(items[x]) {
                T::before_is_order(items[y], items[x], items[x]);
            }
        }
    }
}

/// Items that were put in order are the given ones, each as often; no item comes before one that
/// stands ahead of it, and items that tie stand as they were given.
pub proof fn law_put_in_order<T: Ranked>(out: Seq<T>, items: Seq<T>)
    requires
        sorted_from(out, items),
        all_orderly(items),
    ensures
        out.len() == items.len(),
        forall|i: int, j: int| 0 <= i < j < out.len() ==> !(#[trigger] out[j]).before(#[trigger] out[i]),
        exists|p: Seq<int>|
            {
                &&& #[trigger] p.len() == items.len()
                &&& p.no_duplicates()
                &&& forall|i: int| 0 <= i < p.len() ==> 0 <= #[trigger] p[i] < items.len() && out[i] == items[p[i]]
                &&& forall|i: int, j: int|
                    0 <= i < j < p.len() ==> !out[j].before(out[i]) && (!out[i].before(out[j]) ==> #[trigger] p[i]
                        < #[trigger] p[j])
            },
{
    let p = choose|p: Seq<int>|
        {
            &&& #[trigger] arranges(out, items, p)
            &&& all_orderly(items) ==> in_stable_order(items, p)
        };
    assert forall|i: int, j: int| 0 <= i < j < p.len() implies !out[j].before(out[i]) && (!out[i].before(out[j])
        ==> #[trigger] p[i] < #[trigger] p[j]) by {
        assert(leads(items, p[i], p[j]));
        assert(out[i] == items[p[i]] && out[j] == items[p[j]]);
        if out[i].before(out[j]) {
            T::before_is_order(out[i], out[j], out[j]);
        }
    }
    assert forall|i: int| 0 <= i < p.len() implies 0 <= #[trigger] p[i] < items.len() && out[i] == items[p[i]] by {
        assert(out[i] == items[p[i]]);
    }
    assert(p.len() == items.len());
    assert forall|i: int, j: int| 0 <= i < j < out.len() implies !(#[trigger] out[j]).before(#[trigger] out[i]) by {
        assert(p[i] != p[j]);
    }
}

} // verus!
