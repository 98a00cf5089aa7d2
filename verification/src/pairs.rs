//! Which processors share a core.

use crate::cpu::{cpu_id_list, cpu_ids_in};
use crate::order::{sorted_from, stable_sort, Ranked};
use crate::text::{chars_of, trim, trimmed};
use std::collections::{BTreeMap, BTreeSet};
use vstd::prelude::*;
use vstd::slice::slice_subrange;

verus! {

broadcast use {vstd::string::group_string_axioms, vstd::std_specs::btree::group_btree_axioms};

// ---------------------------------------------------------------------------
// Pairs of processors that share a core
// ---------------------------------------------------------------------------

/// How many processors one pair names.
pub open spec fn pair_size(pair: (usize, Option<usize>)) -> nat {
    if pair.1 is Some {
        2
    } else {
        1
    }
}

/// How many processors a list of pairs names.
pub open spec fn entries_count(pairs: Seq<(usize, Option<usize>)>) -> nat
    decreases pairs.len(),
{
    if pairs.len() == 0 {
        0
    } else {
        entries_count(pairs.drop_last()) + pair_size(pairs.last())
    }
}

/// How many processors a list of pairs names, in a type that holds every such count.
pub fn wide_entries_count(pairs: &[(usize, Option<usize>)]) -> (r: u128)
    ensures
        r == entries_count(pairs@),
{
    let mut n: u128 = 0;
    for i in 0..pairs.len()
        invariant
            n == entries_count(pairs@.take(i as int)),
            n <= 2 * i,
            pairs@.len() <= usize::MAX,
    {
        assert(pairs@.take(i + 1).drop_last() =~= pairs@.take(i as int));
        if pairs[i].1.is_some() {
            n = n + 2;
        } else {
            n = n + 1;
        }
    }
    assert(pairs@.take(pairs@.len() as int) =~= pairs@);
    n
}

/// How many processors a list of pairs names.
pub fn pair_entries_count(pairs: &[(usize, Option<usize>)]) -> (r: usize)
    requires
        entries_count(pairs@) <= usize::MAX,
    ensures
        r == entries_count(pairs@),
{
    wide_entries_count(pairs) as usize
}

// ---------------------------------------------------------------------------
// Ascending lists
// ---------------------------------------------------------------------------

/// Each number is larger than the one before.
pub open spec fn ascending(s: Seq<usize>) -> bool {
    forall|i: int, j: int| 0 <= i < j < s.len() ==> #[trigger] s[i] < #[trigger] s[j]
}

/// Puts `x` into its place in an ascending list that does not hold it yet.
fn insert_ascending(v: &mut Vec<usize>, x: usize)
    requires
        ascending(old(v)@),
    ensures
        ascending(final(v)@),
        forall|y: usize| #[trigger] final(v)@.contains(y) <==> old(v)@.contains(y) || y == x,
        final(v)@.len() > 0,
        old(v)@.len() > 0 && old(v)@[0] <= x ==> final(v)@[0] == old(v)@[0],
{
    let mut at: usize = 0;
    while at < v.len() && v[at] < x
        invariant
            at <= v@.len(),
            v@ == old(v)@,
            forall|i: int| 0 <= i < at ==> v@[i] < x,
        decreases v@.len() - at,
    {
        at = at + 1;
    }
    if at < v.len() && v[at] == x {
        assert(v@[at as int] == x);
        return;
    }
    let ghost start = v@;
    v.insert(at, x);
    proof {
        assert forall|y: usize| #[trigger] v@.contains(y) <==> start.contains(y) || y == x by {
            if start.contains(y) {
                let i = choose|i: int| 0 <= i < start.len() && start[i] == y;
                if i < at {
                    assert(v@[i] == y);
                } else {
                    assert(v@[i + 1] == y);
                }
            }
            if y == x {
                assert(v@[at as int] == y);
            }
            if v@.contains(y) {
                let i = choose|i: int| 0 <= i < v@.len() && v@[i] == y;
                if i < at {
                    assert(start[i] == y);
                } else if i > at {
                    assert(start[i - 1] == y);
                }
            }
        }
        assert(forall|i: int|
            0 <= i < v@.len() ==> #[trigger] v@[i] == (if i < at {
                start[i]
            } else if i == at {
                x
            } else {
                start[i - 1]
            }));
    }
}

// ---------------------------------------------------------------------------
// Cores from the lists of siblings
// ---------------------------------------------------------------------------

/// Whether a processor's list of siblings names `x`, a processor that exists.
pub open spec fn is_sibling(list: Seq<usize>, ids: Seq<usize>, x: usize) -> bool {
    list.contains(x) && ids.contains(x)
}

/// Whether `m` is the lowest of the siblings that a list names.
pub open spec fn is_lowest(list: Seq<usize>, ids: Seq<usize>, m: usize) -> bool {
    is_sibling(list, ids, m) && forall|x: usize| is_sibling(list, ids, x) ==> m <= x
}

/// Whether some list whose lowest sibling is `core` names `x`.
pub open spec fn in_core(lists: Seq<Seq<usize>>, ids: Seq<usize>, core: usize, x: usize) -> bool {
    exists|i: int|
        0 <= i < lists.len() && is_lowest(#[trigger] lists[i], ids, core) && is_sibling(
            lists[i],
            ids,
            x,
        )
}

/// `groups` are the cores: the lists gathered by their lowest sibling, each core ascending,
/// and the cores ascending by their lowest processor.
pub open spec fn is_grouping(
    groups: Seq<Seq<usize>>,
    lists: Seq<Seq<usize>>,
    ids: Seq<usize>,
) -> bool {
    &&& forall|g: int| 0 <= g < groups.len() ==> (#[trigger] groups[g]).len() > 0 && ascending(groups[g])
    &&& forall|g: int, h: int|
        0 <= g < h < groups.len() ==> (#[trigger] groups[g])[0] < (#[trigger] groups[h])[0]
    &&& forall|g: int, x: usize|
        0 <= g < groups.len() ==> (#[trigger] groups[g].contains(x) <==> in_core(
            lists,
            ids,
            groups[g][0],
            x,
        ))
    &&& forall|i: int, m: usize|
        0 <= i < lists.len() && #[trigger] is_lowest(lists[i], ids, m) ==> exists|g: int|
            0 <= g < groups.len() && (#[trigger] groups[g])[0] == m
}

/// One pair without a partner for each number of `xs` that is not covered yet.
pub open spec fn singles(xs: Seq<usize>, covered: Set<usize>) -> Seq<(usize, Option<usize>)>
    decreases xs.len(),
{
    if xs.len() == 0 {
        Seq::empty()
    } else if covered.contains(xs.last()) || xs.drop_last().contains(xs.last()) {
        singles(xs.drop_last(), covered)
    } else {
        singles(xs.drop_last(), covered).push((xs.last(), None))
    }
}

/// The pair that a core starts with: its lowest processor and the next, where there is one.
pub open spec fn lead_pair(core: Seq<usize>) -> (usize, Option<usize>) {
    (
        core[0],
        if core.len() > 1 {
            Some(core[1])
        } else {
            None
        },
    )
}

/// The processors that a core's lead pair names.
pub open spec fn lead_set(core: Seq<usize>) -> Set<usize> {
    if core.len() > 1 {
        set![core[0], core[1]]
    } else {
        set![core[0]]
    }
}

/// The processors of a core after the first two.
pub open spec fn further(core: Seq<usize>) -> Seq<usize> {
    if core.len() > 2 {
        core.skip(2)
    } else {
        Seq::empty()
    }
}

/// The processors that the first `n` cores hold.
pub open spec fn covered_by(groups: Seq<Seq<usize>>, n: int) -> Set<usize> {
    Set::new(|x: usize| exists|g: int| 0 <= g < n && #[trigger] groups[g].contains(x))
}

/// The pairs of the first `n` cores: each core's lead pair, then each further processor of
/// the core that no pair names yet.
pub open spec fn core_pairs(groups: Seq<Seq<usize>>, n: int) -> Seq<(usize, Option<usize>)>
    decreases n,
{
    if n <= 0 {
        Seq::empty()
    } else {
        let core = groups[n - 1];
        core_pairs(groups, n - 1).push(lead_pair(core)) + singles(
            further(core),
            covered_by(groups, n - 1).union(lead_set(core)),
        )
    }
}

/// The pairs of all cores, then each processor that no core holds.
pub open spec fn listed_pairs(groups: Seq<Seq<usize>>, ids: Seq<usize>) -> Seq<
    (usize, Option<usize>),
> {
    core_pairs(groups, groups.len() as int) + singles(ids, covered_by(groups, groups.len() as int))
}

/// Pairs stand by their first processor.
impl Ranked for (usize, Option<usize>) {
    open spec fn before(self, other: Self) -> bool {
        self.0 < other.0
    }

    open spec fn orderly(self) -> bool {
        true
    }

    proof fn before_is_order(a: Self, b: Self, c: Self) {
    }

    fn is_before(&self, other: &Self) -> (r: bool) {
        self.0 < other.0
    }
}

/// The numbers that each core of a list of cores holds.
pub open spec fn cores_of(v: Seq<Vec<usize>>) -> Seq<Seq<usize>> {
    Seq::new(v.len(), |i: int| v[i]@)
}

fn siblings_of(list: &Vec<usize>, ids: &BTreeSet<usize>, Ghost(all): Ghost<Seq<usize>>) -> (v: Vec<usize>)
    requires
        ids@ == all.to_set(),
    ensures
        ascending(v@),
        forall|x: usize| #[trigger] v@.contains(x) <==> is_sibling(list@, all, x),
{
    let mut v: Vec<usize> = Vec::new();
    for i in 0..list.len()
        invariant
            ids@ == all.to_set(),
            ascending(v@),
            forall|x: usize| #[trigger] v@.contains(x) <==> is_sibling(list@.take(i as int), all, x),
    {
        let x = list[i];
        let ghost before = v@;
        if ids.contains(&x) {
            insert_ascending(&mut v, x);
        }
        proof {
            let upto = list@.take(i as int);
            let next = list@.take(i + 1);
            assert(next =~= upto.push(x));
            assert forall|y: usize| #[trigger] v@.contains(y) <==> is_sibling(next, all, y) by {
                assert(next.contains(y) <==> upto.contains(y) || y == x) by {
                    if upto.contains(y) {
                        let k = choose|k: int| 0 <= k < upto.len() && upto[k] == y;
                        assert(next[k] == y);
                    }
                    if y == x {
                        assert(next[i as int] == y);
                    }
                }
                assert(before.contains(y) <==> is_sibling(upto, all, y));
                assert(all.contains(y) <==> all.to_set().contains(y));
            }
        }
    }
    assert(list@.take(list@.len() as int) =~= list@);
    v
}

proof fn lemma_sibling_values(v: Seq<usize>, list: Seq<usize>, ids: Seq<usize>)
    requires
        ascending(v),
        v.len() > 0,
        forall|x: usize| #[trigger] v.contains(x) <==> is_sibling(list, ids, x),
    ensures
        is_lowest(list, ids, v[0]),
        forall|m: usize| #[trigger] is_lowest(list, ids, m) ==> m == v[0],
{
    assert(v.contains(v[0]));
    assert forall|x: usize| is_sibling(list, ids, x) implies v[0] <= x by {
        assert(v.contains(x));
        let i = choose|i: int| 0 <= i < v.len() && v[i] == x;
        if i > 0 {
            assert(v[0] < v[i]);
        }
    }
}

/// Adds the siblings `v`, which one list names, to the cores.
fn add_siblings(
    groups: &mut Vec<Vec<usize>>,
    v: Vec<usize>,
    Ghost(lists): Ghost<Seq<Seq<usize>>>,
    Ghost(list): Ghost<Seq<usize>>,
    Ghost(ids): Ghost<Seq<usize>>,
)
    requires
        is_grouping(cores_of(old(groups)@), lists, ids),
        ascending(v@),
        forall|x: usize| #[trigger] v@.contains(x) <==> is_sibling(list, ids, x),
    ensures
        is_grouping(cores_of(final(groups)@), lists.push(list), ids),
{
    let ghost more = lists.push(list);
    let ghost start = cores_of(groups@);
    proof {
        assert(more.len() == lists.len() + 1 && more[lists.len() as int] == list);
        assert(forall|i: int| 0 <= i < lists.len() ==> more[i] == lists[i]);
    }
    if v.len() == 0 {
        proof {
            assert forall|m: usize| !is_lowest(list, ids, m) by {
                if is_lowest(list, ids, m) {
                    assert(v@.contains(m));
                }
            }
            assert forall|core: usize, x: usize|
                in_core(more, ids, core, x) <==> in_core(lists, ids, core, x) by {
                lemma_in_core_push(lists, list, ids, core, x);
            }
            assert forall|i: int, m: usize|
                0 <= i < more.len() && #[trigger] is_lowest(more[i], ids, m) implies exists|g: int|
                0 <= g < groups@.len() && (#[trigger] cores_of(groups@)[g])[0] == m by {
                assert(i < lists.len());
                assert(is_lowest(lists[i], ids, m));
            }
        }
        return;
    }
    let core = v[0];
    proof {
        lemma_sibling_values(v@, list, ids);
        assert forall|g: int| 0 <= g < groups@.len() implies (#[trigger] groups@[g])@.len() > 0 by {
            assert(start[g].len() > 0);
        }
    }
    let mut at: usize = 0;
    while at < groups.len() && groups[at][0] < core
        invariant
            at <= groups@.len(),
            cores_of(groups@) == start,
            forall|g: int| 0 <= g < groups@.len() ==> (#[trigger] groups@[g])@.len() > 0,
            forall|g: int| 0 <= g < at ==> (#[trigger] groups@[g])@[0] < core,
        decreases groups@.len() - at,
    {
        at = at + 1;
    }
    proof {
        assert forall|g: int| at < g < start.len() implies (#[trigger] start[g])[0] > core by {
            assert(start[at as int][0] < start[g][0]);
        }
    }
    if at < groups.len() && groups[at][0] == core {
        let mut merged: Vec<usize> = Vec::new();
        std::mem::swap(&mut merged, &mut groups[at]);
        let ghost whole = merged@;
        for i in 0..v.len()
            invariant
                ascending(v@),
                v@.len() > 0,
                core == v@[0],
                ascending(merged@),
                merged@.len() > 0,
                merged@[0] == core,
                forall|x: usize| #[trigger] merged@.contains(x) <==> whole.contains(x) || v@.take(
                    i as int,
                ).contains(x),
        {
            let ghost before = merged@;
            assert(core <= v@[i as int]);
            insert_ascending(&mut merged, v[i]);
            proof {
                let upto = v@.take(i as int);
                let next = v@.take(i + 1);
                assert(next =~= upto.push(v@[i as int]));
                assert forall|x: usize| #[trigger] merged@.contains(x) <==> whole.contains(x)
                    || next.contains(x) by {
                    assert(next.contains(x) <==> upto.contains(x) || x == v@[i as int]) by {
                        if upto.contains(x) {
                            let k = choose|k: int| 0 <= k < upto.len() && upto[k] == x;
                            assert(next[k] == x);
                        }
                        if x == v@[i as int] {
                            assert(next[i as int] == x);
                        }
                    }
                    assert(before.contains(x) <==> whole.contains(x) || upto.contains(x));
                }
            }
        }
        assert(v@.take(v@.len() as int) =~= v@);
        std::mem::swap(&mut merged, &mut groups[at]);
        proof {
            let now = cores_of(groups@);
            assert(now =~= start.update(at as int, groups@[at as int]@));
            assert forall|g: int, x: usize| 0 <= g < now.len() implies (
            #[trigger] now[g].contains(x) <==> in_core(more, ids, now[g][0], x)) by {
                lemma_in_core_push(lists, list, ids, now[g][0], x);
                assert(start[g].contains(x) <==> in_core(lists, ids, start[g][0], x));
                if g == at {
                    assert(v@.contains(x) <==> is_sibling(list, ids, x));
                } else {
                    assert(now[g] == start[g]);
                    assert(now[g][0] != core);
                }
            }
            assert forall|i: int, m: usize|
                0 <= i < more.len() && #[trigger] is_lowest(more[i], ids, m) implies exists|g: int|
                0 <= g < groups@.len() && (#[trigger] cores_of(groups@)[g])[0] == m by {
                if i < lists.len() {
                    assert(is_lowest(lists[i], ids, m));
                    let g = choose|g: int| 0 <= g < start.len() && (#[trigger] start[g])[0] == m;
                    assert(now[g][0] == m);
                } else {
                    assert(now[at as int][0] == m);
                }
            }
        }
    } else {
        let ghost added = v@;
        groups.insert(at, v);
        proof {
            let now = cores_of(groups@);
            assert forall|g: int| 0 <= g < now.len() implies #[trigger] now[g] == (if g < at {
                start[g]
            } else if g == at {
                added
            } else {
                start[g - 1]
            }) by {}
            assert forall|g: int| at <= g < start.len() implies (#[trigger] start[g])[0] > core by {
            }
            assert forall|g: int, x: usize| 0 <= g < now.len() implies (
            #[trigger] now[g].contains(x) <==> in_core(more, ids, now[g][0], x)) by {
                lemma_in_core_push(lists, list, ids, now[g][0], x);
                if g == at {
                    assert(added.contains(x) <==> is_sibling(list, ids, x));
                    if in_core(lists, ids, core, x) {
                        let i = choose|i: int|
                            0 <= i < lists.len() && is_lowest(#[trigger] lists[i], ids, core)
                                && is_sibling(lists[i], ids, x);
                        let h = choose|h: int|
                            0 <= h < start.len() && (#[trigger] start[h])[0] == core;
                        assert(false);
                    }
                } else {
                    let h = if g < at {
                        g
                    } else {
                        g - 1
                    };
                    assert(start[h].contains(x) <==> in_core(lists, ids, start[h][0], x));
                    assert(now[g][0] != core);
                }
            }
            assert forall|i: int, m: usize|
                0 <= i < more.len() && #[trigger] is_lowest(more[i], ids, m) implies exists|g: int|
                0 <= g < now.len() && (#[trigger] now[g])[0] == m by {
                if i < lists.len() {
                    assert(is_lowest(lists[i], ids, m));
                    let h = choose|h: int| 0 <= h < start.len() && (#[trigger] start[h])[0] == m;
                    if h < at {
                        assert(now[h][0] == m);
                    } else {
                        assert(now[h + 1][0] == m);
                    }
                } else {
                    assert(now[at as int][0] == m);
                }
            }
        }
    }
}

proof fn lemma_in_core_push(
    lists: Seq<Seq<usize>>,
    list: Seq<usize>,
    ids: Seq<usize>,
    core: usize,
    x: usize,
)
    ensures
        in_core(lists.push(list), ids, core, x) <==> in_core(lists, ids, core, x) || (is_lowest(
            list,
            ids,
            core,
        ) && is_sibling(list, ids, x)),
{
    let more = lists.push(list);
    if in_core(lists, ids, core, x) {
        let i = choose|i: int|
            0 <= i < lists.len() && is_lowest(#[trigger] lists[i], ids, core) && is_sibling(
                lists[i],
                ids,
                x,
            );
        assert(more[i] == lists[i]);
    }
    if is_lowest(list, ids, core) && is_sibling(list, ids, x) {
        assert(more[lists.len() as int] == list);
    }
    if in_core(more, ids, core, x) {
        let i = choose|i: int|
            0 <= i < more.len() && is_lowest(#[trigger] more[i], ids, core) && is_sibling(
                more[i],
                ids,
                x,
            );
        if i < lists.len() {
            assert(lists[i] == more[i]);
        }
    }
}

/// Appends one pair for each number of `xs` that is not covered yet, and covers it.
fn push_singles(
    out: &mut Vec<(usize, Option<usize>)>,
    xs: &[usize],
    covered: &mut BTreeSet<usize>,
)
    ensures
        final(out)@ == old(out)@ + singles(xs@, old(covered)@),
        final(covered)@ == old(covered)@.union(xs@.to_set()),
{
    let ghost start = out@;
    let ghost known = covered@;
    assert(start + singles(xs@.take(0), known) =~= start);
    assert(known.union(xs@.take(0).to_set()) =~= known);
    for i in 0..xs.len()
        invariant
            out@ == start + singles(xs@.take(i as int), known),
            covered@ == known.union(xs@.take(i as int).to_set()),
    {
        let x = xs[i];
        let ghost upto = xs@.take(i as int);
        let ghost next = xs@.take(i + 1);
        assert(next.drop_last() =~= upto);
        assert(upto.to_set().contains(x) <==> upto.contains(x));
        if covered.insert(x) {
            out.push((x, None));
            assert(out@ =~= start + singles(next, known));
        }
        assert(next =~= upto.push(x));
        assert(covered@ =~= known.union(next.to_set())) by {
            assert forall|y: usize| next.contains(y) <==> upto.contains(y) || y == x by {
                if upto.contains(y) {
                    let k = choose|k: int| 0 <= k < upto.len() && upto[k] == y;
                    assert(next[k] == y);
                }
                if y == x {
                    assert(next[i as int] == y);
                }
            }
        }
    }
    assert(xs@.take(xs@.len() as int) =~= xs@);
}

/// The numbers in a list of siblings, for each processor in turn.
pub open spec fn sibling_lists(ids: Seq<usize>, siblings: Map<usize, String>) -> Seq<Seq<usize>> {
    Seq::new(ids.len(), |i: int| cpu_id_list(trim(siblings[ids[i]]@)))
}

/// Whether the list of siblings of every processor is known.
pub open spec fn all_known(ids: Seq<usize>, siblings: Map<usize, String>) -> bool {
    forall|i: int| 0 <= i < ids.len() ==> siblings.contains_key(#[trigger] ids[i])
}

/// Whether some list names a processor that exists.
pub open spec fn any_sibling(lists: Seq<Seq<usize>>, ids: Seq<usize>) -> bool {
    exists|i: int, x: usize| 0 <= i < lists.len() && #[trigger] is_sibling(lists[i], ids, x)
}

/// Whether the lists of siblings say how the processors are paired.
pub open spec fn topology_known(ids: Seq<usize>, siblings: Map<usize, String>) -> bool {
    all_known(ids, siblings) && any_sibling(sibling_lists(ids, siblings), ids)
}

/// `pairs` are the pairs of the cores that the lists of siblings describe, by their first
/// processor.
pub open spec fn pairs_by_topology(
    pairs: Seq<(usize, Option<usize>)>,
    ids: Seq<usize>,
    siblings: Map<usize, String>,
) -> bool {
    exists|cores: Seq<Seq<usize>>|
        {
            &&& #[trigger] is_grouping(cores, sibling_lists(ids, siblings), ids)
            &&& sorted_from(pairs, listed_pairs(cores, ids))
        }
}

proof fn lemma_no_grouping_without_siblings(
    cores: Seq<Seq<usize>>,
    lists: Seq<Seq<usize>>,
    ids: Seq<usize>,
)
    requires
        is_grouping(cores, lists, ids),
    ensures
        cores.len() > 0 <==> any_sibling(lists, ids),
{
    if cores.len() > 0 {
        let core = cores[0];
        assert(core.contains(core[0]));
        assert(in_core(lists, ids, core[0], core[0]));
        let i = choose|i: int|
            0 <= i < lists.len() && is_lowest(#[trigger] lists[i], ids, core[0]) && is_sibling(
                lists[i],
                ids,
                core[0],
            );
        assert(is_sibling(lists[i], ids, core[0]));
    }
    if any_sibling(lists, ids) {
        let (i, x) = choose|i: int, x: usize|
            0 <= i < lists.len() && #[trigger] is_sibling(lists[i], ids, x);
        lemma_lowest_exists(lists[i], ids, x);
        let m = choose|m: usize| is_lowest(lists[i], ids, m);
        assert(is_lowest(lists[i], ids, m));
    }
}

proof fn lemma_lowest_exists(list: Seq<usize>, ids: Seq<usize>, x: usize)
    requires
        is_sibling(list, ids, x),
    ensures
        exists|m: usize| is_lowest(list, ids, m),
    decreases x,
{
    if !is_lowest(list, ids, x) {
        let y = choose|y: usize| is_sibling(list, ids, y) && y < x;
        lemma_lowest_exists(list, ids, y);
    }
}

/// The pairs of the cores, then each processor that no core holds.
fn list_pairs(groups: &Vec<Vec<usize>>, ids: &[usize]) -> (out: Vec<(usize, Option<usize>)>)
    requires
        forall|g: int| 0 <= g < groups@.len() ==> (#[trigger] groups@[g])@.len() > 0,
    ensures
        out@ == listed_pairs(cores_of(groups@), ids@),
{
    let ghost cores = cores_of(groups@);
    let mut covered: BTreeSet<usize> = BTreeSet::new();
    let mut out: Vec<(usize, Option<usize>)> = Vec::new();
    assert(covered@ =~= covered_by(cores, 0));
    for g in 0..groups.len()
        invariant
            cores == cores_of(groups@),
            forall|g: int| 0 <= g < groups@.len() ==> (#[trigger] groups@[g])@.len() > 0,
            covered@ == covered_by(cores, g as int),
            out@ == core_pairs(cores, g as int),
    {
        let group = &groups[g];
        let ghost known = covered@;
        assert(cores[g as int] == group@);
        let core = group[0];
        let sibling: Option<usize> = if group.len() > 1 {
            Some(group[1])
        } else {
            None
        };
        out.push((core, sibling));
        covered.insert(core);
        if let Some(second) = sibling {
            covered.insert(second);
        }
        assert(covered@ =~= known.union(lead_set(group@)));
        if group.len() > 2 {
            let extras = slice_subrange(group.as_slice(), 2, group.len());
            assert(extras@ =~= further(group@));
            push_singles(&mut out, extras, &mut covered);
        } else {
            assert(out@ =~= out@ + singles(further(group@), covered@));
        }
        assert(covered@ =~= known.union(group@.to_set())) by {
            assert forall|y: usize| group@.contains(y) <==> lead_set(group@).contains(y) || further(
                group@,
            ).contains(y) by {
                if group@.contains(y) {
                    let k = choose|k: int| 0 <= k < group@.len() && group@[k] == y;
                    if k >= 2 {
                        assert(further(group@)[k - 2] == y);
                    }
                }
                if lead_set(group@).contains(y) {
                    assert(y == group@[0] || y == group@[1]);
                }
                if further(group@).contains(y) {
                    let k = choose|k: int| 0 <= k < further(group@).len() && further(group@)[k] == y;
                    assert(group@[k + 2] == y);
                }
            }
        }
        assert(covered@ =~= covered_by(cores, g + 1)) by {
            assert forall|y: usize| covered_by(cores, g + 1).contains(y) <==> covered_by(
                cores,
                g as int,
            ).contains(y) || group@.contains(y) by {
                if covered_by(cores, g as int).contains(y) {
                    let h = choose|h: int| 0 <= h < g && #[trigger] cores[h].contains(y);
                    assert(cores[h].contains(y));
                }
                if group@.contains(y) {
                    assert(cores[g as int].contains(y));
                }
            }
        }
    }
    push_singles(&mut out, ids, &mut covered);
    out
}

/// The pairs that the lists of siblings describe. There are none where the list of some
/// processor is not known, or where no list names a processor that exists.
pub fn detect_pairs_from_sysfs(
    sorted_ids: &[usize],
    siblings: &BTreeMap<usize, String>,
) -> (r: Option<Vec<(usize, Option<usize>)>>)
    ensures
        r is Some <==> topology_known(sorted_ids@, siblings@),
        r matches Some(out) ==> pairs_by_topology(out@, sorted_ids@, siblings@),
{
    let ghost ids = sorted_ids@;
    let ghost lists = sibling_lists(ids, siblings@);
    let mut idset: BTreeSet<usize> = BTreeSet::new();
    for i in 0..sorted_ids.len()
        invariant
            ids == sorted_ids@,
            idset@ == ids.take(i as int).to_set(),
    {
        idset.insert(sorted_ids[i]);
        proof {
            let upto = ids.take(i as int);
            let next = ids.take(i + 1);
            assert(next =~= upto.push(ids[i as int]));
            assert forall|y: usize| next.contains(y) <==> upto.contains(y) || y == ids[i as int] by {
                if upto.contains(y) {
                    let k = choose|k: int| 0 <= k < upto.len() && upto[k] == y;
                    assert(next[k] == y);
                }
                if y == ids[i as int] {
                    assert(next[i as int] == y);
                }
            }
            assert(idset@ =~= next.to_set());
        }
    }
    assert(ids.take(ids.len() as int) =~= ids);
    let mut groups: Vec<Vec<usize>> = Vec::new();
    assert(is_grouping(cores_of(groups@), lists.take(0), ids));
    for i in 0..sorted_ids.len()
        invariant
            ids == sorted_ids@,
            idset@ == ids.to_set(),
            lists == sibling_lists(ids, siblings@),
            forall|j: int| 0 <= j < i ==> siblings@.contains_key(#[trigger] ids[j]),
            is_grouping(cores_of(groups@), lists.take(i as int), ids),
    {
        let id = sorted_ids[i];
        match siblings.get(&id) {
            Some(text) => {
                let chars = chars_of(text.as_str());
                let list = cpu_ids_in(trimmed(chars.as_slice()));
                assert(list@ == lists[i as int]);
                let v = siblings_of(&list, &idset, Ghost(ids));
                add_siblings(&mut groups, v, Ghost(lists.take(i as int)), Ghost(list@), Ghost(ids));
                assert(lists.take(i as int).push(list@) =~= lists.take(i + 1));
            },
            None => {
                assert(!siblings@.contains_key(ids[i as int]));
                return None;
            },
        }
    }
    assert(lists.take(ids.len() as int) =~= lists);
    proof {
        lemma_no_grouping_without_siblings(cores_of(groups@), lists, ids);
    }
    if groups.len() == 0 {
        return None;
    }
    assert forall|g: int| 0 <= g < groups@.len() implies (#[trigger] groups@[g])@.len() > 0 by {
        assert(cores_of(groups@)[g].len() > 0);
    }
    let listed = list_pairs(&groups, sorted_ids);
    Some(stable_sort(listed))
}

// ---------------------------------------------------------------------------
// Pairs without knowledge of the cores
// ---------------------------------------------------------------------------

/// Pairs that only the count decides: an even number of processors pairs the first half with
/// the second, any other number pairs neighbours and leaves the last one alone.
pub open spec fn counted_pairs(ids: Seq<usize>) -> Seq<(usize, Option<usize>)> {
    if ids.len() >= 2 && ids.len() % 2 == 0 {
        let half = (ids.len() / 2) as int;
        Seq::new(half as nat, |i: int| (ids[i], Some(ids[i + half])))
    } else {
        Seq::new(
            ((ids.len() + 1) / 2) as nat,
            |i: int|
                (
                    ids[2 * i],
                    if 2 * i + 1 < ids.len() {
                        Some(ids[2 * i + 1])
                    } else {
                        None
                    },
                ),
        )
    }
}

/// Pairs that only the count decides.
pub fn fallback_pairs(sorted_ids: &[usize]) -> (out: Vec<(usize, Option<usize>)>)
    ensures
        out@ == counted_pairs(sorted_ids@),
{
    let ghost ids = sorted_ids@;
    let n: usize = sorted_ids.len();
    let half: usize = n / 2;
    let mut out: Vec<(usize, Option<usize>)> = Vec::new();
    if n >= 2 && n % 2 == 0 {
        for i in 0..half
            invariant
                ids == sorted_ids@,
                n == ids.len(),
                half == n / 2,
                n >= 2 && n % 2 == 0,
                out@ =~= counted_pairs(ids).take(i as int),
        {
            out.push((sorted_ids[i], Some(sorted_ids[i + half])));
        }
        return out;
    }
    let count: usize = half + n % 2;
    for i in 0..count
        invariant
            ids == sorted_ids@,
            n == ids.len(),
            half == n / 2,
            count == half + n % 2,
            !(n >= 2 && n % 2 == 0),
            out@ =~= counted_pairs(ids).take(i as int),
    {
        let left = sorted_ids[2 * i];
        let right: Option<usize> = if i < half {
            Some(sorted_ids[2 * i + 1])
        } else {
            None
        };
        out.push((left, right));
    }
    out
}

// ---------------------------------------------------------------------------
// The pairs of all processors
// ---------------------------------------------------------------------------

/// The numbers in ascending order.
pub open spec fn in_order(ids: Seq<usize>) -> Seq<usize> {
    ids.sort_by(|a: usize, b: usize| a <= b)
}

/// The numbers in ascending order.
pub fn sort_ids(ids: &Vec<usize>) -> (out: Vec<usize>)
    ensures
        out@ == in_order(ids@),
{
    broadcast use vstd::seq_lib::group_to_multiset_ensures;

    let mut out: Vec<usize> = Vec::new();
    for i in 0..ids.len()
        invariant
            out@.to_multiset() == ids@.take(i as int).to_multiset(),
            forall|j: int, k: int| 0 <= j < k < out@.len() ==> out@[j] <= out@[k],
    {
        let x = ids[i];
        let mut at: usize = 0;
        while at < out.len() && out[at] < x
            invariant
                at <= out@.len(),
                forall|j: int| 0 <= j < at ==> out@[j] < x,
            decreases out@.len() - at,
        {
            at = at + 1;
        }
        let ghost before = out@;
        out.insert(at, x);
        proof {
            assert(ids@.take(i + 1) =~= ids@.take(i as int).push(x));
            vstd::seq_lib::to_multiset_insert(before, at as int, x);
            vstd::seq_lib::to_multiset_build(ids@.take(i as int), x);
        }
    }
    proof {
        let leq = |a: usize, b: usize| a <= b;
        assert(ids@.take(ids@.len() as int) =~= ids@);
        ids@.lemma_sort_by_ensures(leq);
        vstd::seq_lib::lemma_sorted_unique(out@, in_order(ids@), leq);
    }
    out
}

/// Whether `pairs` are those of the processors `ids`: from the lists of siblings where these
/// say how they are paired, else by their count.
pub open spec fn are_pairs(
    pairs: Seq<(usize, Option<usize>)>,
    ids: Seq<usize>,
    siblings: Map<usize, String>,
) -> bool {
    if topology_known(ids, siblings) {
        pairs_by_topology(pairs, ids, siblings)
    } else {
        pairs == counted_pairs(ids)
    }
}

/// The pairs of the processors: from the lists of siblings where these say how they are
/// paired, else by their count.
pub fn detect_cpu_pairs(ids: Vec<usize>, siblings: &BTreeMap<usize, String>) -> (out: Vec<
    (usize, Option<usize>),
>)
    ensures
        are_pairs(out@, in_order(ids@), siblings@),
{
    let sorted_ids = sort_ids(&ids);
    match detect_pairs_from_sysfs(sorted_ids.as_slice(), siblings) {
        Some(pairs) => pairs,
        None => fallback_pairs(sorted_ids.as_slice()),
    }
}

// ---------------------------------------------------------------------------
// Laws
// ---------------------------------------------------------------------------

proof fn lemma_count_all_pairs(pairs: Seq<(usize, Option<usize>)>)
    requires
        forall|i: int| 0 <= i < pairs.len() ==> (#[trigger] pairs[i]).1 is Some,
    ensures
        entries_count(pairs) == 2 * pairs.len(),
    decreases pairs.len(),
{
    if pairs.len() > 0 {
        assert(pairs[pairs.len() - 1].1 is Some);
        assert forall|i: int| 0 <= i < pairs.drop_last().len() implies (
        #[trigger] pairs.drop_last()[i]).1 is Some by {
            assert(pairs[i].1 is Some);
        }
        lemma_count_all_pairs(pairs.drop_last());
    }
}

/// Pairing by the count names as many processors as there are.
pub proof fn law_counted_pairs_are_complete(ids: Seq<usize>)
    ensures
        entries_count(counted_pairs(ids)) == ids.len(),
{
    let pairs = counted_pairs(ids);
    if ids.len() % 2 == 0 {
        assert forall|i: int| 0 <= i < pairs.len() implies (#[trigger] pairs[i]).1 is Some by {}
        lemma_count_all_pairs(pairs);
    } else {
        let front = pairs.drop_last();
        assert forall|i: int| 0 <= i < front.len() implies (#[trigger] front[i]).1 is Some by {
            assert(front[i] == pairs[i]);
        }
        lemma_count_all_pairs(front);
    }
}

/// Pairing by the count names exactly the processors that exist.
pub proof fn law_counted_pairs_name_all(ids: Seq<usize>)
    ensures
        forall|x: usize| #[trigger] names(counted_pairs(ids), x) <==> ids.contains(x),
{
    let pairs = counted_pairs(ids);
    let n = ids.len() as int;
    assert forall|x: usize| #[trigger] names(pairs, x) <==> ids.contains(x) by {
        if names(pairs, x) {
            let k = choose|k: int|
                0 <= k < pairs.len() && ((#[trigger] pairs[k]).0 == x || pairs[k].1 == Some(x));
            if n % 2 == 0 {
                assert(ids[k] == x || ids[k + n / 2] == x);
            } else {
                assert(ids[2 * k] == x || ids[2 * k + 1] == x);
            }
        }
        if ids.contains(x) {
            let k = choose|k: int| 0 <= k < ids.len() && ids[k] == x;
            if n % 2 == 0 {
                if k < n / 2 {
                    assert(pairs[k].0 == x);
                } else {
                    assert(pairs[k - n / 2].1 == Some(x));
                }
            } else if k % 2 == 0 {
                assert(pairs[k / 2].0 == x);
            } else {
                assert(pairs[k / 2].1 == Some(x));
            }
        }
    }
}

/// Putting numbers in order changes neither how many there are nor which.
pub proof fn lemma_in_order(ids: Seq<usize>)
    ensures
        in_order(ids).len() == ids.len(),
        ids.no_duplicates() ==> in_order(ids).no_duplicates(),
        forall|x: usize| in_order(ids).contains(x) <==> ids.contains(x),
{
    broadcast use vstd::seq_lib::group_to_multiset_ensures;

    let leq = |a: usize, b: usize| a <= b;
    ids.lemma_sort_by_ensures(leq);
    let out = in_order(ids);
    assert(out.to_multiset() == ids.to_multiset());
    assert(out.to_multiset().len() == out.len());
    assert(ids.to_multiset().len() == ids.len());
    assert forall|x: usize| out.contains(x) <==> ids.contains(x) by {
        assert(out.to_multiset().count(x) == ids.to_multiset().count(x));
    }
    if ids.no_duplicates() {
        ids.lemma_multiset_has_no_duplicates();
        out.lemma_multiset_has_no_duplicates_conv();
    }
}

/// Whether a pair of the list names the processor.
pub open spec fn names(pairs: Seq<(usize, Option<usize>)>, x: usize) -> bool {
    exists|k: int| 0 <= k < pairs.len() && ((#[trigger] pairs[k]).0 == x || pairs[k].1 == Some(x))
}

proof fn lemma_names_add(a: Seq<(usize, Option<usize>)>, b: Seq<(usize, Option<usize>)>, x: usize)
    ensures
        names(a + b, x) <==> names(a, x) || names(b, x),
{
    let c = a + b;
    if names(a, x) {
        let k = choose|k: int| 0 <= k < a.len() && ((#[trigger] a[k]).0 == x || a[k].1 == Some(x));
        assert(c[k] == a[k]);
    }
    if names(b, x) {
        let k = choose|k: int| 0 <= k < b.len() && ((#[trigger] b[k]).0 == x || b[k].1 == Some(x));
        assert(c[a.len() + k] == b[k]);
    }
    if names(c, x) {
        let k = choose|k: int| 0 <= k < c.len() && ((#[trigger] c[k]).0 == x || c[k].1 == Some(x));
        if k < a.len() {
            assert(a[k] == c[k]);
        } else {
            assert(b[k - a.len()] == c[k]);
        }
    }
}

proof fn lemma_names_one(pair: (usize, Option<usize>), x: usize)
    ensures
        names(seq![pair], x) <==> pair.0 == x || pair.1 == Some(x),
{
    let one = seq![pair];
    assert(one[0] == pair);
    if names(one, x) {
        let k = choose|k: int| 0 <= k < one.len() && ((#[trigger] one[k]).0 == x || one[k].1 == Some(x));
        assert(k == 0);
    }
}

proof fn lemma_entries_add(a: Seq<(usize, Option<usize>)>, b: Seq<(usize, Option<usize>)>)
    ensures
        entries_count(a + b) == entries_count(a) + entries_count(b),
    decreases b.len(),
{
    if b.len() == 0 {
        assert(a + b =~= a);
    } else {
        assert((a + b).drop_last() =~= a + b.drop_last());
        assert((a + b).last() == b.last());
        lemma_entries_add(a, b.drop_last());
    }
}

proof fn lemma_singles(xs: Seq<usize>, covered: Set<usize>)
    ensures
        forall|x: usize| #[trigger] names(singles(xs, covered), x) <==> xs.contains(x) && !covered.contains(x),
        entries_count(singles(xs, covered)) == singles(xs, covered).len(),
        covered.finite() ==> {
            &&& covered.union(xs.to_set()).finite()
            &&& covered.union(xs.to_set()).len() == covered.len() + singles(xs, covered).len()
        },
    decreases xs.len(),
{
    let list = singles(xs, covered);
    if xs.len() == 0 {
        assert(covered.union(xs.to_set()) =~= covered);
        assert forall|x: usize| !(#[trigger] names(list, x)) by {}
    } else {
        let front = xs.drop_last();
        let last = xs.last();
        let before = singles(front, covered);
        lemma_singles(front, covered);
        assert forall|x: usize| xs.contains(x) <==> front.contains(x) || x == last by {
            if xs.contains(x) {
                let k = choose|k: int| 0 <= k < xs.len() && xs[k] == x;
                if k < front.len() {
                    assert(front[k] == x);
                }
            }
            if front.contains(x) {
                let k = choose|k: int| 0 <= k < front.len() && front[k] == x;
                assert(xs[k] == x);
            }
            if x == last {
                assert(xs[xs.len() - 1] == x);
            }
        }
        if covered.contains(last) || front.contains(last) {
            assert(covered.union(xs.to_set()) =~= covered.union(front.to_set()));
        } else {
            assert(list =~= before + seq![(last, None)]);
            assert(list.drop_last() =~= before);
            assert forall|x: usize| #[trigger] names(list, x) <==> xs.contains(x) && !covered.contains(x) by {
                lemma_names_add(before, seq![(last, None::<usize>)], x);
                lemma_names_one((last, None::<usize>), x);
                assert(names(before, x) <==> front.contains(x) && !covered.contains(x));
            }
            assert(covered.union(xs.to_set()) =~= covered.union(front.to_set()).insert(last));
        }
    }
}

/// Whether no processor belongs to two cores.
spec fn cores_disjoint(groups: Seq<Seq<usize>>) -> bool {
    forall|g: int, h: int, x: usize|
        0 <= g < h < groups.len() && #[trigger] groups[g].contains(x) ==> !#[trigger] groups[h].contains(x)
}

proof fn lemma_core_pairs(groups: Seq<Seq<usize>>, n: int)
    requires
        0 <= n <= groups.len(),
        forall|g: int| 0 <= g < groups.len() ==> (#[trigger] groups[g]).len() > 0 && ascending(groups[g]),
    ensures
        forall|x: usize| #[trigger] names(core_pairs(groups, n), x) <==> covered_by(groups, n).contains(x),
        cores_disjoint(groups) ==> {
            &&& covered_by(groups, n).finite()
            &&& entries_count(core_pairs(groups, n)) == covered_by(groups, n).len()
        },
    decreases n,
{
    let all = core_pairs(groups, n);
    if n == 0 {
        assert(covered_by(groups, 0) =~= Set::<usize>::empty());
        assert forall|x: usize| !(#[trigger] names(all, x)) by {}
    } else {
        lemma_core_pairs(groups, n - 1);
        let before = core_pairs(groups, n - 1);
        let core = groups[n - 1];
        let lead = lead_pair(core);
        let known = covered_by(groups, n - 1);
        let covered = known.union(lead_set(core));
        let rest = singles(further(core), covered);
        assert(core.len() > 0 && ascending(core));
        lemma_singles(further(core), covered);
        assert(before.push(lead) =~= before + seq![lead]);
        assert(all == (before + seq![lead]) + rest);
        assert forall|x: usize| core.contains(x) <==> lead_set(core).contains(x) || further(core).contains(x) by {
            if core.contains(x) {
                let k = choose|k: int| 0 <= k < core.len() && core[k] == x;
                if k >= 2 {
                    assert(further(core)[k - 2] == x);
                }
            }
            if further(core).contains(x) {
                let k = choose|k: int| 0 <= k < further(core).len() && further(core)[k] == x;
                assert(core[k + 2] == x);
            }
            if lead_set(core).contains(x) {
                assert(x == core[0] || (core.len() > 1 && x == core[1]));
            }
        }
        assert forall|x: usize| covered_by(groups, n).contains(x) <==> known.contains(x) || core.contains(x) by {
            if core.contains(x) {
                assert(groups[n - 1].contains(x));
            }
            if known.contains(x) {
                let g = choose|g: int| 0 <= g < n - 1 && #[trigger] groups[g].contains(x);
                assert(groups[g].contains(x));
            }
        }
        assert forall|x: usize| #[trigger] names(all, x) <==> covered_by(groups, n).contains(x) by {
            lemma_names_add(before + seq![lead], rest, x);
            lemma_names_add(before, seq![lead], x);
            lemma_names_one(lead, x);
            assert(names(before, x) <==> known.contains(x));
            assert(names(rest, x) <==> further(core).contains(x) && !covered.contains(x));
            assert(lead_set(core).contains(x) <==> lead.0 == x || lead.1 == Some(x));
        }
        if cores_disjoint(groups) {
            lemma_entries_add(before + seq![lead], rest);
            lemma_entries_add(before, seq![lead]);
            assert(seq![lead].drop_last() =~= Seq::<(usize, Option<usize>)>::empty());
            assert(entries_count(seq![lead]) == pair_size(lead)) by {
                reveal_with_fuel(entries_count, 2);
            }
            assert forall|x: usize| core.contains(x) implies !known.contains(x) by {
                if known.contains(x) {
                    let g = choose|g: int| 0 <= g < n - 1 && #[trigger] groups[g].contains(x);
                    assert(groups[n - 1].contains(x));
                }
            }
            assert(core.contains(core[0]));
            if core.len() > 1 {
                assert(core[0] < core[1]);
                assert(core.contains(core[1]));
                assert(covered =~= known.insert(core[0]).insert(core[1]));
            } else {
                assert(covered =~= known.insert(core[0]));
            }
            assert(covered.len() == known.len() + pair_size(lead));
            assert(covered_by(groups, n) =~= covered.union(further(core).to_set()));
        }
    }
}

/// Whether processors that have a sibling in common have all siblings in common.
pub open spec fn siblings_agree(lists: Seq<Seq<usize>>, ids: Seq<usize>) -> bool {
    forall|i: int, j: int, x: usize, y: usize|
        0 <= i < lists.len() && 0 <= j < lists.len() && #[trigger] is_sibling(lists[i], ids, x)
            && #[trigger] is_sibling(lists[j], ids, x) && #[trigger] is_sibling(lists[i], ids, y)
            ==> is_sibling(lists[j], ids, y)
}

proof fn lemma_cores_disjoint(groups: Seq<Seq<usize>>, lists: Seq<Seq<usize>>, ids: Seq<usize>)
    requires
        is_grouping(groups, lists, ids),
        siblings_agree(lists, ids),
    ensures
        cores_disjoint(groups),
{
    assert forall|g: int, h: int, x: usize|
        0 <= g < h < groups.len() && #[trigger] groups[g].contains(x) implies !(
    #[trigger] groups[h].contains(x)) by {
        if groups[h].contains(x) {
            let (a, b) = (groups[g][0], groups[h][0]);
            assert(in_core(lists, ids, a, x) && in_core(lists, ids, b, x));
            let i = choose|i: int|
                0 <= i < lists.len() && is_lowest(#[trigger] lists[i], ids, a) && is_sibling(
                    lists[i],
                    ids,
                    x,
                );
            let j = choose|j: int|
                0 <= j < lists.len() && is_lowest(#[trigger] lists[j], ids, b) && is_sibling(
                    lists[j],
                    ids,
                    x,
                );
            assert(is_sibling(lists[i], ids, a) && is_sibling(lists[j], ids, b));
            assert(is_sibling(lists[j], ids, a));
            assert(is_sibling(lists[i], ids, b));
            assert(a < b);
        }
    }
}

proof fn lemma_arranged_multiset<T>(out: Seq<T>, items: Seq<T>, p: Seq<int>)
    requires
        crate::order::arranges(out, items, p),
    ensures
        out.to_multiset() == items.to_multiset(),
    decreases out.len(),
{
    broadcast use vstd::seq_lib::group_to_multiset_ensures;

    if out.len() == 0 {
        assert(out =~= items);
    } else {
        let n = out.len() - 1;
        let k = p[n];
        let fewer = items.remove(k);
        let front = out.drop_last();
        let q = Seq::new(
            n as nat,
            |i: int|
                if p[i] < k {
                    p[i]
                } else {
                    p[i] - 1
                },
        );
        assert forall|i: int| 0 <= i < q.len() implies 0 <= #[trigger] q[i] < fewer.len() by {
            assert(p[i] != p[n]);
            assert(0 <= p[i] < items.len());
        }
        assert forall|i: int, j: int| 0 <= i < q.len() && 0 <= j < q.len() && i != j implies q[i] != q[j] by {
            assert(p[i] != p[j] && p[i] != p[n] && p[j] != p[n]);
        }
        assert forall|i: int| 0 <= i < q.len() implies #[trigger] front[i] == fewer[q[i]] by {
            assert(out[i] == items[p[i]]);
            assert(p[i] != p[n]);
        }
        lemma_arranged_multiset(front, fewer, q);
        assert(out =~= front.push(items[k]));
        vstd::seq_lib::to_multiset_remove(items, k);
        vstd::seq_lib::to_multiset_build(front, items[k]);
        assert(items.contains(items[k]));
        assert(items.to_multiset().count(items[k]) > 0);
        assert(items.to_multiset() =~= items.to_multiset().remove(items[k]).insert(items[k]));
    }
}

proof fn lemma_entries_fold(pairs: Seq<(usize, Option<usize>)>)
    ensures
        entries_count(pairs) == pairs.fold_right(
            |p: (usize, Option<usize>), n: nat| pair_size(p) + n,
            0nat,
        ),
    decreases pairs.len(),
{
    let f = |p: (usize, Option<usize>), n: nat| pair_size(p) + n;
    if pairs.len() > 0 {
        lemma_entries_fold(pairs.drop_last());
        lemma_fold_shift(pairs.drop_last(), pair_size(pairs.last()));
    }
}

proof fn lemma_fold_shift(pairs: Seq<(usize, Option<usize>)>, v: nat)
    ensures
        pairs.fold_right(|p: (usize, Option<usize>), n: nat| pair_size(p) + n, v) == v + pairs.fold_right(
            |p: (usize, Option<usize>), n: nat| pair_size(p) + n,
            0nat,
        ),
    decreases pairs.len(),
{
    if pairs.len() > 0 {
        let front = pairs.drop_last();
        let size = pair_size(pairs.last());
        lemma_fold_shift(front, size + v);
        lemma_fold_shift(front, size);
    }
}

proof fn lemma_sorted_entries(out: Seq<(usize, Option<usize>)>, items: Seq<(usize, Option<usize>)>)
    requires
        sorted_from(out, items),
    ensures
        entries_count(out) == entries_count(items),
        forall|x: usize| #[trigger] names(out, x) <==> names(items, x),
{
    let p = choose|p: Seq<int>|
        {
            &&& #[trigger] crate::order::arranges(out, items, p)
            &&& crate::order::all_orderly(items) ==> crate::order::in_stable_order(items, p)
        };
    lemma_arranged_multiset(out, items, p);
    let f = |p: (usize, Option<usize>), n: nat| pair_size(p) + n;
    lemma_entries_fold(out);
    lemma_entries_fold(items);
    vstd::seq_lib::lemma_fold_right_permutation(out, items, f, 0nat);
    crate::order::lemma_sorted_keeps_items(out, items);
    assert forall|x: usize| #[trigger] names(out, x) <==> names(items, x) by {
        if names(out, x) {
            let k = choose|k: int| 0 <= k < out.len() && ((#[trigger] out[k]).0 == x || out[k].1 == Some(x));
            assert(items.contains(out[k]));
            let m = choose|m: int| 0 <= m < items.len() && items[m] == out[k];
            assert(items[m].0 == x || items[m].1 == Some(x));
        }
        if names(items, x) {
            let k = choose|k: int|
                0 <= k < items.len() && ((#[trigger] items[k]).0 == x || items[k].1 == Some(x));
            assert(out.contains(items[k]));
            let m = choose|m: int| 0 <= m < out.len() && out[m] == items[k];
            assert(out[m].0 == x || out[m].1 == Some(x));
        }
    }
}

/// Pairing by the lists of siblings names exactly the processors that exist.
pub proof fn law_listed_pairs_name_all(
    pairs: Seq<(usize, Option<usize>)>,
    ids: Seq<usize>,
    siblings: Map<usize, String>,
)
    requires
        pairs_by_topology(pairs, ids, siblings),
    ensures
        forall|x: usize| #[trigger] names(pairs, x) <==> ids.contains(x),
{
    let lists = sibling_lists(ids, siblings);
    let cores = choose|cores: Seq<Seq<usize>>|
        {
            &&& #[trigger] is_grouping(cores, lists, ids)
            &&& sorted_from(pairs, listed_pairs(cores, ids))
        };
    lemma_listed(pairs, cores, lists, ids);
}

/// Where processors that have a sibling in common have all siblings in common, pairing by the
/// lists of siblings names as many processors as exist: each once.
pub proof fn law_listed_pairs_are_complete(
    pairs: Seq<(usize, Option<usize>)>,
    ids: Seq<usize>,
    siblings: Map<usize, String>,
)
    requires
        pairs_by_topology(pairs, ids, siblings),
        siblings_agree(sibling_lists(ids, siblings), ids),
        ids.no_duplicates(),
    ensures
        entries_count(pairs) == ids.len(),
{
    let lists = sibling_lists(ids, siblings);
    let cores = choose|cores: Seq<Seq<usize>>|
        {
            &&& #[trigger] is_grouping(cores, lists, ids)
            &&& sorted_from(pairs, listed_pairs(cores, ids))
        };
    lemma_cores_disjoint(cores, lists, ids);
    lemma_listed(pairs, cores, lists, ids);
}

proof fn lemma_listed(
    pairs: Seq<(usize, Option<usize>)>,
    cores: Seq<Seq<usize>>,
    lists: Seq<Seq<usize>>,
    ids: Seq<usize>,
)
    requires
        is_grouping(cores, lists, ids),
        sorted_from(pairs, listed_pairs(cores, ids)),
    ensures
        forall|x: usize| #[trigger] names(pairs, x) <==> ids.contains(x),
        cores_disjoint(cores) && ids.no_duplicates() ==> entries_count(pairs) == ids.len(),
{
    let n = cores.len() as int;
    let listed = listed_pairs(cores, ids);
    let covered = covered_by(cores, n);
    let led = core_pairs(cores, n);
    let rest = singles(ids, covered);
    lemma_sorted_entries(pairs, listed);
    lemma_core_pairs(cores, n);
    lemma_singles(ids, covered);
    assert forall|x: usize| covered.contains(x) implies ids.contains(x) by {
        let g = choose|g: int| 0 <= g < n && #[trigger] cores[g].contains(x);
        assert(in_core(lists, ids, cores[g][0], x));
    }
    assert forall|x: usize| #[trigger] names(pairs, x) <==> ids.contains(x) by {
        lemma_names_add(led, rest, x);
        assert(names(pairs, x) <==> names(listed, x));
        assert(names(led, x) <==> covered.contains(x));
        assert(names(rest, x) <==> ids.contains(x) && !covered.contains(x));
    }
    if cores_disjoint(cores) && ids.no_duplicates() {
        lemma_entries_add(led, rest);
        assert(covered.union(ids.to_set()) =~= ids.to_set());
        ids.unique_seq_to_set();
    }
}

/// Ascending lists of the same numbers are the same.
proof fn lemma_ascending_once(a: Seq<usize>, b: Seq<usize>)
    requires
        ascending(a),
        ascending(b),
        forall|x: usize| a.contains(x) <==> b.contains(x),
    ensures
        a == b,
    decreases a.len(),
{
    if a.len() > 0 {
        assert(a.contains(a.last()));
        assert(b.contains(a.last()));
        assert(b.contains(b.last()));
        assert(a.contains(b.last()));
        assert(a.last() == b.last());
        let (c, d) = (a.drop_last(), b.drop_last());
        assert forall|x: usize| c.contains(x) <==> d.contains(x) by {
            if c.contains(x) {
                let i = choose|i: int| 0 <= i < c.len() && c[i] == x;
                assert(a[i] == x);
                assert(b.contains(x));
                let j = choose|j: int| 0 <= j < b.len() && b[j] == x;
                assert(j < d.len() && d[j] == x);
            }
            if d.contains(x) {
                let j = choose|j: int| 0 <= j < d.len() && d[j] == x;
                assert(b[j] == x);
                assert(a.contains(x));
                let i = choose|i: int| 0 <= i < a.len() && a[i] == x;
                assert(i < c.len() && c[i] == x);
            }
        }
        lemma_ascending_once(c, d);
        assert(a =~= c.push(a.last()));
        assert(b =~= d.push(b.last()));
    } else if b.len() > 0 {
        assert(b.contains(b[0]));
        assert(a.contains(b[0]));
    }
}

/// The lowest processor of each core.
spec fn heads(cores: Seq<Seq<usize>>) -> Seq<usize> {
    Seq::new(cores.len(), |g: int| cores[g][0])
}

/// The lowest processor of a core is the lowest sibling of some list, and each of these is.
proof fn lemma_heads(cores: Seq<Seq<usize>>, lists: Seq<Seq<usize>>, ids: Seq<usize>, x: usize)
    requires
        is_grouping(cores, lists, ids),
    ensures
        heads(cores).contains(x) <==> exists|i: int|
            0 <= i < lists.len() && is_lowest(#[trigger] lists[i], ids, x),
{
    if heads(cores).contains(x) {
        let g = choose|g: int| 0 <= g < heads(cores).len() && heads(cores)[g] == x;
        assert(cores[g].len() > 0);
        assert(cores[g].contains(x));
        assert(in_core(lists, ids, x, x));
    }
    if exists|i: int| 0 <= i < lists.len() && is_lowest(#[trigger] lists[i], ids, x) {
        let i = choose|i: int| 0 <= i < lists.len() && is_lowest(#[trigger] lists[i], ids, x);
        assert(is_lowest(lists[i], ids, x));
        let g = choose|g: int| 0 <= g < cores.len() && (#[trigger] cores[g])[0] == x;
        assert(heads(cores)[g] == x);
    }
}

/// The lists of siblings describe one grouping into cores.
proof fn lemma_grouping_once(a: Seq<Seq<usize>>, b: Seq<Seq<usize>>, lists: Seq<Seq<usize>>, ids: Seq<usize>)
    requires
        is_grouping(a, lists, ids),
        is_grouping(b, lists, ids),
    ensures
        a == b,
{
    assert forall|x: usize| heads(a).contains(x) <==> heads(b).contains(x) by {
        lemma_heads(a, lists, ids, x);
        lemma_heads(b, lists, ids, x);
    }
    assert forall|i: int, j: int| 0 <= i < j < heads(a).len() implies #[trigger] heads(a)[i]
        < #[trigger] heads(a)[j] by {
        assert(a[i][0] < a[j][0]);
    }
    assert forall|i: int, j: int| 0 <= i < j < heads(b).len() implies #[trigger] heads(b)[i]
        < #[trigger] heads(b)[j] by {
        assert(b[i][0] < b[j][0]);
    }
    lemma_ascending_once(heads(a), heads(b));
    assert(a.len() == heads(a).len() && b.len() == heads(b).len());
    assert forall|g: int| 0 <= g < a.len() implies a[g] == b[g] by {
        assert(a[g].len() > 0 && b[g].len() > 0);
        assert(heads(a)[g] == a[g][0] && heads(b)[g] == b[g][0]);
        assert forall|x: usize| a[g].contains(x) <==> b[g].contains(x) by {
            assert(a[g].contains(x) <==> in_core(lists, ids, a[g][0], x));
            assert(b[g].contains(x) <==> in_core(lists, ids, b[g][0], x));
        }
        lemma_ascending_once(a[g], b[g]);
    }
    assert(a =~= b);
}

/// The pairs are the same in whatever order the numbers of the processors are given.
pub proof fn law_pairing_ignores_order(
    a: Seq<usize>,
    b: Seq<usize>,
    siblings: Map<usize, String>,
    first: Seq<(usize, Option<usize>)>,
    second: Seq<(usize, Option<usize>)>,
)
    requires
        a.to_multiset() == b.to_multiset(),
        are_pairs(first, in_order(a), siblings),
        are_pairs(second, in_order(b), siblings),
    ensures
        in_order(a) == in_order(b),
        first == second,
{
    let leq = |x: usize, y: usize| x <= y;
    a.lemma_sort_by_ensures(leq);
    b.lemma_sort_by_ensures(leq);
    vstd::seq_lib::lemma_sorted_unique(in_order(a), in_order(b), leq);
    let ids = in_order(a);
    if topology_known(ids, siblings) {
        let lists = sibling_lists(ids, siblings);
        let c = choose|cores: Seq<Seq<usize>>|
            {
                &&& #[trigger] is_grouping(cores, lists, ids)
                &&& sorted_from(first, listed_pairs(cores, ids))
            };
        let d = choose|cores: Seq<Seq<usize>>|
            {
                &&& #[trigger] is_grouping(cores, lists, ids)
                &&& sorted_from(second, listed_pairs(cores, ids))
            };
        lemma_grouping_once(c, d, lists, ids);
        crate::order::lemma_sorted_once(first, second, listed_pairs(c, ids));
    }
}

/// Where only the count decides, an even number of processors is paired so that the two of a pair
/// are half the number apart; of an odd number neighbours are paired, and the last stays alone.
pub proof fn law_halves_or_neighbours(ids: Seq<usize>, i: int)
    requires
        0 <= i < counted_pairs(ids).len(),
    ensures
        ids.len() % 2 == 0 ==> {
            let half = ids.len() as int / 2;
            &&& counted_pairs(ids).len() == half
            &&& counted_pairs(ids)[i] == (ids[i], Some(ids[i + half]))
        },
        ids.len() % 2 == 1 ==> {
            &&& 2 * counted_pairs(ids).len() == ids.len() + 1
            &&& counted_pairs(ids)[i].0 == ids[2 * i]
            &&& 2 * i + 1 < ids.len() ==> counted_pairs(ids)[i].1 == Some(ids[2 * i + 1])
            &&& 2 * i + 1 == ids.len() ==> counted_pairs(ids)[i].1 is None
        },
{
}

proof fn lemma_lead_is_listed(groups: Seq<Seq<usize>>, n: int, g: int)
    requires
        0 <= g < n <= groups.len(),
    ensures
        core_pairs(groups, n).contains(lead_pair(groups[g])),
    decreases n,
{
    let before = core_pairs(groups, n - 1);
    let core = groups[n - 1];
    let all = core_pairs(groups, n);
    if g == n - 1 {
        assert(all[before.len() as int] == lead_pair(core));
    } else {
        lemma_lead_is_listed(groups, n - 1, g);
        let k = choose|k: int| 0 <= k < before.len() && before[k] == lead_pair(groups[g]);
        assert(all[k] == before[k]);
    }
}

/// Whether a list names, of the processors that exist, only these two.
pub open spec fn names_only(list: Seq<usize>, ids: Seq<usize>, a: usize, b: usize) -> bool {
    forall|x: usize| is_sibling(list, ids, x) <==> x == a || x == b
}

proof fn lemma_core_of_two(
    cores: Seq<Seq<usize>>,
    lists: Seq<Seq<usize>>,
    ids: Seq<usize>,
    i: int,
    a: usize,
    b: usize,
) -> (g: int)
    requires
        is_grouping(cores, lists, ids),
        siblings_agree(lists, ids),
        0 <= i < lists.len(),
        a <= b,
        names_only(lists[i], ids, a, b),
    ensures
        0 <= g < cores.len(),
        a < b ==> cores[g] == seq![a, b],
        a == b ==> cores[g] == seq![a],
{
    assert(is_sibling(lists[i], ids, a) && is_sibling(lists[i], ids, b));
    assert(is_lowest(lists[i], ids, a));
    let g = choose|g: int| 0 <= g < cores.len() && (#[trigger] cores[g])[0] == a;
    let core = cores[g];
    assert(core.len() > 0 && ascending(core));
    assert forall|x: usize| core.contains(x) implies x == a || x == b by {
        assert(in_core(lists, ids, core[0], x));
        let j = choose|j: int|
            0 <= j < lists.len() && is_lowest(#[trigger] lists[j], ids, core[0]) && is_sibling(lists[j], ids, x);
        assert(is_sibling(lists[j], ids, a));
        assert(is_sibling(lists[i], ids, x));
    }
    assert(core.contains(b)) by {
        assert(in_core(lists, ids, core[0], b));
    }
    let k = choose|k: int| 0 <= k < core.len() && core[k] == b;
    assert forall|j: int| 0 <= j < core.len() implies core[j] == a || core[j] == b by {
        assert(core.contains(core[j]));
    }
    if core.len() > 1 {
        assert(core[0] < core[1]);
        assert(core[1] == b);
    }
    if core.len() > 2 {
        assert(core[1] < core[2]);
    }
    if a < b {
        assert(core =~= seq![a, b]);
    } else {
        assert(core =~= seq![a]);
    }
    g
}

/// Two processors that are each other's only siblings are paired, the lower first; a processor
/// whose only sibling is itself stays alone.
pub proof fn law_siblings_are_paired(
    pairs: Seq<(usize, Option<usize>)>,
    ids: Seq<usize>,
    siblings: Map<usize, String>,
    i: int,
    a: usize,
    b: usize,
)
    requires
        are_pairs(pairs, ids, siblings),
        all_known(ids, siblings),
        siblings_agree(sibling_lists(ids, siblings), ids),
        0 <= i < ids.len(),
        a <= b,
        names_only(cpu_id_list(trim(siblings[ids[i]]@)), ids, a, b),
    ensures
        a < b ==> pairs.contains((a, Some(b))),
        a == b ==> pairs.contains((a, None)),
{
    let lists = sibling_lists(ids, siblings);
    assert(lists[i] == cpu_id_list(trim(siblings[ids[i]]@)));
    assert(is_sibling(lists[i], ids, a));
    assert(topology_known(ids, siblings));
    let cores = choose|cores: Seq<Seq<usize>>|
        {
            &&& #[trigger] is_grouping(cores, lists, ids)
            &&& sorted_from(pairs, listed_pairs(cores, ids))
        };
    let g = lemma_core_of_two(cores, lists, ids, i, a, b);
    let n = cores.len() as int;
    lemma_lead_is_listed(cores, n, g);
    let led = core_pairs(cores, n);
    let listed = listed_pairs(cores, ids);
    let k = choose|k: int| 0 <= k < led.len() && led[k] == lead_pair(cores[g]);
    assert(listed[k] == led[k]);
    crate::order::lemma_sorted_keeps_items(pairs, listed);
    assert(pairs.contains(listed[k]));
}

/// The pairs stand by their first processor, the lowest first.
pub proof fn law_pairs_ascend(
    pairs: Seq<(usize, Option<usize>)>,
    ids: Seq<usize>,
    siblings: Map<usize, String>,
    i: int,
    j: int,
)
    requires
        are_pairs(pairs, in_order(ids), siblings),
        0 <= i < j < pairs.len(),
    ensures
        pairs[i].0 <= pairs[j].0,
{
    let sorted = in_order(ids);
    if topology_known(sorted, siblings) {
        let lists = sibling_lists(sorted, siblings);
        let cores = choose|cores: Seq<Seq<usize>>|
            {
                &&& #[trigger] is_grouping(cores, lists, sorted)
                &&& sorted_from(pairs, listed_pairs(cores, sorted))
            };
        crate::order::law_put_in_order(pairs, listed_pairs(cores, sorted));
        assert(!pairs[j].before(pairs[i]));
    } else {
        let leq = |a: usize, b: usize| a <= b;
        ids.lemma_sort_by_ensures(leq);
        let (p, q): (int, int) = if sorted.len() % 2 == 0 {
            (i, j)
        } else {
            (2 * i, 2 * j)
        };
        assert(pairs[i].0 == sorted[p] && pairs[j].0 == sorted[q]);
        assert(leq(sorted[p], sorted[q]));
    }
}

/// Numbers in order are the same numbers, the lowest first.
pub proof fn law_in_order_ascends(ids: Seq<usize>, i: int, j: int)
    requires
        0 <= i < j < ids.len(),
    ensures
        in_order(ids).len() == ids.len(),
        in_order(ids)[i] <= in_order(ids)[j],
        in_order(ids).to_multiset() == ids.to_multiset(),
{
    let leq = |a: usize, b: usize| a <= b;
    ids.lemma_sort_by_ensures(leq);
    lemma_in_order(ids);
    assert(leq(in_order(ids)[i], in_order(ids)[j]));
}

/// A pair counts for one processor or for two, and lists of pairs for what each counts.
pub proof fn law_entries_add_up(pairs: Seq<(usize, Option<usize>)>, a: usize, b: usize)
    ensures
        entries_count(Seq::<(usize, Option<usize>)>::empty()) == 0,
        entries_count(pairs.push((a, None))) == entries_count(pairs) + 1,
        entries_count(pairs.push((a, Some(b)))) == entries_count(pairs) + 2,
{
    assert(pairs.push((a, None)).drop_last() =~= pairs);
    assert(pairs.push((a, Some(b))).drop_last() =~= pairs);
}

proof fn lemma_single_is_listed(xs: Seq<usize>, covered: Set<usize>, x: usize)
    requires
        xs.contains(x),
        !covered.contains(x),
    ensures
        singles(xs, covered).contains((x, None)),
    decreases xs.len(),
{
    let front = xs.drop_last();
    let all = singles(xs, covered);
    let before = singles(front, covered);
    if front.contains(x) {
        lemma_single_is_listed(front, covered, x);
        let k = choose|k: int| 0 <= k < before.len() && before[k] == (x, None::<usize>);
        assert(all[k] == before[k]);
    } else {
        let k = choose|k: int| 0 <= k < xs.len() && xs[k] == x;
        if k < front.len() {
            assert(front[k] == x);
        }
        assert(all[all.len() - 1] == (x, None::<usize>));
    }
}

proof fn lemma_further_is_listed(groups: Seq<Seq<usize>>, n: int, g: int, k: int)
    requires
        0 <= g < n <= groups.len(),
        cores_disjoint(groups),
        ascending(groups[g]),
        2 <= k < groups[g].len(),
    ensures
        core_pairs(groups, n).contains((groups[g][k], None)),
    decreases n,
{
    let before = core_pairs(groups, n - 1);
    let core = groups[n - 1];
    let all = core_pairs(groups, n);
    let x = groups[g][k];
    if g == n - 1 {
        let covered = covered_by(groups, n - 1).union(lead_set(core));
        assert(further(core)[k - 2] == x);
        assert(core.contains(x));
        assert(!covered_by(groups, n - 1).contains(x)) by {
            if covered_by(groups, n - 1).contains(x) {
                let h = choose|h: int| 0 <= h < n - 1 && #[trigger] groups[h].contains(x);
                assert(groups[h].contains(x) && groups[n - 1].contains(x));
            }
        }
        assert(core[0] < core[k] && core[1] < core[k]);
        assert(!lead_set(core).contains(x));
        let rest = singles(further(core), covered);
        lemma_single_is_listed(further(core), covered, x);
        let j = choose|j: int| 0 <= j < rest.len() && rest[j] == (x, None::<usize>);
        assert(all[before.len() + 1 + j] == rest[j]);
    } else {
        lemma_further_is_listed(groups, n - 1, g, k);
        let j = choose|j: int| 0 <= j < before.len() && before[j] == (x, None::<usize>);
        assert(all[j] == before[j]);
    }
}

/// Of a core with more than two processors, those after the lowest two stay alone.
pub proof fn law_further_siblings_stay_alone(
    pairs: Seq<(usize, Option<usize>)>,
    ids: Seq<usize>,
    siblings: Map<usize, String>,
    i: int,
    a: usize,
    b: usize,
    c: usize,
)
    requires
        are_pairs(pairs, ids, siblings),
        all_known(ids, siblings),
        siblings_agree(sibling_lists(ids, siblings), ids),
        0 <= i < ids.len(),
        a < b < c,
        is_sibling(cpu_id_list(trim(siblings[ids[i]]@)), ids, a),
        is_sibling(cpu_id_list(trim(siblings[ids[i]]@)), ids, b),
        is_sibling(cpu_id_list(trim(siblings[ids[i]]@)), ids, c),
    ensures
        pairs.contains((c, None)),
{
    let lists = sibling_lists(ids, siblings);
    assert(lists[i] == cpu_id_list(trim(siblings[ids[i]]@)));
    assert(is_sibling(lists[i], ids, a));
    assert(topology_known(ids, siblings));
    let cores = choose|cores: Seq<Seq<usize>>|
        {
            &&& #[trigger] is_grouping(cores, lists, ids)
            &&& sorted_from(pairs, listed_pairs(cores, ids))
        };
    lemma_cores_disjoint(cores, lists, ids);
    lemma_lowest_exists(lists[i], ids, a);
    let m = choose|m: usize| is_lowest(lists[i], ids, m);
    let g = choose|g: int| 0 <= g < cores.len() && (#[trigger] cores[g])[0] == m;
    let core = cores[g];
    assert(core.len() > 0 && ascending(core));
    assert(in_core(lists, ids, m, a) && in_core(lists, ids, m, b) && in_core(lists, ids, m, c));
    assert(core.contains(a) && core.contains(b) && core.contains(c));
    let ka = choose|k: int| 0 <= k < core.len() && core[k] == a;
    let kb = choose|k: int| 0 <= k < core.len() && core[k] == b;
    let kc = choose|k: int| 0 <= k < core.len() && core[k] == c;
    assert(ka < kb < kc) by {
        if kb <= ka && kb < ka {
            assert(core[kb] < core[ka]);
        }
        if kc < kb {
            assert(core[kc] < core[kb]);
        }
    }
    let n = cores.len() as int;
    lemma_further_is_listed(cores, n, g, kc);
    let led = core_pairs(cores, n);
    let listed = listed_pairs(cores, ids);
    let k = choose|k: int| 0 <= k < led.len() && led[k] == (c, None::<usize>);
    assert(listed[k] == led[k]);
    crate::order::lemma_sorted_keeps_items(pairs, listed);
    assert(pairs.contains(listed[k]));
}

/// A processor that no list of siblings names stays alone.
pub proof fn law_unnamed_stays_alone(
    pairs: Seq<(usize, Option<usize>)>,
    ids: Seq<usize>,
    siblings: Map<usize, String>,
    x: usize,
)
    requires
        are_pairs(pairs, ids, siblings),
        topology_known(ids, siblings),
        ids.contains(x),
        forall|i: int|
            0 <= i < ids.len() ==> !cpu_id_list(trim(siblings[#[trigger] ids[i]]@)).contains(x),
    ensures
        pairs.contains((x, None)),
{
    let lists = sibling_lists(ids, siblings);
    let cores = choose|cores: Seq<Seq<usize>>|
        {
            &&& #[trigger] is_grouping(cores, lists, ids)
            &&& sorted_from(pairs, listed_pairs(cores, ids))
        };
    let n = cores.len() as int;
    let covered = covered_by(cores, n);
    assert(!covered.contains(x)) by {
        if covered.contains(x) {
            let g = choose|g: int| 0 <= g < n && #[trigger] cores[g].contains(x);
            assert(in_core(lists, ids, cores[g][0], x));
            let i = choose|i: int|
                0 <= i < lists.len() && is_lowest(#[trigger] lists[i], ids, cores[g][0]) && is_sibling(
                    lists[i],
                    ids,
                    x,
                );
            assert(!cpu_id_list(trim(siblings[ids[i]]@)).contains(x));
        }
    }
    lemma_single_is_listed(ids, covered, x);
    let led = core_pairs(cores, n);
    let rest = singles(ids, covered);
    let listed = listed_pairs(cores, ids);
    let k = choose|k: int| 0 <= k < rest.len() && rest[k] == (x, None::<usize>);
    assert(listed[led.len() + k] == rest[k]);
    crate::order::lemma_sorted_keeps_items(pairs, listed);
    assert(pairs.contains(listed[led.len() + k]));
}

} // verus!
