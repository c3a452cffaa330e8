//! The fixed-point passes: recipe-cost inference, tag-average inference, and
//! the meta loop that alternates them until neither derives a new value.
use vstd::prelude::*;
use crate::engine::{Cost, recipe_cost, cost_of, sat};
use crate::graph::Graph;

verus! {

/// The number of items without a value.
pub open spec fn count_none(vals: Seq<Option<u64>>) -> nat
    decreases vals.len(),
{
    if vals.len() == 0 {
        0
    } else {
        count_none(vals.drop_last()) + if vals.last() is None { 1nat } else { 0nat }
    }
}

/// The items of `universe` without a value, in order.
pub open spec fn missing(universe: Seq<usize>, vals: Seq<Option<u64>>) -> Seq<usize>
    decreases universe.len(),
{
    if universe.len() == 0 {
        Seq::empty()
    } else {
        let m = missing(universe.drop_last(), vals);
        if vals[universe.last() as int] is None {
            m.push(universe.last())
        } else {
            m
        }
    }
}

/// Every item that has a value in `a` keeps that value in `b`.
pub open spec fn keeps(a: Seq<Option<u64>>, b: Seq<Option<u64>>) -> bool {
    &&& a.len() == b.len()
    &&& forall|i: int| 0 <= i < a.len() && (#[trigger] a[i]) is Some ==> b[i] == a[i]
}

/// Applies a recipe's cost to `item`: a first value is inserted and counted;
/// an existing value is replaced by the weighted cost when the unweighted cost
/// is strictly below it. Comparing the unweighted cost with a stored weighted
/// value is a known quirk of the rule, kept on purpose.
pub open spec fn commit(vals: Seq<Option<u64>>, item: usize, c: Option<Cost>) -> (Seq<Option<u64>>, nat) {
    match c {
        None => (vals, 0),
        Some(c) => match vals[item as int] {
            None => (vals.update(item as int, Some(c.weighted)), 1),
            Some(e) => if c.per_unit < e {
                (vals.update(item as int, Some(c.weighted)), 0)
            } else {
                (vals, 0)
            },
        },
    }
}

/// Tries the first `k` producers of `item` in order.
pub open spec fn item_by_recipes(g: Graph, vals: Seq<Option<u64>>, item: usize, k: nat) -> (Seq<Option<u64>>, nat)
    decreases k,
{
    if k == 0 {
        (vals, 0)
    } else {
        let (v, n) = item_by_recipes(g, vals, item, (k - 1) as nat);
        let r = g.producers@[item as int]@[k - 1];
        let (v2, n2) = commit(v, item, recipe_cost(g.recipes@[r as int], item, v));
        (v2, n + n2)
    }
}

/// One recipe pass over `items`: the resulting values and the number of items newly valued.
pub open spec fn recipe_pass_over(g: Graph, vals: Seq<Option<u64>>, items: Seq<usize>) -> (Seq<Option<u64>>, nat)
    decreases items.len(),
{
    if items.len() == 0 {
        (vals, 0)
    } else {
        let (v, n) = recipe_pass_over(g, vals, items.drop_last());
        let item = items.last();
        let (v2, n2) = item_by_recipes(g, v, item, g.producers@[item as int]@.len());
        (v2, n + n2)
    }
}

/// One recipe pass over the items that are missing a value at its start.
pub open spec fn recipe_pass_spec(g: Graph, vals: Seq<Option<u64>>) -> (Seq<Option<u64>>, nat) {
    recipe_pass_over(g, vals, missing(g.universe@, vals))
}

/// The saturated sum of the known values among `members`, and how many are known.
pub open spec fn tag_stats(members: Seq<usize>, vals: Seq<Option<u64>>) -> (u64, nat)
    decreases members.len(),
{
    if members.len() == 0 {
        (0, 0)
    } else {
        let (sum, cnt) = tag_stats(members.drop_last(), vals);
        match vals[members.last() as int] {
            None => (sum, cnt),
            Some(v) => (sat(sum + v), cnt + 1),
        }
    }
}

/// The mean of the known member values of tag `t`; `None` when the sum or the count is zero.
pub open spec fn tag_mean(g: Graph, vals: Seq<Option<u64>>, t: usize) -> Option<u64> {
    let (sum, cnt) = tag_stats(g.tags@[t as int]@, vals);
    if sum == 0 || cnt == 0 {
        None
    } else {
        Some((sum as int / cnt as int) as u64)
    }
}

/// Of the tags `ts` that give a mean, the one with fewest members; the earliest on ties.
pub open spec fn pick_tag(g: Graph, vals: Seq<Option<u64>>, ts: Seq<usize>) -> Option<usize>
    decreases ts.len(),
{
    if ts.len() == 0 {
        None
    } else {
        let best = pick_tag(g, vals, ts.drop_last());
        let t = ts.last();
        if tag_mean(g, vals, t) is None {
            best
        } else {
            match best {
                None => Some(t),
                Some(b) => if g.tags@[t as int]@.len() < g.tags@[b as int]@.len() {
                    Some(t)
                } else {
                    best
                },
            }
        }
    }
}

/// Values `item`, while it has no value, by the mean of its best tag, if one gives a mean.
pub open spec fn item_by_tags(g: Graph, vals: Seq<Option<u64>>, item: usize) -> (Seq<Option<u64>>, nat) {
    if vals[item as int] is Some {
        (vals, 0)
    } else {
        match pick_tag(g, vals, g.item_tags@[item as int]@) {
            None => (vals, 0),
            Some(t) => match tag_mean(g, vals, t) {
                None => (vals, 0),
                Some(m) => (vals.update(item as int, Some(m)), 1),
            },
        }
    }
}

/// One tag pass over `items`: the resulting values and the number of items valued.
pub open spec fn tag_pass_over(g: Graph, vals: Seq<Option<u64>>, items: Seq<usize>) -> (Seq<Option<u64>>, nat)
    decreases items.len(),
{
    if items.len() == 0 {
        (vals, 0)
    } else {
        let (v, n) = tag_pass_over(g, vals, items.drop_last());
        let (v2, n2) = item_by_tags(g, v, items.last());
        (v2, n + n2)
    }
}

/// One tag pass over the items that are missing a value at its start.
pub open spec fn tag_pass_spec(g: Graph, vals: Seq<Option<u64>>) -> (Seq<Option<u64>>, nat) {
    tag_pass_over(g, vals, missing(g.universe@, vals))
}

/// IndexedRecipe passes until one values nothing, at most `fuel` of them.
pub open spec fn recipe_phase_spec(g: Graph, vals: Seq<Option<u64>>, fuel: nat) -> Seq<Option<u64>>
    decreases fuel,
{
    if fuel == 0 {
        vals
    } else {
        let (v, n) = recipe_pass_spec(g, vals);
        if n == 0 {
            v
        } else {
            recipe_phase_spec(g, v, (fuel - 1) as nat)
        }
    }
}

/// Tag passes until one values nothing, at most `fuel` of them.
pub open spec fn tag_phase_spec(g: Graph, vals: Seq<Option<u64>>, fuel: nat) -> Seq<Option<u64>>
    decreases fuel,
{
    if fuel == 0 {
        vals
    } else {
        let (v, n) = tag_pass_spec(g, vals);
        if n == 0 {
            v
        } else {
            tag_phase_spec(g, v, (fuel - 1) as nat)
        }
    }
}

/// The recipe phase run to its fixed point (each pass that goes on values an item more).
pub open spec fn recipe_phase_result(g: Graph, vals: Seq<Option<u64>>) -> Seq<Option<u64>> {
    recipe_phase_spec(g, vals, count_none(vals) + 1)
}

/// The tag phase run to its fixed point.
pub open spec fn tag_phase_result(g: Graph, vals: Seq<Option<u64>>) -> Seq<Option<u64>> {
    tag_phase_spec(g, vals, count_none(vals) + 1)
}

/// One round of the meta loop: the recipe phase, then the tag phase.
pub open spec fn meta_round(g: Graph, vals: Seq<Option<u64>>) -> Seq<Option<u64>> {
    tag_phase_result(g, recipe_phase_result(g, vals))
}

/// Meta rounds until one values nothing, at most `fuel` of them.
pub open spec fn propagate_spec(g: Graph, vals: Seq<Option<u64>>, fuel: nat) -> Seq<Option<u64>>
    decreases fuel,
{
    if fuel == 0 {
        vals
    } else {
        let b = meta_round(g, vals);
        if count_none(b) == count_none(vals) {
            b
        } else {
            propagate_spec(g, b, (fuel - 1) as nat)
        }
    }
}

/// The final values: meta rounds until one values nothing.
pub open spec fn propagate_result(g: Graph, vals: Seq<Option<u64>>) -> Seq<Option<u64>> {
    propagate_spec(g, vals, count_none(vals) + 1)
}

proof fn lemma_count_none_le_len(s: Seq<Option<u64>>)
    ensures
        count_none(s) <= s.len(),
    decreases s.len(),
{
    if s.len() > 0 {
        lemma_count_none_le_len(s.drop_last());
    }
}

/// The tag picked gives a mean; no tag that gives a mean has fewer members, and
/// none of the same size is listed earlier. No tag is picked only when none gives a mean.
pub proof fn lemma_pick_tag_is_first_smallest(g: Graph, vals: Seq<Option<u64>>, ts: Seq<usize>)
    ensures
        pick_tag(g, vals, ts) is None <==> forall|j: int| 0 <= j < ts.len() ==> tag_mean(g, vals, #[trigger] ts[j]) is None,
        pick_tag(g, vals, ts) matches Some(t) ==> exists|k: int| {
            &&& 0 <= k < ts.len()
            &&& #[trigger] ts[k] == t
            &&& tag_mean(g, vals, t) is Some
            &&& forall|j: int| 0 <= j < ts.len() && tag_mean(g, vals, #[trigger] ts[j]) is Some
                ==> g.tags@[t as int]@.len() <= g.tags@[ts[j] as int]@.len()
            &&& forall|j: int| 0 <= j < k && tag_mean(g, vals, #[trigger] ts[j]) is Some
                ==> g.tags@[t as int]@.len() < g.tags@[ts[j] as int]@.len()
        },
    decreases ts.len(),
{
    if ts.len() > 0 {
        let init = ts.drop_last();
        lemma_pick_tag_is_first_smallest(g, vals, init);
        let last = ts.last();
        assert forall|j: int| 0 <= j < init.len() implies #[trigger] init[j] == ts[j] by {}
        if tag_mean(g, vals, last) is Some {
            match pick_tag(g, vals, init) {
                None => {
                    assert(ts[ts.len() - 1] == last);
                    assert forall|j: int| 0 <= j < ts.len() - 1 implies tag_mean(g, vals, #[trigger] ts[j]) is None by {
                        assert(init[j] == ts[j]);
                    }
                },
                Some(b) => {
                    let k = choose|k: int| {
                        &&& 0 <= k < init.len()
                        &&& #[trigger] init[k] == b
                        &&& tag_mean(g, vals, b) is Some
                        &&& forall|j: int| 0 <= j < init.len() && tag_mean(g, vals, #[trigger] init[j]) is Some
                            ==> g.tags@[b as int]@.len() <= g.tags@[init[j] as int]@.len()
                        &&& forall|j: int| 0 <= j < k && tag_mean(g, vals, #[trigger] init[j]) is Some
                            ==> g.tags@[b as int]@.len() < g.tags@[init[j] as int]@.len()
                    };
                    if g.tags@[last as int]@.len() < g.tags@[b as int]@.len() {
                        let kk = ts.len() - 1;
                        assert(ts[kk] == last);
                        assert forall|j: int| 0 <= j < ts.len() && tag_mean(g, vals, #[trigger] ts[j]) is Some
                            implies g.tags@[last as int]@.len() <= g.tags@[ts[j] as int]@.len() by {
                            if j < kk {
                                assert(init[j] == ts[j]);
                            }
                        }
                        assert forall|j: int| 0 <= j < kk && tag_mean(g, vals, #[trigger] ts[j]) is Some
                            implies g.tags@[last as int]@.len() < g.tags@[ts[j] as int]@.len() by {
                            assert(init[j] == ts[j]);
                        }
                    } else {
                        assert(ts[k] == b);
                        assert forall|j: int| 0 <= j < ts.len() && tag_mean(g, vals, #[trigger] ts[j]) is Some
                            implies g.tags@[b as int]@.len() <= g.tags@[ts[j] as int]@.len() by {
                            if j < ts.len() - 1 {
                                assert(init[j] == ts[j]);
                            }
                        }
                        assert forall|j: int| 0 <= j < k && tag_mean(g, vals, #[trigger] ts[j]) is Some
                            implies g.tags@[b as int]@.len() < g.tags@[ts[j] as int]@.len() by {
                            assert(init[j] == ts[j]);
                        }
                    }
                },
            }
        } else {
            match pick_tag(g, vals, init) {
                None => {
                    assert forall|j: int| 0 <= j < ts.len() implies tag_mean(g, vals, #[trigger] ts[j]) is None by {
                        if j < ts.len() - 1 {
                            assert(init[j] == ts[j]);
                        }
                    }
                },
                Some(b) => {
                    let k = choose|k: int| {
                        &&& 0 <= k < init.len()
                        &&& #[trigger] init[k] == b
                        &&& tag_mean(g, vals, b) is Some
                        &&& forall|j: int| 0 <= j < init.len() && tag_mean(g, vals, #[trigger] init[j]) is Some
                            ==> g.tags@[b as int]@.len() <= g.tags@[init[j] as int]@.len()
                        &&& forall|j: int| 0 <= j < k && tag_mean(g, vals, #[trigger] init[j]) is Some
                            ==> g.tags@[b as int]@.len() < g.tags@[init[j] as int]@.len()
                    };
                    assert(ts[k] == b);
                    assert forall|j: int| 0 <= j < ts.len() && tag_mean(g, vals, #[trigger] ts[j]) is Some
                        implies g.tags@[b as int]@.len() <= g.tags@[ts[j] as int]@.len() by {
                        if j < ts.len() - 1 {
                            assert(init[j] == ts[j]);
                        }
                    }
                    assert forall|j: int| 0 <= j < k && tag_mean(g, vals, #[trigger] ts[j]) is Some
                        implies g.tags@[b as int]@.len() < g.tags@[ts[j] as int]@.len() by {
                        assert(init[j] == ts[j]);
                    }
                    assert(tag_mean(g, vals, ts[k]) is Some);
                },
            }
        }
    }
}

proof fn lemma_count_none_update(s: Seq<Option<u64>>, i: int, x: u64)
    requires
        0 <= i < s.len(),
    ensures
        count_none(s.update(i, Some(x))) + (if s[i] is None { 1nat } else { 0nat }) == count_none(s),
    decreases s.len(),
{
    let u = s.update(i, Some(x));
    if i < s.len() - 1 {
        assert(u.drop_last() =~= s.drop_last().update(i, Some(x)));
        lemma_count_none_update(s.drop_last(), i, x);
    } else {
        assert(u.drop_last() =~= s.drop_last());
    }
}

/// The items of the universe that have no value yet.
pub fn missing_items(g: &Graph, store: &Vec<Option<u64>>) -> (m: Vec<usize>)
    requires
        g.wf(),
        store@.len() == g.n(),
    ensures
        m@ == missing(g.universe@, store@),
        forall|k: int| 0 <= k < m@.len() ==> m@[k] < g.n() && store@[m@[k] as int] is None,
{
    let mut m: Vec<usize> = Vec::new();
    let mut k: usize = 0;
    while k < g.universe.len()
        invariant
            g.wf(),
            store@.len() == g.n(),
            k <= g.universe@.len(),
            m@ == missing(g.universe@.take(k as int), store@),
            forall|j: int| 0 <= j < m@.len() ==> m@[j] < g.n() && store@[m@[j] as int] is None,
        decreases g.universe@.len() - k,
    {
        assert(g.universe@.take(k + 1).drop_last() =~= g.universe@.take(k as int));
        let item = g.universe[k];
        if store[item].is_none() {
            m.push(item);
        }
        k = k + 1;
    }
    assert(g.universe@.take(k as int) =~= g.universe@);
    m
}

/// Prices every missing item from the recipes that produce it, once.
/// Returns the number of items that received their first value.
pub fn recipe_pass(g: &Graph, store: &mut Vec<Option<u64>>) -> (n: usize)
    requires
        g.wf(),
        old(store)@.len() == g.n(),
    ensures
        (final(store)@, n as nat) == recipe_pass_spec(*g, old(store)@),
        keeps(old(store)@, final(store)@),
        count_none(final(store)@) + n == count_none(old(store)@),
        n == 0 ==> final(store)@ == old(store)@,
{
    let ghost v0 = store@;
    let todo = missing_items(g, store);
    let mut count: usize = 0;
    let mut idx: usize = 0;
    while idx < todo.len()
        invariant
            g.wf(),
            store@.len() == g.n(),
            idx <= todo@.len(),
            todo@ == missing(g.universe@, v0),
            forall|k: int| 0 <= k < todo@.len() ==> todo@[k] < g.n() && v0[todo@[k] as int] is None,
            (store@, count as nat) == recipe_pass_over(*g, v0, todo@.take(idx as int)),
            keeps(v0, store@),
            count_none(store@) + count == count_none(v0),
            count <= idx,
            count == 0 ==> store@ == v0,
        decreases todo@.len() - idx,
    {
        assert(todo@.take(idx + 1).drop_last() =~= todo@.take(idx as int));
        let item = todo[idx];
        let ghost vb = store@;
        let mut k: usize = 0;
        let mut got: usize = 0;
        let ps = &g.producers[item];
        assert(crate::graph::all_below(g.producers@[item as int]@, g.recipes@.len()));
        while k < ps.len()
            invariant
                g.wf(),
                item < g.n(),
                ps@ == g.producers@[item as int]@,
                store@.len() == g.n(),
                k <= ps@.len(),
                v0[item as int] is None,
                (store@, got as nat) == item_by_recipes(*g, vb, item, k as nat),
                keeps(v0, store@),
                count_none(store@) + got == count_none(vb),
                got <= 1,
                got == 1 ==> store@[item as int] is Some,
                got == 0 && vb[item as int] is None ==> store@ == vb,
            decreases ps@.len() - k,
        {
            let r = ps[k];
            assert(g.recipe_ok(r as int));
            match cost_of(&g.recipes[r], item, store) {
                None => {},
                Some(c) => {
                    match store[item] {
                        None => {
                            proof { lemma_count_none_update(store@, item as int, c.weighted); }
                            store.set(item, Some(c.weighted));
                            got = got + 1;
                        },
                        Some(e) => {
                            if c.per_unit < e {
                                proof { lemma_count_none_update(store@, item as int, c.weighted); }
                                store.set(item, Some(c.weighted));
                            }
                        },
                    }
                },
            }
            k = k + 1;
        }
        count = count + got;
        idx = idx + 1;
    }
    assert(todo@.take(idx as int) =~= todo@);
    count
}

/// The mean of the known member values of tag `t`, when both sum and count are non-zero.
pub fn tag_mean_of(g: &Graph, t: usize, store: &Vec<Option<u64>>) -> (r: Option<u64>)
    requires
        g.wf(),
        t < g.tags@.len(),
        store@.len() == g.n(),
    ensures
        r == tag_mean(*g, store@, t),
{
    let members = &g.tags[t];
    assert(crate::graph::all_below(g.tags@[t as int]@, g.n()));
    let mut sum: u64 = 0;
    let mut cnt: u64 = 0;
    let mut k: usize = 0;
    while k < members.len()
        invariant
            members@ == g.tags@[t as int]@,
            crate::graph::all_below(members@, g.n()),
            store@.len() == g.n(),
            k <= members@.len(),
            (sum, cnt as nat) == tag_stats(members@.take(k as int), store@),
            cnt <= k,
        decreases members@.len() - k,
    {
        assert(members@.take(k + 1).drop_last() =~= members@.take(k as int));
        match store[members[k]] {
            None => {},
            Some(v) => {
                sum = sum.saturating_add(v);
                cnt = cnt + 1;
            },
        }
        k = k + 1;
    }
    assert(members@.take(k as int) =~= members@);
    if sum == 0 || cnt == 0 {
        None
    } else {
        Some(sum / cnt)
    }
}

/// Gives each missing item the mean of its smallest tag that yields one, once.
/// Returns the number of items valued.
pub fn tag_pass(g: &Graph, store: &mut Vec<Option<u64>>) -> (n: usize)
    requires
        g.wf(),
        old(store)@.len() == g.n(),
    ensures
        (final(store)@, n as nat) == tag_pass_spec(*g, old(store)@),
        keeps(old(store)@, final(store)@),
        count_none(final(store)@) + n == count_none(old(store)@),
        n == 0 ==> final(store)@ == old(store)@,
{
    let ghost v0 = store@;
    let todo = missing_items(g, store);
    let mut count: usize = 0;
    let mut idx: usize = 0;
    while idx < todo.len()
        invariant
            g.wf(),
            store@.len() == g.n(),
            idx <= todo@.len(),
            todo@ == missing(g.universe@, v0),
            forall|k: int| 0 <= k < todo@.len() ==> todo@[k] < g.n() && v0[todo@[k] as int] is None,
            (store@, count as nat) == tag_pass_over(*g, v0, todo@.take(idx as int)),
            keeps(v0, store@),
            count_none(store@) + count == count_none(v0),
            count <= idx,
            count == 0 ==> store@ == v0,
        decreases todo@.len() - idx,
    {
        assert(todo@.take(idx + 1).drop_last() =~= todo@.take(idx as int));
        let item = todo[idx];
        let ts = &g.item_tags[item];
        assert(crate::graph::all_below(g.item_tags@[item as int]@, g.tags@.len()));
        let mut best: Option<usize> = None;
        let mut best_mean: u64 = 0;
        let mut k: usize = 0;
        while k < ts.len()
            invariant
                g.wf(),
                ts@ == g.item_tags@[item as int]@,
                crate::graph::all_below(ts@, g.tags@.len()),
                store@.len() == g.n(),
                k <= ts@.len(),
                best == pick_tag(*g, store@, ts@.take(k as int)),
                best matches Some(b) ==> b < g.tags@.len() && tag_mean(*g, store@, b) == Some(best_mean),
            decreases ts@.len() - k,
        {
            assert(ts@.take(k + 1).drop_last() =~= ts@.take(k as int));
            let t = ts[k];
            match tag_mean_of(g, t, store) {
                None => {},
                Some(m) => {
                    match best {
                        None => {
                            best = Some(t);
                            best_mean = m;
                        },
                        Some(b) => {
                            if g.tags[t].len() < g.tags[b].len() {
                                best = Some(t);
                                best_mean = m;
                            }
                        },
                    }
                },
            }
            k = k + 1;
        }
        assert(ts@.take(k as int) =~= ts@);
        if best.is_some() && store[item].is_none() {
            proof { lemma_count_none_update(store@, item as int, best_mean); }
            store.set(item, Some(best_mean));
            count = count + 1;
        }
        idx = idx + 1;
    }
    assert(todo@.take(idx as int) =~= todo@);
    count
}

/// Runs recipe passes until one derives no new value. Returns the number of items valued.
pub fn recipe_phase(g: &Graph, store: &mut Vec<Option<u64>>) -> (total: usize)
    requires
        g.wf(),
        old(store)@.len() == g.n(),
    ensures
        final(store)@ == recipe_phase_result(*g, old(store)@),
        recipe_pass_spec(*g, final(store)@) == (final(store)@, 0nat),
        keeps(old(store)@, final(store)@),
        count_none(final(store)@) + total == count_none(old(store)@),
        total == 0 ==> final(store)@ == old(store)@,
{
    let ghost v0 = store@;
    let ghost mut fuel: nat = count_none(v0) + 1;
    proof { lemma_count_none_le_len(v0); }
    let len = store.len();
    assert(g.n() <= usize::MAX);
    let mut total: usize = 0;
    let mut done = false;
    while !done
        invariant
            g.wf(),
            store@.len() == g.n(),
            v0.len() == g.n(),
            count_none(v0) <= v0.len(),
            g.n() <= usize::MAX,
            !done ==> recipe_phase_result(*g, v0) == recipe_phase_spec(*g, store@, fuel),
            !done ==> fuel > count_none(store@),
            done ==> recipe_phase_result(*g, v0) == store@,
            done ==> recipe_pass_spec(*g, store@) == (store@, 0nat),
            keeps(v0, store@),
            count_none(store@) + total == count_none(v0),
            total == 0 ==> store@ == v0,
        decreases count_none(store@) + if done { 0nat } else { 1nat },
    {
        let n = recipe_pass(g, store);
        if n == 0 {
            done = true;
        } else {
            total = total + n;
            proof { fuel = (fuel - 1) as nat; }
        }
    }
    total
}

/// Runs tag passes until one derives no new value. Returns the number of items valued.
pub fn tag_phase(g: &Graph, store: &mut Vec<Option<u64>>) -> (total: usize)
    requires
        g.wf(),
        old(store)@.len() == g.n(),
    ensures
        final(store)@ == tag_phase_result(*g, old(store)@),
        tag_pass_spec(*g, final(store)@) == (final(store)@, 0nat),
        keeps(old(store)@, final(store)@),
        count_none(final(store)@) + total == count_none(old(store)@),
        total == 0 ==> final(store)@ == old(store)@,
{
    let ghost v0 = store@;
    let ghost mut fuel: nat = count_none(v0) + 1;
    proof { lemma_count_none_le_len(v0); }
    let len = store.len();
    assert(g.n() <= usize::MAX);
    let mut total: usize = 0;
    let mut done = false;
    while !done
        invariant
            g.wf(),
            store@.len() == g.n(),
            v0.len() == g.n(),
            count_none(v0) <= v0.len(),
            g.n() <= usize::MAX,
            !done ==> tag_phase_result(*g, v0) == tag_phase_spec(*g, store@, fuel),
            !done ==> fuel > count_none(store@),
            done ==> tag_phase_result(*g, v0) == store@,
            done ==> tag_pass_spec(*g, store@) == (store@, 0nat),
            keeps(v0, store@),
            count_none(store@) + total == count_none(v0),
            total == 0 ==> store@ == v0,
        decreases count_none(store@) + if done { 0nat } else { 1nat },
    {
        let n = tag_pass(g, store);
        if n == 0 {
            done = true;
        } else {
            total = total + n;
            proof { fuel = (fuel - 1) as nat; }
        }
    }
    total
}

/// Once a recipe pass and a tag pass both leave the values as they are, another
/// round of the meta loop derives nothing and changes nothing.
pub proof fn lemma_converged_round_is_identity(g: Graph, vals: Seq<Option<u64>>)
    requires
        recipe_pass_spec(g, vals) == (vals, 0nat),
        tag_pass_spec(g, vals) == (vals, 0nat),
    ensures
        recipe_phase_result(g, vals) == vals,
        tag_phase_result(g, vals) == vals,
        meta_round(g, vals) == vals,
        count_none(meta_round(g, vals)) == count_none(vals),
{
    reveal_with_fuel(recipe_phase_spec, 1);
    reveal_with_fuel(tag_phase_spec, 1);
}

/// Alternates the recipe phase and the tag phase until a round derives no new
/// value, and returns the number of items valued on the way.
pub fn propagate(g: &Graph, store: &mut Vec<Option<u64>>) -> (total: usize)
    requires
        g.wf(),
        old(store)@.len() == g.n(),
    ensures
        final(store)@ == propagate_result(*g, old(store)@),
        keeps(old(store)@, final(store)@),
        count_none(final(store)@) + total == count_none(old(store)@),
        recipe_pass_spec(*g, final(store)@) == (final(store)@, 0nat),
        tag_pass_spec(*g, final(store)@) == (final(store)@, 0nat),
        meta_round(*g, final(store)@) == final(store)@,
{
    let ghost v0 = store@;
    let ghost mut fuel: nat = count_none(v0) + 1;
    proof { lemma_count_none_le_len(v0); }
    let len = store.len();
    assert(g.n() <= usize::MAX);
    let mut total: usize = 0;
    let mut done = false;
    while !done
        invariant
            g.wf(),
            store@.len() == g.n(),
            v0.len() == g.n(),
            count_none(v0) <= v0.len(),
            g.n() <= usize::MAX,
            !done ==> propagate_result(*g, v0) == propagate_spec(*g, store@, fuel),
            !done ==> fuel > count_none(store@),
            done ==> propagate_result(*g, v0) == store@,
            done ==> recipe_pass_spec(*g, store@) == (store@, 0nat),
            done ==> tag_pass_spec(*g, store@) == (store@, 0nat),
            keeps(v0, store@),
            count_none(store@) + total == count_none(v0),
        decreases count_none(store@) + if done { 0nat } else { 1nat },
    {
        let a = recipe_phase(g, store);
        let b = tag_phase(g, store);
        if a == 0 && b == 0 {
            done = true;
        } else {
            total = total + a + b;
            proof { fuel = (fuel - 1) as nat; }
        }
    }
    proof { lemma_converged_round_is_identity(*g, store@); }
    total
}

} // verus!
