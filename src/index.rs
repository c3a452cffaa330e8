//! Builds the item table, the indexed recipes, the production and tag lookups
//! and the seeded values from named recipes and hard values.
use vstd::prelude::*;
use crate::catalog::Catalog;
use crate::engine::{IndexedRecipe, Slot};
use crate::graph::Graph;
use crate::ident::{Identifier, lemma_key_lt_total};
use crate::model::{Ingredient, Recipe, is_cost_recipe, is_tag_recipe, cost_recipe, tag_recipe};

verus! {

/// The rendered name of the item that stands for "no item".
pub open spec fn empty_key() -> Seq<char> {
    "emi"@ + seq![':'] + "empty"@
}

/// Every ingredient's name is in the table.
pub open spec fn all_named(cat: Catalog, ings: Seq<Ingredient>) -> bool {
    forall|m: int| 0 <= m < ings.len() ==> cat.has(#[trigger] ings[m].id.key())
}

/// The table names what `r` needs: the inputs of a cost or tag recipe, the outputs of a cost recipe.
pub open spec fn recipe_named(cat: Catalog, r: Recipe) -> bool {
    &&& (is_cost_recipe(r) || is_tag_recipe(r)) ==> all_named(cat, r.input@)
    &&& is_cost_recipe(r) ==> all_named(cat, r.output@)
}

/// The table names everything that the recipes and the hard values refer to.
pub open spec fn catalog_complete(cat: Catalog, rs: Seq<Recipe>, hard: Seq<(Identifier, u64)>) -> bool {
    &&& forall|j: int| 0 <= j < rs.len() ==> recipe_named(cat, #[trigger] rs[j])
    &&& forall|h: int| 0 <= h < hard.len() ==> cat.has(#[trigger] hard[h].0.key())
    &&& cat.has(empty_key())
}

fn add_all(cat: &mut Catalog, ings: &Vec<Ingredient>)
    requires
        old(cat).wf(),
    ensures
        final(cat).wf(),
        forall|k: Seq<char>| old(cat).has(k) ==> #[trigger] final(cat).has(k),
        all_named(*final(cat), ings@),
{
    let ghost c0 = *cat;
    let mut m: usize = 0;
    while m < ings.len()
        invariant
            cat.wf(),
            m <= ings@.len(),
            forall|k: Seq<char>| c0.has(k) ==> #[trigger] cat.has(k),
            forall|q: int| 0 <= q < m ==> cat.has(#[trigger] ings@[q].id.key()),
        decreases ings@.len() - m,
    {
        cat.add(&ings[m].id);
        m = m + 1;
    }
}

/// The table of every name that the recipes that take part, the hard values and
/// the "no item" name refer to.
pub fn fill_catalog(recipes: &Vec<Recipe>, hard: &Vec<(Identifier, u64)>) -> (cat: Catalog)
    ensures
        cat.wf(),
        catalog_complete(cat, recipes@, hard@),
{
    let mut cat = Catalog::new();
    let mut j: usize = 0;
    while j < recipes.len()
        invariant
            cat.wf(),
            j <= recipes@.len(),
            forall|q: int| 0 <= q < j ==> recipe_named(cat, #[trigger] recipes@[q]),
        decreases recipes@.len() - j,
    {
        let r = &recipes[j];
        let ghost c0 = cat;
        let cost = cost_recipe(r);
        if cost || tag_recipe(r) {
            add_all(&mut cat, &r.input);
        }
        if cost {
            add_all(&mut cat, &r.output);
        }
        assert forall|q: int| 0 <= q < j + 1 implies recipe_named(cat, #[trigger] recipes@[q]) by {
            if q < j {
                assert(recipe_named(c0, recipes@[q]));
            }
        }
        j = j + 1;
    }
    let mut h: usize = 0;
    while h < hard.len()
        invariant
            cat.wf(),
            h <= hard@.len(),
            forall|q: int| 0 <= q < recipes@.len() ==> recipe_named(cat, #[trigger] recipes@[q]),
            forall|q: int| 0 <= q < h ==> cat.has(#[trigger] hard@[q].0.key()),
        decreases hard@.len() - h,
    {
        let ghost c0 = cat;
        cat.add(&hard[h].0);
        assert forall|q: int| 0 <= q < recipes@.len() implies recipe_named(cat, #[trigger] recipes@[q]) by {
            assert(recipe_named(c0, recipes@[q]));
        }
        h = h + 1;
    }
    let ghost c0 = cat;
    let empty = Identifier::new("emi", "empty");
    proof { reveal_strlit("emi"); reveal_strlit("empty"); }
    cat.add(&empty);
    assert(empty.key() =~= empty_key());
    assert forall|q: int| 0 <= q < recipes@.len() implies recipe_named(cat, #[trigger] recipes@[q]) by {
        assert(recipe_named(c0, recipes@[q]));
    }
    cat
}

/// `s` is `ing` with its name replaced by the name's position in the table.
pub open spec fn slot_of(cat: Catalog, ing: Ingredient, s: Slot) -> bool {
    &&& s.item < cat.len()
    &&& cat.key_at(s.item as int) == ing.id.key()
    &&& s.amount == ing.amount
    &&& s.chance == ing.chance
}

/// The slots are the ingredients, one for one.
pub open spec fn slots_of(cat: Catalog, ings: Seq<Ingredient>, slots: Seq<Slot>) -> bool {
    &&& ings.len() == slots.len()
    &&& forall|k: int| 0 <= k < slots.len() ==> slot_of(cat, ings[k], #[trigger] slots[k])
}

/// The members are the items named by the ingredients, one for one.
pub open spec fn members_of(cat: Catalog, ings: Seq<Ingredient>, members: Seq<usize>) -> bool {
    &&& ings.len() == members.len()
    &&& forall|k: int| 0 <= k < members.len() ==> #[trigger] members[k] < cat.len() && cat.key_at(members[k] as int) == ings[k].id.key()
}

/// The recipes that take part in cost inference, in order.
pub open spec fn cost_recipes(rs: Seq<Recipe>) -> Seq<Recipe>
    decreases rs.len(),
{
    if rs.len() == 0 {
        Seq::empty()
    } else if is_cost_recipe(rs.last()) {
        cost_recipes(rs.drop_last()).push(rs.last())
    } else {
        cost_recipes(rs.drop_last())
    }
}

/// The recipes that define the tags used for averaging, in order.
pub open spec fn tag_recipes(rs: Seq<Recipe>) -> Seq<Recipe>
    decreases rs.len(),
{
    if rs.len() == 0 {
        Seq::empty()
    } else if is_tag_recipe(rs.last()) {
        tag_recipes(rs.drop_last()).push(rs.last())
    } else {
        tag_recipes(rs.drop_last())
    }
}

proof fn lemma_tag_recipes_prefix(rs: Seq<Recipe>, j: int)
    requires
        0 <= j < rs.len(),
    ensures
        tag_recipes(rs.take(j + 1)) == if is_tag_recipe(rs[j]) {
            tag_recipes(rs.take(j)).push(rs[j])
        } else {
            tag_recipes(rs.take(j))
        },
        tag_recipes(rs.take(j + 1)).len() <= tag_recipes(rs).len(),
        forall|d: int| 0 <= d < tag_recipes(rs.take(j + 1)).len() ==> #[trigger] tag_recipes(rs.take(j + 1))[d] == tag_recipes(rs)[d],
    decreases rs.len() - j,
{
    assert(rs.take(j + 1).drop_last() =~= rs.take(j));
    if j + 1 == rs.len() {
        assert(rs.take(j + 1) =~= rs);
    } else {
        lemma_tag_recipes_prefix(rs, j + 1);
        let a = tag_recipes(rs.take(j + 1));
        let b = tag_recipes(rs.take(j + 2));
        assert(rs.take(j + 2).drop_last() =~= rs.take(j + 1));
        assert forall|d: int| 0 <= d < a.len() implies #[trigger] a[d] == tag_recipes(rs)[d] by {
            assert(b[d] == tag_recipes(rs)[d]);
        }
    }
}

proof fn lemma_last_def_range(slots: Seq<usize>, s: usize)
    ensures
        last_def(slots, s) < slots.len(),
        last_def(slots, s) >= 0 ==> slots[last_def(slots, s)] == s,
    decreases slots.len(),
{
    if slots.len() > 0 && slots.last() != s {
        lemma_last_def_range(slots.drop_last(), s);
    }
}

proof fn lemma_last_def_found(slots: Seq<usize>, s: usize, d: int)
    requires
        0 <= d < slots.len(),
        slots[d] == s,
    ensures
        0 <= last_def(slots, s) < slots.len(),
        slots[last_def(slots, s)] == s,
    decreases slots.len(),
{
    if slots.last() != s {
        lemma_last_def_found(slots.drop_last(), s, d);
    }
}

/// `ir` is `r` with every name replaced by its position in the table.
pub open spec fn indexed_as(cat: Catalog, r: Recipe, ir: IndexedRecipe) -> bool {
    slots_of(cat, r.input@, ir.inputs@) && slots_of(cat, r.output@, ir.outputs@)
}

fn index_slots(cat: &Catalog, ings: &Vec<Ingredient>) -> (r: Vec<Slot>)
    requires
        cat.wf(),
        all_named(*cat, ings@),
    ensures
        slots_of(*cat, ings@, r@),
{
    let mut r: Vec<Slot> = Vec::new();
    let mut k: usize = 0;
    while k < ings.len()
        invariant
            cat.wf(),
            all_named(*cat, ings@),
            k <= ings@.len(),
            r@.len() == k,
            forall|q: int| 0 <= q < k ==> slot_of(*cat, ings@[q], #[trigger] r@[q]),
        decreases ings@.len() - k,
    {
        let ing = &ings[k];
        assert(cat.has(ings@[k as int].id.key()));
        let item = match cat.index_of(&ing.id) {
            Some(i) => i,
            None => 0,
        };
        r.push(Slot { item, amount: ing.amount, chance: ing.chance });
        k = k + 1;
    }
    r
}

fn index_members(cat: &Catalog, ings: &Vec<Ingredient>) -> (r: Vec<usize>)
    requires
        cat.wf(),
        all_named(*cat, ings@),
    ensures
        members_of(*cat, ings@, r@),
{
    let mut r: Vec<usize> = Vec::new();
    let mut k: usize = 0;
    while k < ings.len()
        invariant
            cat.wf(),
            all_named(*cat, ings@),
            k <= ings@.len(),
            r@.len() == k,
            forall|q: int| 0 <= q < k ==> #[trigger] r@[q] < cat.len() && cat.key_at(r@[q] as int) == ings@[q].id.key(),
        decreases ings@.len() - k,
    {
        assert(cat.has(ings@[k as int].id.key()));
        let item = match cat.index_of(&ings[k].id) {
            Some(i) => i,
            None => 0,
        };
        r.push(item);
        k = k + 1;
    }
    r
}

/// The recipes that take part, and the member lists of the tags, over item positions.
pub fn index_recipes(cat: &Catalog, recipes: &Vec<Recipe>, hard: &Vec<(Identifier, u64)>) -> (r: (Vec<IndexedRecipe>, Vec<Vec<usize>>))
    requires
        cat.wf(),
        catalog_complete(*cat, recipes@, hard@),
    ensures
        r.0@.len() == cost_recipes(recipes@).len(),
        forall|j: int| 0 <= j < r.0@.len() ==> indexed_as(*cat, cost_recipes(recipes@)[j], #[trigger] r.0@[j]),
        r.1@.len() == tag_recipes(recipes@).len(),
        forall|t: int| 0 <= t < r.1@.len() ==> members_of(*cat, tag_recipes(recipes@)[t].input@, #[trigger] r.1@[t]@),
{
    let mut irs: Vec<IndexedRecipe> = Vec::new();
    let mut tags: Vec<Vec<usize>> = Vec::new();
    let mut j: usize = 0;
    while j < recipes.len()
        invariant
            cat.wf(),
            catalog_complete(*cat, recipes@, hard@),
            j <= recipes@.len(),
            irs@.len() == cost_recipes(recipes@.take(j as int)).len(),
            forall|q: int| 0 <= q < irs@.len() ==> indexed_as(*cat, cost_recipes(recipes@.take(j as int))[q], #[trigger] irs@[q]),
            tags@.len() == tag_recipes(recipes@.take(j as int)).len(),
            forall|t: int| 0 <= t < tags@.len() ==> members_of(*cat, tag_recipes(recipes@.take(j as int))[t].input@, #[trigger] tags@[t]@),
        decreases recipes@.len() - j,
    {
        assert(recipes@.take(j + 1).drop_last() =~= recipes@.take(j as int));
        let r = &recipes[j];
        assert(recipe_named(*cat, recipes@[j as int]));
        if cost_recipe(r) {
            let inputs = index_slots(cat, &r.input);
            let outputs = index_slots(cat, &r.output);
            irs.push(IndexedRecipe { inputs, outputs });
        } else if tag_recipe(r) {
            let members = index_members(cat, &r.input);
            tags.push(members);
        }
        j = j + 1;
    }
    assert(recipes@.take(j as int) =~= recipes@);
    (irs, tags)
}

/// `j` once for every slot of `slots` that holds item `i`.
pub open spec fn hits(slots: Seq<Slot>, i: usize, j: usize) -> Seq<usize>
    decreases slots.len(),
{
    if slots.len() == 0 {
        Seq::empty()
    } else if slots.last().item == i {
        hits(slots.drop_last(), i, j).push(j)
    } else {
        hits(slots.drop_last(), i, j)
    }
}

/// The recipes that produce item `i`, once for each output slot that holds it.
pub open spec fn producer_list(rs: Seq<IndexedRecipe>, i: usize) -> Seq<usize>
    decreases rs.len(),
{
    if rs.len() == 0 {
        Seq::empty()
    } else {
        producer_list(rs.drop_last(), i) + hits(rs.last().outputs@, i, (rs.len() - 1) as usize)
    }
}

/// `t` once for every entry of `members` that is item `i`.
pub open spec fn member_hits(members: Seq<usize>, i: usize, t: usize) -> Seq<usize>
    decreases members.len(),
{
    if members.len() == 0 {
        Seq::empty()
    } else if members.last() == i {
        member_hits(members.drop_last(), i, t).push(t)
    } else {
        member_hits(members.drop_last(), i, t)
    }
}

/// The tags that item `i` belongs to: for each definition in order, the tag
/// `slots[d]` it defines, once for each time it lists `i`.
pub open spec fn tag_list(defs: Seq<Vec<usize>>, slots: Seq<usize>, i: usize) -> Seq<usize>
    decreases defs.len(),
{
    if defs.len() == 0 {
        Seq::empty()
    } else {
        tag_list(defs.drop_last(), slots, i) + member_hits(defs.last()@, i, slots[defs.len() - 1])
    }
}

/// The last definition `d` with `slots[d] == s`, or -1.
pub open spec fn last_def(slots: Seq<usize>, s: usize) -> int
    decreases slots.len(),
{
    if slots.len() == 0 {
        -1
    } else if slots.last() == s {
        slots.len() - 1
    } else {
        last_def(slots.drop_last(), s)
    }
}

/// Whether some slot of `slots` holds item `i`.
pub open spec fn holds(slots: Seq<Slot>, i: usize) -> bool {
    exists|k: int| 0 <= k < slots.len() && (#[trigger] slots[k]).item == i
}

/// Whether item `i` is an input or output of some recipe of `rs`.
pub open spec fn in_recipes(rs: Seq<IndexedRecipe>, i: usize) -> bool {
    exists|j: int| 0 <= j < rs.len() && (holds((#[trigger] rs[j]).inputs@, i) || holds(rs[j].outputs@, i))
}

/// The items below `n` that occur in `rs`, ascending.
pub open spec fn universe_below(rs: Seq<IndexedRecipe>, n: nat) -> Seq<usize>
    decreases n,
{
    if n == 0 {
        Seq::empty()
    } else if in_recipes(rs, (n - 1) as usize) {
        universe_below(rs, (n - 1) as nat).push((n - 1) as usize)
    } else {
        universe_below(rs, (n - 1) as nat)
    }
}

/// The production lookup: for each item below `n`, the recipes that produce it.
pub fn producers_of(n: usize, rs: &Vec<IndexedRecipe>) -> (p: Vec<Vec<usize>>)
    requires
        forall|j: int| 0 <= j < rs@.len() ==> crate::graph::slots_ok((#[trigger] rs@[j]).outputs@, n as nat),
    ensures
        p@.len() == n,
        forall|i: int| 0 <= i < n ==> (#[trigger] p@[i])@ == producer_list(rs@, i as usize),
{
    let mut p: Vec<Vec<usize>> = Vec::new();
    let mut i: usize = 0;
    while i < n
        invariant
            i <= n,
            p@.len() == i,
            forall|q: int| 0 <= q < i ==> (#[trigger] p@[q])@ == Seq::<usize>::empty(),
        decreases n - i,
    {
        p.push(Vec::new());
        i = i + 1;
    }
    let mut j: usize = 0;
    while j < rs.len()
        invariant
            forall|j: int| 0 <= j < rs@.len() ==> crate::graph::slots_ok((#[trigger] rs@[j]).outputs@, n as nat),
            j <= rs@.len(),
            p@.len() == n,
            forall|i: int| 0 <= i < n ==> (#[trigger] p@[i])@ == producer_list(rs@.take(j as int), i as usize),
        decreases rs@.len() - j,
    {
        assert(rs@.take(j + 1).drop_last() =~= rs@.take(j as int));
        let outs = &rs[j].outputs;
        assert(crate::graph::slots_ok(rs@[j as int].outputs@, n as nat));
        let mut k: usize = 0;
        while k < outs.len()
            invariant
                crate::graph::slots_ok(outs@, n as nat),
                outs@ == rs@[j as int].outputs@,
                j < rs@.len(),
                k <= outs@.len(),
                p@.len() == n,
                forall|i: int| 0 <= i < n ==> (#[trigger] p@[i])@ == producer_list(rs@.take(j as int), i as usize) + hits(outs@.take(k as int), i as usize, j),
            decreases outs@.len() - k,
        {
            assert(outs@.take(k + 1).drop_last() =~= outs@.take(k as int));
            let item = outs[k].item;
            p[item].push(j);
            assert forall|i: int| 0 <= i < n implies (#[trigger] p@[i])@ == producer_list(rs@.take(j as int), i as usize) + hits(outs@.take(k + 1), i as usize, j) by {
                if i == item {
                    assert(p@[i]@ =~= producer_list(rs@.take(j as int), i as usize) + hits(outs@.take(k + 1), i as usize, j));
                }
            }
            k = k + 1;
        }
        assert(outs@.take(k as int) =~= outs@);
        assert(rs@.take(j + 1).last() == rs@[j as int]);
        j = j + 1;
    }
    assert(rs@.take(j as int) =~= rs@);
    p
}

fn mark_slots(marks: &mut Vec<bool>, slots: &Vec<Slot>)
    requires
        crate::graph::slots_ok(slots@, old(marks)@.len()),
    ensures
        final(marks)@.len() == old(marks)@.len(),
        forall|i: int| 0 <= i < old(marks)@.len() ==> #[trigger] final(marks)@[i] == (old(marks)@[i] || holds(slots@, i as usize)),
{
    let ghost m0 = marks@;
    let len = marks.len();
    let mut k: usize = 0;
    while k < slots.len()
        invariant
            m0.len() == len,
            crate::graph::slots_ok(slots@, m0.len()),
            k <= slots@.len(),
            marks@.len() == m0.len(),
            forall|i: int| 0 <= i < m0.len() ==> #[trigger] marks@[i] == (m0[i] || holds(slots@.take(k as int), i as usize)),
        decreases slots@.len() - k,
    {
        let item = slots[k].item;
        marks.set(item, true);
        assert forall|i: int| 0 <= i < m0.len() implies #[trigger] marks@[i] == (m0[i] || holds(slots@.take(k + 1), i as usize)) by {
            let a = slots@.take(k as int);
            let b = slots@.take(k + 1);
            assert(b[k as int] == slots@[k as int]);
            if holds(a, i as usize) {
                let w = choose|w: int| 0 <= w < a.len() && (#[trigger] a[w]).item == i as usize;
                assert(b[w] == a[w]);
            }
            if holds(b, i as usize) && i != item {
                let w = choose|w: int| 0 <= w < b.len() && (#[trigger] b[w]).item == i as usize;
                assert(w != k);
                assert(a[w] == b[w]);
            }
            if i == item {
                assert(b[k as int].item == i as usize);
            }
        }
        k = k + 1;
    }
    assert(slots@.take(k as int) =~= slots@);
}

/// The items below `n` that occur in some recipe, ascending.
pub fn universe_of(n: usize, rs: &Vec<IndexedRecipe>) -> (u: Vec<usize>)
    requires
        forall|j: int| 0 <= j < rs@.len() ==> crate::graph::slots_ok((#[trigger] rs@[j]).inputs@, n as nat)
            && crate::graph::slots_ok(rs@[j].outputs@, n as nat),
    ensures
        u@ == universe_below(rs@, n as nat),
        crate::graph::all_below(u@, n as nat),
{
    let mut marks: Vec<bool> = Vec::new();
    let mut i: usize = 0;
    while i < n
        invariant
            i <= n,
            marks@.len() == i,
            forall|q: int| 0 <= q < i ==> !(#[trigger] marks@[q]),
        decreases n - i,
    {
        marks.push(false);
        i = i + 1;
    }
    let mut j: usize = 0;
    while j < rs.len()
        invariant
            forall|j: int| 0 <= j < rs@.len() ==> crate::graph::slots_ok((#[trigger] rs@[j]).inputs@, n as nat)
                && crate::graph::slots_ok(rs@[j].outputs@, n as nat),
            j <= rs@.len(),
            marks@.len() == n,
            forall|i: int| 0 <= i < n ==> #[trigger] marks@[i] == in_recipes(rs@.take(j as int), i as usize),
        decreases rs@.len() - j,
    {
        let ghost m0 = marks@;
        assert(crate::graph::slots_ok(rs@[j as int].inputs@, n as nat));
        mark_slots(&mut marks, &rs[j].inputs);
        mark_slots(&mut marks, &rs[j].outputs);
        assert forall|i: int| 0 <= i < n implies #[trigger] marks@[i] == in_recipes(rs@.take(j + 1), i as usize) by {
            let a = rs@.take(j as int);
            let b = rs@.take(j + 1);
            if in_recipes(a, i as usize) {
                let w = choose|w: int| 0 <= w < a.len() && (holds((#[trigger] a[w]).inputs@, i as usize) || holds(a[w].outputs@, i as usize));
                assert(b[w] == a[w]);
            }
            if in_recipes(b, i as usize) {
                let w = choose|w: int| 0 <= w < b.len() && (holds((#[trigger] b[w]).inputs@, i as usize) || holds(b[w].outputs@, i as usize));
                if w < j {
                    assert(a[w] == b[w]);
                }
            }
            if holds(rs@[j as int].inputs@, i as usize) || holds(rs@[j as int].outputs@, i as usize) {
                assert(b[j as int] == rs@[j as int]);
            }
        }
        j = j + 1;
    }
    assert(rs@.take(j as int) =~= rs@);
    let mut u: Vec<usize> = Vec::new();
    let mut i: usize = 0;
    while i < n
        invariant
            i <= n,
            marks@.len() == n,
            forall|i: int| 0 <= i < n ==> #[trigger] marks@[i] == in_recipes(rs@, i as usize),
            u@ == universe_below(rs@, i as nat),
            crate::graph::all_below(u@, i as nat),
        decreases n - i,
    {
        if marks[i] {
            u.push(i);
        }
        i = i + 1;
    }
    u
}

/// The reverse tag lookup: for each item below `n`, the tags that list it.
pub fn tags_of_items(n: usize, defs: &Vec<Vec<usize>>, slots: &Vec<usize>) -> (p: Vec<Vec<usize>>)
    requires
        slots@.len() == defs@.len(),
        forall|t: int| 0 <= t < defs@.len() ==> crate::graph::all_below((#[trigger] defs@[t])@, n as nat),
    ensures
        p@.len() == n,
        forall|i: int| 0 <= i < n ==> (#[trigger] p@[i])@ == tag_list(defs@, slots@, i as usize),
{
    let mut p: Vec<Vec<usize>> = Vec::new();
    let mut i: usize = 0;
    while i < n
        invariant
            i <= n,
            p@.len() == i,
            forall|q: int| 0 <= q < i ==> (#[trigger] p@[q])@ == Seq::<usize>::empty(),
        decreases n - i,
    {
        p.push(Vec::new());
        i = i + 1;
    }
    let mut t: usize = 0;
    while t < defs.len()
        invariant
            slots@.len() == defs@.len(),
            forall|t: int| 0 <= t < defs@.len() ==> crate::graph::all_below((#[trigger] defs@[t])@, n as nat),
            t <= defs@.len(),
            p@.len() == n,
            forall|i: int| 0 <= i < n ==> (#[trigger] p@[i])@ == tag_list(defs@.take(t as int), slots@, i as usize),
        decreases defs@.len() - t,
    {
        assert(defs@.take(t + 1).drop_last() =~= defs@.take(t as int));
        let members = &defs[t];
        let slot = slots[t];
        assert(crate::graph::all_below(defs@[t as int]@, n as nat));
        let mut k: usize = 0;
        while k < members.len()
            invariant
                crate::graph::all_below(members@, n as nat),
                members@ == defs@[t as int]@,
                slot == slots@[t as int],
                t < defs@.len(),
                k <= members@.len(),
                p@.len() == n,
                forall|i: int| 0 <= i < n ==> (#[trigger] p@[i])@ == tag_list(defs@.take(t as int), slots@, i as usize) + member_hits(members@.take(k as int), i as usize, slot),
            decreases members@.len() - k,
        {
            assert(members@.take(k + 1).drop_last() =~= members@.take(k as int));
            let item = members[k];
            p[item].push(slot);
            assert forall|i: int| 0 <= i < n implies (#[trigger] p@[i])@ == tag_list(defs@.take(t as int), slots@, i as usize) + member_hits(members@.take(k + 1), i as usize, slot) by {
                if i == item {
                    assert(p@[i]@ =~= tag_list(defs@.take(t as int), slots@, i as usize) + member_hits(members@.take(k + 1), i as usize, slot));
                }
            }
            k = k + 1;
        }
        assert(members@.take(k as int) =~= members@);
        assert(defs@.take(t + 1).last() == defs@[t as int]);
        t = t + 1;
    }
    assert(defs@.take(t as int) =~= defs@);
    p
}

/// The table of the names of the tags that the tag recipes define.
pub fn tag_names_of(recipes: &Vec<Recipe>) -> (cat: Catalog)
    ensures
        cat.wf(),
        forall|d: int| 0 <= d < tag_recipes(recipes@).len() ==> cat.has(#[trigger] tag_recipes(recipes@)[d].id.key()),
        forall|k: Seq<char>| #[trigger] cat.has(k) ==> exists|d: int| 0 <= d < tag_recipes(recipes@).len() && tag_recipes(recipes@)[d].id.key() == k,
{
    let mut cat = Catalog::new();
    let mut j: usize = 0;
    while j < recipes.len()
        invariant
            cat.wf(),
            j <= recipes@.len(),
            forall|d: int| 0 <= d < tag_recipes(recipes@.take(j as int)).len() ==> cat.has(#[trigger] tag_recipes(recipes@.take(j as int))[d].id.key()),
            forall|k: Seq<char>| #[trigger] cat.has(k) ==> exists|d: int| 0 <= d < tag_recipes(recipes@.take(j as int)).len() && tag_recipes(recipes@.take(j as int))[d].id.key() == k,
        decreases recipes@.len() - j,
    {
        assert(recipes@.take(j + 1).drop_last() =~= recipes@.take(j as int));
        let ghost before = tag_recipes(recipes@.take(j as int));
        let ghost c0 = cat;
        if !tag_recipe(&recipes[j]) {
            assert(tag_recipes(recipes@.take(j + 1)) == before);
        } else {
            cat.add(&recipes[j].id);
            let ghost after = tag_recipes(recipes@.take(j + 1));
            assert(after == before.push(recipes@[j as int]));
            assert forall|d: int| 0 <= d < after.len() implies cat.has(#[trigger] after[d].id.key()) by {
                if d < before.len() {
                    assert(after[d] == before[d]);
                    assert(c0.has(before[d].id.key()));
                }
            }
            assert forall|k: Seq<char>| #[trigger] cat.has(k) implies exists|d: int| 0 <= d < after.len() && after[d].id.key() == k by {
                if c0.has(k) {
                    let d = choose|d: int| 0 <= d < before.len() && before[d].id.key() == k;
                    assert(after[d] == before[d]);
                } else {
                    assert(after[before.len() as int] == recipes@[j as int]);
                }
            }
        }
        j = j + 1;
    }
    assert(recipes@.take(j as int) =~= recipes@);
    cat
}

/// For each tag definition, the position of its name in `names`.
pub fn def_slots(names: &Catalog, recipes: &Vec<Recipe>) -> (slots: Vec<usize>)
    requires
        names.wf(),
        forall|d: int| 0 <= d < tag_recipes(recipes@).len() ==> names.has(#[trigger] tag_recipes(recipes@)[d].id.key()),
    ensures
        slots@.len() == tag_recipes(recipes@).len(),
        forall|d: int| 0 <= d < slots@.len() ==> #[trigger] slots@[d] < names.len()
            && names.key_at(slots@[d] as int) == tag_recipes(recipes@)[d].id.key(),
{
    let mut slots: Vec<usize> = Vec::new();
    let mut j: usize = 0;
    while j < recipes.len()
        invariant
            names.wf(),
            forall|d: int| 0 <= d < tag_recipes(recipes@).len() ==> names.has(#[trigger] tag_recipes(recipes@)[d].id.key()),
            j <= recipes@.len(),
            slots@.len() == tag_recipes(recipes@.take(j as int)).len(),
            forall|d: int| 0 <= d < slots@.len() ==> #[trigger] slots@[d] < names.len()
                && names.key_at(slots@[d] as int) == tag_recipes(recipes@.take(j as int))[d].id.key(),
        decreases recipes@.len() - j,
    {
        assert(recipes@.take(j + 1).drop_last() =~= recipes@.take(j as int));
        proof { lemma_tag_recipes_prefix(recipes@, j as int); }
        if tag_recipe(&recipes[j]) {
            let ghost d0 = slots@.len() as int;
            let ghost after = tag_recipes(recipes@.take(j + 1));
            assert(after == tag_recipes(recipes@.take(j as int)).push(recipes@[j as int]));
            assert(after[d0] == recipes@[j as int]);
            assert(after[d0] == tag_recipes(recipes@)[d0]);
            assert(tag_recipes(recipes@)[d0] == recipes@[j as int]);
            assert(names.has(tag_recipes(recipes@)[d0].id.key()));
            let s = match names.index_of(&recipes[j].id) {
                Some(s) => s,
                None => 0,
            };
            slots.push(s);
        }
        j = j + 1;
    }
    assert(recipes@.take(j as int) =~= recipes@);
    slots
}

/// The forward tag lookup: for each tag, the members of its last definition.
pub fn forward_tags(m: usize, defs: &Vec<Vec<usize>>, slots: &Vec<usize>) -> (tags: Vec<Vec<usize>>)
    requires
        slots@.len() == defs@.len(),
        crate::graph::all_below(slots@, m as nat),
    ensures
        tags@.len() == m,
        forall|s: int| 0 <= s < m ==> last_def(slots@, s as usize) >= 0 ==> (#[trigger] tags@[s])@ == defs@[last_def(slots@, s as usize)]@,
{
    let mut tags: Vec<Vec<usize>> = Vec::new();
    let mut i: usize = 0;
    while i < m
        invariant
            i <= m,
            tags@.len() == i,
        decreases m - i,
    {
        tags.push(Vec::new());
        i = i + 1;
    }
    let mut d: usize = 0;
    while d < defs.len()
        invariant
            slots@.len() == defs@.len(),
            crate::graph::all_below(slots@, m as nat),
            d <= defs@.len(),
            tags@.len() == m,
            forall|s: int| 0 <= s < m ==> last_def(slots@.take(d as int), s as usize) >= 0
                ==> (#[trigger] tags@[s])@ == defs@[last_def(slots@.take(d as int), s as usize)]@,
        decreases defs@.len() - d,
    {
        assert(slots@.take(d + 1).drop_last() =~= slots@.take(d as int));
        let slot = slots[d];
        tags.set(slot, defs[d].clone());
        d = d + 1;
    }
    assert(slots@.take(d as int) =~= slots@);
    tags
}

/// The last hard value given under the rendered name `k`.
pub open spec fn hard_value(hard: Seq<(Identifier, u64)>, k: Seq<char>) -> Option<u64>
    decreases hard.len(),
{
    if hard.len() == 0 {
        None
    } else if hard.last().0.key() == k {
        Some(hard.last().1)
    } else {
        hard_value(hard.drop_last(), k)
    }
}

/// The value an item starts with: zero for "no item", else its hard value.
pub open spec fn seed_value(hard: Seq<(Identifier, u64)>, k: Seq<char>) -> Option<u64> {
    if k == empty_key() {
        Some(0)
    } else {
        hard_value(hard, k)
    }
}

proof fn lemma_keys_distinct(cat: Catalog, i: int, j: int)
    requires
        cat.wf(),
        0 <= i < cat.len(),
        0 <= j < cat.len(),
        i != j,
    ensures
        cat.key_at(i) != cat.key_at(j),
{
    if i < j {
        lemma_key_lt_total(cat.key_at(i), cat.key_at(j));
    } else {
        lemma_key_lt_total(cat.key_at(j), cat.key_at(i));
    }
}

/// The starting values of the table's items.
pub fn seed_values(cat: &Catalog, hard: &Vec<(Identifier, u64)>) -> (v: Vec<Option<u64>>)
    requires
        cat.wf(),
        forall|h: int| 0 <= h < hard@.len() ==> cat.has(#[trigger] hard@[h].0.key()),
        cat.has(empty_key()),
    ensures
        v@.len() == cat.len(),
        forall|i: int| 0 <= i < cat.len() ==> #[trigger] v@[i] == seed_value(hard@, cat.key_at(i)),
{
    let mut v: Vec<Option<u64>> = Vec::new();
    let mut i: usize = 0;
    while i < cat.names.len()
        invariant
            cat.wf(),
            i <= cat.len(),
            v@.len() == i,
            forall|q: int| 0 <= q < i ==> (#[trigger] v@[q]) is None,
        decreases cat.len() - i,
    {
        v.push(None);
        i = i + 1;
    }
    let mut h: usize = 0;
    while h < hard.len()
        invariant
            cat.wf(),
            forall|h: int| 0 <= h < hard@.len() ==> cat.has(#[trigger] hard@[h].0.key()),
            h <= hard@.len(),
            v@.len() == cat.len(),
            forall|i: int| 0 <= i < cat.len() ==> #[trigger] v@[i] == hard_value(hard@.take(h as int), cat.key_at(i)),
        decreases hard@.len() - h,
    {
        assert(hard@.take(h + 1).drop_last() =~= hard@.take(h as int));
        assert(cat.has(hard@[h as int].0.key()));
        match cat.index_of(&hard[h].0) {
            Some(idx) => {
                v.set(idx, Some(hard[h].1));
                assert forall|i: int| 0 <= i < cat.len() implies #[trigger] v@[i] == hard_value(hard@.take(h + 1), cat.key_at(i)) by {
                    if i != idx {
                        lemma_keys_distinct(*cat, i, idx as int);
                    }
                }
            },
            None => {},
        }
        h = h + 1;
    }
    assert(hard@.take(h as int) =~= hard@);
    let empty = Identifier::new("emi", "empty");
    proof { reveal_strlit("emi"); reveal_strlit("empty"); }
    assert(empty.key() =~= empty_key());
    match cat.index_of(&empty) {
        Some(idx) => {
            v.set(idx, Some(0));
            assert forall|i: int| 0 <= i < cat.len() implies #[trigger] v@[i] == seed_value(hard@, cat.key_at(i)) by {
                if i != idx {
                    lemma_keys_distinct(*cat, i, idx as int);
                }
            }
        },
        None => {},
    }
    v
}

proof fn lemma_hits_are(slots: Seq<Slot>, i: usize, j: usize)
    ensures
        forall|k: int| 0 <= k < hits(slots, i, j).len() ==> #[trigger] hits(slots, i, j)[k] == j,
    decreases slots.len(),
{
    if slots.len() > 0 {
        lemma_hits_are(slots.drop_last(), i, j);
        let p = hits(slots.drop_last(), i, j);
        assert forall|k: int| 0 <= k < hits(slots, i, j).len() implies #[trigger] hits(slots, i, j)[k] == j by {
            if k < p.len() {
                assert(p[k] == j);
            }
        }
    }
}

proof fn lemma_producer_list_below(rs: Seq<IndexedRecipe>, i: usize)
    requires
        rs.len() <= usize::MAX,
    ensures
        crate::graph::all_below(producer_list(rs, i), rs.len()),
    decreases rs.len(),
{
    if rs.len() > 0 {
        lemma_producer_list_below(rs.drop_last(), i);
        lemma_hits_are(rs.last().outputs@, i, (rs.len() - 1) as usize);
        let a = producer_list(rs.drop_last(), i);
        let b = hits(rs.last().outputs@, i, (rs.len() - 1) as usize);
        assert forall|k: int| 0 <= k < (a + b).len() implies (a + b)[k] < rs.len() by {
            if k >= a.len() {
                assert((a + b)[k] == b[k - a.len()]);
            }
        }
    }
}

proof fn lemma_member_hits_are(members: Seq<usize>, i: usize, t: usize)
    ensures
        forall|k: int| 0 <= k < member_hits(members, i, t).len() ==> #[trigger] member_hits(members, i, t)[k] == t,
    decreases members.len(),
{
    if members.len() > 0 {
        lemma_member_hits_are(members.drop_last(), i, t);
        let p = member_hits(members.drop_last(), i, t);
        assert forall|k: int| 0 <= k < member_hits(members, i, t).len() implies #[trigger] member_hits(members, i, t)[k] == t by {
            if k < p.len() {
                assert(p[k] == t);
            }
        }
    }
}

proof fn lemma_tag_list_below(defs: Seq<Vec<usize>>, slots: Seq<usize>, i: usize, m: nat)
    requires
        defs.len() <= slots.len(),
        crate::graph::all_below(slots, m),
    ensures
        crate::graph::all_below(tag_list(defs, slots, i), m),
    decreases defs.len(),
{
    if defs.len() > 0 {
        lemma_tag_list_below(defs.drop_last(), slots, i, m);
        lemma_member_hits_are(defs.last()@, i, slots[defs.len() - 1]);
        let a = tag_list(defs.drop_last(), slots, i);
        let b = member_hits(defs.last()@, i, slots[defs.len() - 1]);
        assert forall|k: int| 0 <= k < (a + b).len() implies (a + b)[k] < m by {
            if k >= a.len() {
                assert((a + b)[k] == b[k - a.len()]);
            }
        }
    }
}

/// The item table, the indexed graph and the starting values.
#[derive(Clone, Debug)]
pub struct Index {
    /// The item names.
    pub catalog: Catalog,
    /// The tag names; a tag's number in the graph is its position here.
    pub tag_names: Catalog,
    /// For each tag definition, its members.
    pub tag_defs: Vec<Vec<usize>>,
    /// For each tag definition, the tag it defines.
    pub def_tags: Vec<usize>,
    pub graph: Graph,
    pub seed: Vec<Option<u64>>,
}

/// `ix` indexes `recipes` and the hard values: the table holds every name that
/// is referred to, the graph holds the recipes that take part and the tags over
/// positions in the table, and each item starts with its hard value.
pub open spec fn indexes(ix: Index, recipes: Seq<Recipe>, hard: Seq<(Identifier, u64)>) -> bool {
    &&& ix.catalog.wf()
    &&& catalog_complete(ix.catalog, recipes, hard)
    &&& ix.graph.wf()
    &&& ix.graph.n() == ix.catalog.len()
    &&& ix.graph.recipes@.len() == cost_recipes(recipes).len()
    &&& forall|j: int| 0 <= j < ix.graph.recipes@.len() ==> indexed_as(ix.catalog, cost_recipes(recipes)[j], #[trigger] ix.graph.recipes@[j])
    &&& ix.tag_names.wf()
    &&& ix.tag_defs@.len() == tag_recipes(recipes).len()
    &&& ix.def_tags@.len() == tag_recipes(recipes).len()
    &&& forall|d: int| 0 <= d < ix.tag_defs@.len() ==> members_of(ix.catalog, tag_recipes(recipes)[d].input@, #[trigger] ix.tag_defs@[d]@)
    &&& forall|d: int| 0 <= d < ix.def_tags@.len() ==> #[trigger] ix.def_tags@[d] < ix.tag_names.len()
        && ix.tag_names.key_at(ix.def_tags@[d] as int) == tag_recipes(recipes)[d].id.key()
    &&& forall|k: Seq<char>| #[trigger] ix.tag_names.has(k) ==> exists|d: int| 0 <= d < tag_recipes(recipes).len() && tag_recipes(recipes)[d].id.key() == k
    &&& ix.graph.tags@.len() == ix.tag_names.len()
    &&& forall|s: int| 0 <= s < ix.graph.tags@.len() ==> last_def(ix.def_tags@, s as usize) >= 0
        && (#[trigger] ix.graph.tags@[s])@ == ix.tag_defs@[last_def(ix.def_tags@, s as usize)]@
    &&& forall|i: int| 0 <= i < ix.graph.n() ==> (#[trigger] ix.graph.producers@[i])@ == producer_list(ix.graph.recipes@, i as usize)
    &&& forall|i: int| 0 <= i < ix.graph.n() ==> (#[trigger] ix.graph.item_tags@[i])@ == tag_list(ix.tag_defs@, ix.def_tags@, i as usize)
    &&& ix.graph.universe@ == universe_below(ix.graph.recipes@, ix.graph.n())
    &&& ix.seed@.len() == ix.graph.n()
    &&& forall|i: int| 0 <= i < ix.graph.n() ==> #[trigger] ix.seed@[i] == seed_value(hard, ix.catalog.key_at(i))
}

/// Indexes the recipes and seeds the values.
pub fn build_index(recipes: &Vec<Recipe>, hard: &Vec<(Identifier, u64)>) -> (ix: Index)
    ensures
        indexes(ix, recipes@, hard@),
{
    let catalog = fill_catalog(recipes, hard);
    let n = catalog.names.len();
    let (irs, defs) = index_recipes(&catalog, recipes, hard);
    let tag_names = tag_names_of(recipes);
    let slots = def_slots(&tag_names, recipes);
    let m = tag_names.names.len();
    assert forall|j: int| 0 <= j < irs@.len() implies crate::graph::slots_ok((#[trigger] irs@[j]).inputs@, n as nat)
        && crate::graph::slots_ok(irs@[j].outputs@, n as nat) by {
        assert(indexed_as(catalog, cost_recipes(recipes@)[j], irs@[j]));
    }
    assert forall|t: int| 0 <= t < defs@.len() implies crate::graph::all_below((#[trigger] defs@[t])@, n as nat) by {
        assert(members_of(catalog, tag_recipes(recipes@)[t].input@, defs@[t]@));
    }
    let tags = forward_tags(m, &defs, &slots);
    assert forall|s: int| 0 <= s < m implies #[trigger] last_def(slots@, s as usize) >= 0 by {
        assert(tag_names.has(tag_names.key_at(s)));
        let d = choose|d: int| 0 <= d < tag_recipes(recipes@).len() && tag_recipes(recipes@)[d].id.key() == tag_names.key_at(s);
        assert(slots@[d] < m);
        if slots@[d] != s as usize {
            lemma_keys_distinct(tag_names, slots@[d] as int, s);
        }
        lemma_last_def_found(slots@, s as usize, d);
    }
    assert forall|t: int| 0 <= t < m implies crate::graph::all_below((#[trigger] tags@[t])@, n as nat) by {
        let d = last_def(slots@, t as usize);
        assert(d >= 0);
        lemma_last_def_range(slots@, t as usize);
        assert(crate::graph::all_below(defs@[d]@, n as nat));
    }
    let producers = producers_of(n, &irs);
    let item_tags = tags_of_items(n, &defs, &slots);
    let universe = universe_of(n, &irs);
    let seed = seed_values(&catalog, hard);
    assert(crate::graph::all_below(slots@, m as nat));
    let recipe_count: usize = irs.len();
    let graph = Graph { recipes: irs, producers, tags, item_tags, universe };
    assert(graph.recipes@.len() == recipe_count);
    assert forall|i: int| 0 <= i < graph.n() implies crate::graph::all_below(#[trigger] graph.producers@[i]@, graph.recipes@.len()) by {
        lemma_producer_list_below(graph.recipes@, i as usize);
    }
    assert forall|i: int| 0 <= i < graph.n() implies crate::graph::all_below(#[trigger] graph.item_tags@[i]@, graph.tags@.len()) by {
        lemma_tag_list_below(defs@, slots@, i as usize, m as nat);
    }
    assert forall|r: int| 0 <= r < graph.recipes@.len() implies #[trigger] graph.recipe_ok(r) by {
        assert(crate::graph::slots_ok(graph.recipes@[r].inputs@, n as nat));
    }
    Index { catalog, tag_names, tag_defs: defs, def_tags: slots, graph, seed }
}

} // verus!
