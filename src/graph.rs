//! The indexed recipe graph the engine works on.
use vstd::prelude::*;
use crate::engine::{IndexedRecipe, Slot};

verus! {

/// Recipes and tags over items numbered `0..n`, with the lookups the engine uses.
#[derive(Clone, Debug)]
pub struct Graph {
    /// Every recipe that takes part in cost inference.
    pub recipes: Vec<IndexedRecipe>,
    /// For each item, the recipes (indices into `recipes`) that produce it.
    pub producers: Vec<Vec<usize>>,
    /// For each tag, its member items.
    pub tags: Vec<Vec<usize>>,
    /// For each item, the tags (indices into `tags`) it belongs to.
    pub item_tags: Vec<Vec<usize>>,
    /// The items that occur in some recipe, in ascending order of their names.
    pub universe: Vec<usize>,
}

/// Every slot names an item below `n`.
pub open spec fn slots_ok(slots: Seq<Slot>, n: nat) -> bool {
    forall|k: int| 0 <= k < slots.len() ==> slots[k].item < n
}

/// Every entry is below `n`.
pub open spec fn all_below(xs: Seq<usize>, n: nat) -> bool {
    forall|k: int| 0 <= k < xs.len() ==> xs[k] < n
}

impl Graph {
    /// The number of items.
    pub open spec fn n(&self) -> nat {
        self.producers@.len()
    }

    pub open spec fn recipe_ok(&self, r: int) -> bool {
        slots_ok(self.recipes@[r].inputs@, self.n()) && slots_ok(self.recipes@[r].outputs@, self.n())
    }

    /// All indices stay in range.
    pub open spec fn wf(&self) -> bool {
        &&& self.item_tags@.len() == self.n()
        &&& forall|r: int| 0 <= r < self.recipes@.len() ==> #[trigger] self.recipe_ok(r)
        &&& forall|i: int| 0 <= i < self.n() ==> all_below(
            #[trigger] self.producers@[i]@,
            self.recipes@.len(),
        )
        &&& forall|t: int| 0 <= t < self.tags@.len() ==> all_below(#[trigger] self.tags@[t]@, self.n())
        &&& forall|i: int| 0 <= i < self.n() ==> all_below(
            #[trigger] self.item_tags@[i]@,
            self.tags@.len(),
        )
        &&& all_below(self.universe@, self.n())
    }
}

} // verus!
