//! Named recipes and tags as they come in, and which of them take part.
use vstd::prelude::*;
use crate::engine::Chance;
use crate::ident::Identifier;

verus! {

/// One input or output slot of a recipe.
#[derive(Clone, Debug)]
pub struct Ingredient {
    pub id: Identifier,
    pub amount: u64,
    pub chance: Chance,
}

/// A recipe of some type, with its inputs and outputs in order.
#[derive(Clone, Debug)]
pub struct Recipe {
    pub id: Identifier,
    pub recipe_type: Identifier,
    pub input: Vec<Ingredient>,
    pub output: Vec<Ingredient>,
}

/// A tag and the items it contains.
#[derive(Clone, Debug)]
pub struct TagMap {
    pub id: Identifier,
    pub contents: Vec<Identifier>,
}

/// Whether `id` is `namespace:path`.
pub open spec fn names(id: Identifier, namespace: Seq<char>, path: Seq<char>) -> bool {
    id.namespace@ == namespace && id.path@ == path
}

/// Recipe types that destroy or consume rather than transform, and loot-table pseudo recipes.
pub open spec fn is_excluded_type(t: Identifier) -> bool {
    ||| names(t, "emi"@, "fuel"@)
    ||| names(t, "emi"@, "composting"@)
    ||| names(t, "emi"@, "world_interaction"@)
    ||| names(t, "emi"@, "anvil_repairing"@)
    ||| names(t, "emi"@, "grinding"@)
    ||| t.namespace@ == "emi_loot"@
}

/// The recipe type that defines a tag.
pub open spec fn is_tag_type(t: Identifier) -> bool {
    names(t, "emi"@, "tag"@)
}

/// Generic tool-class tags, which carry no stable value.
pub open spec fn is_dropped_tag(id: Identifier) -> bool {
    ||| names(id, "emi"@, "/tag/item/minecraft/axes"@)
    ||| names(id, "emi"@, "/tag/item/minecraft/hoes"@)
    ||| names(id, "emi"@, "/tag/item/minecraft/pickaxes"@)
    ||| names(id, "emi"@, "/tag/item/minecraft/shovels"@)
    ||| names(id, "emi"@, "/tag/item/minecraft/swords"@)
    ||| names(id, "emi"@, "/tag/item/minecraft/tools"@)
}

/// A recipe that takes part in cost inference.
pub open spec fn is_cost_recipe(r: Recipe) -> bool {
    !is_excluded_type(r.recipe_type) && !is_tag_type(r.recipe_type)
}

/// A recipe that defines a tag used for averaging.
pub open spec fn is_tag_recipe(r: Recipe) -> bool {
    !is_excluded_type(r.recipe_type) && is_tag_type(r.recipe_type) && !is_dropped_tag(r.id)
}

/// Whether `t` is an excluded recipe type.
pub fn excluded_type(t: &Identifier) -> (r: bool)
    ensures
        r == is_excluded_type(*t),
{
    t.is("emi", "fuel") || t.is("emi", "composting") || t.is("emi", "world_interaction")
        || t.is("emi", "anvil_repairing") || t.is("emi", "grinding") || crate::ident::same_text(
        t.namespace.as_str(),
        "emi_loot",
    )
}

/// Whether `t` is the tag-defining recipe type.
pub fn tag_type(t: &Identifier) -> (r: bool)
    ensures
        r == is_tag_type(*t),
{
    t.is("emi", "tag")
}

/// Whether `id` is one of the dropped tool-class tags.
pub fn dropped_tag(id: &Identifier) -> (r: bool)
    ensures
        r == is_dropped_tag(*id),
{
    id.is("emi", "/tag/item/minecraft/axes") || id.is("emi", "/tag/item/minecraft/hoes")
        || id.is("emi", "/tag/item/minecraft/pickaxes") || id.is(
        "emi",
        "/tag/item/minecraft/shovels",
    ) || id.is("emi", "/tag/item/minecraft/swords") || id.is("emi", "/tag/item/minecraft/tools")
}

/// Whether `r` takes part in cost inference.
pub fn cost_recipe(r: &Recipe) -> (b: bool)
    ensures
        b == is_cost_recipe(*r),
{
    !excluded_type(&r.recipe_type) && !tag_type(&r.recipe_type)
}

/// Whether `r` defines a tag used for averaging.
pub fn tag_recipe(r: &Recipe) -> (b: bool)
    ensures
        b == is_tag_recipe(*r),
{
    !excluded_type(&r.recipe_type) && tag_type(&r.recipe_type) && !dropped_tag(&r.id)
}

impl TagMap {
    /// The tag a tag-defining recipe describes: its id, and the ids of its inputs.
    pub fn from_recipe(r: &Recipe) -> (t: TagMap)
        ensures
            t.id.namespace@ == r.id.namespace@,
            t.id.path@ == r.id.path@,
            t.contents@.len() == r.input@.len(),
            forall|k: int| 0 <= k < t.contents@.len() ==> #[trigger] t.contents@[k].key() == r.input@[k].id.key(),
    {
        let mut contents: Vec<Identifier> = Vec::new();
        let mut k: usize = 0;
        while k < r.input.len()
            invariant
                k <= r.input@.len(),
                contents@.len() == k,
                forall|j: int| 0 <= j < k ==> #[trigger] contents@[j].key() == r.input@[j].id.key(),
            decreases r.input@.len() - k,
        {
            contents.push(r.input[k].id.duplicate());
            k = k + 1;
        }
        TagMap { id: r.id.duplicate(), contents }
    }
}

} // verus!
