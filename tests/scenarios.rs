use valuegen::engine::Chance;
use valuegen::ident::Identifier;
use valuegen::model::{Ingredient, Recipe};
use valuegen::report::{generate, named_values, names_of, Outcome};

fn id(s: &str) -> Identifier {
    Identifier::parse(s).unwrap()
}

fn ing(s: &str, amount: u64, num: u64, den: u64) -> Ingredient {
    Ingredient { id: id(s), amount, chance: Chance { num, den } }
}

fn recipe(name: &str, ty: &str, input: Vec<Ingredient>, output: Vec<Ingredient>) -> Recipe {
    Recipe { id: id(name), recipe_type: id(ty), input, output }
}

fn tag(name: &str, members: &[&str]) -> Recipe {
    recipe(name, "emi:tag", members.iter().map(|m| ing(m, 1, 1, 1)).collect(), vec![])
}

fn hard(entries: &[(&str, u64)]) -> Vec<(Identifier, u64)> {
    entries.iter().map(|(k, v)| (id(k), *v)).collect()
}

fn value(o: &Outcome, name: &str) -> Option<u64> {
    let i = o.index.catalog.index_of(&id(name))?;
    o.values[i]
}

fn given(o: &Outcome) -> Vec<(String, u64)> {
    named_values(&o.index.catalog, &o.report.given)
}

fn unresolved(o: &Outcome) -> Vec<String> {
    names_of(&o.index.catalog, &o.report.unresolved)
}

#[test]
fn two_inputs_price_one_output() {
    let rs = vec![recipe("m:r", "m:craft", vec![ing("m:a", 1, 1, 1), ing("m:a", 1, 1, 1)], vec![ing("m:b", 1, 1, 1)])];
    let o = generate(&rs, &hard(&[("m:a", 10)]));
    assert_eq!(value(&o, "m:b"), Some(20));
    assert_eq!(given(&o), vec![("m:b".to_string(), 20)]);
    assert!(unresolved(&o).is_empty());
}

#[test]
fn half_chance_doubles_cost() {
    let rs = vec![recipe("m:r", "m:craft", vec![ing("m:a", 1, 1, 1)], vec![ing("m:b", 1, 1, 2)])];
    let o = generate(&rs, &hard(&[("m:a", 10)]));
    assert_eq!(value(&o, "m:b"), Some(20));
}

#[test]
fn smallest_tag_is_tried_first() {
    let rs = vec![
        recipe("m:r", "m:craft", vec![ing("m:x", 1, 1, 1)], vec![ing("m:c", 1, 1, 1)]),
        tag("emi:t1", &["m:c", "m:d", "m:e"]),
        tag("emi:t2", &["m:c", "m:f"]),
    ];
    let o = generate(&rs, &hard(&[("m:f", 6)]));
    assert_eq!(value(&o, "m:c"), Some(6));
}

#[test]
fn smaller_tag_wins_over_larger_valued_tag() {
    let rs = vec![
        recipe("m:r", "m:craft", vec![ing("m:x", 1, 1, 1)], vec![ing("m:c", 1, 1, 1)]),
        tag("emi:t1", &["m:c", "m:d", "m:e"]),
        tag("emi:t2", &["m:c", "m:f"]),
    ];
    let o = generate(&rs, &hard(&[("m:f", 6), ("m:d", 30)]));
    assert_eq!(value(&o, "m:c"), Some(6));
}

#[test]
fn equal_sized_tags_keep_listing_order() {
    let rs = vec![
        recipe("m:r", "m:craft", vec![ing("m:x", 1, 1, 1)], vec![ing("m:c", 1, 1, 1)]),
        tag("emi:t1", &["m:c", "m:d"]),
        tag("emi:t2", &["m:c", "m:f"]),
    ];
    let o = generate(&rs, &hard(&[("m:f", 6), ("m:d", 30)]));
    assert_eq!(value(&o, "m:c"), Some(30));
}

#[test]
fn tag_mean_truncates() {
    let rs = vec![
        recipe("m:r", "m:craft", vec![ing("m:x", 1, 1, 1)], vec![ing("m:c", 1, 1, 1)]),
        tag("emi:t", &["m:c", "m:d", "m:e"]),
    ];
    let o = generate(&rs, &hard(&[("m:d", 3), ("m:e", 4)]));
    assert_eq!(value(&o, "m:c"), Some(3));
}

#[test]
fn fuel_recipe_never_prices() {
    let rs = vec![
        recipe("m:burn", "emi:fuel", vec![ing("m:a", 1, 1, 1)], vec![ing("m:b", 1, 1, 1)]),
        recipe("m:r", "m:craft", vec![ing("m:z", 1, 1, 1)], vec![ing("m:b", 1, 1, 1)]),
    ];
    let o = generate(&rs, &hard(&[("m:a", 10)]));
    assert_eq!(value(&o, "m:b"), None);
    assert_eq!(unresolved(&o), vec!["m:b".to_string(), "m:z".to_string()]);
}

#[test]
fn fuel_output_resolves_through_other_recipe() {
    let rs = vec![
        recipe("m:burn", "emi:fuel", vec![ing("m:a", 1, 1, 1)], vec![ing("m:b", 1, 1, 1)]),
        recipe("m:r", "m:craft", vec![ing("m:a", 3, 1, 1)], vec![ing("m:b", 1, 1, 1)]),
    ];
    let o = generate(&rs, &hard(&[("m:a", 10)]));
    assert_eq!(value(&o, "m:b"), Some(10));
}

#[test]
fn loot_and_other_denied_types_are_dropped() {
    let rs = vec![
        recipe("m:l", "emi_loot:chest", vec![ing("m:a", 1, 1, 1)], vec![ing("m:b", 1, 1, 1)]),
        recipe("m:c", "emi:composting", vec![ing("m:a", 1, 1, 1)], vec![ing("m:c", 1, 1, 1)]),
        recipe("m:w", "emi:world_interaction", vec![ing("m:a", 1, 1, 1)], vec![ing("m:d", 1, 1, 1)]),
        recipe("m:v", "emi:anvil_repairing", vec![ing("m:a", 1, 1, 1)], vec![ing("m:e", 1, 1, 1)]),
        recipe("m:g", "emi:grinding", vec![ing("m:a", 1, 1, 1)], vec![ing("m:f", 1, 1, 1)]),
    ];
    let o = generate(&rs, &hard(&[("m:a", 10)]));
    assert!(o.index.graph.recipes.is_empty());
    assert!(o.index.graph.universe.is_empty());
    assert!(given(&o).is_empty());
}

#[test]
fn unreachable_item_stays_unresolved() {
    let rs = vec![
        recipe("m:r", "m:craft", vec![ing("m:q", 1, 1, 1)], vec![ing("m:u", 1, 1, 1)]),
        tag("emi:t", &["m:u", "m:w"]),
    ];
    let o = generate(&rs, &hard(&[]));
    assert_eq!(unresolved(&o), vec!["m:q".to_string(), "m:u".to_string()]);
    assert!(given(&o).is_empty());
}

#[test]
fn hard_value_is_never_overwritten() {
    let rs = vec![recipe("m:r", "m:craft", vec![ing("m:a", 1, 1, 1), ing("m:a", 1, 1, 1)], vec![ing("m:b", 1, 1, 1)])];
    let o = generate(&rs, &hard(&[("m:a", 10), ("m:b", 5)]));
    assert_eq!(value(&o, "m:b"), Some(5));
    assert!(given(&o).is_empty());
}

#[test]
fn zero_chance_slot_is_not_weighted() {
    let rs = vec![recipe("m:r", "m:craft", vec![ing("m:a", 1, 1, 1)], vec![ing("m:b", 2, 0, 1)])];
    let o = generate(&rs, &hard(&[("m:a", 10)]));
    assert_eq!(value(&o, "m:b"), Some(5));
}

#[test]
fn lower_chance_slot_is_counted_but_not_chosen() {
    let rs = vec![recipe(
        "m:r",
        "m:craft",
        vec![ing("m:a", 1, 1, 1)],
        vec![ing("m:b", 1, 1, 2), ing("m:b", 1, 1, 4)],
    )];
    let o = generate(&rs, &hard(&[("m:a", 12)]));
    // per unit 12 / 2 = 6, weighted by the half-chance slot: 12
    assert_eq!(value(&o, "m:b"), Some(12));
}

#[test]
fn priced_byproduct_is_subtracted_once() {
    let rs = vec![recipe(
        "m:r",
        "m:craft",
        vec![ing("m:a", 1, 1, 1)],
        vec![ing("m:b", 1, 1, 1), ing("m:s", 3, 1, 1)],
    )];
    let o = generate(&rs, &hard(&[("m:a", 20), ("m:s", 4)]));
    assert_eq!(value(&o, "m:b"), Some(16));
}

#[test]
fn byproducts_worth_more_than_inputs_give_zero() {
    let rs = vec![recipe(
        "m:r",
        "m:craft",
        vec![ing("m:a", 1, 1, 1)],
        vec![ing("m:b", 1, 1, 1), ing("m:s", 1, 1, 1)],
    )];
    let o = generate(&rs, &hard(&[("m:a", 2), ("m:s", 9)]));
    assert_eq!(value(&o, "m:b"), Some(0));
}

#[test]
fn empty_slot_counts_as_zero() {
    let rs = vec![recipe(
        "m:r",
        "m:craft",
        vec![ing("m:a", 1, 1, 1), ing("emi:empty", 1, 1, 1)],
        vec![ing("m:b", 2, 1, 1)],
    )];
    let o = generate(&rs, &hard(&[("m:a", 9)]));
    assert_eq!(value(&o, "m:b"), Some(4));
}

#[test]
fn cheaper_later_recipe_replaces_in_same_pass() {
    let rs = vec![
        recipe("m:r1", "m:craft", vec![ing("m:a", 1, 1, 1), ing("m:a", 1, 1, 1)], vec![ing("m:b", 1, 1, 1)]),
        recipe(
            "m:r2",
            "m:craft",
            vec![ing("m:a", 1, 1, 1), ing("m:a", 1, 1, 1), ing("m:a", 1, 1, 1)],
            vec![ing("m:b", 1, 1, 1), ing("m:y", 1, 1, 1)],
        ),
    ];
    let o = generate(&rs, &hard(&[("m:a", 10)]));
    // b: 20 from the first recipe, then 30 - 20 = 10 from the second
    assert_eq!(value(&o, "m:b"), Some(10));
    // y: 30 - 10 = 20
    assert_eq!(value(&o, "m:y"), Some(20));
}

#[test]
fn own_priced_slot_blocks_second_recipe() {
    let rs = vec![
        recipe("m:r1", "m:craft", vec![ing("m:a", 1, 1, 1), ing("m:a", 1, 1, 1)], vec![ing("m:b", 1, 1, 1)]),
        recipe("m:r2", "m:craft", vec![ing("m:a", 1, 1, 1)], vec![ing("m:b", 1, 1, 1)]),
    ];
    let o = generate(&rs, &hard(&[("m:a", 10)]));
    assert_eq!(value(&o, "m:b"), Some(20));
}

#[test]
fn chain_resolves_over_several_passes() {
    let rs = vec![
        recipe("m:r3", "m:craft", vec![ing("m:c", 1, 1, 1)], vec![ing("m:d", 1, 1, 1)]),
        recipe("m:r2", "m:craft", vec![ing("m:b", 2, 1, 1)], vec![ing("m:c", 1, 1, 1)]),
        recipe("m:r1", "m:craft", vec![ing("m:a", 1, 1, 1)], vec![ing("m:b", 1, 1, 1)]),
    ];
    let o = generate(&rs, &hard(&[("m:a", 7)]));
    assert_eq!(value(&o, "m:b"), Some(7));
    assert_eq!(value(&o, "m:c"), Some(7));
    assert_eq!(value(&o, "m:d"), Some(7));
}

#[test]
fn tag_value_unblocks_recipe() {
    let rs = vec![
        recipe("m:r0", "m:craft", vec![ing("m:x", 1, 1, 1)], vec![ing("m:p", 1, 1, 1)]),
        recipe("m:r1", "m:craft", vec![ing("m:p", 1, 1, 1)], vec![ing("m:q", 1, 1, 1)]),
        tag("emi:t", &["m:p", "m:k"]),
    ];
    let o = generate(&rs, &hard(&[("m:k", 8)]));
    assert_eq!(value(&o, "m:p"), Some(8));
    assert_eq!(value(&o, "m:q"), Some(8));
    assert_eq!(unresolved(&o), vec!["m:x".to_string()]);
}

#[test]
fn dropped_tool_tags_are_ignored() {
    let rs = vec![
        recipe("m:r", "m:craft", vec![ing("m:x", 1, 1, 1)], vec![ing("m:c", 1, 1, 1)]),
        tag("emi:/tag/item/minecraft/tools", &["m:c", "m:f"]),
    ];
    let o = generate(&rs, &hard(&[("m:f", 6)]));
    assert_eq!(value(&o, "m:c"), None);
    assert!(o.index.graph.tags.is_empty());
}

#[test]
fn report_lists_items_in_name_order() {
    let rs = vec![
        recipe("m:r1", "m:craft", vec![ing("m:a", 1, 1, 1)], vec![ing("z:b", 1, 1, 1)]),
        recipe("m:r2", "m:craft", vec![ing("m:a", 1, 1, 1)], vec![ing("m:b", 1, 1, 1)]),
        recipe("m:r3", "m:craft", vec![ing("m:a", 1, 1, 1)], vec![ing("m-x:b", 1, 1, 1)]),
    ];
    let o = generate(&rs, &hard(&[("m:a", 1)]));
    assert_eq!(
        given(&o),
        vec![("m-x:b".to_string(), 1), ("m:b".to_string(), 1), ("z:b".to_string(), 1)]
    );
}

#[test]
fn later_tag_definition_replaces_members() {
    let rs = vec![
        recipe("m:r", "m:craft", vec![ing("m:x", 1, 1, 1)], vec![ing("m:c", 1, 1, 1)]),
        tag("emi:t", &["m:c", "m:d"]),
        tag("emi:t", &["m:e", "m:f"]),
    ];
    let o = generate(&rs, &hard(&[("m:d", 30), ("m:f", 6)]));
    assert_eq!(o.index.graph.tags.len(), 1);
    assert_eq!(value(&o, "m:c"), Some(6));
}
