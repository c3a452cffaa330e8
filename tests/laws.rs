use valuegen::catalog::Catalog;
use valuegen::engine::{beats, cost_of, tally_outputs, Chance, IndexedRecipe, Slot};
use valuegen::graph::Graph;
use valuegen::ident::{key_less, Identifier};
use valuegen::model::{dropped_tag, excluded_type, tag_type};
use valuegen::propagate::{missing_items, propagate, recipe_pass, tag_pass};
use valuegen::report::parse_hard_values;

fn slot(item: usize, amount: u64, num: u64, den: u64) -> Slot {
    Slot { item, amount, chance: Chance { num, den } }
}

// items: 0 = a, 1 = b, 2 = c, 3 = d, 4 = e
fn sample_graph() -> Graph {
    let recipes = vec![
        IndexedRecipe { inputs: vec![slot(0, 1, 1, 1)], outputs: vec![slot(1, 1, 1, 1)] },
        IndexedRecipe { inputs: vec![slot(1, 1, 1, 1)], outputs: vec![slot(2, 1, 1, 1)] },
        IndexedRecipe { inputs: vec![slot(4, 1, 1, 1)], outputs: vec![slot(3, 1, 1, 1)] },
    ];
    Graph {
        recipes,
        producers: vec![vec![], vec![0], vec![1], vec![2], vec![]],
        tags: vec![vec![3, 2]],
        item_tags: vec![vec![], vec![], vec![0], vec![0], vec![]],
        universe: vec![0, 1, 2, 3, 4],
    }
}

#[test]
fn recipe_pass_never_loses_values() {
    let g = sample_graph();
    let mut store = vec![Some(4), None, None, None, None];
    let before = store.clone();
    let n = recipe_pass(&g, &mut store);
    assert_eq!(n, 2);
    for i in 0..before.len() {
        if before[i].is_some() {
            assert_eq!(store[i], before[i]);
        }
    }
    assert_eq!(store, vec![Some(4), Some(4), Some(4), None, None]);
}

#[test]
fn tag_pass_never_loses_values() {
    let g = sample_graph();
    let mut store = vec![Some(4), Some(4), Some(4), None, None];
    let n = tag_pass(&g, &mut store);
    assert_eq!(n, 1);
    assert_eq!(store, vec![Some(4), Some(4), Some(4), Some(4), None]);
}

#[test]
fn converged_values_stay_put() {
    let g = sample_graph();
    let mut store = vec![Some(4), None, None, None, None];
    let total = propagate(&g, &mut store);
    assert_eq!(total, 3);
    let fixed = store.clone();
    assert_eq!(recipe_pass(&g, &mut store), 0);
    assert_eq!(tag_pass(&g, &mut store), 0);
    assert_eq!(store, fixed);
    assert_eq!(missing_items(&g, &store), vec![4]);
}

#[test]
fn seeded_values_survive_propagation() {
    let g = sample_graph();
    let mut store = vec![Some(4), None, Some(100), None, None];
    propagate(&g, &mut store);
    assert_eq!(store[2], Some(100));
    assert_eq!(store[1], Some(4));
    assert_eq!(store[3], Some(100));
}

#[test]
fn chance_order() {
    assert!(beats(Chance { num: 1, den: 2 }, None));
    assert!(!beats(Chance { num: 0, den: 1 }, None));
    assert!(beats(Chance { num: 3, den: 4 }, Some(Chance { num: 1, den: 2 })));
    assert!(!beats(Chance { num: 1, den: 2 }, Some(Chance { num: 2, den: 4 })));
    assert!(!beats(Chance { num: 1, den: 4 }, Some(Chance { num: 1, den: 2 })));
}

#[test]
fn tally_keeps_first_best_slot() {
    let store = vec![Some(1), None];
    let outs = vec![slot(1, 2, 1, 2), slot(1, 3, 1, 2), slot(1, 1, 0, 1), slot(0, 5, 1, 1)];
    let t = tally_outputs(&outs, 1, &store);
    assert_eq!(t.units, 6);
    assert_eq!(t.priced, 1);
    let c = t.chosen.unwrap();
    assert_eq!((c.num, c.den), (1, 2));
}

#[test]
fn cost_needs_all_inputs_and_some_unit() {
    let store = vec![Some(10), None, Some(3)];
    let r = IndexedRecipe { inputs: vec![slot(0, 1, 1, 1), slot(1, 1, 1, 1)], outputs: vec![slot(1, 1, 1, 1)] };
    assert!(cost_of(&r, 1, &store).is_none());
    let r = IndexedRecipe { inputs: vec![slot(0, 1, 1, 1)], outputs: vec![slot(2, 1, 1, 1)] };
    assert!(cost_of(&r, 1, &store).is_none());
    let r = IndexedRecipe { inputs: vec![slot(0, 1, 1, 1), slot(2, 1, 1, 1)], outputs: vec![slot(1, 3, 1, 3)] };
    let c = cost_of(&r, 1, &store).unwrap();
    assert_eq!(c.per_unit, 4);
    assert_eq!(c.weighted, 12);
}

#[test]
fn weighted_cost_saturates() {
    let store = vec![Some(u64::MAX), None];
    let r = IndexedRecipe { inputs: vec![slot(0, 1, 1, 1)], outputs: vec![slot(1, 1, 1, 1000)] };
    let c = cost_of(&r, 1, &store).unwrap();
    assert_eq!(c.per_unit, u64::MAX);
    assert_eq!(c.weighted, u64::MAX);
}

#[test]
fn identifier_parse_and_render() {
    let i = Identifier::parse("minecraft:stone").unwrap();
    assert_eq!(i.namespace, "minecraft");
    assert_eq!(i.path, "stone");
    assert_eq!(i.to_string(), "minecraft:stone");
    let j = Identifier::parse("emi:/tag/item/a:b").unwrap();
    assert_eq!(j.namespace, "emi");
    assert_eq!(j.path, "/tag/item/a:b");
    assert!(Identifier::parse("nocolon").is_none());
    assert!(Identifier::new("a", "b").is("a", "b"));
    assert!(!Identifier::new("a", "b").is("a", "c"));
}

#[test]
fn hard_values_parse() {
    let ok = parse_hard_values(&vec![("m:a".to_string(), 3), ("n:b".to_string(), 4)]).unwrap();
    assert_eq!(ok[1].0.to_string(), "n:b");
    assert_eq!(ok[1].1, 4);
    let bad = parse_hard_values(&vec![("m:a".to_string(), 3), ("b".to_string(), 4)]);
    assert_eq!(bad.err(), Some(1));
}

#[test]
fn key_order_is_by_code_point() {
    let k = |s: &str| s.chars().collect::<Vec<char>>();
    assert!(key_less(&k("a-b"), &k("a:b")));
    assert!(key_less(&k("ab"), &k("abc")));
    assert!(!key_less(&k("abc"), &k("abc")));
    assert!(!key_less(&k("b"), &k("a")));
}

#[test]
fn catalog_sorts_and_dedups() {
    let mut c = Catalog::new();
    for s in ["m:b", "m:a", "m:b", "l:z"] {
        c.add(&Identifier::parse(s).unwrap());
    }
    let names: Vec<String> = c.names.iter().map(|n| n.to_string()).collect();
    assert_eq!(names, vec!["l:z", "m:a", "m:b"]);
    assert_eq!(c.index_of(&Identifier::new("m", "a")), Some(1));
    assert_eq!(c.index_of(&Identifier::new("m", "c")), None);
}

#[test]
fn filters() {
    assert!(excluded_type(&Identifier::new("emi", "fuel")));
    assert!(excluded_type(&Identifier::new("emi_loot", "anything")));
    assert!(!excluded_type(&Identifier::new("minecraft", "crafting")));
    assert!(tag_type(&Identifier::new("emi", "tag")));
    assert!(dropped_tag(&Identifier::new("emi", "/tag/item/minecraft/axes")));
    assert!(!dropped_tag(&Identifier::new("emi", "/tag/item/minecraft/logs")));
}
