//! Runs the whole derivation and summarises which of the items that started
//! without a value received one.
use vstd::prelude::*;
use crate::catalog::Catalog;
use crate::index::{Index, build_index, indexes};
use crate::ident::{Identifier, first_colon};
use crate::model::Recipe;
use crate::propagate::{keeps, missing, missing_items, propagate, propagate_result};

verus! {

/// Of the items `items`, those that have a value, with it, in order.
pub open spec fn given_of(items: Seq<usize>, vals: Seq<Option<u64>>) -> Seq<(usize, u64)>
    decreases items.len(),
{
    if items.len() == 0 {
        Seq::empty()
    } else {
        match vals[items.last() as int] {
            Some(v) => given_of(items.drop_last(), vals).push((items.last(), v)),
            None => given_of(items.drop_last(), vals),
        }
    }
}

/// Of the items `items`, those still without a value, in order.
pub open spec fn unresolved_of(items: Seq<usize>, vals: Seq<Option<u64>>) -> Seq<usize>
    decreases items.len(),
{
    if items.len() == 0 {
        Seq::empty()
    } else {
        match vals[items.last() as int] {
            Some(v) => unresolved_of(items.drop_last(), vals),
            None => unresolved_of(items.drop_last(), vals).push(items.last()),
        }
    }
}

/// The items that received a value, with it, and those that did not.
#[derive(Clone, Debug)]
pub struct Report {
    pub given: Vec<(usize, u64)>,
    pub unresolved: Vec<usize>,
}

/// Splits `items` by whether they have a value in `store`.
pub fn build_report(items: &Vec<usize>, store: &Vec<Option<u64>>) -> (r: Report)
    requires
        forall|k: int| 0 <= k < items@.len() ==> items@[k] < store@.len(),
    ensures
        r.given@ == given_of(items@, store@),
        r.unresolved@ == unresolved_of(items@, store@),
{
    let mut given: Vec<(usize, u64)> = Vec::new();
    let mut unresolved: Vec<usize> = Vec::new();
    let mut k: usize = 0;
    while k < items.len()
        invariant
            forall|k: int| 0 <= k < items@.len() ==> items@[k] < store@.len(),
            k <= items@.len(),
            given@ == given_of(items@.take(k as int), store@),
            unresolved@ == unresolved_of(items@.take(k as int), store@),
        decreases items@.len() - k,
    {
        assert(items@.take(k + 1).drop_last() =~= items@.take(k as int));
        let item = items[k];
        match store[item] {
            Some(v) => given.push((item, v)),
            None => unresolved.push(item),
        }
        k = k + 1;
    }
    assert(items@.take(k as int) =~= items@);
    Report { given, unresolved }
}

/// The index, the final values, the items that started without a value, and the report on them.
#[derive(Clone, Debug)]
pub struct Outcome {
    pub index: Index,
    pub values: Vec<Option<u64>>,
    pub originally_missing: Vec<usize>,
    pub report: Report,
}

/// Indexes the recipes, seeds the hard values, propagates values to the fixed
/// point and reports on the items that started without a value.
pub fn generate(recipes: &Vec<Recipe>, hard: &Vec<(Identifier, u64)>) -> (o: Outcome)
    ensures
        indexes(o.index, recipes@, hard@),
        o.index.graph.wf(),
        o.values@ == propagate_result(o.index.graph, o.index.seed@),
        keeps(o.index.seed@, o.values@),
        o.originally_missing@ == missing(o.index.graph.universe@, o.index.seed@),
        o.report.given@ == given_of(o.originally_missing@, o.values@),
        o.report.unresolved@ == unresolved_of(o.originally_missing@, o.values@),
{
    let index = build_index(recipes, hard);
    let mut values = index.seed.clone();
    assert(values@ == index.seed@);
    let originally_missing = missing_items(&index.graph, &values);
    propagate(&index.graph, &mut values);
    let report = build_report(&originally_missing, &values);
    Outcome { index, values, originally_missing, report }
}

/// `v` is the entry `e` with its key split at the first `:`.
pub open spec fn parsed_entry(e: (String, u64), v: (Identifier, u64)) -> bool {
    &&& first_colon(e.0@) is Some
    &&& v.0.namespace@ == e.0@.take(first_colon(e.0@)->Some_0)
    &&& v.0.path@ == e.0@.skip(first_colon(e.0@)->Some_0 + 1)
    &&& v.1 == e.1
}

/// Parses each `namespace:path` key of the hard values. `Err(k)` names the
/// first entry whose key has no `:`.
pub fn parse_hard_values(entries: &Vec<(String, u64)>) -> (r: Result<Vec<(Identifier, u64)>, usize>)
    ensures
        r matches Ok(v) ==> v@.len() == entries@.len()
            && forall|k: int| 0 <= k < v@.len() ==> parsed_entry(entries@[k], #[trigger] v@[k]),
        r matches Err(k) ==> k < entries@.len() && first_colon(entries@[k as int].0@) is None
            && forall|q: int| 0 <= q < k ==> first_colon(#[trigger] entries@[q].0@) is Some,
{
    let mut v: Vec<(Identifier, u64)> = Vec::new();
    let mut k: usize = 0;
    while k < entries.len()
        invariant
            k <= entries@.len(),
            v@.len() == k,
            forall|q: int| 0 <= q < k ==> parsed_entry(entries@[q], #[trigger] v@[q]),
        decreases entries@.len() - k,
    {
        match Identifier::parse(entries[k].0.as_str()) {
            Some(id) => {
                v.push((id, entries[k].1));
            },
            None => {
                assert forall|q: int| 0 <= q < k implies first_colon(#[trigger] entries@[q].0@) is Some by {
                    assert(parsed_entry(entries@[q], v@[q]));
                }
                return Err(k);
            },
        }
        k = k + 1;
    }
    Ok(v)
}

/// The rendered names of `items` with their values.
pub fn named_values(cat: &Catalog, given: &Vec<(usize, u64)>) -> (r: Vec<(String, u64)>)
    requires
        cat.wf(),
        forall|k: int| 0 <= k < given@.len() ==> given@[k].0 < cat.len(),
    ensures
        r@.len() == given@.len(),
        forall|k: int| 0 <= k < r@.len() ==> (#[trigger] r@[k]).0@ == cat.key_at(given@[k].0 as int) && r@[k].1 == given@[k].1,
{
    let mut r: Vec<(String, u64)> = Vec::new();
    let mut k: usize = 0;
    while k < given.len()
        invariant
            cat.wf(),
            forall|k: int| 0 <= k < given@.len() ==> given@[k].0 < cat.len(),
            k <= given@.len(),
            r@.len() == k,
            forall|q: int| 0 <= q < k ==> (#[trigger] r@[q]).0@ == cat.key_at(given@[q].0 as int) && r@[q].1 == given@[q].1,
        decreases given@.len() - k,
    {
        let (item, value) = given[k];
        r.push((cat.names[item].to_string(), value));
        k = k + 1;
    }
    r
}

/// The rendered names of `items`.
pub fn names_of(cat: &Catalog, items: &Vec<usize>) -> (r: Vec<String>)
    requires
        cat.wf(),
        forall|k: int| 0 <= k < items@.len() ==> items@[k] < cat.len(),
    ensures
        r@.len() == items@.len(),
        forall|k: int| 0 <= k < r@.len() ==> (#[trigger] r@[k])@ == cat.key_at(items@[k] as int),
{
    let mut r: Vec<String> = Vec::new();
    let mut k: usize = 0;
    while k < items.len()
        invariant
            cat.wf(),
            forall|k: int| 0 <= k < items@.len() ==> items@[k] < cat.len(),
            k <= items@.len(),
            r@.len() == k,
            forall|q: int| 0 <= q < k ==> (#[trigger] r@[q])@ == cat.key_at(items@[q] as int),
        decreases items@.len() - k,
    {
        r.push(cat.names[items[k]].to_string());
        k = k + 1;
    }
    r
}

} // verus!
