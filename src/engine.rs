//! The propagation engine: recipe-cost inference, tag-average inference and
//! the fixed-point loops around them, over items numbered `0..n`.
use vstd::prelude::*;

verus! {

/// The probability `num / den` that a recipe slot is realised.
#[derive(Clone, Copy, Debug)]
pub struct Chance {
    pub num: u64,
    pub den: u64,
}

/// One input or output slot of a recipe: `amount` of `item`, with `chance`.
#[derive(Clone, Copy, Debug)]
pub struct Slot {
    pub item: usize,
    pub amount: u64,
    pub chance: Chance,
}

/// A recipe that consumes its inputs and yields its outputs.
#[derive(Clone, Debug)]
pub struct IndexedRecipe {
    pub inputs: Vec<Slot>,
    pub outputs: Vec<Slot>,
}

/// What a recipe's output slots contribute while one item is being priced.
#[derive(Clone, Copy, Debug)]
pub struct Tally {
    /// Sum of the known values of already priced outputs (one unit each, whatever the amount).
    pub priced: u64,
    /// Sum of the amounts of unpriced outputs.
    pub units: u64,
    /// The chance of the slot chosen for chance weighting, if any.
    pub chosen: Option<Chance>,
}

/// The cost a recipe gives one unit of an item.
#[derive(Clone, Copy, Debug)]
pub struct Cost {
    pub per_unit: u64,
    pub weighted: u64,
}

/// `x` clamped to the range of `u64`.
pub open spec fn sat(x: int) -> u64 {
    if x < 0 {
        0
    } else if x > u64::MAX {
        u64::MAX
    } else {
        x as u64
    }
}

/// Whether a slot of chance `c` beats the slot chosen so far (none counts as chance zero).
pub open spec fn chance_above(c: Chance, best: Option<Chance>) -> bool {
    match best {
        None => c.num > 0,
        Some(b) => c.num * b.den > b.num * c.den,
    }
}

/// Sum of the input values, or `None` when some input has no value yet.
pub open spec fn input_total(inputs: Seq<Slot>, vals: Seq<Option<u64>>) -> Option<u64>
    decreases inputs.len(),
{
    if inputs.len() == 0 {
        Some(0u64)
    } else {
        match input_total(inputs.drop_last(), vals) {
            None => None,
            Some(acc) => match vals[inputs.last().item as int] {
                None => None,
                Some(v) => Some(sat(acc + v)),
            },
        }
    }
}

/// How the outputs split into priced by-products, unit count and chosen slot for `item`.
pub open spec fn tally(outputs: Seq<Slot>, item: usize, vals: Seq<Option<u64>>) -> Tally
    decreases outputs.len(),
{
    if outputs.len() == 0 {
        Tally { priced: 0, units: 0, chosen: None }
    } else {
        let t = tally(outputs.drop_last(), item, vals);
        let s = outputs.last();
        match vals[s.item as int] {
            Some(v) => Tally { priced: sat(t.priced + v), units: t.units, chosen: t.chosen },
            None => if s.item == item && chance_above(s.chance, t.chosen) {
                Tally { priced: t.priced, units: sat(t.units + s.amount), chosen: Some(s.chance) }
            } else {
                Tally { priced: t.priced, units: sat(t.units + s.amount), chosen: t.chosen }
            },
        }
    }
}

/// `per` divided by the chosen slot's chance, rounded down.
pub open spec fn weigh(per: u64, chosen: Option<Chance>) -> u64 {
    match chosen {
        None => per,
        Some(c) => sat((per as int * c.den as int) / (c.num as int)),
    }
}

/// The cost that recipe `r` gives one unit of `item`, if it can price it now.
/// Inputs count one unit of value each whatever their amount, and so do priced
/// by-products; a by-product worth more than the inputs leaves a cost of zero.
pub open spec fn recipe_cost(r: IndexedRecipe, item: usize, vals: Seq<Option<u64>>) -> Option<Cost> {
    match input_total(r.inputs@, vals) {
        None => None,
        Some(sum) => {
            let t = tally(r.outputs@, item, vals);
            if t.units == 0 {
                None
            } else {
                let per = sat((sat(sum - t.priced) as int) / (t.units as int));
                Some(Cost { per_unit: per, weighted: weigh(per, t.chosen) })
            }
        },
    }
}


/// A slot whose chance is not above that of the slot chosen so far does not
/// become the chosen slot: the choice stays as it was.
pub proof fn lemma_lower_chance_not_chosen(outputs: Seq<Slot>, item: usize, vals: Seq<Option<u64>>, s: Slot)
    requires
        !chance_above(s.chance, tally(outputs, item, vals).chosen),
    ensures
        tally(outputs.push(s), item, vals).chosen == tally(outputs, item, vals).chosen,
{
    assert(outputs.push(s).drop_last() =~= outputs);
}

/// A slot of chance zero never becomes the chosen slot.
pub proof fn lemma_zero_chance_never_chosen(outputs: Seq<Slot>, item: usize, vals: Seq<Option<u64>>, s: Slot)
    requires
        s.chance.num == 0,
    ensures
        tally(outputs.push(s), item, vals).chosen == tally(outputs, item, vals).chosen,
{
    if let Some(b) = tally(outputs, item, vals).chosen {
        assert(s.chance.num * b.den == 0);
    }
    lemma_lower_chance_not_chosen(outputs, item, vals, s);
}

/// Sums the values of `inputs`; `None` when one of them has no value.
pub fn input_sum(inputs: &Vec<Slot>, store: &Vec<Option<u64>>) -> (r: Option<u64>)
    requires
        forall|k: int| 0 <= k < inputs@.len() ==> inputs@[k].item < store@.len(),
    ensures
        r == input_total(inputs@, store@),
{
    let mut acc: Option<u64> = Some(0);
    let mut k: usize = 0;
    while k < inputs.len()
        invariant
            k <= inputs@.len(),
            forall|j: int| 0 <= j < inputs@.len() ==> inputs@[j].item < store@.len(),
            acc == input_total(inputs@.take(k as int), store@),
        decreases inputs@.len() - k,
    {
        assert(inputs@.take(k + 1).drop_last() =~= inputs@.take(k as int));
        let s = inputs[k];
        acc = match acc {
            None => None,
            Some(a) => match store[s.item] {
                None => None,
                Some(v) => Some(a.saturating_add(v)),
            },
        };
        k = k + 1;
    }
    assert(inputs@.take(k as int) =~= inputs@);
    acc
}

/// The exact product of two `u64`.
fn mul_wide(a: u64, b: u64) -> (r: u128)
    ensures
        r == a * b,
{
    proof {
        assert(a * b <= u64::MAX * u64::MAX) by (nonlinear_arith)
            requires
                a <= u64::MAX,
                b <= u64::MAX,
        ;
    }
    (a as u128) * (b as u128)
}

/// Whether a slot of chance `c` beats `best` (none counts as chance zero).
pub fn beats(c: Chance, best: Option<Chance>) -> (r: bool)
    ensures
        r == chance_above(c, best),
{
    match best {
        None => c.num > 0,
        Some(b) => mul_wide(c.num, b.den) > mul_wide(b.num, c.den),
    }
}

/// Splits the outputs of a recipe into priced by-products, unit count and chosen slot.
pub fn tally_outputs(outputs: &Vec<Slot>, item: usize, store: &Vec<Option<u64>>) -> (t: Tally)
    requires
        forall|k: int| 0 <= k < outputs@.len() ==> outputs@[k].item < store@.len(),
    ensures
        t == tally(outputs@, item, store@),
        t.chosen matches Some(c) ==> c.num > 0,
{
    let mut t = Tally { priced: 0, units: 0, chosen: None };
    let mut k: usize = 0;
    while k < outputs.len()
        invariant
            k <= outputs@.len(),
            forall|j: int| 0 <= j < outputs@.len() ==> outputs@[j].item < store@.len(),
            t == tally(outputs@.take(k as int), item, store@),
            t.chosen matches Some(c) ==> c.num > 0,
        decreases outputs@.len() - k,
    {
        assert(outputs@.take(k + 1).drop_last() =~= outputs@.take(k as int));
        let s = outputs[k];
        match store[s.item] {
            Some(v) => {
                t = Tally { priced: t.priced.saturating_add(v), units: t.units, chosen: t.chosen };
            },
            None => {
                if s.item == item && beats(s.chance, t.chosen) {
                    proof {
                        if let Some(b) = t.chosen {
                            assert(s.chance.num > 0) by (nonlinear_arith)
                                requires
                                    s.chance.num * b.den > b.num * s.chance.den,
                                    b.num > 0,
                            ;
                        }
                    }
                    t = Tally {
                        priced: t.priced,
                        units: t.units.saturating_add(s.amount),
                        chosen: Some(s.chance),
                    };
                } else {
                    t = Tally {
                        priced: t.priced,
                        units: t.units.saturating_add(s.amount),
                        chosen: t.chosen,
                    };
                }
            },
        }
        k = k + 1;
    }
    assert(outputs@.take(k as int) =~= outputs@);
    t
}

/// The cost that `r` gives one unit of `item`, or `None` when an input has no
/// value yet or no output is left to carry the cost.
pub fn cost_of(r: &IndexedRecipe, item: usize, store: &Vec<Option<u64>>) -> (c: Option<Cost>)
    requires
        forall|k: int| 0 <= k < r.inputs@.len() ==> r.inputs@[k].item < store@.len(),
        forall|k: int| 0 <= k < r.outputs@.len() ==> r.outputs@[k].item < store@.len(),
    ensures
        c == recipe_cost(*r, item, store@),
{
    match input_sum(&r.inputs, store) {
        None => None,
        Some(sum) => {
            let t = tally_outputs(&r.outputs, item, store);
            if t.units == 0 {
                None
            } else {
                let per = sum.saturating_sub(t.priced) / t.units;
                let weighted = match t.chosen {
                    None => per,
                    Some(ch) => {
                        let w = mul_wide(per, ch.den) / (ch.num as u128);
                        if w > u64::MAX as u128 {
                            u64::MAX
                        } else {
                            w as u64
                        }
                    },
                };
                Some(Cost { per_unit: per, weighted })
            }
        },
    }
}

} // verus!
