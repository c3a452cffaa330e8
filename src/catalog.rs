//! The sorted table of every identifier the graph names; an item's number is
//! its position in the table.
use vstd::prelude::*;
use crate::ident::{Identifier, key_lt, key_less, lemma_key_lt_total, lemma_key_lt_transitive};

verus! {

/// Identifiers in strictly ascending order of their rendered names.
#[derive(Clone, Debug)]
pub struct Catalog {
    pub names: Vec<Identifier>,
    pub keys: Vec<Vec<char>>,
}

impl Catalog {
    pub open spec fn len(&self) -> nat {
        self.names@.len()
    }

    pub open spec fn key_at(&self, i: int) -> Seq<char> {
        self.keys@[i]@
    }

    /// Names and keys agree, and the keys ascend strictly.
    pub open spec fn wf(&self) -> bool {
        &&& self.names@.len() == self.keys@.len()
        &&& forall|i: int| 0 <= i < self.len() ==> #[trigger] self.key_at(i) == self.names@[i].key()
        &&& forall|i: int, j: int| 0 <= i < j < self.len() ==> key_lt(#[trigger] self.key_at(i), #[trigger] self.key_at(j))
    }

    /// Whether some entry has the rendered name `k`.
    pub open spec fn has(&self, k: Seq<char>) -> bool {
        exists|i: int| 0 <= i < self.len() && #[trigger] self.key_at(i) == k
    }

    /// The empty table.
    pub fn new() -> (c: Catalog)
        ensures
            c.wf(),
            c.len() == 0,
    {
        Catalog { names: Vec::new(), keys: Vec::new() }
    }

    /// Binary search for `k`: `Ok` with its position, or `Err` with the position
    /// where it would be inserted to keep the order.
    pub fn find(&self, k: &Vec<char>) -> (r: Result<usize, usize>)
        requires
            self.wf(),
        ensures
            r matches Ok(i) ==> i < self.len() && self.key_at(i as int) == k@,
            r matches Err(p) ==> p <= self.len()
                && (forall|j: int| 0 <= j < p ==> key_lt(#[trigger] self.key_at(j), k@))
                && (forall|j: int| p <= j < self.len() ==> key_lt(k@, #[trigger] self.key_at(j))),
    {
        let mut lo: usize = 0;
        let mut hi: usize = self.keys.len();
        while lo < hi
            invariant
                self.wf(),
                lo <= hi <= self.len(),
                forall|j: int| 0 <= j < lo ==> key_lt(#[trigger] self.key_at(j), k@),
                forall|j: int| hi <= j < self.len() ==> key_lt(k@, #[trigger] self.key_at(j)),
            decreases hi - lo,
        {
            let mid = lo + (hi - lo) / 2;
            if key_less(&self.keys[mid], k) {
                assert forall|j: int| 0 <= j < mid + 1 implies key_lt(#[trigger] self.key_at(j), k@) by {
                    if j < mid {
                        lemma_key_lt_transitive(self.key_at(j), self.key_at(mid as int), k@);
                    }
                }
                lo = mid + 1;
            } else if key_less(k, &self.keys[mid]) {
                assert forall|j: int| mid <= j < self.len() implies key_lt(k@, #[trigger] self.key_at(j)) by {
                    if j > mid {
                        lemma_key_lt_transitive(k@, self.key_at(mid as int), self.key_at(j));
                    }
                }
                hi = mid;
            } else {
                proof { lemma_key_lt_total(self.key_at(mid as int), k@); }
                return Ok(mid);
            }
        }
        Err(lo)
    }

    /// The position of `id`, if the table holds its rendered name.
    pub fn index_of(&self, id: &Identifier) -> (r: Option<usize>)
        requires
            self.wf(),
        ensures
            r matches Some(i) ==> i < self.len() && self.key_at(i as int) == id.key(),
            r is None <==> !self.has(id.key()),
    {
        let k = id.key_chars();
        match self.find(&k) {
            Ok(i) => Some(i),
            Err(p) => {
                proof {
                    assert forall|j: int| 0 <= j < self.len() implies #[trigger] self.key_at(j) != k@ by {
                        if j < p {
                            lemma_key_lt_total(self.key_at(j), k@);
                        } else {
                            lemma_key_lt_total(k@, self.key_at(j));
                        }
                    }
                }
                None
            },
        }
    }

    /// Adds `id` unless its rendered name is already present.
    pub fn add(&mut self, id: &Identifier)
        requires
            old(self).wf(),
        ensures
            final(self).wf(),
            forall|k: Seq<char>| final(self).has(k) <==> (old(self).has(k) || k == id.key()),
    {
        let k = id.key_chars();
        match self.find(&k) {
            Ok(_) => {},
            Err(p) => {
                let ghost before = *self;
                self.names.insert(p, id.duplicate());
                self.keys.insert(p, k);
                assert(self.len() == before.len() + 1);
                assert forall|i: int| 0 <= i < self.len() implies #[trigger] self.key_at(i) == (
                    if i < p { before.key_at(i) } else if i == p { k@ } else { before.key_at(i - 1) }
                ) by {}
                assert forall|i: int| 0 <= i < self.len() implies #[trigger] self.key_at(i) == self.names@[i].key() by {
                    if i < p {
                        assert(self.names@[i] == before.names@[i]);
                    } else if i > p {
                        assert(self.names@[i] == before.names@[i - 1]);
                    }
                }
                assert forall|i: int, j: int| 0 <= i < j < self.len() implies key_lt(#[trigger] self.key_at(i), #[trigger] self.key_at(j)) by {
                    if i < p && j > p {
                        lemma_key_lt_transitive(before.key_at(i), k@, before.key_at(j - 1));
                    }
                }
                assert forall|q: Seq<char>| self.has(q) <==> (before.has(q) || q == id.key()) by {
                    if before.has(q) {
                        let i = choose|i: int| 0 <= i < before.len() && #[trigger] before.key_at(i) == q;
                        if i < p {
                            assert(self.key_at(i) == q);
                        } else {
                            assert(self.key_at(i + 1) == q);
                        }
                    }
                    if q == id.key() {
                        assert(self.key_at(p as int) == q);
                    }
                }
            },
        }
    }
}

} // verus!
