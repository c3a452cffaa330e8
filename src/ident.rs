//! Namespaced identifiers and the order of their rendered names.
use vstd::prelude::*;

verus! {

/// A name `namespace:path` of an item, fluid, recipe or tag.
#[derive(Clone, Debug)]
pub struct Identifier {
    pub namespace: String,
    pub path: String,
}

/// Code-point lexicographic order on character sequences (a proper prefix comes first).
pub open spec fn key_lt(a: Seq<char>, b: Seq<char>) -> bool
    decreases a.len(),
{
    if a.len() == 0 {
        b.len() > 0
    } else if b.len() == 0 {
        false
    } else if a[0] != b[0] {
        (a[0] as int) < (b[0] as int)
    } else {
        key_lt(a.drop_first(), b.drop_first())
    }
}

/// The position of the first `:` in `s`, if any.
pub open spec fn first_colon(s: Seq<char>) -> Option<int> {
    if exists|p: int| 0 <= p < s.len() && s[p] == ':' {
        Some(choose|p: int| 0 <= p < s.len() && s[p] == ':' && forall|q: int| 0 <= q < p ==> s[q] != ':')
    } else {
        None
    }
}

pub proof fn lemma_key_lt_irreflexive(a: Seq<char>)
    ensures
        !key_lt(a, a),
    decreases a.len(),
{
    if a.len() > 0 {
        lemma_key_lt_irreflexive(a.drop_first());
    }
}

/// Of two different sequences exactly one comes first.
pub proof fn lemma_key_lt_total(a: Seq<char>, b: Seq<char>)
    ensures
        a != b ==> key_lt(a, b) != key_lt(b, a),
        a == b ==> !key_lt(a, b),
    decreases a.len(),
{
    lemma_key_lt_irreflexive(a);
    if a.len() > 0 && b.len() > 0 && a[0] != b[0] {
        assert((a[0] as int) != (b[0] as int));
    }
    if a.len() > 0 && b.len() > 0 && a[0] == b[0] {
        lemma_key_lt_total(a.drop_first(), b.drop_first());
        if a.drop_first() == b.drop_first() {
            assert(a =~= seq![a[0]] + a.drop_first());
            assert(b =~= seq![b[0]] + b.drop_first());
        }
    }
    if a.len() == 0 && b.len() == 0 {
        assert(a =~= b);
    }
}

pub proof fn lemma_key_lt_transitive(a: Seq<char>, b: Seq<char>, c: Seq<char>)
    requires
        key_lt(a, b),
        key_lt(b, c),
    ensures
        key_lt(a, c),
    decreases a.len(),
{
    if a.len() > 0 && b.len() > 0 && c.len() > 0 && a[0] == b[0] && b[0] == c[0] {
        lemma_key_lt_transitive(a.drop_first(), b.drop_first(), c.drop_first());
    }
}

/// Whether two strings hold the same characters.
pub fn same_text(a: &str, b: &str) -> (r: bool)
    ensures
        r == (a@ == b@),
{
    let n = a.unicode_len();
    if n != b.unicode_len() {
        return false;
    }
    let mut i: usize = 0;
    while i < n
        invariant
            n == a@.len(),
            n == b@.len(),
            i <= n,
            a@.take(i as int) == b@.take(i as int),
        decreases n - i,
    {
        if a.get_char(i) != b.get_char(i) {
            assert(a@[i as int] != b@[i as int]);
            return false;
        }
        assert(a@.take(i + 1) =~= a@.take(i as int).push(a@[i as int]));
        assert(b@.take(i + 1) =~= b@.take(i as int).push(b@[i as int]));
        i = i + 1;
    }
    assert(a@.take(n as int) =~= a@);
    assert(b@.take(n as int) =~= b@);
    true
}

/// The characters of `s`, one by one.
pub fn chars_of(s: &str) -> (r: Vec<char>)
    ensures
        r@ == s@,
{
    let n = s.unicode_len();
    let mut r: Vec<char> = Vec::new();
    let mut i: usize = 0;
    while i < n
        invariant
            n == s@.len(),
            i <= n,
            r@ == s@.take(i as int),
        decreases n - i,
    {
        r.push(s.get_char(i));
        assert(s@.take(i + 1) =~= s@.take(i as int).push(s@[i as int]));
        i = i + 1;
    }
    assert(s@.take(n as int) =~= s@);
    r
}

/// Whether `a` comes before `b` in code-point lexicographic order.
pub fn key_less(a: &Vec<char>, b: &Vec<char>) -> (r: bool)
    ensures
        r == key_lt(a@, b@),
{
    let mut i: usize = 0;
    assert(a@.skip(0) =~= a@);
    assert(b@.skip(0) =~= b@);
    while i < a.len() && i < b.len()
        invariant
            i <= a@.len(),
            i <= b@.len(),
            key_lt(a@, b@) == key_lt(a@.skip(i as int), b@.skip(i as int)),
        decreases a@.len() - i,
    {
        if a[i] != b[i] {
            return a[i] < b[i];
        }
        assert(a@.skip(i as int).drop_first() =~= a@.skip(i + 1));
        assert(b@.skip(i as int).drop_first() =~= b@.skip(i + 1));
        i = i + 1;
    }
    b.len() > i
}

impl Identifier {
    /// The rendered name `namespace:path`.
    pub open spec fn key(&self) -> Seq<char> {
        self.namespace@ + seq![':'] + self.path@
    }

    /// The identifier with the given namespace and path.
    pub fn new(namespace: &str, path: &str) -> (r: Identifier)
        ensures
            r.namespace@ == namespace@,
            r.path@ == path@,
    {
        Identifier { namespace: String::from_str(namespace), path: String::from_str(path) }
    }

    /// A copy with the same namespace and path.
    pub fn duplicate(&self) -> (r: Identifier)
        ensures
            r.namespace@ == self.namespace@,
            r.path@ == self.path@,
    {
        Identifier::new(self.namespace.as_str(), self.path.as_str())
    }

    /// Splits `s` at its first `:` into namespace and path; `None` without a `:`.
    pub fn parse(s: &str) -> (r: Option<Identifier>)
        ensures
            r is None <==> first_colon(s@) is None,
            r matches Some(id) ==> {
                let p = first_colon(s@)->Some_0;
                id.namespace@ == s@.take(p) && id.path@ == s@.skip(p + 1)
            },
    {
        let n = s.unicode_len();
        let mut i: usize = 0;
        while i < n
            invariant
                n == s@.len(),
                i <= n,
                forall|q: int| 0 <= q < i ==> s@[q] != ':',
            decreases n - i,
        {
            if s.get_char(i) == ':' {
                let ns = s.substring_char(0, i);
                let path = s.substring_char(i + 1, n);
                proof {
                    let p = first_colon(s@)->Some_0;
                    assert(s@[i as int] == ':');
                    if p < i {
                        assert(s@[p] != ':');
                    }
                    if p > i {
                        assert(s@[i as int] != ':');
                    }
                    assert(p == i);
                    assert(s@.subrange(i + 1, n as int) =~= s@.skip(i + 1));
                    assert(s@.subrange(0, i as int) =~= s@.take(i as int));
                }
                return Some(Identifier::new(ns, path));
            }
            i = i + 1;
        }
        None
    }

    /// Whether the identifier is `namespace:path`.
    pub fn is(&self, namespace: &str, path: &str) -> (r: bool)
        ensures
            r == (self.namespace@ == namespace@ && self.path@ == path@),
    {
        same_text(self.namespace.as_str(), namespace) && same_text(self.path.as_str(), path)
    }

    /// The rendered name `namespace:path`.
    pub fn to_string(&self) -> (r: String)
        ensures
            r@ == self.key(),
    {
        proof { reveal_strlit(":"); }
        let r = String::from_str(self.namespace.as_str()).concat(":").concat(self.path.as_str());
        assert(r@ =~= self.key());
        r
    }

    /// The characters of the rendered name.
    pub fn key_chars(&self) -> (r: Vec<char>)
        ensures
            r@ == self.key(),
    {
        let s = self.to_string();
        chars_of(s.as_str())
    }
}

} // verus!
