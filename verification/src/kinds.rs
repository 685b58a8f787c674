//! The set of reclaimable-artifact kinds named in a comma-separated list.

use vstd::prelude::*;
use crate::text::{trim, split_on, chars_of, split_bounds, trim_bounds, string_of, pieces, lemma_trim_shape};

verus! {

/// The kinds named by a list of comma-separated pieces: each piece trimmed,
/// empty ones dropped.
pub open spec fn kind_set(ps: Seq<Seq<char>>) -> Set<Seq<char>>
    decreases ps.len(),
{
    if ps.len() == 0 {
        Set::empty()
    } else {
        let p = kind_set(ps.drop_last());
        let t = trim(ps.last());
        if t.len() > 0 {
            p.insert(t)
        } else {
            p
        }
    }
}

/// The kinds that a comma-separated list names.
pub open spec fn parsed_kinds(csv: Seq<char>) -> Set<Seq<char>> {
    kind_set(split_on(csv, ','))
}

/// A set of kind names, each held once.
pub struct KindSet {
    items: Vec<String>,
}

impl KindSet {
    pub closed spec fn names(&self) -> Seq<Seq<char>> {
        self.items@.map_values(|s: String| s@)
    }

    #[verifier::type_invariant]
    closed spec fn inv(&self) -> bool {
        self.names().no_duplicates()
    }
}

impl View for KindSet {
    type V = Set<Seq<char>>;

    closed spec fn view(&self) -> Set<Seq<char>> {
        self.names().to_set()
    }
}

impl KindSet {
    /// The empty set.
    pub fn new() -> (r: KindSet)
        ensures
            r@ == Set::<Seq<char>>::empty(),
    {
        let r = KindSet { items: Vec::new() };
        assert(r.names() =~= Seq::<Seq<char>>::empty());
        assert(r@ =~= Set::<Seq<char>>::empty());
        r
    }

    /// Number of kinds.
    pub fn len(&self) -> (n: usize)
        ensures
            n == self@.len(),
    {
        proof {
            use_type_invariant(self);
            self.names().unique_seq_to_set();
        }
        self.items.len()
    }

    pub fn is_empty(&self) -> (b: bool)
        ensures
            b == (self@.len() == 0),
    {
        self.len() == 0
    }

    fn position(&self, k: &String) -> (r: Option<usize>)
        ensures
            r is Some ==> r->0 < self.names().len() && self.names()[r->0 as int] == k@,
            r is None ==> !self.names().contains(k@),
    {
        let mut i: usize = 0;
        while i < self.items.len()
            invariant
                0 <= i <= self.items.len(),
                forall|j: int| 0 <= j < i ==> self.names()[j] != k@,
            decreases self.items.len() - i,
        {
            if self.items[i] == *k {
                return Some(i);
            }
            i = i + 1;
        }
        None
    }

    /// Whether `k` is one of the kinds.
    pub fn contains(&self, k: &str) -> (b: bool)
        ensures
            b == self@.contains(k@),
    {
        let key = k.to_owned();
        let r = self.position(&key);
        r.is_some()
    }

    /// Adds `k`; returns whether it was new.
    pub fn insert(&mut self, k: String) -> (added: bool)
        ensures
            final(self)@ == old(self)@.insert(k@),
            added == !old(self)@.contains(k@),
    {
        proof {
            use_type_invariant(&*self);
        }
        match self.position(&k) {
            Some(_) => false,
            None => {
                let ghost n0 = self.names();
                let ghost kv = k@;
                let mut items: Vec<String> = Vec::new();
                std::mem::swap(&mut items, &mut self.items);
                items.push(k);
                assert(items@.map_values(|s: String| s@) =~= n0.push(kv));
                assert(!n0.contains(kv));
                assert(n0.push(kv).no_duplicates());
                self.items = items;
                assert(self.names() =~= n0.push(kv));
                assert(self@ =~= n0.to_set().insert(kv)) by {
                    assert forall|x| self@.contains(x) <==> n0.to_set().insert(kv).contains(x) by {
                        if x == kv {
                            assert(self.names()[n0.len() as int] == kv);
                        } else if n0.contains(x) {
                            let j = choose|j: int| 0 <= j < n0.len() && n0[j] == x;
                            assert(self.names()[j] == x);
                        }
                    }
                }
                true
            },
        }
    }

    /// The kinds, each once, in the order they were first named.
    pub fn to_vec(&self) -> (v: Vec<String>)
        ensures
            v@.map_values(|s: String| s@).to_set() == self@,
            v@.map_values(|s: String| s@).no_duplicates(),
    {
        proof {
            use_type_invariant(self);
        }
        self.items.clone()
    }
}

pub proof fn lemma_kind_set_push(ps: Seq<Seq<char>>, p: Seq<char>)
    ensures
        kind_set(ps.push(p)) == if trim(p).len() > 0 {
            kind_set(ps).insert(trim(p))
        } else {
            kind_set(ps)
        },
{
    assert(ps.push(p).drop_last() =~= ps);
}

/// Every kind in a parsed list is non-empty and already trimmed.
pub proof fn lemma_kinds_are_trimmed(ps: Seq<Seq<char>>)
    ensures
        forall|k: Seq<char>| #[trigger] kind_set(ps).contains(k) ==> k.len() > 0 && trim(k) == k,
    decreases ps.len(),
{
    if ps.len() > 0 {
        lemma_kinds_are_trimmed(ps.drop_last());
        lemma_trim_shape(ps.last());
        let t = trim(ps.last());
        let p = kind_set(ps.drop_last());
        assert(kind_set(ps) == if t.len() > 0 { p.insert(t) } else { p });
        assert forall|k: Seq<char>| #[trigger] kind_set(ps).contains(k) implies k.len() > 0 && trim(
            k,
        ) == k by {
            if k != t {
                assert(p.contains(k));
            } else {
                assert(t.len() > 0);
            }
        }
    }
}

/// Parses a comma-separated list of kinds: pieces are trimmed, empty pieces
/// dropped, repeated kinds kept once.
pub fn parse_kinds(csv: &str) -> (r: KindSet)
    ensures
        r@ == parsed_kinds(csv@),
        forall|k: Seq<char>| #[trigger] r@.contains(k) ==> k.len() > 0 && trim(k) == k,
{
    let cs = chars_of(csv);
    let b = split_bounds(&cs, 0, cs.len(), ',');
    assert(cs@.subrange(0, cs@.len() as int) =~= cs@);
    let ghost ps = pieces(cs@, b@);
    let mut r = KindSet::new();
    let mut i: usize = 0;
    assert(ps.take(0) =~= Seq::<Seq<char>>::empty());
    while i < b.len()
        invariant
            0 <= i <= b.len(),
            ps == pieces(cs@, b@),
            ps == split_on(csv@, ','),
            crate::text::bounds_within(b@, 0, cs@.len() as int),
            r@ == kind_set(ps.take(i as int)),
        decreases b.len() - i,
    {
        let (lo, hi) = b[i];
        let (a, z) = trim_bounds(&cs, lo, hi);
        assert(ps[i as int] == cs@.subrange(lo as int, hi as int));
        proof {
            lemma_kind_set_push(ps.take(i as int), ps[i as int]);
            assert(ps.take(i + 1) =~= ps.take(i as int).push(ps[i as int]));
        }
        if a < z {
            let k = string_of(&cs, a, z);
            r.insert(k);
        }
        i = i + 1;
    }
    assert(ps.take(b.len() as int) =~= ps);
    proof {
        lemma_kinds_are_trimmed(ps);
    }
    r
}

/// The kinds scanned when none are configured.
pub fn default_kinds() -> (s: String)
    ensures
        s@ == "rust-build,node-deps,build-output,cache"@,
{
    "rust-build,node-deps,build-output,cache".to_owned()
}

/// The smallest artifact size, in MiB, worth reporting when none is configured.
pub fn default_min_size_mb() -> (n: u64)
    ensures
        n == 512,
{
    512
}

} // verus!
