//! The custom module derives registered per pragma name.

use vstd::prelude::*;

use crate::build::derive::{
    copy_string, duplicate_all, forest, CustomModuleDerive, DeriveTree,
};

verus! {

/// The derives of `m` for `key`, none if `key` has no entry.
pub open spec fn derives_of(m: Map<Seq<char>, Seq<DeriveTree>>, key: Seq<char>) -> Seq<DeriveTree> {
    if m.dom().contains(key) {
        m[key]
    } else {
        seq![]
    }
}

/// `a` with the derives of `b` added after its own, key by key.
pub open spec fn merged(a: Map<Seq<char>, Seq<DeriveTree>>, b: Map<Seq<char>, Seq<DeriveTree>>) -> Map<
    Seq<char>,
    Seq<DeriveTree>,
> {
    Map::new(
        |k: Seq<char>| a.dom().contains(k) || b.dom().contains(k),
        |k: Seq<char>| derives_of(a, k) + derives_of(b, k),
    )
}

/// A map from pragma names to the derives registered for them, each name at most once.
pub struct ModuleDeriveTable {
    entries: Vec<(String, Vec<CustomModuleDerive>)>,
}

impl ModuleDeriveTable {
    #[verifier::type_invariant]
    closed spec fn keys_distinct(self) -> bool {
        forall|i: int, j: int|
            0 <= i < j < self.entries@.len() ==> self.entries@[i].0@ != self.entries@[j].0@
    }

    closed spec fn index_of(self, key: Seq<char>) -> int {
        choose|i: int| 0 <= i < self.entries@.len() && self.entries@[i].0@ == key
    }

    closed spec fn has(self, key: Seq<char>) -> bool {
        exists|i: int| 0 <= i < self.entries@.len() && self.entries@[i].0@ == key
    }

    /// The pragma names and their derives.
    pub closed spec fn view(self) -> Map<Seq<char>, Seq<DeriveTree>> {
        Map::new(
            |k: Seq<char>| self.has(k),
            |k: Seq<char>| forest(self.entries@[self.index_of(k)].1@),
        )
    }

    /// The pragma names in the order they were first registered.
    pub closed spec fn keys(self) -> Seq<Seq<char>> {
        self.entries@.map_values(|e: (String, Vec<CustomModuleDerive>)| e.0@)
    }

    proof fn lemma_lookup(self, i: int)
        requires
            self.keys_distinct(),
            0 <= i < self.entries@.len(),
        ensures
            self.view().dom().contains(self.entries@[i].0@),
            self.view()[self.entries@[i].0@] == forest(self.entries@[i].1@),
    {
        let k = self.entries@[i].0@;
        assert(self.has(k));
        let j = self.index_of(k);
        assert(j == i);
    }

    /// A table without entries.
    pub fn new() -> (t: Self)
        ensures
            t.view() == Map::<Seq<char>, Seq<DeriveTree>>::empty(),
            t.keys() == Seq::<Seq<char>>::empty(),
    {
        let t = ModuleDeriveTable { entries: Vec::new() };
        assert(t.view() =~= Map::<Seq<char>, Seq<DeriveTree>>::empty());
        assert(t.keys() =~= Seq::<Seq<char>>::empty());
        t
    }

    /// The number of pragma names.
    pub fn len(&self) -> (n: usize)
        ensures
            n == self.view().dom().len(),
            n == self.keys().len(),
    {
        proof {
            use_type_invariant(self);
            self.lemma_dom_len();
        }
        self.entries.len()
    }

    proof fn lemma_dom_len(self)
        requires
            self.keys_distinct(),
        ensures
            self.view().dom() == self.keys().to_set(),
            self.view().dom().len() == self.keys().len(),
            self.view().dom().finite(),
    {
        assert(self.view().dom() =~= self.keys().to_set()) by {
            assert forall|k: Seq<char>| self.view().dom().contains(k) implies self.keys().to_set().contains(k) by {
                let i = choose|i: int| 0 <= i < self.entries@.len() && self.entries@[i].0@ == k;
                assert(self.keys()[i] == k);
            }
            assert forall|k: Seq<char>| self.keys().to_set().contains(k) implies self.view().dom().contains(k) by {
                let i = choose|i: int| 0 <= i < self.keys().len() && self.keys()[i] == k;
                assert(self.entries@[i].0@ == k);
            }
        }
        assert(self.keys().no_duplicates()) by {
            assert forall|i: int, j: int| 0 <= i < self.keys().len() && 0 <= j < self.keys().len() && i != j implies self.keys()[i] != self.keys()[j] by {
                if i < j {
                } else {
                }
            }
        }
        self.keys().unique_seq_to_set();
    }

    fn find(&self, key: &str) -> (r: Option<usize>)
        ensures
            r matches Some(i) ==> i < self.entries@.len() && self.entries@[i as int].0@ == key@,
            r is None ==> !self.view().dom().contains(key@),
    {
        let mut i: usize = 0;
        while i < self.entries.len()
            invariant
                i <= self.entries@.len(),
                forall|j: int| 0 <= j < i ==> self.entries@[j].0@ != key@,
            decreases self.entries.len() - i,
        {
            if crate::text::const_str_equal(self.entries[i].0.as_str(), key) {
                return Some(i);
            }
            i = i + 1;
        }
        None
    }

    /// The derives registered for `key`.
    pub fn get(&self, key: &str) -> (r: Option<&Vec<CustomModuleDerive>>)
        ensures
            r is Some == self.view().dom().contains(key@),
            r matches Some(v) ==> forest(v@) == self.view()[key@],
    {
        proof {
            use_type_invariant(self);
        }
        match self.find(key) {
            Some(i) => {
                proof {
                    self.lemma_lookup(i as int);
                }
                Some(&self.entries[i].1)
            },
            None => None,
        }
    }

    /// Registers `derives` for `key`, replacing what it had.
    pub fn insert(&mut self, key: String, derives: Vec<CustomModuleDerive>)
        ensures
            final(self).view() == old(self).view().insert(key@, forest(derives@)),
            old(self).view().dom().contains(key@) ==> final(self).keys() == old(self).keys(),
            !old(self).view().dom().contains(key@) ==> final(self).keys() == old(self).keys().push(
                key@,
            ),
    {
        proof {
            use_type_invariant(&*self);
        }
        let ghost before = *self;
        let ghost value = forest(derives@);
        match self.find(key.as_str()) {
            Some(i) => {
                let ghost k = key@;
                let mut entries: Vec<(String, Vec<CustomModuleDerive>)> = Vec::new();
                std::mem::swap(&mut entries, &mut self.entries);
                entries.set(i, (key, derives));
                proof {
                    assert forall|a: int, b: int| 0 <= a < b < entries@.len() implies entries@[a].0@ != entries@[b].0@ by {
                        assert(before.entries@[a].0@ != before.entries@[b].0@ || a == b);
                    }
                }
                self.entries = entries;
                proof {
                    assert(self.keys() =~= before.keys());
                    assert forall|x: Seq<char>| #[trigger] self.view().dom().contains(x) == before.view().insert(k, value).dom().contains(x) by {
                        if x == k {
                            assert(self.entries@[i as int].0@ == k);
                        } else {
                            if self.has(x) {
                                let j = choose|j: int| 0 <= j < self.entries@.len() && self.entries@[j].0@ == x;
                                assert(before.entries@[j].0@ == x);
                            }
                            if before.has(x) {
                                let j = choose|j: int| 0 <= j < before.entries@.len() && before.entries@[j].0@ == x;
                                assert(self.entries@[j].0@ == x);
                            }
                        }
                    }
                    assert forall|x: Seq<char>| #[trigger] self.view().dom().contains(x) implies self.view()[x] == before.view().insert(k, value)[x] by {
                        let j = choose|j: int| 0 <= j < self.entries@.len() && self.entries@[j].0@ == x;
                        self.lemma_lookup(j);
                        if x != k {
                            before.lemma_lookup(j);
                        }
                    }
                    assert(self.view() =~= before.view().insert(k, value));
                }
            },
            None => {
                let ghost k = key@;
                let mut entries: Vec<(String, Vec<CustomModuleDerive>)> = Vec::new();
                std::mem::swap(&mut entries, &mut self.entries);
                entries.push((key, derives));
                proof {
                    assert forall|a: int, b: int| 0 <= a < b < entries@.len() implies entries@[a].0@ != entries@[b].0@ by {
                        if b == before.entries@.len() {
                            assert(before.has(entries@[a].0@));
                        } else {
                            assert(before.entries@[a].0@ != before.entries@[b].0@);
                        }
                    }
                }
                self.entries = entries;
                proof {
                    let n = before.entries@.len() as int;
                    assert(self.keys() =~= before.keys().push(k));
                    assert forall|x: Seq<char>| #[trigger] self.view().dom().contains(x) == before.view().insert(k, value).dom().contains(x) by {
                        if x == k {
                            assert(self.entries@[n].0@ == k);
                        } else {
                            if self.has(x) {
                                let j = choose|j: int| 0 <= j < self.entries@.len() && self.entries@[j].0@ == x;
                                assert(before.entries@[j].0@ == x);
                            }
                            if before.has(x) {
                                let j = choose|j: int| 0 <= j < before.entries@.len() && before.entries@[j].0@ == x;
                                assert(self.entries@[j].0@ == x);
                            }
                        }
                    }
                    assert forall|x: Seq<char>| #[trigger] self.view().dom().contains(x) implies self.view()[x] == before.view().insert(k, value)[x] by {
                        let j = choose|j: int| 0 <= j < self.entries@.len() && self.entries@[j].0@ == x;
                        self.lemma_lookup(j);
                        if x != k {
                            before.lemma_lookup(j);
                        }
                    }
                    assert(self.view() =~= before.view().insert(k, value));
                }
            },
        }
    }

    /// Adds `derives` after those registered for `key`, creating the entry if needed.
    pub fn extend_entry(&mut self, key: String, derives: Vec<CustomModuleDerive>)
        ensures
            final(self).view() == old(self).view().insert(
                key@,
                derives_of(old(self).view(), key@) + forest(derives@),
            ),
    {
        let mut combined = match self.get(key.as_str()) {
            Some(existing) => duplicate_all(existing),
            None => Vec::new(),
        };
        let ghost start = forest(combined@);
        assert(start == derives_of(old(self).view(), key@));
        let mut i: usize = 0;
        while i < derives.len()
            invariant
                i <= derives@.len(),
                forest(combined@) == start + forest(derives@).take(i as int),
            decreases derives.len() - i,
        {
            let ghost before = combined@;
            let d = derives[i].duplicate();
            combined.push(d);
            assert(forest(combined@) =~= forest(before).push(d.tree()));
            assert(forest(derives@).take(i + 1) =~= forest(derives@).take(i as int).push(
                derives@[i as int].tree(),
            ));
            i = i + 1;
        }
        assert(forest(derives@).take(i as int) =~= forest(derives@));
        self.insert(key, combined);
    }

    /// The pragma names and derives of the first `n` entries.
    closed spec fn prefix_view(self, n: int) -> Map<Seq<char>, Seq<DeriveTree>> {
        Map::new(
            |k: Seq<char>| exists|i: int| 0 <= i < n && i < self.entries@.len() && self.entries@[i].0@ == k,
            |k: Seq<char>|
                forest(
                    self.entries@[choose|i: int|
                        0 <= i < n && i < self.entries@.len() && self.entries@[i].0@ == k].1@,
                ),
        )
    }

    proof fn lemma_prefix_empty(self)
        ensures
            self.prefix_view(0) == Map::<Seq<char>, Seq<DeriveTree>>::empty(),
    {
        assert(self.prefix_view(0) =~= Map::<Seq<char>, Seq<DeriveTree>>::empty());
    }

    proof fn lemma_prefix_step(self, n: int)
        requires
            self.keys_distinct(),
            0 <= n < self.entries@.len(),
        ensures
            !self.prefix_view(n).dom().contains(self.entries@[n].0@),
            self.prefix_view(n + 1) == self.prefix_view(n).insert(
                self.entries@[n].0@,
                forest(self.entries@[n].1@),
            ),
    {
        let k = self.entries@[n].0@;
        let p = self.prefix_view(n);
        let q = self.prefix_view(n + 1);
        assert forall|x: Seq<char>| #[trigger] q.dom().contains(x) == p.insert(k, forest(self.entries@[n].1@)).dom().contains(x) by {
            if q.dom().contains(x) {
                let j = choose|j: int| 0 <= j < n + 1 && j < self.entries@.len() && self.entries@[j].0@ == x;
                if j < n {
                    assert(p.dom().contains(x));
                }
            }
            if x == k {
                assert(q.dom().contains(x));
            }
            if p.dom().contains(x) {
                let j = choose|j: int| 0 <= j < n && j < self.entries@.len() && self.entries@[j].0@ == x;
                assert(q.dom().contains(x));
            }
        }
        assert forall|x: Seq<char>| #[trigger] q.dom().contains(x) implies q[x] == p.insert(k, forest(self.entries@[n].1@))[x] by {
            let j = choose|j: int| 0 <= j < n + 1 && j < self.entries@.len() && self.entries@[j].0@ == x;
            if x != k {
                let j2 = choose|j: int| 0 <= j < n && j < self.entries@.len() && self.entries@[j].0@ == x;
                assert(j == j2);
            }
        }
        assert(q =~= p.insert(k, forest(self.entries@[n].1@)));
    }

    proof fn lemma_prefix_full(self)
        requires
            self.keys_distinct(),
        ensures
            self.prefix_view(self.entries@.len() as int) == self.view(),
    {
        let n = self.entries@.len() as int;
        assert forall|x: Seq<char>| #[trigger] self.view().dom().contains(x) implies self.prefix_view(n)[x] == self.view()[x] by {
            let j = choose|j: int| 0 <= j < n && j < self.entries@.len() && self.entries@[j].0@ == x;
            self.lemma_lookup(j);
        }
        assert(self.prefix_view(n) =~= self.view());
    }

    /// Adds the derives of `other` after those of this table, key by key.
    pub fn merge(&mut self, other: &ModuleDeriveTable)
        ensures
            final(self).view() == merged(old(self).view(), other.view()),
    {
        proof {
            use_type_invariant(other);
            other.lemma_prefix_empty();
            assert(merged(old(self).view(), other.prefix_view(0)) =~= old(self).view());
        }
        let mut i: usize = 0;
        while i < other.entries.len()
            invariant
                i <= other.entries@.len(),
                other.keys_distinct(),
                self.view() == merged(old(self).view(), other.prefix_view(i as int)),
            decreases other.entries.len() - i,
        {
            let ghost before = self.view();
            let key = copy_string(&other.entries[i].0);
            let derives = duplicate_all(&other.entries[i].1);
            self.extend_entry(key, derives);
            proof {
                other.lemma_prefix_step(i as int);
                let k = key@;
                let p = other.prefix_view(i as int);
                let a = old(self).view();
                assert(derives_of(p, k) == Seq::<DeriveTree>::empty());
                assert(derives_of(before, k) =~= derives_of(a, k));
                assert(self.view() =~= merged(a, other.prefix_view(i + 1)));
            }
            i = i + 1;
        }
        proof {
            other.lemma_prefix_full();
        }
    }

    /// The pragma names and their derives, in the order of [`Self::keys`].
    pub fn entries(&self) -> (r: &[(String, Vec<CustomModuleDerive>)])
        ensures
            r@.len() == self.keys().len(),
            forall|i: int| 0 <= i < r@.len() ==> r@[i].0@ == #[trigger] self.keys()[i],
            forall|i: int|
                0 <= i < r@.len() ==> self.view()[r@[i].0@] == forest(#[trigger] r@[i].1@),
            forall|i: int| 0 <= i < r@.len() ==> self.view().dom().contains(#[trigger] r@[i].0@),
    {
        proof {
            use_type_invariant(self);
            assert forall|i: int| 0 <= i < self.entries@.len() implies self.view()[self.entries@[i].0@] == forest(#[trigger] self.entries@[i].1@) && self.view().dom().contains(self.entries@[i].0@) by {
                self.lemma_lookup(i);
            }
        }
        self.entries.as_slice()
    }
}

} // verus!
