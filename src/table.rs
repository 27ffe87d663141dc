use vstd::prelude::*;

verus! {

/// A 32-byte account, contract or role identifier.
pub type Address = [u8; 32];

/// Compares two identifiers byte by byte.
pub fn addr_eq(a: &Address, b: &Address) -> (r: bool)
    ensures
        r == (*a == *b),
{
    let mut i: usize = 0;
    while i < 32
        invariant
            0 <= i <= 32,
            a@.len() == 32,
            b@.len() == 32,
            forall|j: int| 0 <= j < i ==> a@[j] == b@[j],
        decreases 32 - i,
    {
        if a[i] != b[i] {
            return false;
        }
        i = i + 1;
    }
    assert(*a =~= *b);
    true
}

/// A finite map keyed by identifiers, kept as a list of entries with distinct keys.
pub struct AddrTable<T> {
    entries: Vec<(Address, T)>,
}

pub open spec fn keys_distinct<T>(s: Seq<(Address, T)>) -> bool {
    forall|i: int, j: int| 0 <= i < s.len() && 0 <= j < s.len() && i != j ==> s[i].0 != s[j].0
}

pub open spec fn has_key<T>(s: Seq<(Address, T)>, k: Address) -> bool {
    exists|i: int| 0 <= i < s.len() && s[i].0 == k
}

pub open spec fn index_of<T>(s: Seq<(Address, T)>, k: Address) -> int {
    choose|i: int| 0 <= i < s.len() && s[i].0 == k
}

pub open spec fn entries_map<T>(s: Seq<(Address, T)>) -> Map<Address, T> {
    Map::new(|k: Address| has_key(s, k), |k: Address| s[index_of(s, k)].1)
}

proof fn lemma_index_of<T>(s: Seq<(Address, T)>, k: Address, i: int)
    requires
        keys_distinct(s),
        0 <= i < s.len(),
        s[i].0 == k,
    ensures
        has_key(s, k),
        index_of(s, k) == i,
        entries_map(s).contains_key(k),
        entries_map(s)[k] == s[i].1,
{
    assert(has_key(s, k));
    let j = index_of(s, k);
    assert(0 <= j < s.len() && s[j].0 == k);
}

impl<T> AddrTable<T> {
    pub closed spec fn view(&self) -> Map<Address, T> {
        entries_map(self.entries@)
    }

    pub closed spec fn wf(&self) -> bool {
        keys_distinct(self.entries@)
    }

    pub fn new() -> (r: Self)
        ensures
            r.wf(),
            r@ == Map::<Address, T>::empty(),
    {
        let r = AddrTable { entries: Vec::new() };
        assert(r@ =~= Map::<Address, T>::empty());
        r
    }

    fn find(&self, k: &Address) -> (r: Option<usize>)
        requires
            self.wf(),
        ensures
            r is None ==> !self@.contains_key(*k),
            r matches Some(i) ==> i < self.entries@.len() && self.entries@[i as int].0 == *k,
    {
        let mut i: usize = 0;
        while i < self.entries.len()
            invariant
                0 <= i <= self.entries@.len(),
                forall|j: int| 0 <= j < i ==> self.entries@[j].0 != *k,
            decreases self.entries@.len() - i,
        {
            if addr_eq(&self.entries[i].0, k) {
                return Some(i);
            }
            i = i + 1;
        }
        None
    }

    /// The value stored under `k`, if any.
    pub fn get(&self, k: &Address) -> (r: Option<&T>)
        requires
            self.wf(),
        ensures
            r is Some == self@.contains_key(*k),
            r matches Some(v) ==> *v == self@[*k],
    {
        match self.find(k) {
            Some(i) => {
                proof {
                    lemma_index_of(self.entries@, *k, i as int);
                }
                Some(&self.entries[i].1)
            },
            None => None,
        }
    }

    pub fn contains_key(&self, k: &Address) -> (r: bool)
        requires
            self.wf(),
        ensures
            r == self@.contains_key(*k),
    {
        self.get(k).is_some()
    }

    /// Stores `v` under `k`, replacing any earlier value.
    pub fn insert(&mut self, k: Address, v: T)
        requires
            old(self).wf(),
        ensures
            final(self).wf(),
            final(self)@ == old(self)@.insert(k, v),
    {
        let ghost s0 = self.entries@;
        match self.find(&k) {
            Some(i) => {
                self.entries.set(i, (k, v));
                let ghost s1 = self.entries@;
                assert forall|a: int, b: int|
                    0 <= a < s1.len() && 0 <= b < s1.len() && a != b implies s1[a].0
                        != s1[b].0 by {
                    assert(s0[a].0 == s1[a].0 && s0[b].0 == s1[b].0);
                }
                proof {
                    lemma_index_of(s1, k, i as int);
                    assert forall|q: Address| #[trigger]
                        entries_map(s1).contains_key(q) == old(self)@.insert(k, v).contains_key(
                            q,
                        ) by {
                        if has_key(s1, q) {
                            let j = index_of(s1, q);
                            assert(s0[j].0 == q);
                        }
                        if has_key(s0, q) {
                            let j = index_of(s0, q);
                            assert(s1[j].0 == q);
                        }
                    }
                    assert forall|q: Address| #[trigger]
                        entries_map(s1).contains_key(q) && q != k implies entries_map(s1)[q]
                        == entries_map(s0)[q] by {
                        let j = index_of(s1, q);
                        lemma_index_of(s0, q, j);
                        lemma_index_of(s1, q, j);
                    }
                }
                assert(self@ =~= old(self)@.insert(k, v));
            },
            None => {
                self.entries.push((k, v));
                let ghost s1 = self.entries@;
                proof {
                    assert(!has_key(s0, k));
                    lemma_index_of(s1, k, s0.len() as int);
                    assert forall|q: Address| #[trigger]
                        entries_map(s1).contains_key(q) == old(self)@.insert(k, v).contains_key(
                            q,
                        ) by {
                        if has_key(s1, q) {
                            let j = index_of(s1, q);
                            if j < s0.len() {
                                assert(s0[j].0 == q);
                            }
                        }
                        if has_key(s0, q) {
                            let j = index_of(s0, q);
                            assert(s1[j].0 == q);
                        }
                    }
                    assert forall|q: Address| #[trigger]
                        entries_map(s1).contains_key(q) && q != k implies entries_map(s1)[q]
                        == entries_map(s0)[q] by {
                        let j = index_of(s1, q);
                        assert(j < s0.len());
                        lemma_index_of(s0, q, j);
                        lemma_index_of(s1, q, j);
                    }
                }
                assert(self@ =~= old(self)@.insert(k, v));
            },
        }
    }
    /// Removes the entry under `k` and returns its value, if there was one.
    pub fn remove(&mut self, k: &Address) -> (r: Option<T>)
        requires
            old(self).wf(),
        ensures
            final(self).wf(),
            final(self)@ == old(self)@.remove(*k),
            r is Some == old(self)@.contains_key(*k),
            r matches Some(v) ==> v == old(self)@[*k],
    {
        let ghost s0 = self.entries@;
        match self.find(k) {
            Some(i) => {
                proof {
                    lemma_index_of(s0, *k, i as int);
                }
                let (_, v) = self.entries.remove(i);
                let ghost s1 = self.entries@;
                assert(s1 =~= s0.remove(i as int));
                proof {
                    assert forall|a: int, b: int|
                        0 <= a < s1.len() && 0 <= b < s1.len() && a != b implies s1[a].0
                            != s1[b].0 by {
                        let a0 = if a < i { a } else { a + 1 };
                        let b0 = if b < i { b } else { b + 1 };
                        assert(s1[a] == s0[a0] && s1[b] == s0[b0]);
                    }
                    assert forall|q: Address| #[trigger]
                        entries_map(s1).contains_key(q) == old(self)@.remove(*k).contains_key(
                            q,
                        ) by {
                        if has_key(s1, q) {
                            let j = index_of(s1, q);
                            let j0 = if j < i { j } else { j + 1 };
                            assert(s0[j0].0 == q);
                        }
                        if has_key(s0, q) && q != *k {
                            let j = index_of(s0, q);
                            assert(j != i);
                            let j1 = if j < i { j } else { j - 1 };
                            assert(s1[j1].0 == q);
                        }
                    }
                    assert forall|q: Address| #[trigger]
                        entries_map(s1).contains_key(q) implies entries_map(s1)[q]
                        == entries_map(s0)[q] by {
                        let j = index_of(s1, q);
                        let j0 = if j < i { j } else { j + 1 };
                        assert(s0[j0].0 == q);
                        lemma_index_of(s0, q, j0);
                        lemma_index_of(s1, q, j);
                    }
                }
                assert(self@ =~= old(self)@.remove(*k));
                Some(v)
            },
            None => {
                assert(self@ =~= old(self)@.remove(*k));
                None
            },
        }
    }

    /// The keys of the table, each once.
    pub fn keys(&self) -> (r: Vec<Address>)
        requires
            self.wf(),
        ensures
            r@.no_duplicates(),
            forall|q: Address| self@.contains_key(q) <==> r@.contains(q),
    {
        let mut r: Vec<Address> = Vec::new();
        let mut i: usize = 0;
        while i < self.entries.len()
            invariant
                0 <= i <= self.entries@.len(),
                self.wf(),
                r@.len() == i,
                forall|j: int| 0 <= j < i ==> r@[j] == self.entries@[j].0,
            decreases self.entries@.len() - i,
        {
            r.push(self.entries[i].0);
            i = i + 1;
        }
        proof {
            let s = self.entries@;
            assert forall|q: Address| self@.contains_key(q) <==> r@.contains(q) by {
                if has_key(s, q) {
                    let j = index_of(s, q);
                    assert(r@[j] == q);
                }
                if r@.contains(q) {
                    let j = choose|j: int| 0 <= j < r@.len() && r@[j] == q;
                    assert(s[j].0 == q);
                }
            }
        }
        r
    }
}

} // verus!

verus! {

/// Removing one element of a sequence without duplicates removes exactly that
/// element from its set.
pub proof fn lemma_remove_distinct<A>(s: Seq<A>, i: int)
    requires
        s.no_duplicates(),
        0 <= i < s.len(),
    ensures
        s.remove(i).no_duplicates(),
        s.remove(i).to_set() == s.to_set().remove(s[i]),
{
    let t = s.remove(i);
    assert forall|a: int, b: int| 0 <= a < t.len() && 0 <= b < t.len() && a != b implies t[a]
        != t[b] by {
        let a0 = if a < i { a } else { a + 1 };
        let b0 = if b < i { b } else { b + 1 };
        assert(t[a] == s[a0] && t[b] == s[b0]);
    }
    assert forall|p: A| t.to_set().contains(p) == s.to_set().remove(s[i]).contains(p) by {
        if t.contains(p) {
            let j = choose|j: int| 0 <= j < t.len() && t[j] == p;
            let j0 = if j < i { j } else { j + 1 };
            assert(s[j0] == p && j0 != i);
        }
        if s.contains(p) && p != s[i] {
            let j = choose|j: int| 0 <= j < s.len() && s[j] == p;
            let j1 = if j < i { j } else { j - 1 };
            assert(t[j1] == p);
        }
    }
    assert(t.to_set() =~= s.to_set().remove(s[i]));
}

/// Appending an element that is absent keeps a sequence free of duplicates.
pub proof fn lemma_push_distinct<A>(s: Seq<A>, x: A)
    requires
        s.no_duplicates(),
        !s.contains(x),
    ensures
        s.push(x).no_duplicates(),
        s.push(x).to_set() == s.to_set().insert(x),
{
    let t = s.push(x);
    assert forall|a: int, b: int| 0 <= a < t.len() && 0 <= b < t.len() && a != b implies t[a]
        != t[b] by {
        if a == s.len() {
            assert(s[b] == t[b]);
        }
        if b == s.len() {
            assert(s[a] == t[a]);
        }
    }
    s.lemma_push_to_set_commute(x);
}

} // verus!
