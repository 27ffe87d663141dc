use vstd::prelude::*;
use crate::bytes::{
    bytes_lt, compare_bytes, copy_bytes, lemma_bytes_lt_irreflexive,
    lemma_bytes_lt_transitive,
};

verus! {

/// Entries as byte strings, in stored order.
pub type Entries = Seq<(Seq<u8>, Seq<u8>)>;

/// Keys strictly increase in byte order.
pub open spec fn sorted_keys(s: Entries) -> bool {
    forall|i: int, j: int| 0 <= i < j < s.len() ==> bytes_lt(s[i].0, s[j].0)
}

pub open spec fn has_entry(s: Entries, k: Seq<u8>) -> bool {
    exists|i: int| 0 <= i < s.len() && s[i].0 == k
}

pub open spec fn entry_index(s: Entries, k: Seq<u8>) -> int {
    choose|i: int| 0 <= i < s.len() && s[i].0 == k
}

/// The key-value map that a list of entries stands for.
pub open spec fn entries_to_map(s: Entries) -> Map<Seq<u8>, Seq<u8>> {
    Map::new(|k: Seq<u8>| has_entry(s, k), |k: Seq<u8>| s[entry_index(s, k)].1)
}

pub proof fn lemma_sorted_entry(s: Entries, i: int)
    requires
        sorted_keys(s),
        0 <= i < s.len(),
    ensures
        has_entry(s, s[i].0),
        entry_index(s, s[i].0) == i,
        entries_to_map(s).contains_key(s[i].0),
        entries_to_map(s)[s[i].0] == s[i].1,
{
    let k = s[i].0;
    assert(has_entry(s, k));
    let j = entry_index(s, k);
    if j < i {
        assert(bytes_lt(s[j].0, s[i].0));
        lemma_bytes_lt_irreflexive(k);
    }
    if i < j {
        assert(bytes_lt(s[i].0, s[j].0));
        lemma_bytes_lt_irreflexive(k);
    }
}

/// Total size of the keys and values.
pub open spec fn entries_size(s: Entries) -> int
    decreases s.len(),
{
    if s.len() == 0 {
        0
    } else {
        entries_size(s.drop_last()) + s.last().0.len() + s.last().1.len()
    }
}

/// Keys and values concatenated in order, `key ‖ value` for each entry.
pub open spec fn entries_bytes(s: Entries) -> Seq<u8>
    decreases s.len(),
{
    if s.len() == 0 {
        Seq::empty()
    } else {
        entries_bytes(s.drop_last()) + s.last().0 + s.last().1
    }
}

pub proof fn lemma_size_prefix(s: Entries, i: int)
    requires
        0 <= i <= s.len(),
    ensures
        0 <= entries_size(s.take(i)) <= entries_size(s),
    decreases s.len(),
{
    if i == s.len() {
        assert(s.take(i) =~= s);
    } else {
        lemma_size_prefix(s.drop_last(), i);
        assert(s.drop_last().take(i) =~= s.take(i));
    }
    lemma_size_nonneg(s.take(i));
}

pub proof fn lemma_size_nonneg(s: Entries)
    ensures
        entries_size(s) >= 0,
    decreases s.len(),
{
    if s.len() > 0 {
        lemma_size_nonneg(s.drop_last());
    }
}

pub proof fn lemma_size_concat(a: Entries, b: Entries)
    ensures
        entries_size(a + b) == entries_size(a) + entries_size(b),
    decreases b.len(),
{
    if b.len() == 0 {
        assert(a + b =~= a);
    } else {
        lemma_size_concat(a, b.drop_last());
        assert((a + b).drop_last() =~= a + b.drop_last());
    }
}

/// Size of one entry.
pub open spec fn entry_size(e: (Seq<u8>, Seq<u8>)) -> int {
    (e.0.len() + e.1.len()) as int
}

pub proof fn lemma_size_split(s: Entries, i: int)
    requires
        0 <= i < s.len(),
    ensures
        entries_size(s) == entries_size(s.take(i)) + entry_size(s[i]) + entries_size(s.skip(i + 1)),
{
    assert(s =~= s.take(i) + seq![s[i]] + s.skip(i + 1));
    lemma_size_concat(s.take(i) + seq![s[i]], s.skip(i + 1));
    lemma_size_concat(s.take(i), seq![s[i]]);
    let one = seq![s[i]];
    assert(one.drop_last() =~= Seq::<(Seq<u8>, Seq<u8>)>::empty());
    assert(entries_size(one.drop_last()) == 0);
    assert(one.last() == s[i]);
    assert(entries_size(one) == entry_size(s[i]));
}

/// A contract's key-value state, kept sorted by key.
#[derive(Debug, Clone)]
pub struct StateMap {
    entries: Vec<(Vec<u8>, Vec<u8>)>,
}

impl View for StateMap {
    type V = Map<Seq<u8>, Seq<u8>>;

    open spec fn view(&self) -> Map<Seq<u8>, Seq<u8>> {
        entries_to_map(self.entries())
    }
}

impl StateMap {
    /// The entries as byte strings, sorted by key.
    pub closed spec fn entries(&self) -> Entries {
        self.entries@.map_values(|e: (Vec<u8>, Vec<u8>)| (e.0@, e.1@))
    }

    pub closed spec fn wf(&self) -> bool {
        sorted_keys(self.entries())
    }

    /// A well-formed map has sorted entries.
    pub proof fn lemma_wf_sorted(&self)
        requires
            self.wf(),
        ensures
            sorted_keys(self.entries()),
    {
    }

    /// The empty map.
    pub fn new() -> (r: Self)
        ensures
            r.wf(),
            r.entries() == Seq::<(Seq<u8>, Seq<u8>)>::empty(),
            r@ == Map::<Seq<u8>, Seq<u8>>::empty(),
    {
        let r = StateMap { entries: Vec::new() };
        assert(r.entries() =~= Seq::<(Seq<u8>, Seq<u8>)>::empty());
        assert(r@ =~= Map::<Seq<u8>, Seq<u8>>::empty());
        r
    }

    /// The number of entries.
    pub fn len(&self) -> (r: usize)
        requires
            self.wf(),
        ensures
            r == self.entries().len(),
            r == self@.dom().len(),
    {
        proof {
            self.lemma_len();
        }
        self.entries.len()
    }

    proof fn lemma_len(&self)
        requires
            self.wf(),
        ensures
            self@.dom().len() == self.entries().len(),
            self@.dom().finite(),
    {
        let s = self.entries();
        let keys = s.map_values(|e: (Seq<u8>, Seq<u8>)| e.0);
        assert forall|a: int, b: int| 0 <= a < keys.len() && 0 <= b < keys.len() && a != b implies keys[a]
            != keys[b] by {
            if a < b {
                assert(bytes_lt(s[a].0, s[b].0));
            } else {
                assert(bytes_lt(s[b].0, s[a].0));
            }
            lemma_bytes_lt_irreflexive(s[a].0);
        }
        assert forall|k: Seq<u8>| self@.dom().contains(k) == keys.to_set().contains(k) by {
            if has_entry(s, k) {
                let i = entry_index(s, k);
                assert(keys[i] == k);
            }
            if keys.contains(k) {
                let i = choose|i: int| 0 <= i < keys.len() && keys[i] == k;
                assert(s[i].0 == k);
            }
        }
        assert(self@.dom() =~= keys.to_set());
        keys.unique_seq_to_set();
    }

    /// Where `key` stands: its index if present, else the index at which it
    /// would be inserted.
    fn locate(&self, key: &Vec<u8>) -> (r: (bool, usize))
        requires
            self.wf(),
        ensures
            r.1 <= self.entries().len(),
            r.0 ==> r.1 < self.entries().len() && self.entries()[r.1 as int].0 == key@,
            !r.0 ==> forall|i: int|
                0 <= i < self.entries().len() ==> (i < r.1 ==> bytes_lt(
                    self.entries()[i].0,
                    key@,
                )) && (i >= r.1 ==> bytes_lt(key@, self.entries()[i].0)),
    {
        let ghost s = self.entries();
        let mut lo: usize = 0;
        let mut hi: usize = self.entries.len();
        while lo < hi
            invariant
                s == self.entries(),
                self.wf(),
                0 <= lo <= hi <= s.len(),
                forall|i: int| 0 <= i < lo ==> bytes_lt(s[i].0, key@),
                forall|i: int| hi <= i < s.len() ==> bytes_lt(key@, s[i].0),
            decreases hi - lo,
        {
            let mid = lo + (hi - lo) / 2;
            let c = compare_bytes(&self.entries[mid].0, key);
            assert(s[mid as int].0 == self.entries@[mid as int].0@);
            if c == 0 {
                return (true, mid);
            } else if c < 0 {
                assert forall|i: int| 0 <= i < mid + 1 implies bytes_lt(s[i].0, key@) by {
                    if i < mid {
                        lemma_bytes_lt_transitive(s[i].0, s[mid as int].0, key@);
                    }
                }
                lo = mid + 1;
            } else {
                assert forall|i: int| mid <= i < s.len() implies bytes_lt(key@, s[i].0) by {
                    if i > mid {
                        lemma_bytes_lt_transitive(key@, s[mid as int].0, s[i].0);
                    }
                }
                hi = mid;
            }
        }
        (false, lo)
    }

    /// The value stored under `key`, if any.
    pub fn get(&self, key: &Vec<u8>) -> (r: Option<&Vec<u8>>)
        requires
            self.wf(),
        ensures
            r is Some == self@.contains_key(key@),
            r matches Some(v) ==> v@ == self@[key@],
    {
        let (found, i) = self.locate(key);
        proof {
            self.lemma_absent(key@, found, i as int);
        }
        if found {
            proof {
                lemma_sorted_entry(self.entries(), i as int);
            }
            Some(&self.entries[i].1)
        } else {
            None
        }
    }

    proof fn lemma_absent(&self, k: Seq<u8>, found: bool, i: int)
        requires
            self.wf(),
            !found ==> forall|j: int|
                0 <= j < self.entries().len() ==> (j < i ==> bytes_lt(self.entries()[j].0, k)) && (j
                    >= i ==> bytes_lt(k, self.entries()[j].0)),
        ensures
            !found ==> !self@.contains_key(k),
    {
        if !found && has_entry(self.entries(), k) {
            let j = entry_index(self.entries(), k);
            lemma_bytes_lt_irreflexive(k);
        }
    }

    proof fn lemma_absent_after(&self, s0: Entries, k: Seq<u8>, i: int)
        requires
            sorted_keys(s0),
            0 <= i <= s0.len(),
            forall|j: int|
                0 <= j < s0.len() ==> (j < i ==> bytes_lt(s0[j].0, k)) && (j >= i ==> bytes_lt(
                    k,
                    s0[j].0,
                )),
        ensures
            !has_entry(s0, k),
    {
        if has_entry(s0, k) {
            let j = entry_index(s0, k);
            lemma_bytes_lt_irreflexive(k);
        }
    }

    /// An entry's key and value count toward the total size.
    pub proof fn lemma_entry_within_size(&self, k: Seq<u8>)
        requires
            self.wf(),
            self@.contains_key(k),
        ensures
            k.len() + self@[k].len() <= entries_size(self.entries()),
    {
        let s = self.entries();
        let i = entry_index(s, k);
        lemma_sorted_entry(s, i);
        lemma_size_split(s, i);
        lemma_size_nonneg(s.take(i));
        lemma_size_nonneg(s.skip(i + 1));
    }

    /// Whether `key` has an entry.
    pub fn contains_key(&self, key: &Vec<u8>) -> (r: bool)
        requires
            self.wf(),
        ensures
            r == self@.contains_key(key@),
    {
        self.get(key).is_some()
    }

    /// Stores `value` under `key`, replacing any earlier value.
    pub fn insert(&mut self, key: Vec<u8>, value: Vec<u8>)
        requires
            old(self).wf(),
        ensures
            final(self).wf(),
            final(self)@ == old(self)@.insert(key@, value@),
            final(self).entries().len() == old(self).entries().len() + if old(self)@.contains_key(
                key@,
            ) {
                0int
            } else {
                1int
            },
            entries_size(final(self).entries()) == entries_size(old(self).entries()) - (if old(
                self,
            )@.contains_key(key@) {
                key@.len() + old(self)@[key@].len()
            } else {
                0
            }) + key@.len() + value@.len(),
            forall|j: int|
                0 <= j < final(self).entries().len() ==> final(self).entries()[j] == (key@, value@)
                    || old(self).entries().contains(#[trigger] final(self).entries()[j]),
    {
        let (found, i) = self.locate(&key);
        let ghost s0 = self.entries();
        let ghost k = key@;
        let ghost v = value@;
        if found {
            self.entries.set(i, (key, value));
            let ghost s1 = self.entries();
            assert(s1 =~= s0.update(i as int, (k, v)));
            proof {
                lemma_sorted_entry(s0, i as int);
                lemma_size_split(s0, i as int);
                lemma_size_split(s1, i as int);
                assert(s1.take(i as int) =~= s0.take(i as int));
                assert(s1.skip(i + 1) =~= s0.skip(i + 1));
                assert forall|j: int| 0 <= j < s1.len() && j != i implies s0.contains(s1[j]) by {
                    assert(s0[j] == s1[j]);
                }
            }
            assert(sorted_keys(s1)) by {
                assert forall|a: int, b: int| 0 <= a < b < s1.len() implies bytes_lt(
                    s1[a].0,
                    s1[b].0,
                ) by {
                    assert(s1[a].0 == s0[a].0 && s1[b].0 == s0[b].0);
                }
            }
            proof {
                assert forall|q: Seq<u8>| #[trigger]
                    entries_to_map(s1).contains_key(q) == old(self)@.insert(k, v).contains_key(
                        q,
                    ) by {
                    if has_entry(s1, q) {
                        let j = entry_index(s1, q);
                        assert(s0[j].0 == q);
                    }
                    if has_entry(s0, q) {
                        let j = entry_index(s0, q);
                        assert(s1[j].0 == q);
                    }
                    if q == k {
                        assert(s1[i as int].0 == q);
                    }
                }
                assert forall|q: Seq<u8>| #[trigger]
                    entries_to_map(s1).contains_key(q) implies entries_to_map(s1)[q] == old(
                    self,
                )@.insert(k, v)[q] by {
                    let j = entry_index(s1, q);
                    lemma_sorted_entry(s1, j);
                    if q != k {
                        lemma_sorted_entry(s0, j);
                    } else {
                        lemma_sorted_entry(s1, i as int);
                    }
                }
            }
            assert(self@ =~= old(self)@.insert(k, v));
        } else {
            self.entries.insert(i, (key, value));
            let ghost s1 = self.entries();
            assert(s1 =~= s0.insert(i as int, (k, v)));
            proof {
                self.lemma_absent_after(s0, k, i as int);
                lemma_size_split(s1, i as int);
                assert(s1.take(i as int) =~= s0.take(i as int));
                assert(s1.skip(i + 1) =~= s0.skip(i as int));
                assert(s0 =~= s0.take(i as int) + s0.skip(i as int));
                lemma_size_concat(s0.take(i as int), s0.skip(i as int));
                assert forall|j: int| 0 <= j < s1.len() && j != i implies s0.contains(s1[j]) by {
                    if j < i {
                        assert(s0[j] == s1[j]);
                    } else {
                        assert(s0[j - 1] == s1[j]);
                    }
                }
            }
            assert(sorted_keys(s1)) by {
                assert forall|a: int, b: int| 0 <= a < b < s1.len() implies bytes_lt(
                    s1[a].0,
                    s1[b].0,
                ) by {
                    if b < i {
                        assert(s1[a] == s0[a] && s1[b] == s0[b]);
                    } else if b == i {
                        assert(s1[a] == s0[a]);
                    } else if a == i {
                        assert(s1[b] == s0[b - 1]);
                    } else if a < i {
                        assert(s1[a] == s0[a] && s1[b] == s0[b - 1]);
                        lemma_bytes_lt_transitive(s0[a].0, k, s0[b - 1].0);
                    } else {
                        assert(s1[a] == s0[a - 1] && s1[b] == s0[b - 1]);
                    }
                }
            }
            proof {
                assert forall|q: Seq<u8>| #[trigger]
                    entries_to_map(s1).contains_key(q) == old(self)@.insert(k, v).contains_key(
                        q,
                    ) by {
                    if has_entry(s1, q) {
                        let j = entry_index(s1, q);
                        if j < i {
                            assert(s0[j].0 == q);
                        } else if j > i {
                            assert(s0[j - 1].0 == q);
                        }
                    }
                    if has_entry(s0, q) {
                        let j = entry_index(s0, q);
                        if j < i {
                            assert(s1[j].0 == q);
                        } else {
                            assert(s1[j + 1].0 == q);
                        }
                    }
                    if q == k {
                        assert(s1[i as int].0 == q);
                    }
                }
                assert forall|q: Seq<u8>| #[trigger]
                    entries_to_map(s1).contains_key(q) implies entries_to_map(s1)[q] == old(
                    self,
                )@.insert(k, v)[q] by {
                    let j = entry_index(s1, q);
                    lemma_sorted_entry(s1, j);
                    lemma_bytes_lt_irreflexive(k);
                    if j < i {
                        assert(s1[j] == s0[j]);
                        lemma_sorted_entry(s0, j);
                    } else if j > i {
                        assert(s1[j] == s0[j - 1]);
                        lemma_sorted_entry(s0, j - 1);
                    } else {
                        assert(s1[j] == (k, v));
                    }
                }
            }
            assert(self@ =~= old(self)@.insert(k, v));
        }
    }
    /// Removes the entry under `key`; returns whether there was one.
    pub fn remove(&mut self, key: &Vec<u8>) -> (r: bool)
        requires
            old(self).wf(),
        ensures
            final(self).wf(),
            final(self)@ == old(self)@.remove(key@),
            r == old(self)@.contains_key(key@),
    {
        let (found, i) = self.locate(key);
        proof {
            self.lemma_absent(key@, found, i as int);
        }
        let ghost s0 = self.entries();
        let ghost k = key@;
        if !found {
            assert(self@ =~= old(self)@.remove(k));
            return false;
        }
        proof {
            lemma_sorted_entry(s0, i as int);
        }
        self.entries.remove(i);
        let ghost s1 = self.entries();
        assert(s1 =~= s0.remove(i as int));
        assert(sorted_keys(s1)) by {
            assert forall|a: int, b: int| 0 <= a < b < s1.len() implies bytes_lt(
                s1[a].0,
                s1[b].0,
            ) by {
                let a0 = if a < i { a } else { a + 1 };
                let b0 = if b < i { b } else { b + 1 };
                assert(s1[a] == s0[a0] && s1[b] == s0[b0]);
            }
        }
        proof {
            assert forall|q: Seq<u8>| #[trigger]
                entries_to_map(s1).contains_key(q) == old(self)@.remove(k).contains_key(q) by {
                if has_entry(s1, q) {
                    let j = entry_index(s1, q);
                    let j0 = if j < i { j } else { j + 1 };
                    assert(s1[j] == s0[j0]);
                    lemma_sorted_entry(s0, j0);
                }
                if has_entry(s0, q) && q != k {
                    let j = entry_index(s0, q);
                    assert(j != i);
                    let j1 = if j < i { j } else { j - 1 };
                    assert(s1[j1] == s0[j]);
                }
            }
            assert forall|q: Seq<u8>| #[trigger]
                entries_to_map(s1).contains_key(q) implies entries_to_map(s1)[q] == old(
                self,
            )@.remove(k)[q] by {
                let j = entry_index(s1, q);
                let j0 = if j < i { j } else { j + 1 };
                assert(s1[j] == s0[j0]);
                lemma_sorted_entry(s1, j);
                lemma_sorted_entry(s0, j0);
            }
        }
        assert(self@ =~= old(self)@.remove(k));
        true
    }

    /// The key of the entry at `i`, in key order.
    pub fn key_at(&self, i: usize) -> (r: &Vec<u8>)
        requires
            i < self.entries().len(),
        ensures
            r@ == self.entries()[i as int].0,
    {
        &self.entries[i].0
    }

    /// The value of the entry at `i`, in key order.
    pub fn value_at(&self, i: usize) -> (r: &Vec<u8>)
        requires
            i < self.entries().len(),
        ensures
            r@ == self.entries()[i as int].1,
    {
        &self.entries[i].1
    }

    /// A copy with the same entries.
    pub fn duplicate(&self) -> (r: StateMap)
        requires
            self.wf(),
        ensures
            r.wf(),
            r.entries() == self.entries(),
            r@ == self@,
    {
        let mut out: Vec<(Vec<u8>, Vec<u8>)> = Vec::new();
        let mut i: usize = 0;
        while i < self.entries.len()
            invariant
                0 <= i <= self.entries@.len(),
                out@.len() == i,
                forall|j: int|
                    0 <= j < i ==> out@[j].0@ == self.entries@[j].0@ && out@[j].1@
                        == self.entries@[j].1@,
            decreases self.entries@.len() - i,
        {
            let k = copy_bytes(&self.entries[i].0);
            let v = copy_bytes(&self.entries[i].1);
            out.push((k, v));
            i = i + 1;
        }
        let r = StateMap { entries: out };
        assert(r.entries() =~= self.entries());
        r
    }

    /// Total size of the keys and values.
    pub fn size(&self) -> (r: usize)
        requires
            entries_size(self.entries()) <= usize::MAX,
        ensures
            r == entries_size(self.entries()),
    {
        let ghost s = self.entries();
        let mut total: usize = 0;
        let mut i: usize = 0;
        while i < self.entries.len()
            invariant
                s == self.entries(),
                entries_size(s) <= usize::MAX,
                0 <= i <= s.len(),
                total == entries_size(s.take(i as int)),
            decreases s.len() - i,
        {
            proof {
                lemma_size_prefix(s, i + 1);
                assert(s.take(i + 1).drop_last() =~= s.take(i as int));
            }
            total = total + self.entries[i].0.len() + self.entries[i].1.len();
            i = i + 1;
        }
        assert(s.take(i as int) =~= s);
        total
    }

    /// `key ‖ value` for each entry, in key order.
    pub fn to_bytes(&self) -> (r: Vec<u8>)
        ensures
            r@ == entries_bytes(self.entries()),
    {
        let ghost s = self.entries();
        let mut out: Vec<u8> = Vec::new();
        let mut i: usize = 0;
        assert(s.take(0) =~= Seq::<(Seq<u8>, Seq<u8>)>::empty());
        while i < self.entries.len()
            invariant
                s == self.entries(),
                0 <= i <= s.len(),
                out@ == entries_bytes(s.take(i as int)),
            decreases s.len() - i,
        {
            assert(s.take(i + 1).drop_last() =~= s.take(i as int));
            let mut k = copy_bytes(&self.entries[i].0);
            let mut v = copy_bytes(&self.entries[i].1);
            out.append(&mut k);
            out.append(&mut v);
            i = i + 1;
        }
        assert(s.take(i as int) =~= s);
        out
    }
}

} // verus!
