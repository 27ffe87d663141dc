use vstd::prelude::*;
use crate::bytes::{compare_bytes, copy_bytes};
use crate::digest::{sha256, sha256_of};
use crate::error::{ContractError, ContractResult};
use crate::statemap::{
    entries_bytes, entries_size, has_entry, lemma_sorted_entry, sorted_keys, Entries, StateMap,
};
use crate::table::{addr_eq, Address, AddrTable};

verus! {

/// Largest total size of a contract's keys and values: 100 MiB.
pub const MAX_STATE_SIZE: usize = 104857600;

/// Largest key: 1 KiB.
pub const MAX_KEY_SIZE: usize = 1024;

/// Largest value: 1 MiB.
pub const MAX_VALUE_SIZE: usize = 1048576;

/// Largest number of entries of a contract.
pub const MAX_ENTRIES: usize = 100000;

/// Schema version that new snapshots carry.
pub const SCHEMA_VERSION: u32 = 1;

/// A copy of a contract's state at one moment, with its integrity hash.
#[derive(Debug, Clone)]
pub struct StateSnapshot {
    pub contract_addr: Address,
    pub version: String,
    pub timestamp: u64,
    pub state: StateMap,
    pub state_hash: [u8; 32],
    pub schema_version: u32,
}

/// The difference between two states: keys added, keys whose value changed
/// as (key, old value, new value), and keys deleted.
#[derive(Debug, Clone)]
pub struct StateDiff {
    pub added: StateMap,
    pub modified: Vec<(Vec<u8>, Vec<u8>, Vec<u8>)>,
    pub deleted: StateMap,
}

/// The integrity hash of a state: SHA-256 over `key ‖ value` for each entry,
/// keys in ascending byte order.
pub open spec fn state_hash_of(s: Entries) -> Seq<u8> {
    sha256_of(entries_bytes(s))
}

/// Every entry is within the key and value caps, and the state within the
/// entry-count and total-size caps.
pub open spec fn within_caps(m: StateMap) -> bool {
    &&& m.wf()
    &&& m.entries().len() <= MAX_ENTRIES
    &&& entries_size(m.entries()) <= MAX_STATE_SIZE
    &&& forall|i: int|
        0 <= i < m.entries().len() ==> (#[trigger] m.entries()[i]).0.len() <= MAX_KEY_SIZE
            && m.entries()[i].1.len() <= MAX_VALUE_SIZE
}

/// The snapshot's hash is the hash of its state.
pub open spec fn snapshot_intact(s: StateSnapshot) -> bool {
    &&& within_caps(s.state)
    &&& s.state_hash@ == state_hash_of(s.state.entries())
}

/// Two snapshots hold the same values.
pub open spec fn same_snapshot(a: StateSnapshot, b: StateSnapshot) -> bool {
    &&& a.contract_addr == b.contract_addr
    &&& a.version@ == b.version@
    &&& a.timestamp == b.timestamp
    &&& a.state.entries() == b.state.entries()
    &&& a.state_hash == b.state_hash
    &&& a.schema_version == b.schema_version
}

/// The triples of a modification list as byte strings.
pub open spec fn modified_view(m: Seq<(Vec<u8>, Vec<u8>, Vec<u8>)>) -> Seq<(Seq<u8>, Seq<u8>, Seq<u8>)> {
    m.map_values(|t: (Vec<u8>, Vec<u8>, Vec<u8>)| (t.0@, t.1@, t.2@))
}

/// `d` is the diff from state `o` to state `n`.
pub open spec fn is_diff(d: StateDiff, o: Map<Seq<u8>, Seq<u8>>, n: Map<Seq<u8>, Seq<u8>>) -> bool {
    let mv = modified_view(d.modified@);
    &&& d.added.wf()
    &&& d.deleted.wf()
    &&& d.added@ == Map::new(|k: Seq<u8>| n.contains_key(k) && !o.contains_key(k), |k: Seq<u8>| n[k])
    &&& d.deleted@ == Map::new(
        |k: Seq<u8>| o.contains_key(k) && !n.contains_key(k),
        |k: Seq<u8>| o[k],
    )
    &&& forall|i: int|
        0 <= i < mv.len() ==> o.contains_key((#[trigger] mv[i]).0) && n.contains_key(mv[i].0)
            && o[mv[i].0] == mv[i].1 && n[mv[i].0] == mv[i].2 && mv[i].1 != mv[i].2
    &&& forall|i: int, j: int| 0 <= i < j < mv.len() ==> mv[i].0 != mv[j].0
    &&& forall|k: Seq<u8>|
        o.contains_key(k) && n.contains_key(k) && o[k] != n[k] ==> exists|i: int|
            0 <= i < mv.len() && (#[trigger] mv[i]).0 == k
}

/// The index of the first snapshot taken at `t`.
pub open spec fn first_at(s: Seq<StateSnapshot>, t: u64) -> int {
    choose|i: int| 0 <= i < s.len() && s[i].timestamp == t && forall|j: int| 0 <= j < i ==> s[j].timestamp != t
}

pub open spec fn taken_at(s: Seq<StateSnapshot>, t: u64) -> bool {
    exists|i: int| 0 <= i < s.len() && s[i].timestamp == t
}

/// Growing a prefix by one entry adds that entry's key.
pub proof fn lemma_has_entry_take(s: Entries, j: int, q: Seq<u8>)
    requires
        0 <= j < s.len(),
    ensures
        has_entry(s.take(j + 1), q) == (has_entry(s.take(j), q) || s[j].0 == q),
{
    let t1 = s.take(j + 1);
    let t0 = s.take(j);
    if has_entry(t1, q) {
        let i = choose|i: int| 0 <= i < t1.len() && t1[i].0 == q;
        if i < j {
            assert(t0[i].0 == q);
        }
    }
    if has_entry(t0, q) {
        let i = choose|i: int| 0 <= i < t0.len() && t0[i].0 == q;
        assert(t1[i].0 == q);
    }
    if s[j].0 == q {
        assert(t1[j].0 == q);
    }
}

/// The entries of `old_state` whose key `new_state` lacks.
fn deleted_entries(old_state: &StateMap, new_state: &StateMap) -> (d: StateMap)
    requires
        old_state.wf(),
        new_state.wf(),
    ensures
        d.wf(),
        d@ == Map::new(
            |k: Seq<u8>| old_state@.contains_key(k) && !new_state@.contains_key(k),
            |k: Seq<u8>| old_state@[k],
        ),
{
    let ghost o = old_state@;
    let ghost n = new_state@;
    let ghost oe = old_state.entries();
    proof {
        old_state.lemma_wf_sorted();
    }
    let mut deleted = StateMap::new();
    let mut j: usize = 0;
    let olen = old_state.len();
    assert(deleted@ =~= Map::new(
        |k: Seq<u8>| has_entry(oe.take(0), k) && !n.contains_key(k),
        |k: Seq<u8>| o[k],
    ));
    while j < olen
        invariant
            old_state.wf(),
            new_state.wf(),
            sorted_keys(oe),
            o == old_state@,
            n == new_state@,
            oe == old_state.entries(),
            olen == oe.len(),
            0 <= j <= olen,
            deleted.wf(),
            deleted@ == Map::new(
                |k: Seq<u8>| has_entry(oe.take(j as int), k) && !n.contains_key(k),
                |k: Seq<u8>| o[k],
            ),
        decreases olen - j,
    {
        let key = old_state.key_at(j);
        let value = old_state.value_at(j);
        proof {
            lemma_sorted_entry(oe, j as int);
            assert forall|q: Seq<u8>| has_entry(oe.take(j + 1), q) == (has_entry(oe.take(j as int), q) || key@ == q) by {
                lemma_has_entry_take(oe, j as int, q);
            }
        }
        if !new_state.contains_key(key) {
            deleted.insert(copy_bytes(key), copy_bytes(value));
        }
        assert(deleted@ =~= Map::new(
            |q: Seq<u8>| has_entry(oe.take(j + 1), q) && !n.contains_key(q),
            |q: Seq<u8>| o[q],
        ));
        j = j + 1;
    }
    assert(oe.take(olen as int) =~= oe);
    assert(deleted@ =~= Map::new(|k: Seq<u8>| o.contains_key(k) && !n.contains_key(k), |k: Seq<u8>| o[k]));
    deleted
}

/// The diff from state `old_state` to state `new_state`.
pub fn diff_states(old_state: &StateMap, new_state: &StateMap) -> (d: StateDiff)
    requires
        old_state.wf(),
        new_state.wf(),
    ensures
        is_diff(d, old_state@, new_state@),
{
    let ghost o = old_state@;
    let ghost n = new_state@;
    let ghost ne = new_state.entries();
    proof {
        new_state.lemma_wf_sorted();
    }
    let mut added = StateMap::new();
    let mut modified: Vec<(Vec<u8>, Vec<u8>, Vec<u8>)> = Vec::new();
    let mut j: usize = 0;
    let len = new_state.len();
    assert(added@ =~= Map::new(
        |k: Seq<u8>| has_entry(ne.take(0), k) && !o.contains_key(k),
        |k: Seq<u8>| n[k],
    ));
    while j < len
        invariant
            old_state.wf(),
            new_state.wf(),
            o == old_state@,
            n == new_state@,
            ne == new_state.entries(),
            sorted_keys(ne),
            len == ne.len(),
            0 <= j <= len,
            added.wf(),
            added@ == Map::new(
                |k: Seq<u8>| has_entry(ne.take(j as int), k) && !o.contains_key(k),
                |k: Seq<u8>| n[k],
            ),
            forall|i: int|
                0 <= i < modified_view(modified@).len() ==> o.contains_key(
                    (#[trigger] modified_view(modified@)[i]).0,
                ) && n.contains_key(modified_view(modified@)[i].0) && o[modified_view(
                    modified@,
                )[i].0] == modified_view(modified@)[i].1 && n[modified_view(modified@)[i].0]
                    == modified_view(modified@)[i].2 && modified_view(modified@)[i].1
                    != modified_view(modified@)[i].2 && has_entry(
                    ne.take(j as int),
                    modified_view(modified@)[i].0,
                ),
            forall|a: int, b: int|
                0 <= a < b < modified_view(modified@).len() ==> modified_view(modified@)[a].0
                    != modified_view(modified@)[b].0,
            forall|k: Seq<u8>|
                has_entry(ne.take(j as int), k) && o.contains_key(k) && n.contains_key(k) && o[k]
                    != n[k] ==> exists|i: int|
                    0 <= i < modified_view(modified@).len() && (#[trigger] modified_view(
                        modified@,
                    )[i]).0 == k,
        decreases len - j,
    {
        let key = new_state.key_at(j);
        let value = new_state.value_at(j);
        let ghost k = key@;
        proof {
            lemma_sorted_entry(ne, j as int);
            assert forall|q: Seq<u8>| has_entry(ne.take(j + 1), q) == (has_entry(ne.take(j as int), q) || k == q) by {
                lemma_has_entry_take(ne, j as int, q);
            }
            if has_entry(ne.take(j as int), k) {
                let i = choose|i: int| 0 <= i < ne.take(j as int).len() && ne.take(j as int)[i].0 == k;
                assert(ne[i].0 == k);
                crate::bytes::lemma_bytes_lt_irreflexive(k);
            }
        }
        let ghost mv0 = modified_view(modified@);
        match old_state.get(key) {
            None => {
                added.insert(copy_bytes(key), copy_bytes(value));
                assert(added@ =~= Map::new(
                    |q: Seq<u8>| has_entry(ne.take(j + 1), q) && !o.contains_key(q),
                    |q: Seq<u8>| n[q],
                ));
            },
            Some(old_value) => {
                if compare_bytes(old_value, value) != 0 {
                    modified.push((copy_bytes(key), copy_bytes(old_value), copy_bytes(value)));
                    proof {
                        assert forall|a: int| 0 <= a < mv0.len() implies mv0[a].0 != k by {
                            assert(has_entry(ne.take(j as int), mv0[a].0));
                        }
                        let mv = modified_view(modified@);
                        assert(mv =~= mv0.push((k, o[k], n[k])));
                        assert(mv[mv0.len() as int].0 == k);
                    }
                }
                assert(added@ =~= Map::new(
                    |q: Seq<u8>| has_entry(ne.take(j + 1), q) && !o.contains_key(q),
                    |q: Seq<u8>| n[q],
                ));
            },
        }
        proof {
            let mv = modified_view(modified@);
            assert forall|q: Seq<u8>|
                has_entry(ne.take(j + 1), q) && o.contains_key(q) && n.contains_key(q) && o[q]
                    != n[q] implies exists|i: int| 0 <= i < mv.len() && (#[trigger] mv[i]).0 == q by {
                if q != k {
                    let i = choose|i: int| 0 <= i < mv0.len() && (#[trigger] mv0[i]).0 == q;
                    assert(mv[i] == mv0[i]);
                } else {
                    assert(mv[mv.len() - 1].0 == k);
                }
            }
        }
        j = j + 1;
    }
    proof {
        assert(ne.take(len as int) =~= ne);
        assert(added@ =~= Map::new(|k: Seq<u8>| n.contains_key(k) && !o.contains_key(k), |k: Seq<u8>| n[k]));
    }
    let deleted = deleted_entries(old_state, new_state);
    proof {
        let mv = modified_view(modified@);
        assert forall|k: Seq<u8>|
            o.contains_key(k) && n.contains_key(k) && o[k] != n[k] implies exists|i: int|
                0 <= i < mv.len() && (#[trigger] mv[i]).0 == k by {
            assert(has_entry(ne.take(len as int), k));
        }
    }
    let d = StateDiff { added, modified, deleted };
    assert(modified_view(d.modified@) == modified_view(modified@));
    assert(d.added@ == added@);
    d
}

/// The snapshot that a restore at `s[i].timestamp` picks is `s[i]` itself
/// when no earlier snapshot shares its timestamp; updates in between leave the
/// snapshots as they were, so the restore brings back exactly its state.
pub proof fn lemma_restore_picks(s: Seq<StateSnapshot>, i: int)
    requires
        0 <= i < s.len(),
        forall|j: int| 0 <= j < i ==> s[j].timestamp != s[i].timestamp,
    ensures
        taken_at(s, s[i].timestamp),
        first_at(s, s[i].timestamp) == i,
{
    let t = s[i].timestamp;
    assert(taken_at(s, t));
    let c = first_at(s, t);
    assert(0 <= c < s.len() && s[c].timestamp == t && forall|j: int| 0 <= j < c ==> s[j].timestamp != t);
}

/// Per-contract state with snapshots and a log of diffs.
pub struct StateManager {
    states: AddrTable<StateMap>,
    snapshots: AddrTable<Vec<StateSnapshot>>,
    diffs: AddrTable<Vec<StateDiff>>,
}

impl StateManager {
    /// The current state of `a`, if it has one.
    pub closed spec fn state_of(&self, a: Address) -> Option<StateMap> {
        if self.states@.contains_key(a) {
            Some(self.states@[a])
        } else {
            None
        }
    }

    /// The snapshots of `a`, oldest first; `None` when none was ever taken.
    pub closed spec fn snapshots_of(&self, a: Address) -> Option<Seq<StateSnapshot>> {
        if self.snapshots@.contains_key(a) {
            Some(self.snapshots@[a]@)
        } else {
            None
        }
    }

    /// The diffs recorded for `a`, oldest first; `None` when none was recorded.
    pub closed spec fn diffs_of(&self, a: Address) -> Option<Seq<StateDiff>> {
        if self.diffs@.contains_key(a) {
            Some(self.diffs@[a]@)
        } else {
            None
        }
    }

    pub closed spec fn wf(&self) -> bool {
        &&& self.states.wf()
        &&& self.snapshots.wf()
        &&& self.diffs.wf()
        &&& forall|a: Address| #[trigger]
            self.states@.contains_key(a) ==> within_caps(self.states@[a])
        &&& forall|a: Address, i: int| #[trigger]
            self.snapshots@.contains_key(a) && 0 <= i < self.snapshots@[a]@.len()
                ==> snapshot_intact(#[trigger] self.snapshots@[a]@[i])
                && self.snapshots@[a]@[i].contract_addr == a
    }

    /// No state, snapshots or diffs.
    pub fn new() -> (r: Self)
        ensures
            r.wf(),
            forall|a: Address|
                r.state_of(a) is None && r.snapshots_of(a) is None && r.diffs_of(a) is None,
    {
        StateManager { states: AddrTable::new(), snapshots: AddrTable::new(), diffs: AddrTable::new() }
    }

    /// Every state stays within the size caps.
    pub proof fn lemma_state_within_caps(&self, a: Address)
        requires
            self.wf(),
            self.state_of(a) is Some,
        ensures
            within_caps(self.state_of(a)->0),
    {
    }

    /// Every snapshot's hash is the hash of its state, and it carries the
    /// address it is stored under.
    pub proof fn lemma_snapshot_intact(&self, a: Address, i: int)
        requires
            self.wf(),
            self.snapshots_of(a) is Some,
            0 <= i < self.snapshots_of(a)->0.len(),
        ensures
            snapshot_intact(self.snapshots_of(a)->0[i]),
            self.snapshots_of(a)->0[i].contract_addr == a,
    {
    }

    /// The current state of `a`.
    pub fn get_state(&self, a: &Address) -> (r: Option<&StateMap>)
        requires
            self.wf(),
        ensures
            r is Some == self.state_of(*a) is Some,
            r matches Some(m) ==> *m == self.state_of(*a)->0,
    {
        self.states.get(a)
    }

    /// The snapshots of `a`, oldest first.
    pub fn get_snapshots(&self, a: &Address) -> (r: Option<&Vec<StateSnapshot>>)
        requires
            self.wf(),
        ensures
            r is Some == self.snapshots_of(*a) is Some,
            r matches Some(v) ==> v@ == self.snapshots_of(*a)->0,
    {
        self.snapshots.get(a)
    }

    /// The diffs recorded for `a`, oldest first.
    pub fn get_state_diffs(&self, a: &Address) -> (r: Option<&Vec<StateDiff>>)
        requires
            self.wf(),
        ensures
            r is Some == self.diffs_of(*a) is Some,
            r matches Some(v) ==> v@ == self.diffs_of(*a)->0,
    {
        self.diffs.get(a)
    }

    /// Total size of the keys and values of `a`; zero when it has no state.
    pub fn get_state_size(&self, a: &Address) -> (r: usize)
        requires
            self.wf(),
        ensures
            r == match self.state_of(*a) {
                Some(m) => entries_size(m.entries()),
                None => 0,
            },
    {
        match self.states.get(a) {
            Some(m) => m.size(),
            None => 0,
        }
    }

    /// The integrity hash of a state.
    pub fn compute_state_hash(state: &StateMap) -> (r: [u8; 32])
        ensures
            r@ == state_hash_of(state.entries()),
    {
        let bytes = state.to_bytes();
        sha256(&bytes)
    }

    /// The snapshot's hash matches its state.
    pub fn verify_state_integrity(snapshot: &StateSnapshot) -> (r: bool)
        ensures
            r == (snapshot.state_hash@ == state_hash_of(snapshot.state.entries())),
    {
        let h = Self::compute_state_hash(&snapshot.state);
        let r = addr_eq(&h, &snapshot.state_hash);
        proof {
            if h@ == snapshot.state_hash@ {
                assert(h =~= snapshot.state_hash);
            }
        }
        r
    }
    /// The snapshots of `a` so far, empty when none was taken.
    pub open spec fn prior_snapshots(&self, a: Address) -> Seq<StateSnapshot> {
        match self.snapshots_of(a) {
            Some(s) => s,
            None => Seq::empty(),
        }
    }

    /// The diffs of `a` so far, empty when none was recorded.
    pub open spec fn prior_diffs(&self, a: Address) -> Seq<StateDiff> {
        match self.diffs_of(a) {
            Some(s) => s,
            None => Seq::empty(),
        }
    }

    /// The state of `a`, empty when it has none.
    pub open spec fn current_or_empty(&self, a: Address) -> Map<Seq<u8>, Seq<u8>> {
        match self.state_of(a) {
            Some(m) => m@,
            None => Map::empty(),
        }
    }

    /// Takes a snapshot of the state of `a`, labelled with `version` and taken
    /// at `timestamp`, appends it to the snapshots of `a` and returns a copy.
    pub fn create_snapshot(&mut self, contract_addr: Address, version: String, timestamp: u64) -> (r:
        ContractResult<StateSnapshot>)
        requires
            old(self).wf(),
        ensures
            final(self).wf(),
            r is Ok == old(self).state_of(contract_addr) is Some,
            r is Err ==> (r matches Err(e) && e is StateError) && *final(self) == *old(self),
            r matches Ok(snap) ==> {
                let fs = final(self).snapshots_of(contract_addr)->0;
                let prev = old(self).prior_snapshots(contract_addr);
                &&& snap.contract_addr == contract_addr
                &&& snap.version@ == version@
                &&& snap.timestamp == timestamp
                &&& snap.state.wf()
                &&& snap.state.entries() == old(self).state_of(contract_addr)->0.entries()
                &&& snap.state_hash@ == state_hash_of(snap.state.entries())
                &&& snap.schema_version == SCHEMA_VERSION
                &&& final(self).snapshots_of(contract_addr) is Some
                &&& fs.len() == prev.len() + 1
                &&& fs.take(prev.len() as int) == prev
                &&& same_snapshot(fs.last(), snap)
            },
            r is Ok ==> forall|b: Address|
                b != contract_addr ==> final(self).snapshots_of(b) == old(self).snapshots_of(b),
            forall|b: Address|
                final(self).state_of(b) == old(self).state_of(b) && final(self).diffs_of(b) == old(
                    self,
                ).diffs_of(b),
    {
        let state = match self.states.get(&contract_addr) {
            Some(st) => st,
            None => {
                return Err(ContractError::StateError("contract state not found".to_owned()));
            },
        };
        let state_hash = Self::compute_state_hash(state);
        let stored = StateSnapshot {
            contract_addr,
            version: version.clone(),
            timestamp,
            state: state.duplicate(),
            state_hash,
            schema_version: SCHEMA_VERSION,
        };
        let out = StateSnapshot {
            contract_addr,
            version,
            timestamp,
            state: state.duplicate(),
            state_hash,
            schema_version: SCHEMA_VERSION,
        };
        let ghost old_snaps = self.snapshots@;
        let mut list = match self.snapshots.remove(&contract_addr) {
            Some(l) => l,
            None => Vec::new(),
        };
        let ghost prev = list@;
        list.push(stored);
        self.snapshots.insert(contract_addr, list);
        proof {
            assert(self.snapshots@ == old_snaps.insert(contract_addr, self.snapshots@[contract_addr]));
            assert(self.snapshots@[contract_addr]@.take(prev.len() as int) =~= prev);
            assert forall|a: Address, i: int| #[trigger]
                self.snapshots@.contains_key(a) && 0 <= i < self.snapshots@[a]@.len()
                    implies snapshot_intact(#[trigger] self.snapshots@[a]@[i]) by {
                if a == contract_addr && i < prev.len() {
                    assert(self.snapshots@[a]@[i] == prev[i]);
                }
            }
        }
        Ok(out)
    }

    fn find_snapshot(list: &Vec<StateSnapshot>, timestamp: u64) -> (r: Option<usize>)
        ensures
            r is None ==> !taken_at(list@, timestamp),
            r matches Some(i) ==> i < list@.len() && i == first_at(list@, timestamp) && list@[i as int].timestamp == timestamp,
    {
        let mut i: usize = 0;
        while i < list.len()
            invariant
                0 <= i <= list@.len(),
                forall|j: int| 0 <= j < i ==> list@[j].timestamp != timestamp,
            decreases list@.len() - i,
        {
            if list[i].timestamp == timestamp {
                proof {
                    let c = first_at(list@, timestamp);
                    assert(0 <= c < list@.len() && list@[c].timestamp == timestamp);
                    if c > i {
                        assert(list@[i as int].timestamp != timestamp);
                    }
                }
                return Some(i);
            }
            i = i + 1;
        }
        None
    }

    /// Replaces the state of `a` by the state of its first snapshot taken at
    /// `timestamp`, once that snapshot's hash checks out.
    pub fn restore_from_snapshot(&mut self, contract_addr: Address, timestamp: u64) -> (r:
        ContractResult<()>)
        requires
            old(self).wf(),
        ensures
            final(self).wf(),
            r is Ok == (old(self).snapshots_of(contract_addr) is Some && taken_at(
                old(self).snapshots_of(contract_addr)->0,
                timestamp,
            )),
            r is Err ==> (r matches Err(e) && e is StateError) && *final(self) == *old(self),
            r is Ok ==> {
                let snaps = old(self).snapshots_of(contract_addr)->0;
                &&& final(self).state_of(contract_addr) is Some
                &&& final(self).state_of(contract_addr)->0.entries() == snaps[first_at(
                    snaps,
                    timestamp,
                )].state.entries()
            },
            forall|b: Address|
                b != contract_addr ==> final(self).state_of(b) == old(self).state_of(b),
            forall|b: Address|
                final(self).snapshots_of(b) == old(self).snapshots_of(b) && final(self).diffs_of(b)
                    == old(self).diffs_of(b),
    {
        let list = match self.snapshots.get(&contract_addr) {
            Some(l) => l,
            None => {
                return Err(ContractError::StateError("no snapshots found for contract".to_owned()));
            },
        };
        let i = match Self::find_snapshot(list, timestamp) {
            Some(i) => i,
            None => {
                return Err(
                    ContractError::StateError("snapshot not found for given timestamp".to_owned()),
                );
            },
        };
        let snapshot = &list[i];
        if !Self::verify_state_integrity(snapshot) {
            return Err(ContractError::StateError("state integrity verification failed".to_owned()));
        }
        let restored = snapshot.state.duplicate();
        assert(taken_at(list@, timestamp));
        self.states.insert(contract_addr, restored);
        Ok(())
    }

    /// Appends the diff from `old_state` to `new_state` to the diffs of `a`.
    pub fn track_state_changes(
        &mut self,
        contract_addr: Address,
        old_state: &StateMap,
        new_state: &StateMap,
    )
        requires
            old(self).wf(),
            old_state.wf(),
            new_state.wf(),
        ensures
            final(self).wf(),
            final(self).diffs_of(contract_addr) is Some,
            ({
                let fd = final(self).diffs_of(contract_addr)->0;
                let prev = old(self).prior_diffs(contract_addr);
                &&& fd.len() == prev.len() + 1
                &&& fd.take(prev.len() as int) == prev
                &&& is_diff(fd.last(), old_state@, new_state@)
            }),
            forall|b: Address|
                b != contract_addr ==> final(self).diffs_of(b) == old(self).diffs_of(b),
            forall|b: Address|
                final(self).state_of(b) == old(self).state_of(b) && final(self).snapshots_of(b)
                    == old(self).snapshots_of(b),
    {
        let diff = diff_states(old_state, new_state);
        let mut list = match self.diffs.remove(&contract_addr) {
            Some(l) => l,
            None => Vec::new(),
        };
        let ghost prev = list@;
        list.push(diff);
        self.diffs.insert(contract_addr, list);
        assert(self.diffs@[contract_addr]@.take(prev.len() as int) =~= prev);
    }
    /// Total size of the state of `a`; zero when it has none.
    pub open spec fn current_size(&self, a: Address) -> int {
        match self.state_of(a) {
            Some(m) => entries_size(m.entries()),
            None => 0,
        }
    }

    /// Number of entries of the state of `a`; zero when it has none.
    pub open spec fn current_len(&self, a: Address) -> int {
        match self.state_of(a) {
            Some(m) => m.entries().len() as int,
            None => 0,
        }
    }

    /// Writing `v` under `k` in the state of `a` keeps every cap: key and
    /// value size, total size, and number of entries.
    pub open spec fn update_allowed(&self, a: Address, k: Seq<u8>, v: Seq<u8>) -> bool {
        let o = self.current_or_empty(a);
        let after = self.current_size(a) - (if o.contains_key(k) {
            k.len() + o[k].len()
        } else {
            0
        }) + k.len() + v.len();
        &&& k.len() <= MAX_KEY_SIZE
        &&& v.len() <= MAX_VALUE_SIZE
        &&& after <= MAX_STATE_SIZE
        &&& (o.contains_key(k) || self.current_len(a) < MAX_ENTRIES)
    }

    /// Writes `value` under `key` in the state of `a` (a missing state counts
    /// as empty) when every cap allows it, and records the diff.
    pub fn update_state(&mut self, contract_addr: Address, key: Vec<u8>, value: Vec<u8>) -> (r:
        ContractResult<()>)
        requires
            old(self).wf(),
        ensures
            final(self).wf(),
            r is Ok == old(self).update_allowed(contract_addr, key@, value@),
            r is Err ==> (r matches Err(e) && e is StateError) && *final(self) == *old(self),
            r is Ok ==> {
                let fd = final(self).diffs_of(contract_addr)->0;
                let prev = old(self).prior_diffs(contract_addr);
                let o = old(self).current_or_empty(contract_addr);
                &&& final(self).state_of(contract_addr) is Some
                &&& final(self).state_of(contract_addr)->0@ == o.insert(key@, value@)
                &&& final(self).diffs_of(contract_addr) is Some
                &&& fd.len() == prev.len() + 1
                &&& fd.take(prev.len() as int) == prev
                &&& is_diff(fd.last(), o, o.insert(key@, value@))
                &&& forall|b: Address|
                    b != contract_addr ==> final(self).state_of(b) == old(self).state_of(b)
                        && final(self).diffs_of(b) == old(self).diffs_of(b)
            },
            forall|b: Address| final(self).snapshots_of(b) == old(self).snapshots_of(b),
    {
        let old_state = match self.states.get(&contract_addr) {
            Some(m) => m.duplicate(),
            None => StateMap::new(),
        };
        let ghost o = old_state@;
        assert(o == self.current_or_empty(contract_addr));
        assert(within_caps(old_state));
        if key.len() > MAX_KEY_SIZE {
            return Err(ContractError::StateError("key exceeds the maximum key size".to_owned()));
        }
        if value.len() > MAX_VALUE_SIZE {
            return Err(ContractError::StateError("value exceeds the maximum value size".to_owned()));
        }
        let total = old_state.size();
        let present = match old_state.get(&key) {
            Some(existing) => {
                proof {
                    old_state.lemma_entry_within_size(key@);
                }
                Some(existing.len())
            },
            None => None,
        };
        let after = match present {
            Some(n) => total - (key.len() + n) + key.len() + value.len(),
            None => total + key.len() + value.len(),
        };
        if after > MAX_STATE_SIZE {
            return Err(
                ContractError::StateError("total state size would exceed the maximum".to_owned()),
            );
        }
        if present.is_none() && old_state.len() >= MAX_ENTRIES {
            return Err(ContractError::StateError("maximum number of entries exceeded".to_owned()));
        }
        let mut new_state = old_state.duplicate();
        let ghost k = key@;
        let ghost v = value@;
        let ghost oe = old_state.entries();
        new_state.insert(key, value);
        proof {
            let ne = new_state.entries();
            assert forall|i: int| 0 <= i < ne.len() implies (#[trigger] ne[i]).0.len() <= MAX_KEY_SIZE
                && ne[i].1.len() <= MAX_VALUE_SIZE by {
                if ne[i] != (k, v) {
                    let j = choose|j: int| 0 <= j < oe.len() && oe[j] == ne[i];
                    assert(oe[j].0.len() <= MAX_KEY_SIZE);
                }
            }
        }
        self.track_state_changes(contract_addr, &old_state, &new_state);
        self.states.insert(contract_addr, new_state);
        Ok(())
    }
}

} // verus!
