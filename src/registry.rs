use vstd::prelude::*;
use crate::error::{ContractError, ContractResult};
use crate::table::{addr_eq, Address, AddrTable};
use crate::types::ContractVersion;
use crate::text::{chars_of, contains_chars, contains_ignoring_case, has_substring, lower_of};
use crate::version::{compare_semver, semver_newer, semver_valid};

verus! {

/// A key by which contracts can be looked up.
#[derive(Debug, Clone)]
pub enum RegistryIndex {
    Version(String),
    Author(Address),
    CreationTime(u64),
    UpdateTime(u64),
    Description(String),
}

/// One upgrade of a contract.
#[derive(Debug, Clone)]
pub struct UpgradeHistory {
    pub from_version: String,
    pub to_version: String,
    pub timestamp: u64,
    pub successful: bool,
    pub rollback_performed: bool,
}

/// What the secondary indexes record of one registration.
#[derive(Debug, Clone)]
pub struct IndexRecord {
    pub address: Address,
    pub version: String,
    pub author: Address,
    pub created_at: u64,
    pub updated_at: u64,
}

/// The versions are in strictly increasing semver precedence.
pub open spec fn versions_ordered(s: Seq<ContractVersion>) -> bool {
    forall|i: int|
        0 <= i < s.len() - 1 ==> semver_newer(
            (#[trigger] s[i + 1]).metadata.version@,
            s[i].metadata.version@,
        )
}

/// The record was made under `key`. A description is not indexed.
pub open spec fn record_matches(rec: IndexRecord, key: RegistryIndex) -> bool {
    match key {
        RegistryIndex::Version(v) => rec.version@ == v@,
        RegistryIndex::Author(a) => rec.author == a,
        RegistryIndex::CreationTime(t) => rec.created_at == t,
        RegistryIndex::UpdateTime(t) => rec.updated_at == t,
        RegistryIndex::Description(_) => false,
    }
}

fn record_matches_key(rec: &IndexRecord, key: &RegistryIndex) -> (r: bool)
    ensures
        r == record_matches(*rec, *key),
{
    match key {
        RegistryIndex::Version(v) => rec.version == *v,
        RegistryIndex::Author(a) => addr_eq(&rec.author, a),
        RegistryIndex::CreationTime(t) => rec.created_at == *t,
        RegistryIndex::UpdateTime(t) => rec.updated_at == *t,
        RegistryIndex::Description(_) => false,
    }
}

/// A description matches a query: as a substring, or as a substring once both
/// are lowercased.
pub open spec fn description_matches(text: Seq<char>, query: Seq<char>, ignore_case: bool) -> bool {
    if ignore_case {
        has_substring(lower_of(text), lower_of(query))
    } else {
        has_substring(text, query)
    }
}

/// Version history per contract, with secondary indexes and upgrade records.
pub struct ContractRegistry {
    versions: AddrTable<Vec<ContractVersion>>,
    index: Vec<IndexRecord>,
    upgrade_history: AddrTable<Vec<UpgradeHistory>>,
}

impl ContractRegistry {
    /// The versions of `a`, oldest first, if it is registered.
    pub closed spec fn versions_of(&self, a: Address) -> Option<Seq<ContractVersion>> {
        if self.versions@.contains_key(a) {
            Some(self.versions@[a]@)
        } else {
            None
        }
    }

    /// The upgrade records of `a`, oldest first, if it was ever upgraded.
    pub closed spec fn history_of(&self, a: Address) -> Option<Seq<UpgradeHistory>> {
        if self.upgrade_history@.contains_key(a) {
            Some(self.upgrade_history@[a]@)
        } else {
            None
        }
    }

    /// What the secondary indexes hold: one record per registration, in order.
    pub closed spec fn index_log(&self) -> Seq<IndexRecord> {
        self.index@
    }

    /// The registered contracts.
    pub closed spec fn contracts(&self) -> Set<Address> {
        self.versions@.dom()
    }

    pub closed spec fn wf(&self) -> bool {
        &&& self.versions.wf()
        &&& self.upgrade_history.wf()
        &&& forall|a: Address| #[trigger]
            self.versions@.contains_key(a) ==> self.versions@[a]@.len() > 0 && versions_ordered(
                self.versions@[a]@,
            )
        &&& forall|i: int|
            0 <= i < self.index@.len() ==> self.versions@.contains_key(
                (#[trigger] self.index@[i]).address,
            )
    }

    /// Every history is non-empty, and its versions strictly increase in
    /// semver precedence from each one to the next.
    pub proof fn lemma_version_monotonic(&self, a: Address, i: int)
        requires
            self.wf(),
            self.versions_of(a) is Some,
            0 <= i < self.versions_of(a)->0.len() - 1,
        ensures
            self.versions_of(a)->0.len() > 0,
            semver_newer(
                self.versions_of(a)->0[i + 1].metadata.version@,
                self.versions_of(a)->0[i].metadata.version@,
            ),
    {
    }

    /// A registered contract has at least one version.
    pub proof fn lemma_nonempty(&self, a: Address)
        requires
            self.wf(),
            self.versions_of(a) is Some,
        ensures
            self.versions_of(a)->0.len() > 0,
    {
    }

    /// Every indexed contract is registered.
    pub proof fn lemma_index_registered(&self, i: int)
        requires
            self.wf(),
            0 <= i < self.index_log().len(),
        ensures
            self.versions_of(self.index_log()[i].address) is Some,
            self.versions_of(self.index_log()[i].address)->0.len() > 0,
    {
    }

    /// An empty registry.
    pub fn new() -> (r: Self)
        ensures
            r.wf(),
            r.contracts() == Set::<Address>::empty(),
            r.index_log() == Seq::<IndexRecord>::empty(),
            forall|a: Address| r.versions_of(a) is None && r.history_of(a) is None,
    {
        let r = ContractRegistry {
            versions: AddrTable::new(),
            index: Vec::new(),
            upgrade_history: AddrTable::new(),
        };
        assert(r.contracts() =~= Set::<Address>::empty());
        r
    }

    /// A version labelled `nv` may follow the history of `a`: there is none, or
    /// `nv` is a valid semver newer than the current version, which is
    /// upgradeable.
    pub open spec fn accepts_version(&self, a: Address, nv: Seq<char>) -> bool {
        match self.versions_of(a) {
            None => true,
            Some(vs) => semver_newer(nv, vs.last().metadata.version@)
                && vs.last().metadata.is_upgradeable,
        }
    }

    /// The error kinds with which a version labelled `nv` is refused after the
    /// history of `a`.
    pub open spec fn version_refusals(&self, a: Address, nv: Seq<char>, r: ContractResult<()>) -> bool {
        self.versions_of(a) matches Some(vs) ==> {
            let cur = vs.last();
            let cv = cur.metadata.version@;
            &&& !(semver_valid(nv) && semver_valid(cv)) ==> (r matches Err(e) && e is VersionIncompatible)
            &&& semver_valid(nv) && semver_valid(cv) && !semver_newer(nv, cv) ==> (r matches Err(e)
                && e is VersionConflict)
            &&& semver_newer(nv, cv) && !cur.metadata.is_upgradeable ==> (r matches Err(e)
                && e is UpgradeValidationError)
        }
    }

    /// Whether a version labelled `new_version` may follow the history of
    /// `address`, without changing anything.
    pub fn check_registration(&self, address: &Address, new_version: &str) -> (r: ContractResult<()>)
        requires
            self.wf(),
        ensures
            r is Ok == self.accepts_version(*address, new_version@),
            self.version_refusals(*address, new_version@, r),
    {
        match self.versions.get(address) {
            Some(list) => {
                proof {
                    self.lemma_nonempty(*address);
                }
                let latest = &list[list.len() - 1];
                match compare_semver(new_version, latest.metadata.version.as_str()) {
                    None => {
                        return Err(
                            ContractError::VersionIncompatible("invalid version format".to_owned()),
                        );
                    },
                    Some(c) => {
                        if c <= 0 {
                            return Err(
                                ContractError::VersionConflict(
                                    "new version must be greater than the current version".to_owned(),
                                ),
                            );
                        }
                    },
                }
                if !latest.metadata.is_upgradeable {
                    return Err(
                        ContractError::UpgradeValidationError(
                            "current contract version is not upgradeable".to_owned(),
                        ),
                    );
                }
                Ok(())
            },
            None => Ok(()),
        }
    }

    /// Registers `version` as the newest version of `address`. The bytecode
    /// must be non-empty; a later version must be a valid semver newer than the
    /// current one, and the current one must be upgradeable.
    pub fn register_version(&mut self, address: Address, version: ContractVersion) -> (r:
        ContractResult<()>)
        requires
            old(self).wf(),
        ensures
            final(self).wf(),
            version.bytecode@.len() == 0 ==> (r matches Err(e) && e is BytecodeVerificationError),
            r is Ok <==> version.bytecode@.len() > 0 && old(self).accepts_version(
                address,
                version.metadata.version@,
            ),
            version.bytecode@.len() > 0 ==> old(self).version_refusals(
                address,
                version.metadata.version@,
                r,
            ),
            version.bytecode@.len() > 0 && old(self).versions_of(address) is Some ==> {
                let cur = old(self).versions_of(address)->0.last();
                let nv = version.metadata.version@;
                let cv = cur.metadata.version@;
                &&& !(semver_valid(nv) && semver_valid(cv)) ==> (r matches Err(e)
                    && e is VersionIncompatible)
                &&& semver_valid(nv) && semver_valid(cv) && !semver_newer(nv, cv) ==> (r matches Err(
                    e,
                ) && e is VersionConflict)
                &&& semver_newer(nv, cv) && !cur.metadata.is_upgradeable ==> (r matches Err(e)
                    && e is UpgradeValidationError)
                &&& r is Ok <==> semver_newer(nv, cv) && cur.metadata.is_upgradeable
                &&& r is Ok ==> final(self).history_of(address) is Some && final(self).history_of(
                    address,
                )->0 == match old(self).history_of(address) {
                    Some(h) => h,
                    None => Seq::empty(),
                }.push(
                    UpgradeHistory {
                        from_version: cur.metadata.version,
                        to_version: version.metadata.version,
                        timestamp: version.metadata.updated_at,
                        successful: true,
                        rollback_performed: false,
                    },
                )
            },
            version.bytecode@.len() > 0 && old(self).versions_of(address) is None ==> r is Ok
                && final(self).history_of(address) == old(self).history_of(address),
            r is Err ==> *final(self) == *old(self),
            r is Ok ==> {
                &&& final(self).versions_of(address) == Some(
                    match old(self).versions_of(address) {
                        Some(s) => s,
                        None => Seq::empty(),
                    }.push(version),
                )
                &&& final(self).index_log() == old(self).index_log().push(
                    IndexRecord {
                        address,
                        version: version.metadata.version,
                        author: version.metadata.author,
                        created_at: version.metadata.created_at,
                        updated_at: version.metadata.updated_at,
                    },
                )
                &&& forall|b: Address|
                    b != address ==> final(self).versions_of(b) == old(self).versions_of(b)
                        && final(self).history_of(b) == old(self).history_of(b)
            },
    {
        if version.bytecode.len() == 0 {
            return Err(
                ContractError::BytecodeVerificationError("empty bytecode provided".to_owned()),
            );
        }
        if let Err(e) = self.check_registration(&address, version.metadata.version.as_str()) {
            return Err(e);
        }
        let previous: Option<String> = match self.versions.get(&address) {
            Some(list) => {
                proof {
                    self.lemma_nonempty(address);
                }
                Some(list[list.len() - 1].metadata.version.clone())
            },
            None => None,
        };
        let record = IndexRecord {
            address,
            version: version.metadata.version.clone(),
            author: version.metadata.author,
            created_at: version.metadata.created_at,
            updated_at: version.metadata.updated_at,
        };
        let upgrade = match previous {
            Some(from_version) => Some(
                UpgradeHistory {
                    from_version,
                    to_version: version.metadata.version.clone(),
                    timestamp: version.metadata.updated_at,
                    successful: true,
                    rollback_performed: false,
                },
            ),
            None => None,
        };
        let mut list = match self.versions.remove(&address) {
            Some(l) => l,
            None => Vec::new(),
        };
        let ghost prev = list@;
        list.push(version);
        proof {
            let s = list@;
            assert forall|i: int| 0 <= i < s.len() - 1 implies semver_newer(
                (#[trigger] s[i + 1]).metadata.version@,
                s[i].metadata.version@,
            ) by {
                if i + 1 < prev.len() {
                    assert(s[i + 1] == prev[i + 1] && s[i] == prev[i]);
                }
            }
        }
        self.versions.insert(address, list);
        self.index.push(record);
        match upgrade {
            Some(u) => {
                let mut hist = match self.upgrade_history.remove(&address) {
                    Some(h) => h,
                    None => Vec::new(),
                };
                hist.push(u);
                self.upgrade_history.insert(address, hist);
            },
            None => {},
        }
        proof {
            assert forall|i: int|
                0 <= i < self.index@.len() implies self.versions@.contains_key(
                (#[trigger] self.index@[i]).address,
            ) by {
                if i < old(self).index@.len() {
                    assert(self.index@[i] == old(self).index@[i]);
                }
            }
        }
        Ok(())
    }
    /// The newest version of a registered contract.
    pub open spec fn latest_of(&self, a: Address) -> ContractVersion {
        self.versions_of(a)->0.last()
    }

    /// Every entry pairs a registered contract with its newest version, no
    /// contract comes twice, and exactly the contracts that `pick` selects come.
    pub open spec fn lists_latest(
        &self,
        r: Seq<(Address, &ContractVersion)>,
        pick: spec_fn(Address) -> bool,
    ) -> bool {
        &&& forall|i: int|
            0 <= i < r.len() ==> self.versions_of((#[trigger] r[i]).0) is Some && *r[i].1
                == self.latest_of(r[i].0) && pick(r[i].0)
        &&& forall|i: int, j: int| 0 <= i < j < r.len() ==> r[i].0 != r[j].0
        &&& forall|a: Address|
            self.versions_of(a) is Some && pick(a) ==> exists|i: int|
                0 <= i < r.len() && (#[trigger] r[i]).0 == a
    }

    /// Removes the newest version of `address`, which must have an older one,
    /// and marks its last upgrade as rolled back.
    pub fn rollback_version(&mut self, address: Address) -> (r: ContractResult<()>)
        requires
            old(self).wf(),
        ensures
            final(self).wf(),
            old(self).versions_of(address) is None ==> (r matches Err(e) && e is NotFound),
            old(self).versions_of(address) is Some && old(self).versions_of(address)->0.len() < 2
                ==> (r matches Err(e) && e is StateRollbackFailed),
            r is Ok <==> old(self).versions_of(address) is Some && old(self).versions_of(
                address,
            )->0.len() >= 2,
            r is Err ==> *final(self) == *old(self),
            r is Ok ==> {
                &&& final(self).versions_of(address) == Some(
                    old(self).versions_of(address)->0.drop_last(),
                )
                &&& final(self).index_log() == old(self).index_log()
                &&& match old(self).history_of(address) {
                    Some(h) => h.len() > 0 ==> final(self).history_of(address) == Some(
                        h.drop_last().push(
                            UpgradeHistory {
                                successful: false,
                                rollback_performed: true,
                                ..h.last()
                            },
                        ),
                    ),
                    None => final(self).history_of(address) is None,
                }
                &&& (old(self).history_of(address) matches Some(h) && h.len() == 0)
                    ==> final(self).history_of(address) == old(self).history_of(address)
                &&& forall|b: Address|
                    b != address ==> final(self).versions_of(b) == old(self).versions_of(b)
                        && final(self).history_of(b) == old(self).history_of(b)
            },
    {
        match self.versions.get(&address) {
            None => {
                return Err(ContractError::NotFound("contract not found".to_owned()));
            },
            Some(list) => {
                if list.len() < 2 {
                    return Err(
                        ContractError::StateRollbackFailed(
                            "no previous version available for rollback".to_owned(),
                        ),
                    );
                }
            },
        }
        let mut list = match self.versions.remove(&address) {
            Some(l) => l,
            None => Vec::new(),
        };
        let ghost prev = list@;
        list.pop();
        proof {
            assert(list@ =~= prev.drop_last());
            let s = list@;
            assert forall|i: int| 0 <= i < s.len() - 1 implies semver_newer(
                (#[trigger] s[i + 1]).metadata.version@,
                s[i].metadata.version@,
            ) by {
                assert(s[i + 1] == prev[i + 1] && s[i] == prev[i]);
            }
        }
        self.versions.insert(address, list);
        match self.upgrade_history.remove(&address) {
            Some(mut hist) => {
                let n = hist.len();
                if n > 0 {
                    let last = hist.pop().unwrap();
                    hist.push(
                        UpgradeHistory {
                            from_version: last.from_version,
                            to_version: last.to_version,
                            timestamp: last.timestamp,
                            successful: false,
                            rollback_performed: true,
                        },
                    );
                }
                self.upgrade_history.insert(address, hist);
            },
            None => {},
        }
        Ok(())
    }

    /// All versions of `address`, oldest first.
    pub fn get_contract_versions(&self, address: &Address) -> (r: ContractResult<&Vec<ContractVersion>>)
        requires
            self.wf(),
        ensures
            r is Ok == self.versions_of(*address) is Some,
            r matches Ok(v) ==> v@ == self.versions_of(*address)->0,
            r matches Err(e) ==> e is NotFound,
    {
        match self.versions.get(address) {
            Some(v) => Ok(v),
            None => Err(ContractError::NotFound("contract not found".to_owned())),
        }
    }

    /// The first version of `address` labelled `version`.
    pub fn get_contract_version(&self, address: &Address, version: &str) -> (r: ContractResult<
        &ContractVersion,
    >)
        requires
            self.wf(),
        ensures
            self.versions_of(*address) is None ==> (r matches Err(e) && e is NotFound),
            self.versions_of(*address) matches Some(s) ==> {
                &&& r is Ok == exists|i: int|
                    0 <= i < s.len() && (#[trigger] s[i]).metadata.version@ == version@
                &&& r is Err ==> (r matches Err(e) && e is VersionNotFound)
                &&& r matches Ok(v) ==> exists|i: int|
                    0 <= i < s.len() && s[i] == *v && (forall|j: int|
                        0 <= j < i ==> (#[trigger] s[j]).metadata.version@ != version@)
                        && v.metadata.version@ == version@
            },
    {
        let list = match self.versions.get(address) {
            Some(v) => v,
            None => {
                return Err(ContractError::NotFound("contract not found".to_owned()));
            },
        };
        let wanted = version.to_owned();
        let mut i: usize = 0;
        while i < list.len()
            invariant
                0 <= i <= list@.len(),
                wanted@ == version@,
                self.versions_of(*address) is Some,
                list@ == self.versions_of(*address)->0,
                forall|j: int| 0 <= j < i ==> (#[trigger] list@[j]).metadata.version@ != version@,
            decreases list@.len() - i,
        {
            if list[i].metadata.version == wanted {
                assert(list@[i as int].metadata.version@ == version@);
                return Ok(&list[i]);
            }
            i = i + 1;
        }
        Err(ContractError::VersionNotFound("version not found for contract".to_owned()))
    }

    /// The newest version of `address`.
    pub fn get_latest_version(&self, address: &Address) -> (r: ContractResult<&ContractVersion>)
        requires
            self.wf(),
        ensures
            r is Ok == self.versions_of(*address) is Some,
            r matches Ok(v) ==> *v == self.latest_of(*address),
            r matches Err(e) ==> e is NotFound,
    {
        match self.versions.get(address) {
            Some(v) => Ok(&v[v.len() - 1]),
            None => Err(ContractError::NotFound("contract not found".to_owned())),
        }
    }

    /// The upgrade records of `address`, oldest first.
    pub fn get_upgrade_history(&self, address: &Address) -> (r: ContractResult<&Vec<UpgradeHistory>>)
        requires
            self.wf(),
        ensures
            r is Ok == self.history_of(*address) is Some,
            r matches Ok(v) ==> v@ == self.history_of(*address)->0,
            r matches Err(e) ==> e is NotFound,
    {
        match self.upgrade_history.get(address) {
            Some(v) => Ok(v),
            None => Err(ContractError::NotFound("no upgrade history found for contract".to_owned())),
        }
    }

    /// Each registered contract with its newest version.
    pub fn list_all_contracts(&self) -> (r: Vec<(Address, &ContractVersion)>)
        requires
            self.wf(),
        ensures
            self.lists_latest(r@, |a: Address| true),
    {
        let keys = self.versions.keys();
        let mut out: Vec<(Address, &ContractVersion)> = Vec::new();
        let mut i: usize = 0;
        while i < keys.len()
            invariant
                self.wf(),
                0 <= i <= keys@.len(),
                keys@.no_duplicates(),
                forall|q: Address| self.versions@.contains_key(q) <==> keys@.contains(q),
                out@.len() == i,
                forall|j: int|
                    0 <= j < i ==> (#[trigger] out@[j]).0 == keys@[j] && self.versions_of(
                        out@[j].0,
                    ) is Some && *out@[j].1 == self.latest_of(out@[j].0),
            decreases keys@.len() - i,
        {
            let a = keys[i];
            assert(keys@.contains(a));
            match self.versions.get(&a) {
                Some(list) => {
                    out.push((a, &list[list.len() - 1]));
                },
                None => {},
            }
            i = i + 1;
        }
        proof {
            assert forall|a: Address| self.versions_of(a) is Some implies exists|j: int|
                0 <= j < out@.len() && (#[trigger] out@[j]).0 == a by {
                assert(self.versions@.contains_key(a));
                assert(keys@.contains(a));
                let j = choose|j: int| 0 <= j < keys@.len() && keys@[j] == a;
                assert(out@[j].0 == a);
            }
        }
        out
    }
    #[verifier::rlimit(40)]
    fn select_by_description(&self, query: &str, ignore_case: bool) -> (r: Vec<(Address, &ContractVersion)>)
        requires
            self.wf(),
        ensures
            self.lists_latest(
                r@,
                |a: Address|
                    description_matches(
                        self.latest_of(a).metadata.description@,
                        query@,
                        ignore_case,
                    ),
            ),
    {
        let ghost pick = |a: Address|
            description_matches(self.latest_of(a).metadata.description@, query@, ignore_case);
        let keys = self.versions.keys();
        let query_chars = chars_of(query);
        let mut out: Vec<(Address, &ContractVersion)> = Vec::new();
        let mut i: usize = 0;
        while i < keys.len()
            invariant
                self.wf(),
                query_chars@ == query@,
                pick == (|a: Address|
                    description_matches(self.latest_of(a).metadata.description@, query@, ignore_case)),
                0 <= i <= keys@.len(),
                keys@.no_duplicates(),
                forall|q: Address| self.versions@.contains_key(q) <==> keys@.contains(q),
                forall|j: int|
                    0 <= j < out@.len() ==> self.versions_of((#[trigger] out@[j]).0) is Some
                        && *out@[j].1 == self.latest_of(out@[j].0) && pick(out@[j].0),
                forall|j: int|
                    0 <= j < out@.len() ==> exists|k: int|
                        0 <= k < i && keys@[k] == (#[trigger] out@[j]).0,
                forall|a: int, b: int| 0 <= a < b < out@.len() ==> out@[a].0 != out@[b].0,
                forall|k: int|
                    0 <= k < i && pick(keys@[k]) ==> exists|j: int|
                        0 <= j < out@.len() && (#[trigger] out@[j]).0 == keys@[k],
            decreases keys@.len() - i,
        {
            let a = keys[i];
            assert(keys@.contains(a));
            let list = self.versions.get(&a).unwrap();
            let latest = &list[list.len() - 1];
            assert(*latest == self.latest_of(a));
            let hit = if ignore_case {
                contains_ignoring_case(latest.metadata.description.as_str(), query)
            } else {
                contains_chars(&chars_of(latest.metadata.description.as_str()), &query_chars)
            };
            assert(hit == pick(a));
            let ghost out0 = out@;
            if hit {
                out.push((a, latest));
                proof {
                    assert forall|j: int| 0 <= j < out0.len() implies out0[j].0 != a by {
                        let k = choose|k: int| 0 <= k < i && keys@[k] == (#[trigger] out0[j]).0;
                        assert(keys@[k] != keys@[i as int]);
                    }
                    assert(out@[out0.len() as int].0 == a);
                    assert forall|j: int| 0 <= j < out@.len() implies self.versions_of((#[trigger] out@[j]).0) is Some
                        && *out@[j].1 == self.latest_of(out@[j].0) && pick(out@[j].0) by {
                        if j < out0.len() {
                            assert(out@[j] == out0[j]);
                        }
                    }
                }
            }
            proof {
                assert forall|j: int| 0 <= j < out@.len() implies exists|k: int|
                    0 <= k < i + 1 && keys@[k] == (#[trigger] out@[j]).0 by {
                    if j < out0.len() {
                        assert(out@[j] == out0[j]);
                        let k = choose|k: int| 0 <= k < i && keys@[k] == (#[trigger] out0[j]).0;
                    } else {
                        assert(keys@[i as int] == out@[j].0);
                    }
                }
                assert forall|k: int|
                    0 <= k < i + 1 && pick(keys@[k]) implies exists|j: int|
                        0 <= j < out@.len() && (#[trigger] out@[j]).0 == keys@[k] by {
                    if k < i {
                        let j = choose|j: int| 0 <= j < out0.len() && (#[trigger] out0[j]).0 == keys@[k];
                        assert(out@[j] == out0[j]);
                    } else {
                        assert(hit);
                        assert(out@[out0.len() as int].0 == keys@[k]);
                    }
                }
            }
            i = i + 1;
        }
        proof {
            assert forall|a: Address| self.versions_of(a) is Some && pick(a) implies exists|j: int|
                0 <= j < out@.len() && (#[trigger] out@[j]).0 == a by {
                assert(self.versions@.contains_key(a));
                assert(keys@.contains(a));
                let k = choose|k: int| 0 <= k < keys@.len() && keys@[k] == a;
            }
        }
        out
    }

    /// Contracts whose newest version's description contains `description`,
    /// ignoring case.
    pub fn search_by_description(&self, description: &str) -> (r: Vec<(Address, &ContractVersion)>)
        requires
            self.wf(),
        ensures
            self.lists_latest(
                r@,
                |a: Address|
                    has_substring(
                        lower_of(self.latest_of(a).metadata.description@),
                        lower_of(description@),
                    ),
            ),
    {
        self.select_by_description(description, true)
    }

    /// Contracts found under an index key, each with its newest version: one
    /// entry per matching registration, in order of registration. A
    /// description key instead selects the contracts whose newest description
    /// contains it.
    pub fn find_by_index(&self, index: RegistryIndex) -> (r: ContractResult<Vec<(Address, &ContractVersion)>>)
        requires
            self.wf(),
        ensures
            index matches RegistryIndex::Description(d) ==> (r matches Ok(v) && self.lists_latest(
                v@,
                |a: Address| has_substring(self.latest_of(a).metadata.description@, d@),
            )),
            !(index is Description) ==> {
                let hits = self.index_log().filter(|rec: IndexRecord| record_matches(rec, index));
                &&& hits.len() == 0 ==> (index is Version ==> (r matches Err(e) && e is VersionNotFound))
                    && (!(index is Version) ==> (r matches Err(e) && e is NotFound))
                &&& hits.len() > 0 ==> (r matches Ok(v) && v@.len() == hits.len() && forall|i: int|
                    0 <= i < hits.len() ==> (#[trigger] v@[i]).0 == hits[i].address && self.versions_of(
                        hits[i].address,
                    ) is Some && *v@[i].1 == self.latest_of(hits[i].address))
            },
    {
        match &index {
            RegistryIndex::Description(d) => {
                return Ok(self.select_by_description(d.as_str(), false));
            },
            _ => {},
        }
        let ghost pred = |rec: IndexRecord| record_matches(rec, index);
        let mut out: Vec<(Address, &ContractVersion)> = Vec::new();
        let mut i: usize = 0;
        assert(self.index@.take(0) =~= Seq::<IndexRecord>::empty());
        while i < self.index.len()
            invariant
                self.wf(),
                0 <= i <= self.index@.len(),
                pred == (|rec: IndexRecord| record_matches(rec, index)),
                out@.len() == self.index@.take(i as int).filter(pred).len(),
                forall|j: int|
                    0 <= j < out@.len() ==> (#[trigger] out@[j]).0 == self.index@.take(i as int).filter(
                        pred,
                    )[j].address && self.versions_of(out@[j].0) is Some && *out@[j].1
                        == self.latest_of(out@[j].0),
            decreases self.index@.len() - i,
        {
            let rec = &self.index[i];
            let ghost before = self.index@.take(i as int);
            proof {
                assert(self.index@.take(i + 1) =~= before.push(self.index@[i as int]));
                before.lemma_filter_push(self.index@[i as int], pred);
            }
            if record_matches_key(rec, &index) {
                proof {
                    self.lemma_index_registered(i as int);
                }
                match self.versions.get(&rec.address) {
                    Some(list) => {
                        out.push((rec.address, &list[list.len() - 1]));
                    },
                    None => {},
                }
            }
            proof {
                let after = self.index@.take(i + 1).filter(pred);
                assert forall|j: int| 0 <= j < out@.len() implies (#[trigger] out@[j]).0 == after[j].address
                    && self.versions_of(out@[j].0) is Some && *out@[j].1 == self.latest_of(out@[j].0) by {
                    if j < before.filter(pred).len() {
                        assert(after[j] == before.filter(pred)[j]);
                    }
                }
            }
            i = i + 1;
        }
        assert(self.index@.take(i as int) =~= self.index@);
        if out.len() == 0 {
            return match index {
                RegistryIndex::Version(_) => Err(
                    ContractError::VersionNotFound("no contracts found for version".to_owned()),
                ),
                _ => Err(ContractError::NotFound("no contracts found for index key".to_owned())),
            };
        }
        Ok(out)
    }
}

} // verus!
