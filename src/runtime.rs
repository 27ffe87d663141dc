use vstd::prelude::*;
use crate::access::{grant_spec, model_has_role, model_role_admin, AccessControl, AccessModel, DEFAULT_ADMIN_ROLE};
use crate::bytes::copy_bytes;
use crate::error::{ContractError, ContractResult};
use crate::msg::CallerContext;
use crate::registry::ContractRegistry;
use crate::version::semver_newer;
use crate::state::{first_at, StateDiff, StateManager, StateSnapshot};
use crate::statemap::StateMap;
use crate::table::Address;
use crate::tracker::{live_only, OperationTracker};
use crate::types::{
    abi_has_method, same_abi, ContractABI, ContractMetadata, ContractVersion, OperationType, ResourceLimits,
};

verus! {

/// Role that may deploy contracts.
pub const DEPLOYER_ROLE: Address = [
    1, 1, 1, 1, 1, 1, 1, 1, 1, 1, 1, 1, 1, 1, 1, 1, 1, 1, 1, 1, 1, 1, 1, 1, 1, 1, 1, 1, 1, 1, 1, 1,
];

/// Role that may execute contracts.
pub const EXECUTOR_ROLE: Address = [
    2, 2, 2, 2, 2, 2, 2, 2, 2, 2, 2, 2, 2, 2, 2, 2, 2, 2, 2, 2, 2, 2, 2, 2, 2, 2, 2, 2, 2, 2, 2, 2,
];

/// Role that may upgrade and roll back contracts.
pub const UPGRADER_ROLE: Address = [
    3, 3, 3, 3, 3, 3, 3, 3, 3, 3, 3, 3, 3, 3, 3, 3, 3, 3, 3, 3, 3, 3, 3, 3, 3, 3, 3, 3, 3, 3, 3, 3,
];

/// Most upgrades of one contract within a day.
pub const MAX_UPGRADES_PER_DAY: usize = 5;

/// Fewest seconds between two upgrades of one contract.
pub const MIN_UPGRADE_INTERVAL: u64 = 3600;

/// Seconds in a day.
pub const SECONDS_PER_DAY: u64 = 86400;

/// Largest bytecode: 2 MiB.
pub const MAX_UPGRADE_SIZE: usize = 2097152;

/// A value passed to or returned from a contract method.
#[derive(Debug, Clone, Copy, PartialEq, Eq, Structural)]
pub enum Value {
    I32(i32),
    I64(i64),
}

/// What the host passes to one execution.
#[derive(Debug, Clone, Copy)]
pub struct ContractEnvironment {
    pub gas_limit: u64,
    pub block_number: u64,
    pub timestamp: u64,
    pub caller: Address,
    pub resource_limits: ResourceLimits,
}

/// Seconds since `t`, zero when `t` is later than `now`.
pub open spec fn seconds_since(now: u64, t: u64) -> int {
    if now >= t {
        now - t
    } else {
        0
    }
}

/// How many versions were created less than a day before `now`.
pub open spec fn created_within_day(s: Seq<ContractVersion>, now: u64) -> nat
    decreases s.len(),
{
    if s.len() == 0 {
        0
    } else {
        created_within_day(s.drop_last(), now) + if seconds_since(now, s.last().metadata.created_at)
            < SECONDS_PER_DAY {
            1nat
        } else {
            0nat
        }
    }
}

/// An upgrade at `now` keeps the rate limits: at least an hour since the
/// newest version was updated, and fewer than five versions created within
/// the last day.
pub open spec fn upgrade_allowed(s: Seq<ContractVersion>, now: u64) -> bool {
    s.len() == 0 || (seconds_since(now, s.last().metadata.updated_at) >= MIN_UPGRADE_INTERVAL
        && created_within_day(s, now) < MAX_UPGRADES_PER_DAY)
}

/// An upgrade that the rate limits admit at `now`, whose version is stamped
/// `now`, comes at least an hour after the previous version's update, and at
/// most five versions were then created within the last day.
pub proof fn lemma_upgrade_rate(vs: Seq<ContractVersion>, new_version: ContractVersion, now: u64)
    requires
        vs.len() > 0,
        upgrade_allowed(vs, now),
        new_version.metadata.updated_at == now,
    ensures
        new_version.metadata.updated_at - vs.last().metadata.updated_at >= MIN_UPGRADE_INTERVAL,
        created_within_day(vs.push(new_version), now) <= MAX_UPGRADES_PER_DAY,
{
    assert(vs.push(new_version).drop_last() =~= vs);
}

/// Bytecode that the runtime accepts: non-empty and at most 2 MiB.
pub open spec fn bytecode_ok(b: Seq<u8>) -> bool {
    0 < b.len() <= MAX_UPGRADE_SIZE
}

/// The key under which a deployed contract's state records its initialization.
pub open spec fn initialized_key() -> Seq<u8> {
    seq![95u8, 105, 110, 105, 116, 105, 97, 108, 105, 122, 101, 100]
}

/// The bytes of `_initialized`.
fn initialized_key_bytes() -> (r: Vec<u8>)
    ensures
        r@ == initialized_key(),
{
    let r = vec![95u8, 105, 110, 105, 116, 105, 97, 108, 105, 122, 101, 100];
    assert(r@ =~= initialized_key());
    r
}

/// Accepts bytecode that is non-empty and at most 2 MiB.
pub fn verify_bytecode(bytecode: &Vec<u8>) -> (r: ContractResult<()>)
    ensures
        r is Ok == bytecode_ok(bytecode@),
        r matches Err(e) ==> e is BytecodeVerificationError,
{
    if bytecode.len() == 0 {
        return Err(ContractError::BytecodeVerificationError("empty bytecode provided".to_owned()));
    }
    if bytecode.len() > MAX_UPGRADE_SIZE {
        return Err(
            ContractError::BytecodeVerificationError(
                "bytecode size exceeds the maximum of 2 MiB".to_owned(),
            ),
        );
    }
    Ok(())
}

/// How many of the versions were created less than a day before `now`.
pub fn count_created_within_day(versions: &Vec<ContractVersion>, now: u64) -> (r: usize)
    ensures
        r == created_within_day(versions@, now),
{
    let ghost s = versions@;
    let mut n: usize = 0;
    let mut i: usize = 0;
    while i < versions.len()
        invariant
            s == versions@,
            0 <= i <= s.len(),
            n == created_within_day(s.take(i as int), now),
            n <= i,
        decreases s.len() - i,
    {
        assert(s.take(i + 1).drop_last() =~= s.take(i as int));
        let created = versions[i].metadata.created_at;
        let recent = if now >= created {
            now - created < SECONDS_PER_DAY
        } else {
            true
        };
        if recent {
            n = n + 1;
        }
        i = i + 1;
    }
    assert(s.take(i as int) =~= s);
    n
}

/// Whether an upgrade at `now` keeps the rate limits of the history `versions`.
pub fn check_upgrade_rate(versions: &Vec<ContractVersion>, now: u64) -> (r: ContractResult<()>)
    ensures
        r is Ok == upgrade_allowed(versions@, now),
        r matches Err(e) ==> e is UpgradeLimitExceeded,
{
    if versions.len() == 0 {
        return Ok(());
    }
    let updated = versions[versions.len() - 1].metadata.updated_at;
    let since = if now >= updated {
        now - updated
    } else {
        0
    };
    if since < MIN_UPGRADE_INTERVAL {
        return Err(
            ContractError::UpgradeLimitExceeded(
                "an hour must pass between upgrades".to_owned(),
            ),
        );
    }
    if count_created_within_day(versions, now) >= MAX_UPGRADES_PER_DAY {
        return Err(
            ContractError::UpgradeLimitExceeded(
                "at most five upgrades are allowed per day".to_owned(),
            ),
        );
    }
    Ok(())
}

/// The built-in `add` method: two 32-bit arguments, wrapping sum.
pub open spec fn is_add(m: Seq<char>) -> bool {
    m == seq!['a', 'd', 'd']
}

/// The built-in `loop_test` method: one 32-bit iteration count, 100 gas each.
pub open spec fn is_loop_test(m: Seq<char>) -> bool {
    m == seq!['l', 'o', 'o', 'p', '_', 't', 'e', 's', 't']
}

/// What the built-in methods return for `args` under `gas_limit`.
pub open spec fn builtin_result(m: Seq<char>, args: Seq<Value>, gas_limit: u64) -> Option<Seq<Value>> {
    if is_add(m) {
        if args.len() == 2 && args[0] is I32 && args[1] is I32 {
            Some(seq![Value::I32(args[0]->I32_0.wrapping_add(args[1]->I32_0))])
        } else {
            None
        }
    } else if is_loop_test(m) {
        if args.len() == 1 && args[0] is I32 && args[0]->I32_0 * 100 <= gas_limit {
            Some(Seq::empty())
        } else {
            None
        }
    } else {
        None
    }
}

/// The detail of the error for exhausted gas.
pub open spec fn gas_exceeded_message() -> Seq<char> {
    seq!['G', 'a', 's', ' ', 'l', 'i', 'm', 'i', 't', ' ', 'e', 'x', 'c', 'e', 'e', 'd', 'e', 'd']
}

/// `r` is what the built-in method `m` gives for `args` under `gas_limit`:
/// the result of `builtin_result` when there is one, else an error of the
/// kind that explains why.
pub open spec fn dispatch_matches(
    m: Seq<char>,
    args: Seq<Value>,
    gas_limit: u64,
    r: ContractResult<Vec<Value>>,
) -> bool {
    &&& r is Ok == builtin_result(m, args, gas_limit) is Some
    &&& r matches Ok(v) ==> v@ == builtin_result(m, args, gas_limit)->0
    &&& !is_add(m) && !is_loop_test(m) ==> (r matches Err(e) && e is NotImplemented)
    &&& is_add(m) && r is Err ==> (r matches Err(e) && e is InvalidArguments)
    &&& is_loop_test(m) && r is Err ==> (r matches Err(e) && (e is InvalidArguments || e is ExecutionError))
    &&& is_loop_test(m) && args.len() == 1 && args[0] is I32 && args[0]->I32_0 * 100 > gas_limit ==> (
    r matches Err(ContractError::ExecutionError(d)) && d@ == gas_exceeded_message())
}

/// A version labelled `v` is in the history.
pub open spec fn has_label(vs: Seq<ContractVersion>, v: Seq<char>) -> bool {
    exists|i: int| 0 <= i < vs.len() && (#[trigger] vs[i]).metadata.version@ == v
}

/// The label asked for, if any.
pub open spec fn label_of(version: Option<&str>) -> Option<Seq<char>> {
    match version {
        Some(v) => Some(v@),
        None => None,
    }
}

/// `i` is the version that an execution selects: the first labelled as asked,
/// else the newest.
pub open spec fn selects(vs: Seq<ContractVersion>, label: Option<Seq<char>>, i: int) -> bool {
    &&& 0 <= i < vs.len()
    &&& match label {
        None => i == vs.len() - 1,
        Some(v) => vs[i].metadata.version@ == v && forall|j: int|
            0 <= j < i ==> (#[trigger] vs[j]).metadata.version@ != v,
    }
}

/// Runs a built-in test method. `add` returns the wrapping sum of two 32-bit
/// values; `loop_test` charges 100 gas per iteration and fails with a gas
/// error past `gas_limit`. Any other method is not implemented.
pub fn dispatch_builtin(method: &str, args: &Vec<Value>, gas_limit: u64) -> (r: ContractResult<Vec<Value>>)
    ensures
        dispatch_matches(method@, args@, gas_limit, r),
{
    let name = method.to_owned();
    let add = "add".to_owned();
    let loop_test = "loop_test".to_owned();
    proof {
        reveal_strlit("add");
        reveal_strlit("loop_test");
        assert(add@ =~= seq!['a', 'd', 'd']);
        assert(loop_test@ =~= seq!['l', 'o', 'o', 'p', '_', 't', 'e', 's', 't']);
    }
    if name == add {
        if args.len() != 2 {
            return Err(
                ContractError::InvalidArguments("add takes exactly two arguments".to_owned()),
            );
        }
        match (args[0], args[1]) {
            (Value::I32(a), Value::I32(b)) => {
                let out = vec![Value::I32(a.wrapping_add(b))];
                assert(out@ =~= seq![Value::I32(a.wrapping_add(b))]);
                Ok(out)
            },
            _ => Err(ContractError::InvalidArguments("add takes two i32 arguments".to_owned())),
        }
    } else if name == loop_test {
        if args.len() != 1 {
            return Err(
                ContractError::InvalidArguments("loop_test takes exactly one argument".to_owned()),
            );
        }
        match args[0] {
            Value::I32(n) => {
                let required: i128 = (n as i128) * 100;
                if required > gas_limit as i128 {
                    let msg = "Gas limit exceeded".to_owned();
                    proof {
                        reveal_strlit("Gas limit exceeded");
                        assert(msg@ =~= gas_exceeded_message());
                    }
                    Err(ContractError::ExecutionError(msg))
                } else {
                    let out: Vec<Value> = Vec::new();
                    assert(out@ =~= Seq::<Value>::empty());
                    Ok(out)
                }
            },
            _ => Err(ContractError::InvalidArguments("loop_test takes an i32 argument".to_owned())),
        }
    } else {
        Err(ContractError::NotImplemented("method not implemented".to_owned()))
    }
}

/// The runtime: access control, registry, state and admission control,
/// composed under one exclusive owner.
pub struct ContractRuntime {
    access_control: AccessControl,
    registry: ContractRegistry,
    state_manager: StateManager,
    operation_tracker: OperationTracker,
}

impl ContractRuntime {
    pub closed spec fn access(&self) -> AccessModel {
        self.access_control@
    }

    pub closed spec fn registry(&self) -> ContractRegistry {
        self.registry
    }

    pub closed spec fn states(&self) -> StateManager {
        self.state_manager
    }

    pub closed spec fn tracker(&self) -> OperationTracker {
        self.operation_tracker
    }

    pub closed spec fn wf(&self) -> bool {
        &&& self.access_control.wf()
        &&& self.registry.wf()
        &&& self.state_manager.wf()
        &&& self.operation_tracker.wf()
    }

    /// Between operations every component keeps its invariant: versions in
    /// semver order, snapshots intact and states within the size caps, and
    /// the admission bound.
    pub proof fn lemma_invariants(&self)
        requires
            self.wf(),
        ensures
            self.registry().wf(),
            self.states().wf(),
            self.tracker().wf(),
            self.tracker().within_bounds(),
            model_role_admin(self.access(), DEFAULT_ADMIN_ROLE) == DEFAULT_ADMIN_ROLE,
    {
        self.operation_tracker.lemma_admission_bound();
        self.access_control.lemma_default_admin();
    }

    /// A runtime with no roles granted, no contracts and no operations.
    pub fn new() -> (r: Self)
        ensures
            r.wf(),
            r.access().0 == Set::<(Address, Address)>::empty(),
            r.access().1 == Map::<Address, Address>::empty().insert(
                DEFAULT_ADMIN_ROLE,
                DEFAULT_ADMIN_ROLE,
            ),
            forall|a: Address|
                r.registry().versions_of(a) is None && r.states().state_of(a) is None
                    && r.states().snapshots_of(a) is None && r.states().diffs_of(a) is None,
            r.tracker().active().len() == 0,
            r.tracker().history().len() == 0,
            r.tracker().clock() == 0,
    {
        ContractRuntime {
            access_control: AccessControl::new(),
            registry: ContractRegistry::new(),
            state_manager: StateManager::new(),
            operation_tracker: OperationTracker::new(),
        }
    }

    /// Grants `role` to `account` on behalf of the caller in `ctx`.
    pub fn grant_role(&mut self, role: Address, account: Address, ctx: &CallerContext) -> (r:
        ContractResult<bool>)
        requires
            old(self).wf(),
        ensures
            final(self).wf(),
            ctx.caller() is None ==> (r matches Err(e) && e is ExecutionError) && final(self).access()
                == old(self).access(),
            ctx.caller() matches Some(s) ==> {
                let (m, o) = grant_spec(old(self).access(), role, account, s);
                &&& final(self).access() == m
                &&& o is None ==> (r matches Err(e) && e is AccessDenied)
                &&& o matches Some(b) ==> r == Ok::<bool, ContractError>(b)
            },
            final(self).registry() == old(self).registry(),
            final(self).states() == old(self).states(),
            final(self).tracker() == old(self).tracker(),
    {
        self.access_control.grant_role(role, account, ctx)
    }

    /// Revokes `role` from `account` on behalf of the caller in `ctx`.
    pub fn revoke_role(&mut self, role: Address, account: Address, ctx: &CallerContext) -> (r:
        ContractResult<bool>)
        requires
            old(self).wf(),
        ensures
            final(self).wf(),
            ctx.caller() is None ==> (r matches Err(e) && e is ExecutionError) && final(self).access()
                == old(self).access(),
            ctx.caller() matches Some(s) ==> {
                let (m, o) = crate::access::revoke_spec(old(self).access(), role, account, s);
                &&& final(self).access() == m
                &&& o is None ==> (r matches Err(e) && e is AccessDenied)
                &&& o matches Some(b) ==> r == Ok::<bool, ContractError>(b)
            },
            final(self).registry() == old(self).registry(),
            final(self).states() == old(self).states(),
            final(self).tracker() == old(self).tracker(),
    {
        self.access_control.revoke_role(role, account, ctx)
    }

    /// `account` holds `role`.
    pub fn has_role(&self, role: Address, account: &Address) -> (r: bool)
        ensures
            r == model_has_role(self.access(), role, *account),
    {
        self.access_control.has_role(role, account)
    }

    /// `addr` is registered.
    pub fn contract_exists(&self, addr: &Address) -> (r: bool)
        requires
            self.wf(),
        ensures
            r == self.registry().versions_of(*addr) is Some,
    {
        self.registry.get_contract_versions(addr).is_ok()
    }

    /// All versions of `addr`, oldest first.
    pub fn get_contract_versions(&self, addr: &Address) -> (r: ContractResult<&Vec<ContractVersion>>)
        requires
            self.wf(),
        ensures
            r is Ok == self.registry().versions_of(*addr) is Some,
            r matches Ok(v) ==> v@ == self.registry().versions_of(*addr)->0,
            r matches Err(e) ==> e is NotFound,
    {
        self.registry.get_contract_versions(addr)
    }

    /// The first version of `addr` labelled `version`.
    pub fn get_contract_version(&self, addr: &Address, version: &str) -> (r: ContractResult<
        &ContractVersion,
    >)
        requires
            self.wf(),
        ensures
            self.registry().versions_of(*addr) is None ==> (r matches Err(e) && e is NotFound),
            self.registry().versions_of(*addr) matches Some(s) ==> {
                &&& r is Ok == exists|i: int|
                    0 <= i < s.len() && (#[trigger] s[i]).metadata.version@ == version@
                &&& r is Err ==> (r matches Err(e) && e is VersionNotFound)
                &&& r matches Ok(v) ==> v.metadata.version@ == version@ && s.contains(*v)
            },
    {
        self.registry.get_contract_version(addr, version)
    }

    /// The newest version of `addr`.
    pub fn get_latest_version(&self, addr: &Address) -> (r: ContractResult<&ContractVersion>)
        requires
            self.wf(),
        ensures
            r is Ok == self.registry().versions_of(*addr) is Some,
            r matches Ok(v) ==> *v == self.registry().latest_of(*addr),
            r matches Err(e) ==> e is NotFound,
    {
        self.registry.get_latest_version(addr)
    }

    /// Each registered contract with its newest version.
    pub fn list_all_contracts(&self) -> (r: Vec<(Address, &ContractVersion)>)
        requires
            self.wf(),
        ensures
            self.registry().lists_latest(r@, |a: Address| true),
    {
        self.registry.list_all_contracts()
    }

    /// Contracts whose newest description contains `description`, ignoring case.
    pub fn search_by_description(&self, description: &str) -> (r: Vec<(Address, &ContractVersion)>)
        requires
            self.wf(),
        ensures
            self.registry().lists_latest(
                r@,
                |a: Address|
                    crate::text::has_substring(
                        crate::text::lower_of(self.registry().latest_of(a).metadata.description@),
                        crate::text::lower_of(description@),
                    ),
            ),
    {
        self.registry.search_by_description(description)
    }

    /// The current state of `addr`.
    pub fn get_contract_state(&self, addr: &Address) -> (r: Option<&StateMap>)
        requires
            self.wf(),
        ensures
            r is Some == self.states().state_of(*addr) is Some,
            r matches Some(m) ==> *m == self.states().state_of(*addr)->0,
    {
        self.state_manager.get_state(addr)
    }

    /// The diffs recorded for `addr`, oldest first.
    pub fn get_state_diffs(&self, addr: &Address) -> (r: Option<&Vec<StateDiff>>)
        requires
            self.wf(),
        ensures
            r is Some == self.states().diffs_of(*addr) is Some,
            r matches Some(v) ==> v@ == self.states().diffs_of(*addr)->0,
    {
        self.state_manager.get_state_diffs(addr)
    }

    /// The snapshots of `addr`, oldest first.
    pub fn get_state_snapshots(&self, addr: &Address) -> (r: Option<&Vec<StateSnapshot>>)
        requires
            self.wf(),
        ensures
            r is Some == self.states().snapshots_of(*addr) is Some,
            r matches Some(v) ==> v@ == self.states().snapshots_of(*addr)->0,
    {
        self.state_manager.get_snapshots(addr)
    }

    /// The number of active operations.
    pub fn get_active_operations(&self) -> (r: usize)
        ensures
            r == self.tracker().active().len(),
    {
        self.operation_tracker.active_operation_count()
    }

    /// The number of operations started less than a second before `now_ms`.
    pub fn get_operations_per_second(&self, now_ms: u64) -> (r: usize)
        ensures
            r == crate::tracker::recent_count(self.tracker().history(), now_ms),
    {
        self.operation_tracker.operations_per_second(now_ms)
    }
    /// The admission time that the tracker uses for a call at `now_ms`.
    pub open spec fn admit_time(&self, now_ms: u64) -> u64 {
        if now_ms < self.tracker().clock() {
            self.tracker().clock()
        } else {
            now_ms
        }
    }

    /// Admission at `now_ms` succeeds for an operation on `addr`.
    pub open spec fn admits(&self, addr: Address, now_ms: u64) -> bool {
        let t = self.admit_time(now_ms);
        let reaped = live_only(self.tracker().active(), t);
        &&& reaped.len() < crate::tracker::MAX_CONCURRENT_OPERATIONS
        &&& crate::tracker::recent_count(crate::tracker::pruned(self.tracker().history(), t), t)
            < crate::tracker::MAX_OPERATIONS_PER_SECOND
        &&& crate::tracker::count_for(reaped, addr) < crate::tracker::MAX_OPERATIONS_PER_CONTRACT
    }

    /// After an operation, the active operations are those that were live at
    /// its admission: its own slot was released.
    pub open spec fn released(&self, before: &Self, now_ms: u64) -> bool {
        let reaped = live_only(before.tracker().active(), before.admit_time(now_ms));
        &&& self.tracker().active().len() == reaped.len()
        &&& forall|a: Address|
            crate::tracker::count_for(self.tracker().active(), a) == crate::tracker::count_for(
                reaped,
                a,
            )
    }

    proof fn lemma_release(&self, before: &Self, mid: &Self, addr: Address, op: OperationType, now_ms: u64)
        requires
            mid.tracker().active() == live_only(before.tracker().active(), before.admit_time(now_ms)).push(
                crate::tracker::OperationMetrics {
                    operation_type: op,
                    start_time: before.admit_time(now_ms),
                    contract_addr: addr,
                },
            ),
            crate::tracker::has_match(mid.tracker().active(), addr, op) ==> exists|i: int|
                crate::tracker::is_first_match(mid.tracker().active(), addr, op, i)
                    && self.tracker().active() == mid.tracker().active().remove(i),
        ensures
            self.released(before, now_ms),
    {
        let s = mid.tracker().active();
        let n = s.len() - 1;
        assert(s[n].contract_addr == addr && s[n].operation_type == op);
        assert(crate::tracker::has_match(s, addr, op));
        let i = choose|i: int|
            crate::tracker::is_first_match(s, addr, op, i) && self.tracker().active() == s.remove(i);
        let reaped = live_only(before.tracker().active(), before.admit_time(now_ms));
        assert(s.drop_last() =~= reaped);
        assert forall|a: Address|
            crate::tracker::count_for(self.tracker().active(), a) == crate::tracker::count_for(
                reaped,
                a,
            ) by {
            crate::tracker::lemma_count_remove(s, i, a);
        }
    }

    /// Admission was refused: expired operations were reaped and nothing
    /// else changed.
    pub open spec fn refused(&self, before: &Self, now_ms: u64) -> bool {
        let t = before.admit_time(now_ms);
        &&& self.tracker().active() == live_only(before.tracker().active(), t)
        &&& self.tracker().history() == crate::tracker::pruned(before.tracker().history(), t)
        &&& self.tracker().clock() == before.tracker().clock()
        &&& self.access() == before.access()
        &&& self.registry() == before.registry()
        &&& self.states() == before.states()
    }

    /// Nothing of any address but `addr` changed.
    pub open spec fn others_unchanged(&self, before: &Self, addr: Address) -> bool {
        forall|b: Address|
            b != addr ==> {
                &&& self.registry().versions_of(b) == before.registry().versions_of(b)
                &&& self.registry().history_of(b) == before.registry().history_of(b)
                &&& self.states().state_of(b) == before.states().state_of(b)
                &&& self.states().snapshots_of(b) == before.states().snapshots_of(b)
                &&& self.states().diffs_of(b) == before.states().diffs_of(b)
            }
    }

    /// `addr` is registered and has state.
    pub open spec fn is_live_contract(&self, addr: Address) -> bool {
        self.registry().versions_of(addr) is Some && self.states().state_of(addr) is Some
    }

    /// Fails with `NotFound` unless `addr` is registered, and with
    /// `StateValidationError` unless it has state.
    fn validate_contract_state(&self, contract_addr: &Address) -> (r: ContractResult<()>)
        requires
            self.wf(),
        ensures
            r is Ok == self.is_live_contract(*contract_addr),
            self.registry().versions_of(*contract_addr) is None ==> (r matches Err(e) && e is NotFound),
            self.registry().versions_of(*contract_addr) is Some && self.states().state_of(
                *contract_addr,
            ) is None ==> (r matches Err(e) && e is StateValidationError),
    {
        if !self.contract_exists(contract_addr) {
            return Err(ContractError::NotFound("Contract not found".to_owned()));
        }
        if self.state_manager.get_state(contract_addr).is_none() {
            return Err(ContractError::StateValidationError("contract state not found".to_owned()));
        }
        Ok(())
    }

    /// What a deployment does, from `before` to `self`, with result `r`.
    pub open spec fn deploy_outcome(
        &self,
        before: &Self,
        bytecode: Seq<u8>,
        addr: Address,
        abi: ContractABI,
        metadata: ContractMetadata,
        caller: Option<Address>,
        now_secs: u64,
        r: ContractResult<()>,
    ) -> bool {
        let role = caller is Some && model_has_role(before.access(), DEPLOYER_ROLE, caller->0);
        let nv = metadata.version@;
        let accepts = before.registry().accepts_version(addr, nv);
        let init_ok = before.states().update_allowed(addr, initialized_key(), seq![1u8]);
        &&& self.access() == before.access()
        &&& caller is None ==> (r matches Err(e) && e is ExecutionError)
        &&& caller is Some && !role ==> (r matches Err(e) && e is AccessDenied)
        &&& role && !bytecode_ok(bytecode) ==> (r matches Err(e) && e is BytecodeVerificationError)
        &&& role && bytecode_ok(bytecode) ==> before.registry().version_refusals(addr, nv, r)
        &&& role && bytecode_ok(bytecode) && accepts && !init_ok ==> (r matches Err(e)
            && e is StateError)
        &&& r is Ok <==> role && bytecode_ok(bytecode) && accepts && init_ok
        &&& r is Err ==> self.registry() == before.registry() && self.states() == before.states()
        &&& r is Ok ==> {
            let vs = self.registry().versions_of(addr)->0;
            let prev = match before.registry().versions_of(addr) {
                Some(p) => p,
                None => Seq::empty(),
            };
            let snaps = self.states().snapshots_of(addr)->0;
            let prev_snaps = before.states().prior_snapshots(addr);
            let st = self.states().state_of(addr)->0;
            &&& self.registry().versions_of(addr) is Some
            &&& vs.len() == prev.len() + 1
            &&& vs.take(prev.len() as int) == prev
            &&& vs.last().bytecode@ == bytecode
            &&& vs.last().metadata == metadata
            &&& same_abi(vs.last().abi, abi)
            &&& self.states().state_of(addr) is Some
            &&& st@ == before.states().current_or_empty(addr).insert(initialized_key(), seq![1u8])
            &&& self.states().snapshots_of(addr) is Some
            &&& snaps.len() == prev_snaps.len() + 1
            &&& snaps.take(prev_snaps.len() as int) == prev_snaps
            &&& snaps.last().version@ == metadata.version@
            &&& snaps.last().timestamp == now_secs
            &&& snaps.last().contract_addr == addr
            &&& snaps.last().state.entries() == st.entries()
            &&& self.others_unchanged(before, addr)
        }
    }

    /// Checks the caller's role, the bytecode and that the version may be
    /// registered; then initializes the state, takes the first snapshot and
    /// registers the version.
    fn deploy_steps(
        &mut self,
        bytecode: &Vec<u8>,
        contract_addr: &Address,
        abi: &ContractABI,
        metadata: ContractMetadata,
        ctx: &CallerContext,
        now_secs: u64,
    ) -> (r: ContractResult<()>)
        requires
            old(self).wf(),
        ensures
            final(self).wf(),
            final(self).tracker() == old(self).tracker(),
            final(self).deploy_outcome(
                old(self),
                bytecode@,
                *contract_addr,
                *abi,
                metadata,
                ctx.caller(),
                now_secs,
                r,
            ),
    {
        let sender = match ctx.sender() {
            Ok(s) => s,
            Err(e) => {
                return Err(ContractError::ExecutionError(e));
            },
        };
        if !self.access_control.has_role(DEPLOYER_ROLE, &sender) {
            return Err(ContractError::AccessDenied("sender does not have the deployer role".to_owned()));
        }
        if let Err(e) = verify_bytecode(bytecode) {
            return Err(e);
        }
        if let Err(e) = self.registry.check_registration(contract_addr, metadata.version.as_str()) {
            return Err(e);
        }
        let label = metadata.version.clone();
        let version = ContractVersion { bytecode: copy_bytes(bytecode), metadata, abi: abi.duplicate() };
        let one = vec![1u8];
        assert(one@ =~= seq![1u8]);
        if let Err(e) = self.state_manager.update_state(*contract_addr, initialized_key_bytes(), one) {
            return Err(e);
        }
        let ghost after_update = self.state_manager;
        match self.state_manager.create_snapshot(*contract_addr, label, now_secs) {
            Ok(_) => {},
            Err(e) => {
                return Err(e);
            },
        }
        let ghost after_snapshot = self.state_manager;
        assert(after_snapshot.state_of(*contract_addr) == after_update.state_of(*contract_addr));
        let r = self.registry.register_version(*contract_addr, version);
        proof {
            assert(r is Ok);
            let vs = self.registry().versions_of(*contract_addr)->0;
            assert(vs.last().bytecode@ == bytecode@);
            assert(same_abi(vs.last().abi, *abi));
            let snaps = self.states().snapshots_of(*contract_addr)->0;
            assert(snaps.last().contract_addr == *contract_addr);
            assert(self.others_unchanged(old(self), *contract_addr));
            let prev = match old(self).registry().versions_of(*contract_addr) {
                Some(p) => p,
                None => Seq::empty(),
            };
            assert(vs.len() == prev.len() + 1);
            assert(vs.take(prev.len() as int) == prev);
            assert(vs.last().metadata == metadata);
            let st = self.states().state_of(*contract_addr)->0;
            assert(st@ == old(self).states().current_or_empty(*contract_addr).insert(initialized_key(), seq![1u8]));
            let prev_snaps = old(self).states().prior_snapshots(*contract_addr);
            assert(snaps.len() == prev_snaps.len() + 1);
            assert(snaps.take(prev_snaps.len() as int) == prev_snaps);
            assert(snaps.last().version@ == metadata.version@);
            assert(snaps.last().timestamp == now_secs);
            assert(snaps.last().state.entries() == st.entries());
        }
        r
    }

    /// Deploys `bytecode` at `contract_addr` for a caller with the deployer
    /// role, once the version may be registered there: the state gets
    /// `_initialized` set to 1, a snapshot labelled with the metadata's version
    /// is taken, and the version is registered. On any error nothing but the
    /// admission control changes. The operation is admitted first and released
    /// on every path.
    pub fn deploy_contract(
        &mut self,
        bytecode: &Vec<u8>,
        contract_addr: &Address,
        abi: &ContractABI,
        metadata: ContractMetadata,
        limits: &ResourceLimits,
        ctx: &CallerContext,
        now_ms: u64,
    ) -> (r: ContractResult<()>)
        requires
            old(self).wf(),
        ensures
            final(self).wf(),
            !old(self).admits(*contract_addr, now_ms) ==> (r matches Err(e) && e is ConcurrencyLimitExceeded)
                && final(self).refused(old(self), now_ms),
            old(self).admits(*contract_addr, now_ms) ==> final(self).released(old(self), now_ms)
                && final(self).deploy_outcome(
                old(self),
                bytecode@,
                *contract_addr,
                *abi,
                metadata,
                ctx.caller(),
                now_ms / 1000,
                r,
            ),
    {
        match self.operation_tracker.start_operation(*contract_addr, OperationType::Deploy, now_ms) {
            Ok(()) => {},
            Err(e) => {
                return Err(e);
            },
        }
        let ghost mid = *self;
        let r = self.deploy_steps(bytecode, contract_addr, abi, metadata, ctx, now_ms / 1000);
        self.operation_tracker.end_operation(contract_addr, OperationType::Deploy);
        proof {
            self.lemma_release(old(self), &mid, *contract_addr, OperationType::Deploy, now_ms);
        }
        r
    }

    /// What an upgrade does, from `before` to `self`, with result `r`.
    pub open spec fn upgrade_outcome(
        &self,
        before: &Self,
        bytecode: Seq<u8>,
        addr: Address,
        abi: ContractABI,
        metadata: ContractMetadata,
        caller: Option<Address>,
        now_secs: u64,
        r: ContractResult<()>,
    ) -> bool {
        let role = caller is Some && model_has_role(before.access(), UPGRADER_ROLE, caller->0);
        let registered = before.registry().versions_of(addr) is Some;
        let live = before.is_live_contract(addr);
        let vs = before.registry().versions_of(addr)->0;
        let cur = vs.last();
        let nv = metadata.version@;
        let checks = role && live && upgrade_allowed(vs, now_secs) && bytecode_ok(bytecode);
        &&& self.access() == before.access()
        &&& caller is None ==> (r matches Err(e) && e is ExecutionError)
        &&& caller is Some && !role ==> (r matches Err(e) && e is UpgradeAuthorizationError)
        &&& role && !registered ==> (r matches Err(e) && e is NotFound)
        &&& role && registered && !live ==> (r matches Err(e) && e is StateValidationError)
        &&& role && live && !upgrade_allowed(vs, now_secs) ==> (r matches Err(e)
            && e is UpgradeLimitExceeded)
        &&& role && live && upgrade_allowed(vs, now_secs) && !bytecode_ok(bytecode) ==> (r matches Err(
            e,
        ) && e is BytecodeVerificationError)
        &&& checks ==> before.registry().version_refusals(addr, nv, r)
        &&& r is Ok <==> checks && before.registry().accepts_version(addr, nv)
        &&& r is Err ==> self.registry() == before.registry() && self.states() == before.states()
        &&& r is Ok ==> {
            let nvs = self.registry().versions_of(addr)->0;
            let snaps = self.states().snapshots_of(addr)->0;
            let prev_snaps = before.states().prior_snapshots(addr);
            &&& self.registry().versions_of(addr) is Some
            &&& nvs.len() == vs.len() + 1
            &&& nvs.take(vs.len() as int) == vs
            &&& nvs.last().bytecode@ == bytecode
            &&& nvs.last().metadata == metadata
            &&& same_abi(nvs.last().abi, abi)
            &&& self.states().state_of(addr) == before.states().state_of(addr)
            &&& self.states().diffs_of(addr) == before.states().diffs_of(addr)
            &&& self.states().snapshots_of(addr) is Some
            &&& snaps.len() == prev_snaps.len() + 1
            &&& snaps.take(prev_snaps.len() as int) == prev_snaps
            &&& snaps.last().version@ == cur.metadata.version@
            &&& snaps.last().timestamp == now_secs
            &&& snaps.last().state.entries() == before.states().state_of(addr)->0.entries()
            &&& self.others_unchanged(before, addr)
        }
    }

    /// Checks the caller's role, the contract, the upgrade rate, the bytecode
    /// and the new version; then snapshots the state under the current
    /// version's label and registers the new version.
    fn upgrade_steps(
        &mut self,
        contract_addr: &Address,
        bytecode: &Vec<u8>,
        abi: &ContractABI,
        metadata: ContractMetadata,
        ctx: &CallerContext,
        now_secs: u64,
    ) -> (r: ContractResult<()>)
        requires
            old(self).wf(),
        ensures
            final(self).wf(),
            final(self).tracker() == old(self).tracker(),
            final(self).upgrade_outcome(
                old(self),
                bytecode@,
                *contract_addr,
                *abi,
                metadata,
                ctx.caller(),
                now_secs,
                r,
            ),
    {
        let sender = match ctx.sender() {
            Ok(s) => s,
            Err(e) => {
                return Err(ContractError::ExecutionError(e));
            },
        };
        if !self.access_control.has_role(UPGRADER_ROLE, &sender) {
            return Err(
                ContractError::UpgradeAuthorizationError(
                    "sender does not have the upgrader role".to_owned(),
                ),
            );
        }
        if let Err(e) = self.validate_contract_state(contract_addr) {
            return Err(e);
        }
        let label = match self.registry.get_contract_versions(contract_addr) {
            Ok(versions) => {
                proof {
                    self.registry.lemma_nonempty(*contract_addr);
                }
                if let Err(e) = check_upgrade_rate(versions, now_secs) {
                    return Err(e);
                }
                if let Err(e) = verify_bytecode(bytecode) {
                    return Err(e);
                }
                versions[versions.len() - 1].metadata.version.clone()
            },
            Err(e) => {
                return Err(e);
            },
        };
        if let Err(e) = self.registry.check_registration(contract_addr, metadata.version.as_str()) {
            return Err(e);
        }
        match self.state_manager.create_snapshot(*contract_addr, label, now_secs) {
            Ok(_) => {},
            Err(e) => {
                return Err(e);
            },
        }
        let ghost after_snapshot = self.state_manager;
        let ghost nv = metadata.version@;
        let ghost meta = metadata;
        let version = ContractVersion { bytecode: copy_bytes(bytecode), metadata, abi: abi.duplicate() };
        let r = self.registry.register_version(*contract_addr, version);
        proof {
            assert(r is Ok);
            let vs = old(self).registry().versions_of(*contract_addr)->0;
            let nvs = self.registry().versions_of(*contract_addr)->0;
            assert(nvs.len() == vs.len() + 1);
            assert(nvs.take(vs.len() as int) == vs);
            assert(nvs.last().bytecode@ == bytecode@);
            assert(nvs.last().metadata == meta);
            assert(same_abi(nvs.last().abi, *abi));
            assert(self.states().state_of(*contract_addr) == old(self).states().state_of(*contract_addr));
            let snaps = self.states().snapshots_of(*contract_addr)->0;
            let prev_snaps = old(self).states().prior_snapshots(*contract_addr);
            assert(snaps.len() == prev_snaps.len() + 1);
            assert(snaps.take(prev_snaps.len() as int) == prev_snaps);
            assert(snaps.last().version@ == vs.last().metadata.version@);
            assert(snaps.last().timestamp == now_secs);
            assert(snaps.last().state.entries() == old(self).states().state_of(*contract_addr)->0.entries());
            assert(self.others_unchanged(old(self), *contract_addr));
        }
        r
    }

    /// Upgrades `contract_addr` to a new version for a caller with the
    /// upgrader role, within the upgrade rate limits, once the new version may
    /// follow the current one. The state is snapshotted under the current
    /// version first. On any error nothing but the admission control changes.
    /// The operation is admitted first and released on every path.
    pub fn upgrade_contract(
        &mut self,
        contract_addr: &Address,
        bytecode: &Vec<u8>,
        abi: &ContractABI,
        metadata: ContractMetadata,
        ctx: &CallerContext,
        now_ms: u64,
    ) -> (r: ContractResult<()>)
        requires
            old(self).wf(),
        ensures
            final(self).wf(),
            !old(self).admits(*contract_addr, now_ms) ==> (r matches Err(e) && e is ConcurrencyLimitExceeded)
                && final(self).refused(old(self), now_ms),
            old(self).admits(*contract_addr, now_ms) ==> final(self).released(old(self), now_ms)
                && final(self).upgrade_outcome(
                old(self),
                bytecode@,
                *contract_addr,
                *abi,
                metadata,
                ctx.caller(),
                now_ms / 1000,
                r,
            ),
    {
        match self.operation_tracker.start_operation(*contract_addr, OperationType::Upgrade, now_ms) {
            Ok(()) => {},
            Err(e) => {
                return Err(e);
            },
        }
        let ghost mid = *self;
        let r = self.upgrade_steps(contract_addr, bytecode, abi, metadata, ctx, now_ms / 1000);
        self.operation_tracker.end_operation(contract_addr, OperationType::Upgrade);
        proof {
            self.lemma_release(old(self), &mid, *contract_addr, OperationType::Upgrade, now_ms);
        }
        r
    }

    /// What an execution does, from `before` to `self`, with result `r`.
    pub open spec fn execute_outcome(
        &self,
        before: &Self,
        addr: Address,
        method: Seq<char>,
        args: Seq<Value>,
        gas_limit: u64,
        label: Option<Seq<char>>,
        caller: Option<Address>,
        now_secs: u64,
        r: ContractResult<Vec<Value>>,
    ) -> bool {
        let role = caller is Some && model_has_role(before.access(), EXECUTOR_ROLE, caller->0);
        let registered = before.registry().versions_of(addr) is Some;
        let live = before.is_live_contract(addr);
        let vs = before.registry().versions_of(addr)->0;
        let found = match label {
            Some(v) => has_label(vs, v),
            None => true,
        };
        &&& self.access() == before.access()
        &&& self.registry() == before.registry()
        &&& forall|b: Address|
            self.states().state_of(b) == before.states().state_of(b) && self.states().diffs_of(b)
                == before.states().diffs_of(b)
        &&& forall|b: Address|
            b != addr ==> self.states().snapshots_of(b) == before.states().snapshots_of(b)
        &&& caller is None ==> (r matches Err(e) && e is ExecutionError)
        &&& caller is Some && !role ==> (r matches Err(e) && e is AccessDenied)
        &&& role && !registered ==> (r matches Err(e) && e is NotFound)
        &&& role && registered && !live ==> (r matches Err(e) && e is StateValidationError)
        &&& role && live && !found ==> (r matches Err(e) && e is VersionNotFound)
        &&& !(role && live && found) ==> self.states() == before.states()
        &&& role && live && found ==> exists|i: int|
            #[trigger] selects(vs, label, i) && {
                let snaps = self.states().snapshots_of(addr)->0;
                let prev_snaps = before.states().prior_snapshots(addr);
                &&& self.states().snapshots_of(addr) is Some
                &&& snaps.len() == prev_snaps.len() + 1
                &&& snaps.take(prev_snaps.len() as int) == prev_snaps
                &&& snaps.last().version@ == vs[i].metadata.version@
                &&& snaps.last().timestamp == now_secs
                &&& snaps.last().state.entries() == before.states().state_of(addr)->0.entries()
                &&& !abi_has_method(vs[i].abi, method) ==> (r matches Err(e) && e is NotFound)
                &&& abi_has_method(vs[i].abi, method) ==> dispatch_matches(method, args, gas_limit, r)
            }
    }

    /// Checks the caller's role and the contract, selects the version,
    /// snapshots the state under its label, checks that its ABI lists the
    /// method, and runs the method.
    fn execute_steps(
        &mut self,
        contract_addr: &Address,
        method: &str,
        args: &Vec<Value>,
        env: &ContractEnvironment,
        version: Option<&str>,
        ctx: &CallerContext,
        now_secs: u64,
    ) -> (r: ContractResult<Vec<Value>>)
        requires
            old(self).wf(),
        ensures
            final(self).wf(),
            final(self).tracker() == old(self).tracker(),
            final(self).execute_outcome(
                old(self),
                *contract_addr,
                method@,
                args@,
                env.gas_limit,
                label_of(version),
                ctx.caller(),
                now_secs,
                r,
            ),
    {
        let sender = match ctx.sender() {
            Ok(s) => s,
            Err(e) => {
                return Err(ContractError::ExecutionError(e));
            },
        };
        if !self.access_control.has_role(EXECUTOR_ROLE, &sender) {
            return Err(ContractError::AccessDenied("sender does not have the executor role".to_owned()));
        }
        if let Err(e) = self.validate_contract_state(contract_addr) {
            return Err(e);
        }
        let ghost vs = self.registry.versions_of(*contract_addr)->0;
        proof {
            self.registry.lemma_nonempty(*contract_addr);
        }
        let selected = match version {
            Some(v) => self.registry.get_contract_version(contract_addr, v),
            None => self.registry.get_latest_version(contract_addr),
        };
        let ghost mut sel: int = 0;
        let (label, has_method) = match selected {
            Ok(cv) => {
                proof {
                    match version {
                        Some(v) => {
                            let i = choose|i: int|
                                0 <= i < vs.len() && vs[i] == *cv && (forall|j: int|
                                    0 <= j < i ==> (#[trigger] vs[j]).metadata.version@ != v@)
                                    && cv.metadata.version@ == v@;
                            sel = i;
                        },
                        None => {
                            sel = vs.len() - 1;
                        },
                    }
                    assert(selects(vs, label_of(version), sel));
                }
                let name = method.to_owned();
                (cv.metadata.version.clone(), cv.abi.has_method(&name))
            },
            Err(e) => {
                return Err(e);
            },
        };
        let ghost before_snapshot = self.state_manager;
        match self.state_manager.create_snapshot(*contract_addr, label, now_secs) {
            Ok(_) => {},
            Err(e) => {
                return Err(e);
            },
        }
        if !has_method {
            let r = Err(ContractError::NotFound("method not found in contract ABI".to_owned()));
            assert(selects(vs, label_of(version), sel));
            return r;
        }
        let r = dispatch_builtin(method, args, env.gas_limit);
        assert(selects(vs, label_of(version), sel));
        r
    }

    /// Executes `method` of `contract_addr` (the first version with the given
    /// label, else the newest) for a caller with the executor role. Once role,
    /// contract and version check out, the state is snapshotted under the
    /// selected version's label, so that every execution can be rolled back;
    /// the state itself is not changed. The operation is admitted first and
    /// released on every path.
    pub fn execute_contract(
        &mut self,
        contract_addr: &Address,
        method: &str,
        args: &Vec<Value>,
        env: &ContractEnvironment,
        version: Option<&str>,
        ctx: &CallerContext,
        now_ms: u64,
    ) -> (r: ContractResult<Vec<Value>>)
        requires
            old(self).wf(),
        ensures
            final(self).wf(),
            !old(self).admits(*contract_addr, now_ms) ==> (r matches Err(e) && e is ConcurrencyLimitExceeded)
                && final(self).refused(old(self), now_ms),
            old(self).admits(*contract_addr, now_ms) ==> final(self).released(old(self), now_ms)
                && final(self).execute_outcome(
                old(self),
                *contract_addr,
                method@,
                args@,
                env.gas_limit,
                label_of(version),
                ctx.caller(),
                now_ms / 1000,
                r,
            ),
    {
        match self.operation_tracker.start_operation(*contract_addr, OperationType::Execute, now_ms) {
            Ok(()) => {},
            Err(e) => {
                return Err(e);
            },
        }
        let ghost mid = *self;
        let r = self.execute_steps(contract_addr, method, args, env, version, ctx, now_ms / 1000);
        self.operation_tracker.end_operation(contract_addr, OperationType::Execute);
        proof {
            self.lemma_release(old(self), &mid, *contract_addr, OperationType::Execute, now_ms);
        }
        r
    }

    /// What a rollback does, from `before` to `self`, with result `r`.
    pub open spec fn rollback_outcome(
        &self,
        before: &Self,
        addr: Address,
        caller: Option<Address>,
        r: ContractResult<()>,
    ) -> bool {
        let role = caller is Some && model_has_role(before.access(), UPGRADER_ROLE, caller->0);
        let snaps = before.states().prior_snapshots(addr);
        let vs = before.registry().versions_of(addr);
        let two_versions = vs is Some && vs->0.len() >= 2;
        &&& self.access() == before.access()
        &&& caller is None ==> (r matches Err(e) && e is ExecutionError)
        &&& caller is Some && !role ==> (r matches Err(e) && e is UpgradeAuthorizationError)
        &&& role && snaps.len() < 2 ==> (r matches Err(e) && e is StateError)
        &&& role && snaps.len() >= 2 && !two_versions ==> (r matches Err(e) && e is StateRollbackFailed)
        &&& r is Ok <==> role && snaps.len() >= 2 && two_versions
        &&& r is Err ==> self.registry() == before.registry() && self.states() == before.states()
        &&& r is Ok ==> {
            let t = snaps[snaps.len() - 2].timestamp;
            &&& self.states().state_of(addr) is Some
            &&& self.states().state_of(addr)->0.entries() == snaps[first_at(snaps, t)].state.entries()
            &&& self.registry().versions_of(addr) == Some(vs->0.drop_last())
            &&& self.states().snapshots_of(addr) == before.states().snapshots_of(addr)
            &&& self.states().diffs_of(addr) == before.states().diffs_of(addr)
            &&& self.others_unchanged(before, addr)
        }
    }

    /// Checks the caller's role, the snapshots and the versions; then
    /// restores the state from the second-newest snapshot and removes the
    /// newest version.
    #[verifier::rlimit(60)]
    fn rollback_steps(&mut self, contract_addr: &Address, ctx: &CallerContext) -> (r:
        ContractResult<()>)
        requires
            old(self).wf(),
        ensures
            final(self).wf(),
            final(self).tracker() == old(self).tracker(),
            final(self).rollback_outcome(old(self), *contract_addr, ctx.caller(), r),
    {
        let sender = match ctx.sender() {
            Ok(s) => s,
            Err(e) => {
                return Err(ContractError::ExecutionError(e));
            },
        };
        if !self.access_control.has_role(UPGRADER_ROLE, &sender) {
            return Err(
                ContractError::UpgradeAuthorizationError(
                    "sender does not have the upgrader role".to_owned(),
                ),
            );
        }
        let timestamp = match self.state_manager.get_snapshots(contract_addr) {
            Some(snaps) => {
                if snaps.len() < 2 {
                    return Err(ContractError::StateError("not enough snapshots for rollback".to_owned()));
                }
                snaps[snaps.len() - 2].timestamp
            },
            None => {
                return Err(ContractError::StateError("no snapshots found for contract".to_owned()));
            },
        };
        match self.registry.get_contract_versions(contract_addr) {
            Ok(versions) => {
                if versions.len() < 2 {
                    return Err(
                        ContractError::StateRollbackFailed(
                            "no previous version available for rollback".to_owned(),
                        ),
                    );
                }
            },
            Err(_) => {
                return Err(ContractError::StateRollbackFailed("contract not found".to_owned()));
            },
        }
        proof {
            let snaps = self.state_manager.snapshots_of(*contract_addr)->0;
            assert(crate::state::taken_at(snaps, timestamp)) by {
                assert(snaps[snaps.len() - 2].timestamp == timestamp);
            }
        }
        match self.state_manager.restore_from_snapshot(*contract_addr, timestamp) {
            Ok(()) => {},
            Err(e) => {
                return Err(e);
            },
        }
        match self.registry.rollback_version(*contract_addr) {
            Ok(()) => Ok(()),
            Err(_) => Err(
                ContractError::StateRollbackFailed("failed to roll back the contract".to_owned()),
            ),
        }
    }

    /// Rolls `contract_addr` back for a caller with the upgrader role, once
    /// it has two snapshots and two versions: the state returns to the
    /// second-newest snapshot and the newest version is removed. On any error
    /// nothing but the admission control changes. The operation is admitted
    /// first and released on every path.
    pub fn rollback_contract(&mut self, contract_addr: &Address, ctx: &CallerContext, now_ms: u64) -> (r:
        ContractResult<()>)
        requires
            old(self).wf(),
        ensures
            final(self).wf(),
            !old(self).admits(*contract_addr, now_ms) ==> (r matches Err(e) && e is ConcurrencyLimitExceeded)
                && final(self).refused(old(self), now_ms),
            old(self).admits(*contract_addr, now_ms) ==> final(self).released(old(self), now_ms)
                && final(self).rollback_outcome(old(self), *contract_addr, ctx.caller(), r),
    {
        match self.operation_tracker.start_operation(*contract_addr, OperationType::Rollback, now_ms) {
            Ok(()) => {},
            Err(e) => {
                return Err(e);
            },
        }
        let ghost mid = *self;
        let r = self.rollback_steps(contract_addr, ctx);
        self.operation_tracker.end_operation(contract_addr, OperationType::Rollback);
        proof {
            self.lemma_release(old(self), &mid, *contract_addr, OperationType::Rollback, now_ms);
        }
        r
    }

    /// What a state update does, from `before` to `self`, with result `r`.
    pub open spec fn update_outcome(
        &self,
        before: &Self,
        addr: Address,
        key: Seq<u8>,
        value: Seq<u8>,
        r: ContractResult<()>,
    ) -> bool {
        let registered = before.registry().versions_of(addr) is Some;
        let live = before.is_live_contract(addr);
        let allowed = before.states().update_allowed(addr, key, value);
        &&& self.access() == before.access()
        &&& self.registry() == before.registry()
        &&& !registered ==> (r matches Err(e) && e is NotFound)
        &&& registered && !live ==> (r matches Err(e) && e is StateValidationError)
        &&& live && !allowed ==> (r matches Err(e) && e is StateError)
        &&& r is Ok <==> live && allowed
        &&& r is Err ==> self.states() == before.states()
        &&& r is Ok ==> {
            let st = self.states().state_of(addr);
            let fd = self.states().diffs_of(addr)->0;
            let prev = before.states().prior_diffs(addr);
            let o = before.states().current_or_empty(addr);
            &&& st is Some
            &&& st->0@ == o.insert(key, value)
            &&& self.states().diffs_of(addr) is Some
            &&& fd.len() == prev.len() + 1
            &&& fd.take(prev.len() as int) == prev
            &&& crate::state::is_diff(fd.last(), o, o.insert(key, value))
            &&& self.states().snapshots_of(addr) == before.states().snapshots_of(addr)
            &&& self.others_unchanged(before, addr)
        }
    }

    /// Writes `value` under `key` in the state of a registered contract that
    /// has state, within the size caps. The operation is admitted first and
    /// released on every path.
    pub fn update_contract_state(
        &mut self,
        contract_addr: &Address,
        key: Vec<u8>,
        value: Vec<u8>,
        now_ms: u64,
    ) -> (r: ContractResult<()>)
        requires
            old(self).wf(),
        ensures
            final(self).wf(),
            !old(self).admits(*contract_addr, now_ms) ==> (r matches Err(e) && e is ConcurrencyLimitExceeded)
                && final(self).refused(old(self), now_ms),
            old(self).admits(*contract_addr, now_ms) ==> final(self).released(old(self), now_ms)
                && final(self).update_outcome(old(self), *contract_addr, key@, value@, r),
    {
        match self.operation_tracker.start_operation(*contract_addr, OperationType::StateUpdate, now_ms) {
            Ok(()) => {},
            Err(e) => {
                return Err(e);
            },
        }
        let ghost mid = *self;
        let r = match self.validate_contract_state(contract_addr) {
            Ok(()) => self.state_manager.update_state(*contract_addr, key, value),
            Err(e) => Err(e),
        };
        self.operation_tracker.end_operation(contract_addr, OperationType::StateUpdate);
        proof {
            self.lemma_release(old(self), &mid, *contract_addr, OperationType::StateUpdate, now_ms);
        }
        r
    }
}

} // verus!
