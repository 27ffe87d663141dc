use vstd::prelude::*;
use crate::error::{ContractError, ContractResult};
use crate::table::{addr_eq, Address};
use crate::types::OperationType;

verus! {

/// Most operations active at once.
pub const MAX_CONCURRENT_OPERATIONS: usize = 100;

/// Most operations started within one second.
pub const MAX_OPERATIONS_PER_SECOND: usize = 1000;

/// Most operations active at once on one contract.
pub const MAX_OPERATIONS_PER_CONTRACT: usize = 10;

/// An active operation older than this, in milliseconds, no longer counts.
pub const OPERATION_TIMEOUT_MS: u64 = 30000;

/// Start times older than this, in milliseconds, leave the history.
pub const OPERATION_HISTORY_WINDOW_MS: u64 = 60000;

/// The window, in milliseconds, over which the rate of starts is counted.
pub const RATE_WINDOW_MS: u64 = 1000;

/// One active operation.
#[derive(Debug, Clone, Copy)]
pub struct OperationMetrics {
    pub operation_type: OperationType,
    pub start_time: u64,
    pub contract_addr: Address,
}

/// Milliseconds from `t` to `now`, zero when `t` is later.
pub open spec fn elapsed(now: u64, t: u64) -> int {
    if now >= t {
        now - t
    } else {
        0
    }
}

/// The operation still counts at `now`.
pub open spec fn is_live(now: u64, m: OperationMetrics) -> bool {
    elapsed(now, m.start_time) < OPERATION_TIMEOUT_MS
}

/// The operations that still count at `now`, in order.
pub open spec fn live_only(s: Seq<OperationMetrics>, now: u64) -> Seq<OperationMetrics>
    decreases s.len(),
{
    if s.len() == 0 {
        s
    } else if is_live(now, s.last()) {
        live_only(s.drop_last(), now).push(s.last())
    } else {
        live_only(s.drop_last(), now)
    }
}

/// How many of the operations belong to contract `a`.
pub open spec fn count_for(s: Seq<OperationMetrics>, a: Address) -> nat
    decreases s.len(),
{
    if s.len() == 0 {
        0
    } else {
        count_for(s.drop_last(), a) + if s.last().contract_addr == a {
            1nat
        } else {
            0nat
        }
    }
}

/// How many history entries started less than a second before `now`.
pub open spec fn recent_count(h: Seq<(u64, OperationType)>, now: u64) -> nat
    decreases h.len(),
{
    if h.len() == 0 {
        0
    } else {
        recent_count(h.drop_last(), now) + if elapsed(now, h.last().0) < RATE_WINDOW_MS {
            1nat
        } else {
            0nat
        }
    }
}

/// The history once entries older than the window are dropped from its front.
pub open spec fn pruned(h: Seq<(u64, OperationType)>, now: u64) -> Seq<(u64, OperationType)>
    decreases h.len(),
{
    if h.len() > 0 && elapsed(now, h[0].0) > OPERATION_HISTORY_WINDOW_MS {
        pruned(h.drop_first(), now)
    } else {
        h
    }
}

pub proof fn lemma_live_only_len(s: Seq<OperationMetrics>, now: u64)
    ensures
        live_only(s, now).len() <= s.len(),
    decreases s.len(),
{
    if s.len() > 0 {
        lemma_live_only_len(s.drop_last(), now);
    }
}

pub proof fn lemma_live_only_bounds(s: Seq<OperationMetrics>, now: u64, a: Address)
    ensures
        count_for(live_only(s, now), a) <= count_for(s, a),
    decreases s.len(),
{
    if s.len() > 0 {
        lemma_live_only_bounds(s.drop_last(), now, a);
        let r = live_only(s.drop_last(), now);
        assert(r.push(s.last()).drop_last() =~= r);
    }
}

pub proof fn lemma_count_concat(x: Seq<OperationMetrics>, y: Seq<OperationMetrics>, a: Address)
    ensures
        count_for(x + y, a) == count_for(x, a) + count_for(y, a),
    decreases y.len(),
{
    if y.len() == 0 {
        assert(x + y =~= x);
    } else {
        lemma_count_concat(x, y.drop_last(), a);
        assert((x + y).drop_last() =~= x + y.drop_last());
    }
}

pub proof fn lemma_count_remove(s: Seq<OperationMetrics>, i: int, a: Address)
    requires
        0 <= i < s.len(),
    ensures
        count_for(s.remove(i), a) + (if s[i].contract_addr == a {
            1nat
        } else {
            0nat
        }) == count_for(s, a),
{
    let one = seq![s[i]];
    assert(s =~= s.take(i) + one + s.skip(i + 1));
    assert(s.remove(i) =~= s.take(i) + s.skip(i + 1));
    lemma_count_concat(s.take(i) + one, s.skip(i + 1), a);
    lemma_count_concat(s.take(i), one, a);
    lemma_count_concat(s.take(i), s.skip(i + 1), a);
    assert(one.drop_last() =~= Seq::<OperationMetrics>::empty());
    assert(count_for(one.drop_last(), a) == 0);
    assert(one.last() == s[i]);
}

pub proof fn lemma_recent_concat(x: Seq<(u64, OperationType)>, y: Seq<(u64, OperationType)>, now: u64)
    ensures
        recent_count(x + y, now) == recent_count(x, now) + recent_count(y, now),
    decreases y.len(),
{
    if y.len() == 0 {
        assert(x + y =~= x);
    } else {
        lemma_recent_concat(x, y.drop_last(), now);
        assert((x + y).drop_last() =~= x + y.drop_last());
    }
}

pub proof fn lemma_recent_pruned(h: Seq<(u64, OperationType)>, now: u64, c: u64)
    ensures
        recent_count(pruned(h, now), c) <= recent_count(h, c),
    decreases h.len(),
{
    if h.len() > 0 && elapsed(now, h[0].0) > OPERATION_HISTORY_WINDOW_MS {
        lemma_recent_pruned(h.drop_first(), now, c);
        assert(h =~= seq![h[0]] + h.drop_first());
        lemma_recent_concat(seq![h[0]], h.drop_first(), c);
    }
}

pub proof fn lemma_recent_later(h: Seq<(u64, OperationType)>, c: u64, now: u64)
    requires
        now >= c,
        forall|i: int| 0 <= i < h.len() ==> (#[trigger] h[i]).0 <= c,
    ensures
        recent_count(h, now) <= recent_count(h, c),
    decreases h.len(),
{
    if h.len() > 0 {
        assert forall|i: int| 0 <= i < h.drop_last().len() implies (#[trigger] h.drop_last()[i]).0 <= c by {
            assert(h.drop_last()[i] == h[i]);
        }
        lemma_recent_later(h.drop_last(), c, now);
        assert(h.last().0 <= c);
    }
}

/// `i` is the first active operation of kind `op` on contract `a`.
pub open spec fn is_first_match(s: Seq<OperationMetrics>, a: Address, op: OperationType, i: int) -> bool {
    &&& 0 <= i < s.len()
    &&& s[i].contract_addr == a
    &&& s[i].operation_type == op
    &&& forall|j: int| 0 <= j < i ==> !(s[j].contract_addr == a && s[j].operation_type == op)
}

pub open spec fn has_match(s: Seq<OperationMetrics>, a: Address, op: OperationType) -> bool {
    exists|i: int| 0 <= i < s.len() && s[i].contract_addr == a && s[i].operation_type == op
}

/// Admission control: active operations and a sliding history of start times.
pub struct OperationTracker {
    active: Vec<OperationMetrics>,
    history: Vec<(u64, OperationType)>,
    clock: u64,
}

impl OperationTracker {
    /// The active operations, oldest first.
    pub closed spec fn active(&self) -> Seq<OperationMetrics> {
        self.active@
    }

    /// Start times and kinds within the history window, oldest first.
    pub closed spec fn history(&self) -> Seq<(u64, OperationType)> {
        self.history@
    }

    /// The latest time that an admission saw.
    pub closed spec fn clock(&self) -> u64 {
        self.clock
    }

    /// The admission bound: at most 100 active operations, at most 10 on any
    /// one contract, and at most 1000 started within the last second.
    pub open spec fn within_bounds(&self) -> bool {
        &&& self.active().len() <= MAX_CONCURRENT_OPERATIONS
        &&& forall|a: Address| count_for(self.active(), a) <= MAX_OPERATIONS_PER_CONTRACT
        &&& recent_count(self.history(), self.clock()) <= MAX_OPERATIONS_PER_SECOND
    }

    pub closed spec fn wf(&self) -> bool {
        &&& self.within_bounds()
        &&& forall|i: int| 0 <= i < self.history@.len() ==> (#[trigger] self.history@[i]).0 <= self.clock
    }

    /// A well-formed tracker keeps the admission bound.
    pub proof fn lemma_admission_bound(&self)
        requires
            self.wf(),
        ensures
            self.within_bounds(),
    {
    }

    /// The rate bound holds at every later instant too: start times lie no
    /// later than the clock, so the last-second window only loses entries.
    pub proof fn lemma_rate_bound_later(&self, now: u64)
        requires
            self.wf(),
            now >= self.clock(),
        ensures
            recent_count(self.history(), now) <= MAX_OPERATIONS_PER_SECOND,
    {
        lemma_recent_later(self.history@, self.clock, now);
    }

    /// No operations and no history.
    pub fn new() -> (r: Self)
        ensures
            r.wf(),
            r.active() == Seq::<OperationMetrics>::empty(),
            r.history() == Seq::<(u64, OperationType)>::empty(),
            r.clock() == 0,
    {
        OperationTracker { active: Vec::new(), history: Vec::new(), clock: 0 }
    }

    /// Drops the active operations that no longer count at `now` and the
    /// history entries that left the window.
    pub fn cleanup_expired_operations(&mut self, now: u64)
        requires
            old(self).wf(),
        ensures
            final(self).active() == live_only(old(self).active(), now),
            final(self).history() == pruned(old(self).history(), now),
            exists|k: int|
                0 <= k <= old(self).history().len() && final(self).history() == old(
                    self,
                ).history().skip(k),
            final(self).clock() == old(self).clock(),
            final(self).wf(),
            final(self).active().len() <= MAX_CONCURRENT_OPERATIONS,
            forall|a: Address| count_for(final(self).active(), a) <= MAX_OPERATIONS_PER_CONTRACT,
    {
        let ghost s = self.active@;
        let mut kept: Vec<OperationMetrics> = Vec::new();
        let mut i: usize = 0;
        while i < self.active.len()
            invariant
                s == self.active@,
                0 <= i <= s.len(),
                kept@ == live_only(s.take(i as int), now),
            decreases s.len() - i,
        {
            let m = self.active[i];
            assert(s.take(i + 1).drop_last() =~= s.take(i as int));
            let live = if now >= m.start_time {
                now - m.start_time < OPERATION_TIMEOUT_MS
            } else {
                true
            };
            if live {
                kept.push(m);
            }
            i = i + 1;
        }
        assert(s.take(i as int) =~= s);
        proof {
            lemma_live_only_len(s, now);
            assert forall|a: Address| count_for(kept@, a) <= MAX_OPERATIONS_PER_CONTRACT by {
                lemma_live_only_bounds(s, now, a);
            }
        }
        self.active = kept;
        let ghost h = self.history@;
        let mut k: usize = 0;
        assert(h.skip(0) =~= h);
        while k < self.history.len()
            invariant
                h == self.history@,
                0 <= k <= h.len(),
                pruned(h, now) == pruned(h.skip(k as int), now),
            ensures
                0 <= k <= h.len(),
                pruned(h, now) == h.skip(k as int),
            decreases h.len() - k,
        {
            let t = self.history[k].0;
            let old_entry = if now >= t {
                now - t > OPERATION_HISTORY_WINDOW_MS
            } else {
                false
            };
            if !old_entry {
                assert(h.skip(k as int)[0] == h[k as int]);
                break ;
            }
            assert(h.skip(k as int).drop_first() =~= h.skip(k + 1));
            k = k + 1;
        }
        proof {
            if k == h.len() {
                assert(pruned(h.skip(k as int), now) == h.skip(k as int));
            }
        }
        let mut rest: Vec<(u64, OperationType)> = Vec::new();
        let mut j: usize = k;
        while j < self.history.len()
            invariant
                h == self.history@,
                k <= j <= h.len(),
                rest@ == h.subrange(k as int, j as int),
            decreases h.len() - j,
        {
            rest.push(self.history[j]);
            assert(rest@ =~= h.subrange(k as int, j + 1));
            j = j + 1;
        }
        proof {
            assert(rest@ =~= h.skip(k as int));
            lemma_recent_pruned(h, now, self.clock);
            assert forall|i: int| 0 <= i < rest@.len() implies (#[trigger] rest@[i]).0 <= self.clock by {
                assert(rest@[i] == h[i + k]);
            }
        }
        self.history = rest;
    }
    /// The number of active operations.
    pub fn active_operation_count(&self) -> (r: usize)
        ensures
            r == self.active().len(),
    {
        self.active.len()
    }

    /// The number of active operations on contract `a`.
    pub fn count_for_address(&self, a: &Address) -> (r: usize)
        ensures
            r == count_for(self.active(), *a),
    {
        let ghost s = self.active@;
        let mut n: usize = 0;
        let mut i: usize = 0;
        while i < self.active.len()
            invariant
                s == self.active@,
                0 <= i <= s.len(),
                n == count_for(s.take(i as int), *a),
                n <= i,
            decreases s.len() - i,
        {
            assert(s.take(i + 1).drop_last() =~= s.take(i as int));
            if addr_eq(&self.active[i].contract_addr, a) {
                n = n + 1;
            }
            i = i + 1;
        }
        assert(s.take(i as int) =~= s);
        n
    }

    /// The number of operations started less than a second before `now`.
    pub fn operations_per_second(&self, now: u64) -> (r: usize)
        ensures
            r == recent_count(self.history(), now),
    {
        let ghost h = self.history@;
        let mut n: usize = 0;
        let mut i: usize = 0;
        while i < self.history.len()
            invariant
                h == self.history@,
                0 <= i <= h.len(),
                n == recent_count(h.take(i as int), now),
                n <= i,
            decreases h.len() - i,
        {
            assert(h.take(i + 1).drop_last() =~= h.take(i as int));
            let t = self.history[i].0;
            let recent = if now >= t {
                now - t < RATE_WINDOW_MS
            } else {
                true
            };
            if recent {
                n = n + 1;
            }
            i = i + 1;
        }
        assert(h.take(i as int) =~= h);
        n
    }

    /// Admits an operation of kind `op` on contract `addr` at time `now`
    /// (milliseconds of a monotonic clock; a time before the last admission
    /// counts as that time). Expired operations are reaped first. Fails when
    /// 100 operations are active, 1000 started within the last second, or 10
    /// are active on `addr`.
    pub fn start_operation(&mut self, addr: Address, op: OperationType, now: u64) -> (r:
        ContractResult<()>)
        requires
            old(self).wf(),
        ensures
            final(self).wf(),
            ({
                let t = if now < old(self).clock() {
                    old(self).clock()
                } else {
                    now
                };
                let reaped = live_only(old(self).active(), t);
                let hist = pruned(old(self).history(), t);
                &&& r is Ok <==> reaped.len() < MAX_CONCURRENT_OPERATIONS && recent_count(hist, t)
                    < MAX_OPERATIONS_PER_SECOND && count_for(reaped, addr)
                    < MAX_OPERATIONS_PER_CONTRACT
                &&& r is Err ==> (r matches Err(e) && e is ConcurrencyLimitExceeded)
                    && final(self).active() == reaped && final(self).history() == hist
                    && final(self).clock() == old(self).clock()
                &&& r is Ok ==> final(self).active() == reaped.push(
                    OperationMetrics { operation_type: op, start_time: t, contract_addr: addr },
                ) && final(self).history() == hist.push((t, op)) && final(self).clock() == t
            }),
    {
        let t = if now < self.clock {
            self.clock
        } else {
            now
        };
        self.cleanup_expired_operations(t);
        proof {
            lemma_recent_pruned(old(self).history(), t, self.clock);
            let k = choose|k: int|
                0 <= k <= old(self).history().len() && self.history() == old(self).history().skip(k);
            assert forall|i: int| 0 <= i < self.history@.len() implies (#[trigger] self.history@[i]).0 <= self.clock by {
                assert(self.history@[i] == old(self).history@[i + k]);
            }
        }
        if self.active.len() >= MAX_CONCURRENT_OPERATIONS {
            return Err(
                ContractError::ConcurrencyLimitExceeded(
                    "maximum concurrent operations exceeded".to_owned(),
                ),
            );
        }
        if self.operations_per_second(t) >= MAX_OPERATIONS_PER_SECOND {
            return Err(
                ContractError::ConcurrencyLimitExceeded(
                    "maximum operations per second exceeded".to_owned(),
                ),
            );
        }
        if self.count_for_address(&addr) >= MAX_OPERATIONS_PER_CONTRACT {
            return Err(
                ContractError::ConcurrencyLimitExceeded(
                    "maximum concurrent operations per contract exceeded".to_owned(),
                ),
            );
        }
        let ghost a0 = self.active@;
        let ghost h0 = self.history@;
        let m = OperationMetrics { operation_type: op, start_time: t, contract_addr: addr };
        self.active.push(m);
        self.history.push((t, op));
        self.clock = t;
        proof {
            assert(self.active@.drop_last() =~= a0);
            assert(self.history@.drop_last() =~= h0);
            assert forall|i: int| 0 <= i < self.history@.len() implies (#[trigger] self.history@[i]).0 <= self.clock by {
                if i < h0.len() {
                    assert(self.history@[i] == h0[i]);
                }
            }
            assert forall|b: Address| count_for(self.active(), b) <= MAX_OPERATIONS_PER_CONTRACT by {
                assert(count_for(self.active(), b) == count_for(a0, b) + if addr == b {
                    1nat
                } else {
                    0nat
                });
            }
        }
        Ok(())
    }

    /// Releases one active operation of kind `op` on contract `addr`: the
    /// oldest such, if any.
    pub fn end_operation(&mut self, addr: &Address, op: OperationType)
        requires
            old(self).wf(),
        ensures
            final(self).wf(),
            final(self).history() == old(self).history(),
            final(self).clock() == old(self).clock(),
            has_match(old(self).active(), *addr, op) ==> exists|i: int|
                is_first_match(old(self).active(), *addr, op, i) && final(self).active() == old(
                    self,
                ).active().remove(i),
            !has_match(old(self).active(), *addr, op) ==> final(self).active() == old(
                self,
            ).active(),
    {
        let ghost s = self.active@;
        let mut i: usize = 0;
        while i < self.active.len()
            invariant
                s == self.active@,
                s == old(self).active@,
                old(self).wf(),
                self.history@ == old(self).history@,
                self.clock == old(self).clock,
                0 <= i <= s.len(),
                forall|j: int|
                    0 <= j < i ==> !(s[j].contract_addr == *addr && s[j].operation_type == op),
            decreases s.len() - i,
        {
            if addr_eq(&self.active[i].contract_addr, addr) && self.active[i].operation_type == op {
                proof {
                    assert(is_first_match(s, *addr, op, i as int));
                    assert forall|b: Address| count_for(s.remove(i as int), b) <= MAX_OPERATIONS_PER_CONTRACT by {
                        lemma_count_remove(s, i as int, b);
                    }
                }
                self.active.remove(i);
                return ;
            }
            i = i + 1;
        }
    }
}

} // verus!
