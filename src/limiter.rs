//! The control surface: the process snapshot, blocking, bandwidth caps and
//! their reconciliation with the policy store, and status.
use crate::address::WinDivertAddress;
use crate::interception::{decide, reinjected, reinjected_of, verdict_for, Verdict};
use crate::names::{connections_guess, estimate_connections_for_process, exe_name, exe_name_of, lower_of};
use crate::rate::{parse_rate_kbps, rate_of, RateError};
use crate::reconciler::{
    fallback_plan, is_limit_ops, is_removal_ops, limit_ops, packet_delay_of, policy_name,
    policy_name_of, realtime_name_of, realtime_policy_name, removal_ops, throttle_bits,
    throttle_bits_of, FallbackPlan, PrimaryOutcome, StoreOp, FALLBACK_SECONDS, POLICY_PREFIX,
};
use crate::registry::{state_in, PolicyRegistry, PolicyState};
use vstd::prelude::*;
use vstd::string::StringExecFns;

verus! {

/// Processes with an id at most this are the system's own and never managed.
pub const MAX_SYSTEM_PID: u32 = 4;

/// One process of a snapshot.
#[derive(Debug)]
pub struct ProcessNetworkInfo {
    pub pid: u32,
    pub name: String,
}

/// A managed candidate: a process of the last snapshot with display telemetry.
#[derive(Debug)]
pub struct NetworkProcessInfo {
    pub pid: u32,
    pub name: String,
    pub bytes_sent: u64,
    pub bytes_received: u64,
    pub packets_sent: u64,
    pub packets_received: u64,
    /// Whether a cap stands on the process.
    pub is_limited: bool,
    /// The cap in KiB/s.
    pub speed_limit: Option<u32>,
    pub connections: u32,
    /// Bytes per second, as last estimated.
    pub current_upload_speed: u64,
    pub current_download_speed: u64,
}

/// Totals over the snapshot.
#[derive(Debug, Clone, Copy, PartialEq, Eq, Structural)]
pub struct NetworkStats {
    pub total_upload_bytes: u64,
    pub total_download_bytes: u64,
    pub total_processes: usize,
    pub limited_processes_count: usize,
}

/// One line of `status`.
#[derive(Debug)]
pub struct ProcessStatus {
    pub pid: u32,
    pub name: String,
    pub state: PolicyState,
}

/// Why a control request was refused. Nothing was changed in either case.
#[derive(Debug, Clone, Copy, PartialEq, Eq, Structural)]
pub enum ControlError {
    /// The process is not in the current snapshot.
    UnknownProcess,
    /// The cap text does not read as a non-negative number.
    InvalidRateInput(RateError),
    /// Neither the policy nor the approximate limiter could be put in place.
    LimitNotApplied,
}

/// What the caller is to do with the policy store after a cap request.
#[derive(Debug)]
pub enum LimitPlan {
    /// Run `ops`, then read the policy back and compare its rate with
    /// `throttle_bits`; report the outcome to `settle_limit`.
    Apply { ops: Vec<StoreOp>, app_name: String, throttle_bits: u64 },
    /// A zero cap: run `ops`, which lift the cap.
    Remove { ops: Vec<StoreOp> },
}

/// Whether some process of `procs` has id `pid`.
pub open spec fn in_snapshot(procs: Seq<NetworkProcessInfo>, pid: u32) -> bool {
    exists|i: int| 0 <= i < procs.len() && (#[trigger] procs[i]).pid == pid
}

/// The name of `pid` in `procs`.
pub open spec fn name_in(procs: Seq<NetworkProcessInfo>, pid: u32) -> Seq<char> {
    procs[choose|i: int| 0 <= i < procs.len() && (#[trigger] procs[i]).pid == pid].name@
}

/// The processes a snapshot admits, as (pid, name): system ids are left
/// out, and of two rows with one id the first is kept.
pub open spec fn admitted(rows: Seq<ProcessNetworkInfo>) -> Seq<(u32, Seq<char>)>
    decreases rows.len(),
{
    if rows.len() == 0 {
        seq![]
    } else {
        let a = admitted(rows.drop_last());
        let r = rows.last();
        if r.pid > MAX_SYSTEM_PID && !(exists|k: int| 0 <= k < a.len() && (#[trigger] a[k]).0 == r.pid) {
            a.push((r.pid, r.name@))
        } else {
            a
        }
    }
}

/// The (pid, name) pairs of `procs`.
pub open spec fn pid_names(procs: Seq<NetworkProcessInfo>) -> Seq<(u32, Seq<char>)> {
    procs.map_values(|p: NetworkProcessInfo| (p.pid, p.name@))
}

/// `m` after `pid` is unblocked: only a block is lifted.
pub open spec fn unblocked(m: Map<u32, PolicyState>, pid: u32) -> Map<u32, PolicyState> {
    if state_in(m, pid) == PolicyState::Blocked {
        m.remove(pid)
    } else {
        m
    }
}

/// `m` after the cap of `pid` is lifted: only a cap is removed.
pub open spec fn lifted(m: Map<u32, PolicyState>, pid: u32) -> Map<u32, PolicyState> {
    if state_in(m, pid) is Limited {
        m.remove(pid)
    } else {
        m
    }
}

/// `ops` deletes both policy names of `pid` somewhere.
pub open spec fn deletes_names_of(ops: Seq<StoreOp>, pid: u32) -> bool {
    &&& exists|x: int|
        0 <= x < ops.len() && (#[trigger] ops[x]) is Delete && ops[x]->Delete_name@
            == policy_name_of(pid)
    &&& exists|x: int|
        0 <= x < ops.len() && (#[trigger] ops[x]) is Delete && ops[x]->Delete_name@
            == realtime_name_of(pid)
}

/// Sum of the upload rates of `procs`.
pub open spec fn upload_sum(procs: Seq<NetworkProcessInfo>) -> nat
    decreases procs.len(),
{
    if procs.len() == 0 {
        0
    } else {
        upload_sum(procs.drop_last()) + (procs.last().current_upload_speed as nat)
    }
}

/// Sum of the download rates of `procs`.
pub open spec fn download_sum(procs: Seq<NetworkProcessInfo>) -> nat
    decreases procs.len(),
{
    if procs.len() == 0 {
        0
    } else {
        download_sum(procs.drop_last()) + (procs.last().current_download_speed as nat)
    }
}

/// How many of `procs` carry a cap in `m`.
pub open spec fn limited_count(procs: Seq<NetworkProcessInfo>, m: Map<u32, PolicyState>) -> nat
    decreases procs.len(),
{
    if procs.len() == 0 {
        0
    } else {
        limited_count(procs.drop_last(), m) + if state_in(m, procs.last().pid) is Limited {
            1nat
        } else {
            0nat
        }
    }
}

pub open spec fn saturated(n: nat) -> u64 {
    if n > u64::MAX {
        u64::MAX
    } else {
        n as u64
    }
}

/// Relies on sysinfo's `System::refresh_processes` and `System::processes`:
/// the running processes with their ids and names. What is running is the
/// machine's business, so nothing is promised of the list.
#[verifier::external_body]
fn running_processes() -> (r: Vec<ProcessNetworkInfo>) {
    let mut system = sysinfo::System::new();
    system.refresh_processes();
    system.processes().iter().map(
        |(pid, p)| ProcessNetworkInfo { pid: pid.as_u32(), name: p.name().to_string() },
    ).collect()
}

/// Once `block(pid)` has succeeded, the status that follows has a line for
/// the process that reads `Blocked`, and no packet attributed to it is sent
/// back. `before` and `after` are the policy maps around `block`, `procs` the
/// snapshot (which `block` keeps), and `rows` what `status` returns then.
pub proof fn lemma_block_then_status(
    before: Map<u32, PolicyState>,
    after: Map<u32, PolicyState>,
    procs: Seq<NetworkProcessInfo>,
    rows: Seq<ProcessStatus>,
    pid: u32,
    packets: Seq<WinDivertAddress>,
)
    requires
        in_snapshot(procs, pid),
        pid > MAX_SYSTEM_PID,
        after == before.insert(pid, PolicyState::Blocked),
        rows.len() == procs.len(),
        forall|i: int|
            0 <= i < rows.len() ==> (#[trigger] rows[i]).pid == procs[i].pid && rows[i].state
                == state_in(after, procs[i].pid),
    ensures
        exists|i: int|
            0 <= i < rows.len() && (#[trigger] rows[i]).pid == pid && rows[i].state
                == PolicyState::Blocked,
        forall|j: int|
            0 <= j < reinjected_of(after, packets).len() ==> (#[trigger] reinjected_of(
                after,
                packets,
            )[j]).process_id != pid,
{
    let i = choose|i: int| 0 <= i < procs.len() && (#[trigger] procs[i]).pid == pid;
    assert(rows[i].pid == pid && rows[i].state == PolicyState::Blocked);
    crate::interception::lemma_blocked_never_reinjected(after, packets, pid);
}

/// Unblocking after a block leaves the process unmanaged, and unblocking it
/// again changes nothing.
pub proof fn lemma_unblock_idempotent(m: Map<u32, PolicyState>, pid: u32)
    ensures
        state_in(unblocked(m.insert(pid, PolicyState::Blocked), pid), pid) == PolicyState::Unmanaged,
        unblocked(unblocked(m.insert(pid, PolicyState::Blocked), pid), pid) == unblocked(
            m.insert(pid, PolicyState::Blocked),
            pid,
        ),
{
}

/// The engine's state: the last process snapshot and the policy registry.
pub struct NetworkLimiter {
    registry: PolicyRegistry,
    processes: Vec<NetworkProcessInfo>,
}

fn pid_in(procs: &Vec<NetworkProcessInfo>, pid: u32) -> (r: Option<usize>)
    ensures
        r.is_none() <==> !in_snapshot(procs@, pid),
        r.is_some() ==> r.unwrap() < procs@.len() && procs@[r.unwrap() as int].pid == pid,
{
    let mut i: usize = 0;
    while i < procs.len()
        invariant
            i <= procs@.len(),
            forall|k: int| 0 <= k < i ==> (#[trigger] procs@[k]).pid != pid,
        decreases procs@.len() - i,
    {
        if procs[i].pid == pid {
            return Some(i);
        }
        i = i + 1;
    }
    None
}

fn fresh_process(pid: u32, name: &String) -> (r: NetworkProcessInfo)
    ensures
        r.pid == pid,
        r.name@ == name@,
        r.bytes_sent == 0 && r.bytes_received == 0,
        r.packets_sent == 0 && r.packets_received == 0,
        !r.is_limited && r.speed_limit.is_none(),
        r.connections == connections_guess(lower_of(name@)),
        r.current_upload_speed == 0 && r.current_download_speed == 0,
{
    NetworkProcessInfo {
        pid,
        name: name.clone(),
        bytes_sent: 0,
        bytes_received: 0,
        packets_sent: 0,
        packets_received: 0,
        is_limited: false,
        speed_limit: None,
        connections: estimate_connections_for_process(name.as_str()),
        current_upload_speed: 0,
        current_download_speed: 0,
    }
}

impl NetworkLimiter {
    /// The policy states.
    pub closed spec fn policies(&self) -> Map<u32, PolicyState> {
        self.registry@
    }

    /// The processes of the last snapshot, in snapshot order.
    pub closed spec fn procs(&self) -> Seq<NetworkProcessInfo> {
        self.processes@
    }

    /// Ids are distinct and above the system range, and every managed
    /// process is in the snapshot.
    pub closed spec fn wf(&self) -> bool {
        &&& self.registry.wf()
        &&& forall|i: int, j: int|
            0 <= i < j < self.processes@.len() ==> (#[trigger] self.processes@[i]).pid
                != (#[trigger] self.processes@[j]).pid
        &&& forall|i: int|
            0 <= i < self.processes@.len() ==> (#[trigger] self.processes@[i]).pid
                > MAX_SYSTEM_PID
        &&& forall|p: u32| #[trigger] self.registry@.contains_key(p) ==> in_snapshot(self.processes@, p)
    }

    /// An engine with no snapshot and no policy.
    pub fn new() -> (r: Self)
        ensures
            r.wf(),
            r.policies() == Map::<u32, PolicyState>::empty(),
            r.procs().len() == 0,
    {
        NetworkLimiter { registry: PolicyRegistry::new(), processes: Vec::new() }
    }

    /// The verdict on one diverted packet.
    pub fn judge(&self, addr: &WinDivertAddress) -> (v: Verdict)
        ensures
            v == verdict_for(self.policies(), *addr),
    {
        decide(&self.registry, addr)
    }

    /// The packets of a batch that go back to the network, in order.
    pub fn reinjected(&self, packets: &Vec<WinDivertAddress>) -> (r: Vec<WinDivertAddress>)
        ensures
            r@ == reinjected_of(self.policies(), packets@),
    {
        reinjected(&self.registry, packets)
    }

    /// Whether a cap stands on `pid`.
    pub fn is_process_limited(&self, pid: u32) -> (r: bool)
        ensures
            r == (state_in(self.policies(), pid) is Limited),
    {
        match self.registry.get(pid) {
            PolicyState::Limited { .. } => true,
            _ => false,
        }
    }

    /// The cap on `pid` in KiB/s.
    pub fn get_process_limit(&self, pid: u32) -> (r: Option<u32>)
        ensures
            r == (match state_in(self.policies(), pid) {
                PolicyState::Limited { kbps, .. } => Some(kbps),
                _ => None,
            }),
    {
        match self.registry.get(pid) {
            PolicyState::Limited { kbps, .. } => Some(kbps),
            _ => None,
        }
    }

    /// The state of `pid`.
    pub fn state_of(&self, pid: u32) -> (r: PolicyState)
        ensures
            r == state_in(self.policies(), pid),
    {
        self.registry.get(pid)
    }

    /// Blocks every packet of `pid`. A cap on it is lifted first: the
    /// returned operations delete its policies. A process outside the
    /// snapshot is refused.
    pub fn block(&mut self, pid: u32) -> (r: Result<Vec<StoreOp>, ControlError>)
        requires
            old(self).wf(),
        ensures
            final(self).wf(),
            final(self).procs() == old(self).procs(),
            !in_snapshot(old(self).procs(), pid) ==> r == Err::<Vec<StoreOp>, ControlError>(
                ControlError::UnknownProcess,
            ) && final(self).policies() == old(self).policies(),
            in_snapshot(old(self).procs(), pid) ==> r is Ok && final(self).policies() == old(self).policies().insert(pid, PolicyState::Blocked) && (if state_in(
                old(self).policies(),
                pid,
            ) is Limited {
                is_removal_ops(r->Ok_0@, pid)
            } else {
                r->Ok_0@.len() == 0
            }),
    {
        if pid_in(&self.processes, pid).is_none() {
            return Err(ControlError::UnknownProcess);
        }
        let ops = match self.registry.get(pid) {
            PolicyState::Limited { .. } => removal_ops(pid),
            _ => Vec::new(),
        };
        self.registry.set(pid, PolicyState::Blocked);
        Ok(ops)
    }

    /// Lets the packets of `pid` through again. Only a block is lifted; on
    /// any other state, or a second call, nothing changes.
    pub fn unblock(&mut self, pid: u32)
        requires
            old(self).wf(),
        ensures
            final(self).wf(),
            final(self).procs() == old(self).procs(),
            final(self).policies() == unblocked(old(self).policies(), pid),
    {
        if self.registry.get(pid) == PolicyState::Blocked {
            self.registry.remove(pid);
        }
    }

    /// Lifts the cap of `pid` and returns the operations that delete its
    /// policies. Lifting a cap that is not there is no error.
    pub fn remove_process_limit(&mut self, pid: u32) -> (r: Vec<StoreOp>)
        requires
            old(self).wf(),
        ensures
            final(self).wf(),
            final(self).procs() == old(self).procs(),
            final(self).policies() == lifted(old(self).policies(), pid),
            is_removal_ops(r@, pid),
    {
        match self.registry.get(pid) {
            PolicyState::Limited { .. } => self.registry.remove(pid),
            _ => {},
        }
        removal_ops(pid)
    }

    /// Caps `pid` at `limit_kbps` KiB/s, whatever it was before; a zero cap
    /// lifts the cap instead. Returns what the policy store is to do.
    pub fn set_process_speed_limit(&mut self, pid: u32, limit_kbps: u32) -> (r: Result<
        LimitPlan,
        ControlError,
    >)
        requires
            old(self).wf(),
        ensures
            final(self).wf(),
            final(self).procs() == old(self).procs(),
            !in_snapshot(old(self).procs(), pid) ==> r == Err::<LimitPlan, ControlError>(
                ControlError::UnknownProcess,
            ) && final(self).policies() == old(self).policies(),
            in_snapshot(old(self).procs(), pid) && limit_kbps == 0 ==> r is Ok && r->Ok_0 is Remove
                && is_removal_ops(r->Ok_0->Remove_ops@, pid) && final(self).policies() == lifted(
                old(self).policies(),
                pid,
            ),
            in_snapshot(old(self).procs(), pid) && limit_kbps > 0 ==> r is Ok && r->Ok_0 is Apply
                && is_limit_ops(
                r->Ok_0->Apply_ops@,
                pid,
                exe_name_of(name_in(old(self).procs(), pid)),
                limit_kbps,
            ) && r->Ok_0->Apply_app_name@ == exe_name_of(name_in(old(self).procs(), pid))
                && r->Ok_0->Apply_throttle_bits == throttle_bits_of(limit_kbps) && final(self).policies() == old(self).policies().insert(
                pid,
                PolicyState::Limited { kbps: limit_kbps, fallback: false },
            ),
    {
        let i = match pid_in(&self.processes, pid) {
            Some(i) => i,
            None => {
                return Err(ControlError::UnknownProcess);
            },
        };
        if limit_kbps == 0 {
            let ops = self.remove_process_limit(pid);
            return Ok(LimitPlan::Remove { ops });
        }
        proof {
            let c = choose|k: int|
                0 <= k < self.processes@.len() && (#[trigger] self.processes@[k]).pid == pid;
            assert(c == i);
        }
        let app_name = exe_name(self.processes[i].name.as_str());
        let ops = limit_ops(pid, &app_name, limit_kbps);
        self.registry.set(pid, PolicyState::Limited { kbps: limit_kbps, fallback: false });
        Ok(LimitPlan::Apply { ops, app_name, throttle_bits: throttle_bits(limit_kbps) })
    }

    /// Caps `pid` at the rate the user typed, in MiB/s. The text is checked
    /// before anything else: a refused text changes nothing and asks nothing
    /// of the policy store.
    pub fn set_limit(&mut self, pid: u32, rate_text: &str) -> (r: Result<
        LimitPlan,
        ControlError,
    >)
        requires
            old(self).wf(),
        ensures
            final(self).wf(),
            final(self).procs() == old(self).procs(),
            rate_of(rate_text@) is Err ==> r == Err::<LimitPlan, ControlError>(
                ControlError::InvalidRateInput(rate_of(rate_text@)->Err_0),
            ) && final(self).policies() == old(self).policies(),
            rate_of(rate_text@) is Ok && !in_snapshot(old(self).procs(), pid) ==> r == Err::<
                LimitPlan,
                ControlError,
            >(ControlError::UnknownProcess) && final(self).policies() == old(self).policies(),
            rate_of(rate_text@) == Ok::<u32, RateError>(0) && in_snapshot(old(self).procs(), pid)
                ==> r is Ok && r->Ok_0 is Remove && is_removal_ops(r->Ok_0->Remove_ops@, pid)
                && final(self).policies() == lifted(old(self).policies(), pid),
            rate_of(rate_text@) is Ok && rate_of(rate_text@)->Ok_0 > 0 && in_snapshot(
                old(self).procs(),
                pid,
            ) ==> r is Ok && r->Ok_0 is Apply && is_limit_ops(
                r->Ok_0->Apply_ops@,
                pid,
                exe_name_of(name_in(old(self).procs(), pid)),
                rate_of(rate_text@)->Ok_0,
            ) && final(self).policies() == old(self).policies().insert(
                pid,
                PolicyState::Limited { kbps: rate_of(rate_text@)->Ok_0, fallback: false },
            ),
    {
        match parse_rate_kbps(rate_text) {
            Err(e) => Err(ControlError::InvalidRateInput(e)),
            Ok(kbps) => self.set_process_speed_limit(pid, kbps),
        }
    }

    /// Records how the primary path of a cap on `pid` ended. When it failed
    /// and the cap still stands as requested, the cap is marked as held by
    /// the fallback, whose plan is returned; otherwise nothing changes.
    pub fn settle_limit(&mut self, pid: u32, kbps: u32, outcome: PrimaryOutcome) -> (r: Option<
        FallbackPlan,
    >)
        requires
            old(self).wf(),
        ensures
            final(self).wf(),
            final(self).procs() == old(self).procs(),
            ({
                let owed = outcome != PrimaryOutcome::Applied && state_in(old(self).policies(), pid)
                    == (PolicyState::Limited { kbps, fallback: false });
                &&& owed ==> r is Some && final(self).policies() == old(self).policies().insert(
                    pid,
                    PolicyState::Limited { kbps, fallback: true },
                ) && r->Some_0.pid == pid && r->Some_0.app_name@ == exe_name_of(
                    name_in(old(self).procs(), pid),
                ) && r->Some_0.bytes_per_sec == kbps as nat * 1024 && r->Some_0.delay_ms
                    == packet_delay_of((kbps as u64 * 1024) as u64) && r->Some_0.duration_secs
                    == FALLBACK_SECONDS
                &&& !owed ==> r is None && final(self).policies() == old(self).policies()
            }),
    {
        if outcome == PrimaryOutcome::Applied {
            return None;
        }
        if self.registry.get(pid) != (PolicyState::Limited { kbps, fallback: false }) {
            return None;
        }
        let i = match pid_in(&self.processes, pid) {
            Some(i) => i,
            None => {
                return None;
            },
        };
        proof {
            let c = choose|k: int|
                0 <= k < self.processes@.len() && (#[trigger] self.processes@[k]).pid == pid;
            assert(c == i);
        }
        let app_name = exe_name(self.processes[i].name.as_str());
        self.registry.set(pid, PolicyState::Limited { kbps, fallback: true });
        Some(fallback_plan(pid, &app_name, kbps))
    }

    /// Lifts every cap and block. The returned operations delete the
    /// policies of each capped process, then sweep the policy prefix so that
    /// policies left by an earlier run go too.
    pub fn clear_all_limits(&mut self) -> (r: Vec<StoreOp>)
        requires
            old(self).wf(),
        ensures
            final(self).wf(),
            final(self).procs() == old(self).procs(),
            final(self).policies() == Map::<u32, PolicyState>::empty(),
            r@.len() > 0,
            r@.last() is DeletePrefixed,
            r@.last()->DeletePrefixed_prefix@ == POLICY_PREFIX@,
            forall|i: int| 0 <= i < r@.len() - 1 ==> (#[trigger] r@[i]) is Delete,
            forall|p: u32|
                state_in(old(self).policies(), p) is Limited ==> deletes_names_of(r@, p),
    {
        let managed = self.registry.managed_pids();
        let mut ops: Vec<StoreOp> = Vec::new();
        let mut k: usize = 0;
        while k < managed.len()
            invariant
                self.registry@ == old(self).registry@,
                self.processes@ == old(self).processes@,
                k <= managed@.len(),
                forall|p: u32| managed@.contains(p) <==> self.registry@.contains_key(p),
                forall|i: int| 0 <= i < ops@.len() ==> (#[trigger] ops@[i]) is Delete,
                forall|j: int|
                    0 <= j < k && state_in(self.registry@, #[trigger] managed@[j]) is Limited
                        ==> deletes_names_of(ops@, managed@[j]),
            decreases managed@.len() - k,
        {
            let p = managed[k];
            match self.registry.get(p) {
                PolicyState::Limited { .. } => {
                    let ghost before = ops@;
                    ops.push(StoreOp::Delete { name: policy_name(p) });
                    ops.push(StoreOp::Delete { name: realtime_policy_name(p) });
                    proof {
                        assert forall|j: int|
                            0 <= j < k && state_in(self.registry@, #[trigger] managed@[j]) is Limited
                                implies deletes_names_of(ops@, managed@[j]) by {
                            let q = managed@[j];
                            let x1 = choose|x: int|
                                0 <= x < before.len() && (#[trigger] before[x]) is Delete
                                    && before[x]->Delete_name@ == policy_name_of(q);
                            let x2 = choose|x: int|
                                0 <= x < before.len() && (#[trigger] before[x]) is Delete
                                    && before[x]->Delete_name@ == realtime_name_of(q);
                            assert(ops@[x1] == before[x1]);
                            assert(ops@[x2] == before[x2]);
                        }
                        let n = before.len() as int;
                        assert(ops@[n] is Delete && ops@[n]->Delete_name@ == policy_name_of(p));
                        assert(ops@[n + 1] is Delete && ops@[n + 1]->Delete_name@ == realtime_name_of(
                            p,
                        ));
                    }
                },
                _ => {},
            }
            k = k + 1;
        }
        proof {
            assert forall|p: u32| state_in(old(self).policies(), p) is Limited implies deletes_names_of(
                ops@,
                p,
            ) by {
                assert(managed@.contains(p));
                let j = choose|j: int| 0 <= j < managed@.len() && managed@[j] == p;
                assert(state_in(self.registry@, managed@[j]) is Limited);
            }
        }
        self.registry.clear();
        let ghost before = ops@;
        ops.push(StoreOp::DeletePrefixed { prefix: String::from_str(POLICY_PREFIX) });
        proof {
            assert forall|p: u32| state_in(old(self).policies(), p) is Limited implies deletes_names_of(
                ops@,
                p,
            ) by {
                assert(deletes_names_of(before, p));
                let x1 = choose|x: int|
                    0 <= x < before.len() && (#[trigger] before[x]) is Delete
                        && before[x]->Delete_name@ == policy_name_of(p);
                let x2 = choose|x: int|
                    0 <= x < before.len() && (#[trigger] before[x]) is Delete
                        && before[x]->Delete_name@ == realtime_name_of(p);
                assert(ops@[x1] == before[x1]);
                assert(ops@[x2] == before[x2]);
            }
            assert forall|i: int| 0 <= i < ops@.len() - 1 implies (#[trigger] ops@[i]) is Delete by {
                assert(ops@[i] == before[i]);
            }
        }
        ops
    }

    /// One status line per process of the snapshot, in snapshot order.
    pub fn status(&self) -> (r: Vec<ProcessStatus>)
        ensures
            r@.len() == self.procs().len(),
            forall|i: int|
                0 <= i < r@.len() ==> (#[trigger] r@[i]).pid == self.procs()[i].pid && r@[i].name@
                    == self.procs()[i].name@ && r@[i].state == state_in(
                    self.policies(),
                    self.procs()[i].pid,
                ),
    {
        let mut out: Vec<ProcessStatus> = Vec::new();
        let mut i: usize = 0;
        while i < self.processes.len()
            invariant
                i <= self.processes@.len(),
                out@.len() == i,
                forall|j: int|
                    0 <= j < i ==> (#[trigger] out@[j]).pid == self.processes@[j].pid
                        && out@[j].name@ == self.processes@[j].name@ && out@[j].state == state_in(
                        self.registry@,
                        self.processes@[j].pid,
                    ),
            decreases self.processes@.len() - i,
        {
            let p = &self.processes[i];
            out.push(ProcessStatus { pid: p.pid, name: p.name.clone(), state: self.registry.get(p.pid) });
            i = i + 1;
        }
        out
    }

    /// The processes of the snapshot with their caps, in snapshot order.
    pub fn get_processes(&self) -> (r: Vec<NetworkProcessInfo>)
        ensures
            r@.len() == self.procs().len(),
            forall|i: int|
                0 <= i < r@.len() ==> {
                    let q = #[trigger] r@[i];
                    let p = self.procs()[i];
                    &&& q.pid == p.pid && q.name@ == p.name@
                    &&& q.bytes_sent == p.bytes_sent && q.bytes_received == p.bytes_received
                    &&& q.packets_sent == p.packets_sent && q.packets_received == p.packets_received
                    &&& q.connections == p.connections
                    &&& q.current_upload_speed == p.current_upload_speed
                    &&& q.current_download_speed == p.current_download_speed
                    &&& q.is_limited == (state_in(self.policies(), p.pid) is Limited)
                    &&& q.speed_limit == (match state_in(self.policies(), p.pid) {
                        PolicyState::Limited { kbps, .. } => Some(kbps),
                        _ => None,
                    })
                },
    {
        let mut out: Vec<NetworkProcessInfo> = Vec::new();
        let mut i: usize = 0;
        while i < self.processes.len()
            invariant
                i <= self.processes@.len(),
                out@.len() == i,
                forall|j: int|
                    0 <= j < i ==> {
                        let q = #[trigger] out@[j];
                        let p = self.processes@[j];
                        &&& q.pid == p.pid && q.name@ == p.name@
                        &&& q.bytes_sent == p.bytes_sent && q.bytes_received == p.bytes_received
                        &&& q.packets_sent == p.packets_sent && q.packets_received
                            == p.packets_received
                        &&& q.connections == p.connections
                        &&& q.current_upload_speed == p.current_upload_speed
                        &&& q.current_download_speed == p.current_download_speed
                        &&& q.is_limited == (state_in(self.registry@, p.pid) is Limited)
                        &&& q.speed_limit == (match state_in(self.registry@, p.pid) {
                            PolicyState::Limited { kbps, .. } => Some(kbps),
                            _ => None,
                        })
                    },
            decreases self.processes@.len() - i,
        {
            let p = &self.processes[i];
            out.push(
                NetworkProcessInfo {
                    pid: p.pid,
                    name: p.name.clone(),
                    bytes_sent: p.bytes_sent,
                    bytes_received: p.bytes_received,
                    packets_sent: p.packets_sent,
                    packets_received: p.packets_received,
                    is_limited: self.is_process_limited(p.pid),
                    speed_limit: self.get_process_limit(p.pid),
                    connections: p.connections,
                    current_upload_speed: p.current_upload_speed,
                    current_download_speed: p.current_download_speed,
                },
            );
            i = i + 1;
        }
        out
    }

    /// Totals over the snapshot; rate sums stop at `u64::MAX`.
    pub fn get_network_stats(&self) -> (r: NetworkStats)
        ensures
            r.total_upload_bytes == saturated(upload_sum(self.procs())),
            r.total_download_bytes == saturated(download_sum(self.procs())),
            r.total_processes == self.procs().len(),
            r.limited_processes_count == limited_count(self.procs(), self.policies()),
    {
        let mut up: u64 = 0;
        let mut down: u64 = 0;
        let mut limited: usize = 0;
        let mut i: usize = 0;
        while i < self.processes.len()
            invariant
                i <= self.processes@.len(),
                up == saturated(upload_sum(self.processes@.take(i as int))),
                down == saturated(download_sum(self.processes@.take(i as int))),
                limited == limited_count(self.processes@.take(i as int), self.registry@),
                limited <= i,
            decreases self.processes@.len() - i,
        {
            let p = &self.processes[i];
            proof {
                let t = self.processes@.take(i + 1);
                assert(t.drop_last() =~= self.processes@.take(i as int));
                assert(t.last() == self.processes@[i as int]);
            }
            up = up.saturating_add(p.current_upload_speed);
            down = down.saturating_add(p.current_download_speed);
            if self.is_process_limited(p.pid) {
                limited = limited + 1;
            }
            i = i + 1;
        }
        assert(self.processes@.take(self.processes@.len() as int) =~= self.processes@);
        NetworkStats {
            total_upload_bytes: up,
            total_download_bytes: down,
            total_processes: self.processes.len(),
            limited_processes_count: limited,
        }
    }

    /// Records the estimated traffic of `pid` (display only; no decision
    /// reads it). Packets are counted as one per KiB. Returns whether the
    /// process is in the snapshot.
    pub fn record_activity(
        &mut self,
        pid: u32,
        bytes_sent: u64,
        bytes_received: u64,
        upload_speed: u64,
        download_speed: u64,
    ) -> (found: bool)
        requires
            old(self).wf(),
        ensures
            final(self).wf(),
            final(self).policies() == old(self).policies(),
            found == in_snapshot(old(self).procs(), pid),
            final(self).procs().len() == old(self).procs().len(),
            forall|i: int|
                0 <= i < old(self).procs().len() ==> {
                    let p = #[trigger] final(self).procs()[i];
                    let o = old(self).procs()[i];
                    &&& p.pid == o.pid && p.name@ == o.name@ && p.connections == o.connections
                    &&& o.pid != pid ==> p == o
                    &&& o.pid == pid ==> p.bytes_sent == bytes_sent && p.bytes_received
                        == bytes_received && p.packets_sent == bytes_sent / 1024
                        && p.packets_received == bytes_received / 1024 && p.current_upload_speed
                        == upload_speed && p.current_download_speed == download_speed
                },
    {
        let i = match pid_in(&self.processes, pid) {
            Some(i) => i,
            None => {
                return false;
            },
        };
        let old_p = &self.processes[i];
        let updated = NetworkProcessInfo {
            pid: old_p.pid,
            name: old_p.name.clone(),
            bytes_sent,
            bytes_received,
            packets_sent: bytes_sent / 1024,
            packets_received: bytes_received / 1024,
            is_limited: old_p.is_limited,
            speed_limit: old_p.speed_limit,
            connections: old_p.connections,
            current_upload_speed: upload_speed,
            current_download_speed: download_speed,
        };
        self.processes.set(i, updated);
        proof {
            assert forall|a: int, b: int|
                0 <= a < b < self.processes@.len() implies (#[trigger] self.processes@[a]).pid
                != (#[trigger] self.processes@[b]).pid by {
                assert(self.processes@[a].pid == old(self).processes@[a].pid);
                assert(self.processes@[b].pid == old(self).processes@[b].pid);
            }
            assert forall|p: u32| #[trigger] self.registry@.contains_key(p) implies in_snapshot(
                self.processes@,
                p,
            ) by {
                let k = choose|k: int|
                    0 <= k < old(self).processes@.len() && (#[trigger] old(self).processes@[k]).pid
                        == p;
                assert(self.processes@[k].pid == p);
            }
            assert forall|k: int| 0 <= k < self.processes@.len() implies (#[trigger] self.processes@[k]).pid
                > MAX_SYSTEM_PID by {
                assert(self.processes@[k].pid == old(self).processes@[k].pid);
            }
        }
        true
    }

    /// Records that the approximate limiter standing in for the cap of `pid`
    /// could not be started: the cap goes back to "requested" and the failure
    /// is reported. When the cap is no longer the one the fallback was
    /// planned for, nothing changes.
    pub fn fallback_failed(&mut self, pid: u32, kbps: u32) -> (r: Result<(), ControlError>)
        requires
            old(self).wf(),
        ensures
            final(self).wf(),
            final(self).procs() == old(self).procs(),
            state_in(old(self).policies(), pid) == (PolicyState::Limited { kbps, fallback: true })
                ==> r == Err::<(), ControlError>(ControlError::LimitNotApplied) && final(self).policies()
                == old(self).policies().insert(pid, PolicyState::Limited { kbps, fallback: false }),
            state_in(old(self).policies(), pid) != (PolicyState::Limited { kbps, fallback: true })
                ==> r == Ok::<(), ControlError>(()) && final(self).policies() == old(self).policies(),
    {
        if self.registry.get(pid) == (PolicyState::Limited { kbps, fallback: true }) {
            self.registry.set(pid, PolicyState::Limited { kbps, fallback: false });
            Err(ControlError::LimitNotApplied)
        } else {
            Ok(())
        }
    }

    /// Takes a new process snapshot. System ids and repeated ids are left
    /// out. A managed process that the snapshot no longer shows has its
    /// entry purged (its id may be reused); the returned operations delete
    /// the policies of those that were capped.
    pub fn apply_snapshot(&mut self, snapshot: &Vec<ProcessNetworkInfo>) -> (r: Vec<StoreOp>)
        requires
            old(self).wf(),
        ensures
            final(self).wf(),
            pid_names(final(self).procs()) == admitted(snapshot@),
            forall|i: int|
                0 <= i < final(self).procs().len() ==> {
                    let p = #[trigger] final(self).procs()[i];
                    &&& p.bytes_sent == 0 && p.bytes_received == 0
                    &&& p.packets_sent == 0 && p.packets_received == 0
                    &&& p.current_upload_speed == 0 && p.current_download_speed == 0
                    &&& p.connections == connections_guess(lower_of(p.name@))
                },
            forall|p: u32|
                #[trigger] final(self).policies().contains_key(p) <==> old(self).policies().contains_key(p)
                    && in_snapshot(final(self).procs(), p),
            forall|p: u32|
                #[trigger] final(self).policies().contains_key(p) ==> final(self).policies()[p] == old(
                self).policies()[p],
            forall|i: int| 0 <= i < r@.len() ==> (#[trigger] r@[i]) is Delete,
            forall|p: u32|
                state_in(old(self).policies(), p) is Limited && !in_snapshot(final(self).procs(), p)
                    ==> deletes_names_of(r@, p),
    {
        let mut fresh: Vec<NetworkProcessInfo> = Vec::new();
        let mut i: usize = 0;
        while i < snapshot.len()
            invariant
                i <= snapshot@.len(),
                pid_names(fresh@) == admitted(snapshot@.take(i as int)),
                forall|a: int, b: int|
                    0 <= a < b < fresh@.len() ==> (#[trigger] fresh@[a]).pid != (#[trigger] fresh@[b]).pid,
                forall|a: int| 0 <= a < fresh@.len() ==> (#[trigger] fresh@[a]).pid > MAX_SYSTEM_PID,
                forall|a: int|
                    0 <= a < fresh@.len() ==> {
                        let p = #[trigger] fresh@[a];
                        &&& p.bytes_sent == 0 && p.bytes_received == 0
                        &&& p.packets_sent == 0 && p.packets_received == 0
                        &&& p.current_upload_speed == 0 && p.current_download_speed == 0
                        &&& p.connections == connections_guess(lower_of(p.name@))
                    },
            decreases snapshot@.len() - i,
        {
            let row = &snapshot[i];
            let seen = pid_in(&fresh, row.pid);
            proof {
                let t = snapshot@.take(i + 1);
                assert(t.drop_last() =~= snapshot@.take(i as int));
                assert(t.last() == snapshot@[i as int]);
                let a = admitted(snapshot@.take(i as int));
                assert((exists|k: int| 0 <= k < a.len() && (#[trigger] a[k]).0 == row.pid)
                    == in_snapshot(fresh@, row.pid)) by {
                    if in_snapshot(fresh@, row.pid) {
                        let k = choose|k: int| 0 <= k < fresh@.len() && (#[trigger] fresh@[k]).pid == row.pid;
                        assert(a[k].0 == row.pid);
                    }
                    if exists|k: int| 0 <= k < a.len() && (#[trigger] a[k]).0 == row.pid {
                        let k = choose|k: int| 0 <= k < a.len() && (#[trigger] a[k]).0 == row.pid;
                        assert(fresh@[k].pid == row.pid);
                    }
                }
            }
            if row.pid > MAX_SYSTEM_PID && seen.is_none() {
                let ghost before = fresh@;
                fresh.push(fresh_process(row.pid, &row.name));
                proof {
                    assert(pid_names(fresh@) =~= pid_names(before).push((row.pid, row.name@)));
                }
            }
            i = i + 1;
        }
        assert(snapshot@.take(snapshot@.len() as int) =~= snapshot@);
        let managed = self.registry.managed_pids();
        let ghost old_reg = self.registry@;
        let mut ops: Vec<StoreOp> = Vec::new();
        let mut k: usize = 0;
        while k < managed.len()
            invariant
                old_reg == old(self).registry@,
                self.processes@ == old(self).processes@,
                self.registry.wf(),
                k <= managed@.len(),
                forall|p: u32| managed@.contains(p) <==> old_reg.contains_key(p),
                forall|p: u32|
                    #[trigger] self.registry@.contains_key(p) ==> old_reg.contains_key(p)
                        && self.registry@[p] == old_reg[p],
                forall|p: u32|
                    #[trigger] old_reg.contains_key(p) && in_snapshot(fresh@, p)
                        ==> self.registry@.contains_key(p),
                forall|j: int|
                    0 <= j < k && !in_snapshot(fresh@, #[trigger] managed@[j])
                        ==> !self.registry@.contains_key(managed@[j]),
                forall|p: u32|
                    #[trigger] old_reg.contains_key(p) && !self.registry@.contains_key(p) ==> (
                    !in_snapshot(fresh@, p) && (state_in(old_reg, p) is Limited ==> deletes_names_of(
                        ops@,
                        p,
                    ))),
                forall|x: int| 0 <= x < ops@.len() ==> (#[trigger] ops@[x]) is Delete,
            decreases managed@.len() - k,
        {
            let p = managed[k];
            if pid_in(&fresh, p).is_none() {
                let ghost before = ops@;
                match self.registry.get(p) {
                    PolicyState::Limited { .. } => {
                        ops.push(StoreOp::Delete { name: policy_name(p) });
                        ops.push(StoreOp::Delete { name: realtime_policy_name(p) });
                        proof {
                            let n = before.len() as int;
                            assert(ops@[n] is Delete && ops@[n]->Delete_name@ == policy_name_of(p));
                            assert(ops@[n + 1] is Delete && ops@[n + 1]->Delete_name@
                                == realtime_name_of(p));
                        }
                    },
                    _ => {},
                }
                proof {
                    assert forall|q: u32|
                        #[trigger] old_reg.contains_key(q) && !self.registry@.contains_key(q)
                            && state_in(old_reg, q) is Limited implies deletes_names_of(ops@, q) by {
                        assert(deletes_names_of(before, q));
                        let x1 = choose|x: int|
                            0 <= x < before.len() && (#[trigger] before[x]) is Delete
                                && before[x]->Delete_name@ == policy_name_of(q);
                        let x2 = choose|x: int|
                            0 <= x < before.len() && (#[trigger] before[x]) is Delete
                                && before[x]->Delete_name@ == realtime_name_of(q);
                        assert(ops@[x1] == before[x1]);
                        assert(ops@[x2] == before[x2]);
                    }
                }
                self.registry.remove(p);
                proof {
                    if state_in(old_reg, p) is Limited && self.registry@.contains_key(p) == false {
                        assert(old_reg.contains_key(p));
                    }
                }
            }
            k = k + 1;
        }
        proof {
            assert forall|p: u32| #[trigger] self.registry@.contains_key(p) implies in_snapshot(fresh@, p) by {
                assert(managed@.contains(p));
                let j = choose|j: int| 0 <= j < managed@.len() && managed@[j] == p;
                assert(in_snapshot(fresh@, managed@[j]));
            }
            assert forall|p: u32|
                state_in(old(self).policies(), p) is Limited && !in_snapshot(fresh@, p)
                    implies deletes_names_of(ops@, p) by {
                assert(old_reg.contains_key(p));
            }
        }
        self.processes = fresh;
        ops
    }

    /// Takes a snapshot of the running processes and applies it (see
    /// `apply_snapshot`). The list itself comes from the machine.
    pub fn scan_network_processes(&mut self) -> (r: Vec<StoreOp>)
        requires
            old(self).wf(),
        ensures
            final(self).wf(),
            forall|p: u32|
                #[trigger] final(self).policies().contains_key(p) ==> old(self).policies().contains_key(p)
                    && final(self).policies()[p] == old(self).policies()[p],
            forall|p: u32|
                #[trigger] final(self).policies().contains_key(p) <==> old(self).policies().contains_key(p)
                    && in_snapshot(final(self).procs(), p),
            forall|i: int|
                0 <= i < final(self).procs().len() ==> {
                    let p = #[trigger] final(self).procs()[i];
                    &&& p.pid > MAX_SYSTEM_PID
                    &&& p.bytes_sent == 0 && p.bytes_received == 0
                    &&& p.packets_sent == 0 && p.packets_received == 0
                    &&& p.current_upload_speed == 0 && p.current_download_speed == 0
                    &&& p.connections == connections_guess(lower_of(p.name@))
                },
            forall|i: int, j: int|
                0 <= i < j < final(self).procs().len() ==> (#[trigger] final(self).procs()[i]).pid
                    != (#[trigger] final(self).procs()[j]).pid,
            forall|i: int| 0 <= i < r@.len() ==> (#[trigger] r@[i]) is Delete,
            forall|p: u32|
                state_in(old(self).policies(), p) is Limited && !in_snapshot(final(self).procs(), p)
                    ==> deletes_names_of(r@, p),
    {
        let snapshot = running_processes();
        self.apply_snapshot(&snapshot)
    }
}

} // verus!
