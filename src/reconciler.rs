//! Turning a bandwidth cap into operations on the operating system's policy
//! store, and the model of that store that the operations are proved against.
use crate::text::{decimal, push_decimal, push_two_places, round_ratio, round_ratio_exec, two_places};
use vstd::prelude::*;
use vstd::string::StringExecFns;

verus! {

/// Every policy this engine creates has a name that begins with this prefix.
pub const POLICY_PREFIX: &'static str = "GameBooster_";

/// Average packet size assumed by the delay-based limiter, in bytes.
pub const AVG_PACKET_SIZE: u64 = 1500;

/// How long the delay-based limiter runs before it expires, in seconds.
pub const FALLBACK_SECONDS: u64 = 60;

/// Name of the primary policy of `pid`.
pub open spec fn policy_name_of(pid: u32) -> Seq<char> {
    "GameBooster_Limit_"@ + decimal(pid as nat)
}

/// Name of the secondary policy of `pid`, removed together with the primary one.
pub open spec fn realtime_name_of(pid: u32) -> Seq<char> {
    "GameBooster_RT_Limit_"@ + decimal(pid as nat)
}

/// The primary policy name of `pid`: a fixed prefix and the decimal pid.
pub fn policy_name(pid: u32) -> (r: String)
    ensures
        r@ == policy_name_of(pid),
{
    let mut s = String::from_str("GameBooster_Limit_");
    push_decimal(&mut s, pid as u128);
    s
}

/// The secondary policy name of `pid`.
pub fn realtime_policy_name(pid: u32) -> (r: String)
    ensures
        r@ == realtime_name_of(pid),
{
    let mut s = String::from_str("GameBooster_RT_Limit_");
    push_decimal(&mut s, pid as u128);
    s
}

/// Both names of `pid` fall under the sweep prefix.
pub proof fn lemma_names_under_prefix(pid: u32)
    ensures
        POLICY_PREFIX@.is_prefix_of(policy_name_of(pid)),
        POLICY_PREFIX@.is_prefix_of(realtime_name_of(pid)),
{
    reveal_strlit("GameBooster_");
    reveal_strlit("GameBooster_Limit_");
    reveal_strlit("GameBooster_RT_Limit_");
    assert(POLICY_PREFIX@ =~= policy_name_of(pid).subrange(0, 12));
    assert(POLICY_PREFIX@ =~= realtime_name_of(pid).subrange(0, 12));
}

/// A cap in KiB/s as the policy store's rate, in bits per second.
pub open spec fn throttle_bits_of(kbps: u32) -> u64 {
    (kbps * 8192) as u64
}

/// `kbps * 1024 * 8`.
pub fn throttle_bits(kbps: u32) -> (r: u64)
    ensures
        r == throttle_bits_of(kbps),
        r as nat == kbps as nat * 8192,
{
    kbps as u64 * 8192
}

/// Delay between packets, in ms, that lets `bytes_per_sec` through when
/// packets average `AVG_PACKET_SIZE` bytes, kept within 1..=1000.
pub open spec fn packet_delay_of(bytes_per_sec: u64) -> u64 {
    let per_sec = bytes_per_sec as nat / AVG_PACKET_SIZE as nat;
    if per_sec == 0 {
        1000
    } else if 1000nat / per_sec == 0 {
        1
    } else {
        (1000nat / per_sec) as u64
    }
}

/// The delay-based limiter's pause between packets.
pub fn calculate_packet_delay(bytes_per_sec: u64) -> (r: u64)
    ensures
        r == packet_delay_of(bytes_per_sec),
        1 <= r <= 1000,
{
    let per_sec = bytes_per_sec / AVG_PACKET_SIZE;
    if per_sec == 0 {
        1000
    } else {
        let d = 1000 / per_sec;
        if d < 1 {
            1
        } else {
            d
        }
    }
}

/// One operation on the policy store.
#[derive(Debug, Clone, PartialEq, Eq)]
pub enum StoreOp {
    /// Delete the policy of this name; a missing policy is no error.
    Delete { name: String },
    /// Create a policy that caps the matching application at a rate in bits/s.
    Create { name: String, app_name: String, throttle_bits: u64 },
    /// Delete every policy whose name begins with `prefix`.
    DeletePrefixed { prefix: String },
}

/// A stored policy: name, matched application, rate in bits/s.
pub type PolicyRow = (Seq<char>, Seq<char>, u64);

/// The store after one operation. Creation does not look at names: a second
/// policy of one name would stand beside the first, which is why a policy is
/// always deleted before it is created.
pub open spec fn op_effect(store: Seq<PolicyRow>, op: StoreOp) -> Seq<PolicyRow> {
    match op {
        StoreOp::Delete { name } => store.filter(|r: PolicyRow| r.0 != name@),
        StoreOp::Create { name, app_name, throttle_bits } => store.push(
            (name@, app_name@, throttle_bits),
        ),
        StoreOp::DeletePrefixed { prefix } => store.filter(
            |r: PolicyRow| !prefix@.is_prefix_of(r.0),
        ),
    }
}

/// The store after a sequence of operations, in order.
pub open spec fn ops_effect(store: Seq<PolicyRow>, ops: Seq<StoreOp>) -> Seq<PolicyRow>
    decreases ops.len(),
{
    if ops.len() == 0 {
        store
    } else {
        op_effect(ops_effect(store, ops.drop_last()), ops.last())
    }
}

/// How many stored policies carry `name`.
pub open spec fn named_count(store: Seq<PolicyRow>, name: Seq<char>) -> nat {
    store.filter(|r: PolicyRow| r.0 == name).len()
}

/// What the store lists under a name prefix.
pub open spec fn listed(store: Seq<PolicyRow>, prefix: Seq<char>) -> Seq<PolicyRow> {
    store.filter(|r: PolicyRow| prefix.is_prefix_of(r.0))
}

/// `ops` puts a cap of `kbps` KiB/s on the application `app_name` of `pid`:
/// the policy's name is deleted, then the policy is created.
pub open spec fn is_limit_ops(ops: Seq<StoreOp>, pid: u32, app_name: Seq<char>, kbps: u32) -> bool {
    &&& ops.len() == 2
    &&& ops[0] is Delete
    &&& ops[0]->Delete_name@ == policy_name_of(pid)
    &&& ops[1] is Create
    &&& ops[1]->Create_name@ == policy_name_of(pid)
    &&& ops[1]->Create_app_name@ == app_name
    &&& ops[1]->Create_throttle_bits == throttle_bits_of(kbps)
}

/// `ops` lifts the cap of `pid`: both of its names are deleted.
pub open spec fn is_removal_ops(ops: Seq<StoreOp>, pid: u32) -> bool {
    &&& ops.len() == 2
    &&& ops[0] is Delete
    &&& ops[0]->Delete_name@ == policy_name_of(pid)
    &&& ops[1] is Delete
    &&& ops[1]->Delete_name@ == realtime_name_of(pid)
}

/// The operations that cap `pid` at `kbps` KiB/s for `app_name`.
pub fn limit_ops(pid: u32, app_name: &String, kbps: u32) -> (r: Vec<StoreOp>)
    ensures
        is_limit_ops(r@, pid, app_name@, kbps),
{
    let mut v: Vec<StoreOp> = Vec::new();
    v.push(StoreOp::Delete { name: policy_name(pid) });
    v.push(
        StoreOp::Create {
            name: policy_name(pid),
            app_name: app_name.clone(),
            throttle_bits: throttle_bits(kbps),
        },
    );
    v
}

/// The operations that lift the cap of `pid`.
pub fn removal_ops(pid: u32) -> (r: Vec<StoreOp>)
    ensures
        is_removal_ops(r@, pid),
{
    let mut v: Vec<StoreOp> = Vec::new();
    v.push(StoreOp::Delete { name: policy_name(pid) });
    v.push(StoreOp::Delete { name: realtime_policy_name(pid) });
    v
}

proof fn lemma_count_none(store: Seq<PolicyRow>, name: Seq<char>)
    requires
        forall|i: int| 0 <= i < store.len() ==> (#[trigger] store[i]).0 != name,
    ensures
        named_count(store, name) == 0,
    decreases store.len(),
{
    reveal(Seq::filter);
    if store.len() > 0 {
        let p = store.drop_last();
        assert forall|i: int| 0 <= i < p.len() implies (#[trigger] p[i]).0 != name by {
            assert(p[i] == store[i]);
        }
        lemma_count_none(p, name);
        assert(store.last() == store[store.len() - 1]);
    }
}

proof fn lemma_listed_none(store: Seq<PolicyRow>, prefix: Seq<char>)
    requires
        forall|i: int| 0 <= i < store.len() ==> !prefix.is_prefix_of((#[trigger] store[i]).0),
    ensures
        listed(store, prefix).len() == 0,
    decreases store.len(),
{
    reveal(Seq::filter);
    if store.len() > 0 {
        let p = store.drop_last();
        assert forall|i: int| 0 <= i < p.len() implies !prefix.is_prefix_of((#[trigger] p[i]).0) by {
            assert(p[i] == store[i]);
        }
        lemma_listed_none(p, prefix);
        assert(store.last() == store[store.len() - 1]);
    }
}

/// Capping a process, lifting the cap and capping it again leaves exactly
/// one policy under its name, whatever the store held before.
pub proof fn lemma_relimit_single_policy(
    store: Seq<PolicyRow>,
    pid: u32,
    app_name: Seq<char>,
    kbps: u32,
    first: Seq<StoreOp>,
    lift: Seq<StoreOp>,
    again: Seq<StoreOp>,
)
    requires
        is_limit_ops(first, pid, app_name, kbps),
        is_removal_ops(lift, pid),
        is_limit_ops(again, pid, app_name, kbps),
    ensures
        named_count(
            ops_effect(ops_effect(ops_effect(store, first), lift), again),
            policy_name_of(pid),
        ) == 1,
{
    broadcast use vstd::seq_lib::group_filter_ensures;

    let n = policy_name_of(pid);
    let s2 = ops_effect(ops_effect(store, first), lift);
    let l = again;
    assert(l.drop_last().drop_last() =~= Seq::<StoreOp>::empty());
    assert(l.drop_last().last() == l[0]);
    let deleted = op_effect(s2, l[0]);
    assert(ops_effect(s2, l.drop_last().drop_last()) == s2);
    assert(ops_effect(s2, l.drop_last()) == deleted);
    assert forall|i: int| 0 <= i < deleted.len() implies (#[trigger] deleted[i]).0 != n by {}
    lemma_count_none(deleted, n);
    let last = ops_effect(s2, l);
    assert(last == deleted.push((n, app_name, throttle_bits_of(kbps))));
    reveal(Seq::filter);
    assert(last.drop_last() =~= deleted);
}

/// After a list of operations that ends with a prefix sweep (as the one of
/// `clear_all_limits` does), the store lists nothing under that prefix,
/// whatever it held and whichever deletions before found nothing.
pub proof fn lemma_sweep_lists_nothing(store: Seq<PolicyRow>, ops: Seq<StoreOp>)
    requires
        ops.len() > 0,
        ops.last() is DeletePrefixed,
    ensures
        listed(ops_effect(store, ops), ops.last()->DeletePrefixed_prefix@).len() == 0,
{
    broadcast use vstd::seq_lib::group_filter_ensures;

    let prefix = ops.last()->DeletePrefixed_prefix@;
    let after = ops_effect(store, ops);
    assert forall|i: int| 0 <= i < after.len() implies !prefix.is_prefix_of(
        (#[trigger] after[i]).0,
    ) by {}
    lemma_listed_none(after, prefix);
}

/// What the primary path came to.
#[derive(Debug, Clone, Copy, PartialEq, Eq, Structural)]
pub enum PrimaryOutcome {
    /// The policy was created and reads back with the requested rate.
    Applied,
    /// The store refused to create the policy.
    CreateFailed,
    /// The policy reads back missing or with another rate.
    VerifyMismatch,
}

/// Judges the primary path from what the store did: whether creation
/// succeeded and the rate read back afterwards.
pub fn primary_outcome(created: bool, read_back: Option<u64>, expected_bits: u64) -> (r:
    PrimaryOutcome)
    ensures
        r == (if !created {
            PrimaryOutcome::CreateFailed
        } else if read_back == Some(expected_bits) {
            PrimaryOutcome::Applied
        } else {
            PrimaryOutcome::VerifyMismatch
        }),
{
    if !created {
        PrimaryOutcome::CreateFailed
    } else {
        match read_back {
            Some(b) => if b == expected_bits {
                PrimaryOutcome::Applied
            } else {
                PrimaryOutcome::VerifyMismatch
            },
            None => PrimaryOutcome::VerifyMismatch,
        }
    }
}

/// The delay-based limiter to start when the primary path failed. It only
/// approximates the cap, and stops by itself after `duration_secs`.
#[derive(Debug, Clone, PartialEq, Eq)]
pub struct FallbackPlan {
    pub pid: u32,
    pub app_name: String,
    pub bytes_per_sec: u64,
    pub delay_ms: u64,
    pub duration_secs: u64,
}

/// The fallback for a cap of `kbps` KiB/s on `pid`.
pub fn fallback_plan(pid: u32, app_name: &String, kbps: u32) -> (r: FallbackPlan)
    ensures
        r.pid == pid,
        r.app_name@ == app_name@,
        r.bytes_per_sec == kbps as nat * 1024,
        r.delay_ms == packet_delay_of((kbps as u64 * 1024) as u64),
        r.duration_secs == FALLBACK_SECONDS,
{
    let bytes_per_sec = kbps as u64 * 1024;
    FallbackPlan {
        pid,
        app_name: app_name.clone(),
        bytes_per_sec,
        delay_ms: calculate_packet_delay(bytes_per_sec),
        duration_secs: FALLBACK_SECONDS,
    }
}

/// A policy as the store lists it.
#[derive(Debug)]
pub struct QosPolicyInfo {
    pub name: String,
    pub app_name: String,
    pub throttle_bits: u64,
    /// Found only in the persisted policy registry, not among live policies.
    pub is_registry_only: bool,
}

/// Bits per second in one MiB/s.
pub const BITS_PER_MIB: u64 = 8388608;

/// One summary line: "- name: r MB/s pour app", the rate in MiB/s with two decimals.
pub open spec fn summary_line(p: QosPolicyInfo) -> Seq<char> {
    "- "@ + p.name@ + ": "@ + two_places(round_ratio(p.throttle_bits as nat, BITS_PER_MIB as nat, 100))
        + " MB/s pour "@ + p.app_name@
}

/// The lines of `ps`, each after a line break.
pub open spec fn summary_lines(ps: Seq<QosPolicyInfo>) -> Seq<char>
    decreases ps.len(),
{
    if ps.len() == 0 {
        seq![]
    } else {
        summary_lines(ps.drop_last()) + "\n"@ + summary_line(ps.last())
    }
}

/// The summary of the listed policies.
pub open spec fn summary_of(ps: Seq<QosPolicyInfo>) -> Seq<char> {
    if ps.len() == 0 {
        "Aucune politique QoS active"@
    } else {
        decimal(ps.len()) + " politiques QoS actives:"@ + summary_lines(ps)
    }
}

/// A text summary of the listed policies, one line each.
pub fn get_qos_summary(policies: &Vec<QosPolicyInfo>) -> (r: String)
    ensures
        r@ == summary_of(policies@),
{
    if policies.len() == 0 {
        return String::from_str("Aucune politique QoS active");
    }
    let mut s = String::new();
    push_decimal(&mut s, policies.len() as u128);
    s.append(" politiques QoS actives:");
    let ghost head = s@;
    let mut i: usize = 0;
    while i < policies.len()
        invariant
            i <= policies@.len(),
            s@ == head + summary_lines(policies@.take(i as int)),
        decreases policies@.len() - i,
    {
        let p = &policies[i];
        let ghost before = s@;
        s.append("\n");
        s.append("- ");
        s.append(p.name.as_str());
        s.append(": ");
        push_two_places(&mut s, round_ratio_exec(p.throttle_bits, BITS_PER_MIB, 100));
        s.append(" MB/s pour ");
        s.append(p.app_name.as_str());
        proof {
            let t = policies@.take(i + 1);
            assert(t.drop_last() =~= policies@.take(i as int));
            assert(t.last() == policies@[i as int]);
            assert(s@ =~= before + "\n"@ + summary_line(policies@[i as int]));
        }
        i = i + 1;
    }
    assert(policies@.take(policies@.len() as int) =~= policies@);
    s
}

} // verus!
