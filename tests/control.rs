use gamebooster::address::WinDivertAddress;
use gamebooster::limiter::{ControlError, LimitPlan, NetworkLimiter, ProcessNetworkInfo};
use gamebooster::rate::RateError;
use gamebooster::reconciler::{PrimaryOutcome, StoreOp, POLICY_PREFIX};
use gamebooster::registry::PolicyState;

fn row(pid: u32, name: &str) -> ProcessNetworkInfo {
    ProcessNetworkInfo { pid, name: name.to_string() }
}

fn limiter_with(rows: Vec<ProcessNetworkInfo>) -> NetworkLimiter {
    let mut l = NetworkLimiter::new();
    let ops = l.apply_snapshot(&rows);
    assert!(ops.is_empty());
    l
}

fn packet(pid: u32) -> WinDivertAddress {
    let mut a = WinDivertAddress::new();
    a.process_id = pid;
    a
}

/// A policy store that behaves as the model: creation appends, deletion
/// filters by name or by prefix.
fn run(store: &mut Vec<(String, String, u64)>, ops: &[StoreOp]) {
    for op in ops {
        match op {
            StoreOp::Delete { name } => store.retain(|r| &r.0 != name),
            StoreOp::Create { name, app_name, throttle_bits } => {
                store.push((name.clone(), app_name.clone(), *throttle_bits))
            }
            StoreOp::DeletePrefixed { prefix } => store.retain(|r| !r.0.starts_with(prefix.as_str())),
        }
    }
}

fn plan_ops(plan: &LimitPlan) -> &[StoreOp] {
    match plan {
        LimitPlan::Apply { ops, .. } => ops,
        LimitPlan::Remove { ops } => ops,
    }
}

#[test]
fn blocked_pid_packets_are_dropped_scenario() {
    let mut l = limiter_with(vec![row(4242, "game.exe"), row(9999, "browser.exe")]);
    l.block(4242).unwrap();
    let mut packets = Vec::new();
    for _ in 0..10 {
        packets.push(packet(4242));
    }
    for _ in 0..5 {
        packets.push(packet(9999));
    }
    let out = l.reinjected(&packets);
    assert_eq!(out.len(), 5);
    assert!(out.iter().all(|a| a.process_id == 9999));
}

#[test]
fn limit_of_two_and_a_half_mib() {
    let mut l = limiter_with(vec![row(100, "game")]);
    let plan = l.set_limit(100, "2.5").unwrap();
    let expected = (2.5f64 * 1024.0 * 1024.0 * 8.0) as u64;
    match plan {
        LimitPlan::Apply { ops, app_name, throttle_bits } => {
            assert_eq!(throttle_bits, expected);
            assert_eq!(app_name, "game.exe");
            assert_eq!(
                ops[1],
                StoreOp::Create {
                    name: "GameBooster_Limit_100".to_string(),
                    app_name: "game.exe".to_string(),
                    throttle_bits: expected,
                }
            );
        }
        LimitPlan::Remove { .. } => panic!("a positive cap was read as a removal"),
    }
    assert_eq!(l.get_process_limit(100), Some(2560));
}

#[test]
fn block_shows_in_status() {
    let mut l = limiter_with(vec![row(10, "a.exe"), row(11, "b.exe")]);
    l.block(11).unwrap();
    let st = l.status();
    assert_eq!(st.len(), 2);
    assert_eq!(st[0].state, PolicyState::Unmanaged);
    assert_eq!(st[1].pid, 11);
    assert_eq!(st[1].name, "b.exe");
    assert_eq!(st[1].state, PolicyState::Blocked);
}

#[test]
fn unblock_twice_leaves_unmanaged() {
    let mut l = limiter_with(vec![row(10, "a.exe")]);
    l.block(10).unwrap();
    l.unblock(10);
    assert_eq!(l.state_of(10), PolicyState::Unmanaged);
    l.unblock(10);
    assert_eq!(l.state_of(10), PolicyState::Unmanaged);
}

#[test]
fn unblock_keeps_a_cap() {
    let mut l = limiter_with(vec![row(10, "a.exe")]);
    l.set_process_speed_limit(10, 512).unwrap();
    l.unblock(10);
    assert_eq!(l.state_of(10), PolicyState::Limited { kbps: 512, fallback: false });
}

#[test]
fn relimit_leaves_one_policy() {
    let mut l = limiter_with(vec![row(7, "tool.exe")]);
    let mut store = vec![("GameBooster_Limit_7".to_string(), "old.exe".to_string(), 1)];
    let first = l.set_limit(7, "1").unwrap();
    run(&mut store, plan_ops(&first));
    let lift = l.remove_process_limit(7);
    run(&mut store, &lift);
    assert!(store.is_empty());
    let again = l.set_limit(7, "1").unwrap();
    run(&mut store, plan_ops(&again));
    let named: Vec<_> = store.iter().filter(|r| r.0 == "GameBooster_Limit_7").collect();
    assert_eq!(named.len(), 1);
    assert_eq!(named[0].2, 1024 * 8192);
}

#[test]
fn unattributed_packets_always_pass() {
    let mut l = limiter_with(vec![row(10, "a.exe"), row(11, "b.exe")]);
    l.block(10).unwrap();
    l.block(11).unwrap();
    let packets = vec![packet(0), packet(10), packet(0), packet(11)];
    let out = l.reinjected(&packets);
    assert_eq!(out.len(), 2);
    assert!(out.iter().all(|a| a.process_id() == None));
}

#[test]
fn clear_all_sweeps_orphans() {
    let mut l = limiter_with(vec![row(10, "a.exe"), row(11, "b.exe")]);
    let mut store = vec![
        ("GameBooster_Limit_77".to_string(), "gone.exe".to_string(), 5),
        ("Other".to_string(), "x.exe".to_string(), 6),
    ];
    let p = l.set_limit(10, "3").unwrap();
    run(&mut store, plan_ops(&p));
    l.block(11).unwrap();
    let ops = l.clear_all_limits();
    assert_eq!(
        ops.last(),
        Some(&StoreOp::DeletePrefixed { prefix: POLICY_PREFIX.to_string() })
    );
    assert!(ops.contains(&StoreOp::Delete { name: "GameBooster_Limit_10".to_string() }));
    assert!(ops.contains(&StoreOp::Delete { name: "GameBooster_RT_Limit_10".to_string() }));
    run(&mut store, &ops);
    assert!(store.iter().all(|r| !r.0.starts_with(POLICY_PREFIX)));
    assert_eq!(store.len(), 1);
    assert_eq!(l.state_of(10), PolicyState::Unmanaged);
    assert_eq!(l.state_of(11), PolicyState::Unmanaged);
}

#[test]
fn invalid_rates_change_nothing() {
    let mut l = limiter_with(vec![row(10, "a.exe")]);
    l.block(10).unwrap();
    assert_eq!(
        l.set_limit(10, "-1").err(),
        Some(ControlError::InvalidRateInput(RateError::Negative))
    );
    assert_eq!(
        l.set_limit(10, "abc").err(),
        Some(ControlError::InvalidRateInput(RateError::Malformed))
    );
    assert_eq!(
        l.set_limit(10, "").err(),
        Some(ControlError::InvalidRateInput(RateError::Malformed))
    );
    assert_eq!(l.state_of(10), PolicyState::Blocked);
}

#[test]
fn unknown_process_is_refused() {
    let mut l = limiter_with(vec![row(10, "a.exe")]);
    assert_eq!(l.block(11).err(), Some(ControlError::UnknownProcess));
    assert_eq!(l.set_limit(11, "1").err(), Some(ControlError::UnknownProcess));
    assert_eq!(l.state_of(11), PolicyState::Unmanaged);
}

#[test]
fn zero_cap_removes() {
    let mut l = limiter_with(vec![row(10, "a.exe")]);
    l.set_limit(10, "2").unwrap();
    match l.set_limit(10, "0").unwrap() {
        LimitPlan::Remove { ops } => {
            assert_eq!(ops[0], StoreOp::Delete { name: "GameBooster_Limit_10".to_string() });
            assert_eq!(ops[1], StoreOp::Delete { name: "GameBooster_RT_Limit_10".to_string() });
        }
        LimitPlan::Apply { .. } => panic!("a zero cap created a policy"),
    }
    assert!(!l.is_process_limited(10));
}

#[test]
fn block_lifts_a_cap_first() {
    let mut l = limiter_with(vec![row(10, "a.exe")]);
    l.set_limit(10, "2").unwrap();
    let ops = l.block(10).unwrap();
    assert_eq!(ops.len(), 2);
    assert_eq!(l.state_of(10), PolicyState::Blocked);
    let again = l.block(10).unwrap();
    assert!(again.is_empty());
}

#[test]
fn failed_policy_engages_fallback() {
    let mut l = limiter_with(vec![row(10, "a")]);
    l.set_limit(10, "1").unwrap();
    let plan = l.settle_limit(10, 1024, PrimaryOutcome::VerifyMismatch).unwrap();
    assert_eq!(plan.pid, 10);
    assert_eq!(plan.app_name, "a.exe");
    assert_eq!(plan.bytes_per_sec, 1024 * 1024);
    assert_eq!(plan.delay_ms, 1);
    assert_eq!(plan.duration_secs, 60);
    assert_eq!(l.state_of(10), PolicyState::Limited { kbps: 1024, fallback: true });
    assert!(l.settle_limit(10, 1024, PrimaryOutcome::CreateFailed).is_none());
}

#[test]
fn fallback_that_cannot_start_is_reported() {
    let mut l = limiter_with(vec![row(10, "a")]);
    l.set_limit(10, "1").unwrap();
    l.settle_limit(10, 1024, PrimaryOutcome::CreateFailed).unwrap();
    assert_eq!(l.fallback_failed(10, 1024), Err(ControlError::LimitNotApplied));
    assert_eq!(l.state_of(10), PolicyState::Limited { kbps: 1024, fallback: false });
    assert_eq!(l.fallback_failed(10, 1024), Ok(()));
}

#[test]
fn applied_policy_needs_no_fallback() {
    let mut l = limiter_with(vec![row(10, "a")]);
    l.set_limit(10, "1").unwrap();
    assert!(l.settle_limit(10, 1024, PrimaryOutcome::Applied).is_none());
    assert_eq!(l.state_of(10), PolicyState::Limited { kbps: 1024, fallback: false });
}

#[test]
fn snapshot_filters_and_purges() {
    let mut l = NetworkLimiter::new();
    let ops = l.apply_snapshot(&vec![row(4, "System"), row(20, "a.exe"), row(20, "dup"), row(21, "b.exe")]);
    assert!(ops.is_empty());
    let procs = l.get_processes();
    assert_eq!(procs.len(), 2);
    assert_eq!(procs[0].pid, 20);
    assert_eq!(procs[0].name, "a.exe");
    assert_eq!(procs[1].pid, 21);
    l.set_limit(20, "1").unwrap();
    l.block(21).unwrap();
    let ops = l.apply_snapshot(&vec![row(30, "c.exe")]);
    assert_eq!(ops.len(), 2);
    assert!(ops.contains(&StoreOp::Delete { name: "GameBooster_Limit_20".to_string() }));
    assert_eq!(l.state_of(20), PolicyState::Unmanaged);
    assert_eq!(l.state_of(21), PolicyState::Unmanaged);
}

#[test]
fn stats_sum_activity() {
    let mut l = limiter_with(vec![row(10, "a.exe"), row(11, "chrome.exe")]);
    assert!(l.record_activity(10, 4096, 2048, 100, 200));
    assert!(l.record_activity(11, 0, 0, u64::MAX, 1));
    assert!(!l.record_activity(12, 1, 1, 1, 1));
    l.set_limit(11, "1").unwrap();
    let s = l.get_network_stats();
    assert_eq!(s.total_upload_bytes, u64::MAX);
    assert_eq!(s.total_download_bytes, 201);
    assert_eq!(s.total_processes, 2);
    assert_eq!(s.limited_processes_count, 1);
    let procs = l.get_processes();
    assert_eq!(procs[0].packets_sent, 4);
    assert_eq!(procs[0].packets_received, 2);
    assert_eq!(procs[1].connections, 8);
    assert!(procs[1].is_limited);
    assert_eq!(procs[1].speed_limit, Some(1024));
}

#[test]
fn scan_reads_running_processes() {
    let mut l = NetworkLimiter::new();
    let ops = l.scan_network_processes();
    assert!(ops.is_empty());
    let procs = l.get_processes();
    assert!(!procs.is_empty());
    let mut seen = std::collections::HashSet::new();
    for p in &procs {
        assert!(p.pid > 4);
        assert!(seen.insert(p.pid));
    }
}
