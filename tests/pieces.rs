use gamebooster::address::{WinDivertAddress, ADDRESS_LEN};
use gamebooster::capture::{CaptureBinding, CaptureError, EntryPoint, OpenFailure, filled_len};
use gamebooster::interception::{Interceptor, LoopState, LoopStep, Verdict, decide};
use gamebooster::names::{estimate_connections_for_process, exe_name, is_windows_system_process};
use gamebooster::rate::{parse_rate_kbps, RateError};
use gamebooster::reconciler::{
    calculate_packet_delay, get_qos_summary, policy_name, primary_outcome, realtime_policy_name,
    throttle_bits, PrimaryOutcome, QosPolicyInfo,
};
use gamebooster::registry::{PolicyRegistry, PolicyState};
use gamebooster::requirements::{assess_requirements, missing_summary, Requirement};
use gamebooster::services::{get_service_recommendations, is_service_safe_to_modify, ServiceManager};
use gamebooster::system::{DiskCleaningOptions, SystemMemoryInfo};
use gamebooster::text::{format_size, format_speed};

#[test]
fn speeds_are_formatted() {
    assert_eq!(format_speed(0), "0 B/s");
    assert_eq!(format_speed(1023), "1023 B/s");
    assert_eq!(format_speed(1024), "1.0 KB/s");
    assert_eq!(format_speed(1536), "1.5 KB/s");
    assert_eq!(format_speed(2621440), "2.5 MB/s");
    for b in [1075u64, 1126, 5000, 1048575, 1048576, 1153434, 3_000_000, 123_456_789] {
        let v = b as f64;
        let expect = if b >= 1048576 {
            format!("{:.1} MB/s", v / 1048576.0)
        } else if b >= 1024 {
            format!("{:.1} KB/s", v / 1024.0)
        } else {
            format!("{} B/s", b)
        };
        assert_eq!(format_speed(b), expect, "rate {}", b);
    }
}

#[test]
fn sizes_are_formatted() {
    assert_eq!(format_size(512), "512 o");
    assert_eq!(format_size(1280), format!("{:.1} Ko", 1280f64 / 1024.0));
    assert_eq!(format_size(3 * 1048576), "3.0 Mo");
    assert_eq!(format_size(1073741824), "1.00 Go");
    for n in [1024usize, 1330, 99_999, 5_000_000, 1_610_612_736, 2_000_000_000, 10_737_418_240] {
        let v = n as f64;
        let expect = if n < 1024 {
            format!("{:.0} o", v)
        } else if n < 1048576 {
            format!("{:.1} Ko", v / 1024.0)
        } else if n < 1073741824 {
            format!("{:.1} Mo", v / 1048576.0)
        } else {
            format!("{:.2} Go", v / 1073741824.0)
        };
        assert_eq!(format_size(n), expect, "size {}", n);
    }
}

#[test]
fn address_round_trip() {
    let mut a = WinDivertAddress::new();
    a.timestamp = -123456789012;
    a.outbound = 1;
    a.loopback = 1;
    a.process_id = 4242;
    a.udp_checksum = 0xdead_beef;
    let bytes = a.encode();
    assert_eq!(bytes.len(), ADDRESS_LEN);
    assert_eq!(&bytes[48..52], &4242u32.to_le_bytes());
    assert_eq!(&bytes[0..8], &(-123456789012i64).to_le_bytes());
    let b = WinDivertAddress::decode(&bytes).unwrap();
    assert_eq!(b, a);
    assert!(b.is_outbound());
    assert!(b.is_loopback());
    assert_eq!(b.process_id(), Some(4242));
    assert_eq!(WinDivertAddress::decode(&bytes[..63]), None);
    assert_eq!(WinDivertAddress::default().process_id(), None);
}

#[test]
fn rates_are_read() {
    assert_eq!(parse_rate_kbps("2.5"), Ok(2560));
    assert_eq!(parse_rate_kbps(" 1 \n"), Ok(1024));
    assert_eq!(parse_rate_kbps("+.5"), Ok(512));
    assert_eq!(parse_rate_kbps("3."), Ok(3072));
    assert_eq!(parse_rate_kbps("0.001"), Ok(1));
    assert_eq!(parse_rate_kbps("-0"), Ok(0));
    assert_eq!(parse_rate_kbps("0"), Ok(0));
    assert_eq!(parse_rate_kbps("99999999"), Ok(u32::MAX));
    assert_eq!(parse_rate_kbps("-1"), Err(RateError::Negative));
    assert_eq!(parse_rate_kbps("abc"), Err(RateError::Malformed));
    assert_eq!(parse_rate_kbps(""), Err(RateError::Malformed));
    assert_eq!(parse_rate_kbps("."), Err(RateError::Malformed));
    assert_eq!(parse_rate_kbps("1.2.3"), Err(RateError::Malformed));
    assert_eq!(parse_rate_kbps("1e3"), Ok(1_024_000));
    assert_eq!(parse_rate_kbps("3E+2"), Ok(307_200));
    assert_eq!(parse_rate_kbps("25e-1"), Ok(2560));
    assert_eq!(parse_rate_kbps("1.5E-1"), Ok(153));
    assert_eq!(parse_rate_kbps("1e-4"), Ok(0));
    assert_eq!(parse_rate_kbps("0.0009765625"), Ok(1));
    assert_eq!(parse_rate_kbps("0.00097656249"), Ok(0));
    assert_eq!(parse_rate_kbps("-0e5"), Ok(0));
    assert_eq!(parse_rate_kbps("1234567890123456789012345678901"), Ok(u32::MAX));
    assert_eq!(parse_rate_kbps("0.000000000000000000000000000000001e33"), Ok(1024));
    assert_eq!(parse_rate_kbps("1e99999999999999999999999"), Ok(u32::MAX));
    assert_eq!(parse_rate_kbps("1e-99999999999999999999999"), Ok(0));
    assert_eq!(parse_rate_kbps("\u{a0}2\u{3000}"), Ok(2048));
    assert_eq!(parse_rate_kbps("-1e-9"), Err(RateError::Negative));
    assert_eq!(parse_rate_kbps("1e"), Err(RateError::Malformed));
    assert_eq!(parse_rate_kbps("e5"), Err(RateError::Malformed));
    assert_eq!(parse_rate_kbps("1e5e1"), Err(RateError::Malformed));
    assert_eq!(parse_rate_kbps("inf"), Err(RateError::Malformed));
    assert_eq!(parse_rate_kbps("NaN"), Err(RateError::Malformed));
    for text in ["2.5", "0.3", "17", "1.5e1", "4096", "0.01", "123.456"] {
        let expect = (text.parse::<f64>().unwrap() * 1024.0).floor() as u32;
        assert_eq!(parse_rate_kbps(text), Ok(expect), "cap {}", text);
    }
}

#[test]
fn names_are_read() {
    assert!(is_windows_system_process("SVCHOST.EXE"));
    assert!(is_windows_system_process("Explorer.exe"));
    assert!(!is_windows_system_process("game.exe"));
    assert_eq!(estimate_connections_for_process("Chrome.exe"), 8);
    assert_eq!(estimate_connections_for_process("STEAM"), 12);
    assert_eq!(estimate_connections_for_process("notepad"), 1);
    assert_eq!(exe_name("game"), "game.exe");
    assert_eq!(exe_name("game.exe"), "game.exe");
}

#[test]
fn policy_names_and_rates() {
    assert_eq!(policy_name(100), "GameBooster_Limit_100");
    assert_eq!(realtime_policy_name(7), "GameBooster_RT_Limit_7");
    assert_eq!(throttle_bits(2560), 20971520);
    assert_eq!(throttle_bits(u32::MAX), u32::MAX as u64 * 8192);
    assert_eq!(calculate_packet_delay(0), 1000);
    assert_eq!(calculate_packet_delay(1499), 1000);
    assert_eq!(calculate_packet_delay(150_000), 10);
    assert_eq!(calculate_packet_delay(3_000_000), 1);
    assert_eq!(primary_outcome(true, Some(8), 8), PrimaryOutcome::Applied);
    assert_eq!(primary_outcome(true, Some(9), 8), PrimaryOutcome::VerifyMismatch);
    assert_eq!(primary_outcome(true, None, 8), PrimaryOutcome::VerifyMismatch);
    assert_eq!(primary_outcome(false, Some(8), 8), PrimaryOutcome::CreateFailed);
}

#[test]
fn qos_summary_lines() {
    assert_eq!(get_qos_summary(&vec![]), "Aucune politique QoS active");
    let ps = vec![
        QosPolicyInfo {
            name: "GameBooster_Limit_100".to_string(),
            app_name: "game.exe".to_string(),
            throttle_bits: 20971520,
            is_registry_only: false,
        },
        QosPolicyInfo {
            name: "GameBooster_Limit_7".to_string(),
            app_name: "N/A".to_string(),
            throttle_bits: 0,
            is_registry_only: true,
        },
    ];
    assert_eq!(
        get_qos_summary(&ps),
        "2 politiques QoS actives:\n- GameBooster_Limit_100: 2.50 MB/s pour game.exe\n- GameBooster_Limit_7: 0.00 MB/s pour N/A"
    );
}

#[test]
fn registry_operations() {
    let mut r = PolicyRegistry::new();
    assert_eq!(r.get(5), PolicyState::Unmanaged);
    r.set_blocked(5, true);
    assert!(r.is_blocked(5));
    r.set(6, PolicyState::Limited { kbps: 1, fallback: false });
    assert_eq!(r.len(), 2);
    let mut pids = r.managed_pids();
    pids.sort();
    assert_eq!(pids, vec![5, 6]);
    r.set_blocked(5, false);
    assert_eq!(r.get(5), PolicyState::Unmanaged);
    r.remove(6);
    assert_eq!(r.len(), 0);
    r.set(7, PolicyState::Blocked);
    r.clear();
    assert_eq!(r.len(), 0);
    let mut a = WinDivertAddress::new();
    a.process_id = 7;
    assert_eq!(decide(&r, &a), Verdict::Reinject);
}

#[test]
fn interception_loop_steps() {
    let mut l = Interceptor::new();
    assert_eq!(l.poll(false), LoopStep::Finished);
    l.opened(true);
    assert_eq!(l.state, LoopState::Running);
    assert_eq!(l.poll(false), LoopStep::Receive);
    assert_eq!(l.poll(true), LoopStep::Close);
    assert_eq!(l.state, LoopState::Stopping);
    l.closed();
    assert_eq!(l.poll(false), LoopStep::Finished);
    let mut failed = Interceptor::new();
    failed.opened(false);
    assert_eq!(failed.state, LoopState::Stopped);
    let mut reg = PolicyRegistry::new();
    reg.set_blocked(9, true);
    let mut a = WinDivertAddress::new();
    a.process_id = 9;
    assert_eq!(l.judge(&reg, &a), Verdict::Drop);
}

#[test]
fn binding_releases_on_failure() {
    let mut b = CaptureBinding::new();
    assert_eq!(
        b.on_library(false),
        Err(OpenFailure { error: CaptureError::LibraryNotFound, unload_library: false })
    );
    b.on_library(true).unwrap();
    assert_eq!(
        b.on_entry_points([true, true, false, true]),
        Err(OpenFailure { error: CaptureError::MissingEntryPoint(EntryPoint::Send), unload_library: true })
    );
    assert!(!b.library_loaded);
    let mut c = CaptureBinding::new();
    c.on_library(true).unwrap();
    c.on_entry_points([true; 4]).unwrap();
    assert_eq!(
        c.on_open(false, 5),
        Err(OpenFailure { error: CaptureError::OpenRefused(5), unload_library: true })
    );
    let mut d = CaptureBinding::new();
    d.on_library(true).unwrap();
    d.on_entry_points([true; 4]).unwrap();
    d.on_open(true, 0).unwrap();
    let first = d.close();
    assert!(first.close_handle && first.unload_library);
    let second = d.close();
    assert!(!second.close_handle && !second.unload_library);
    assert_eq!(filled_len(1500, 60), Ok(60));
    assert_eq!(filled_len(10, 60), Err(CaptureError::BadLength));
}

#[test]
fn requirement_report_is_read() {
    let report = "\u{1F50D} Vérification...\r\nADMIN_OK\n  NETQOS_MISSING \n\u{26A0}\u{FE0F} ADMIN_MISSING\nADMIN_ERROR: x\nQOS_CREATE_FAILED\nEXECPOLICY_Bypass\n";
    let r = assess_requirements(report);
    assert_eq!(r.missing, vec![Requirement::NetQos, Requirement::PolicyCreation]);
    assert_eq!(r.unchecked, vec![Requirement::Administrator]);
    assert_eq!(
        missing_summary(&r.missing),
        "Prérequis système manquants: Module NetQoS non disponible, Impossible de créer des politiques QoS"
    );
    let ok = assess_requirements("ADMIN_OK\nNETQOS_OK");
    assert!(ok.missing.is_empty() && ok.unchecked.is_empty());
}

#[test]
fn service_catalogue() {
    assert!(is_service_safe_to_modify("WSearch"));
    assert!(is_service_safe_to_modify("Fax"));
    assert!(!is_service_safe_to_modify("wsearch"));
    assert!(!is_service_safe_to_modify("WinDefend"));
    let recs = get_service_recommendations();
    assert_eq!(recs.len(), 5);
    assert_eq!(recs[2].0, "wuauserv");
    assert!(recs.iter().all(|r| is_service_safe_to_modify(&r.0)));
    assert_eq!(ServiceManager::is_service_running("Spooler"), Ok(false));
}

#[test]
fn host_figures() {
    let m = SystemMemoryInfo { total_physical: 16, avail_physical: 6, total_pagefile: 0, avail_pagefile: 0 };
    assert_eq!(m.used_physical(), 10);
    let o = DiskCleaningOptions::default();
    assert!(o.clean_temp_files && o.clean_browser_cache && o.clean_thumbnails);
    assert!(!o.clean_recycle_bin && !o.clean_system_cache);
}
