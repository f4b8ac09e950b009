use rchronos::config::{AppConfig, RequestType};
use rchronos::runtime::{ReportTimes, RuntimeState};
use rchronos::sync::{HostAttempt, SyncReport, SyncResult, SyncTrigger};
use chrono::{TimeZone, Timelike, Utc};
use rchronos::time::UtcInstant;
use rchronos::winsys::{utc_to_system_time, registry_string, registry_string_from_bytes, report_event_log, time_policy_value, EventLogLevel, WinError};

fn times() -> ReportTimes {
    ReportTimes {
        applied_local: "2026-05-24 22:00:01".to_string(),
        remote_utc: "2026-05-24 14:00:00".to_string(),
        local_before: "2026-05-24 21:59:58".to_string(),
    }
}

fn attempt(host: &str, error: &str) -> HostAttempt {
    HostAttempt { host: host.to_string(), error: error.to_string() }
}

#[test]
fn starts_ready_with_host_lines() {
    let state = RuntimeState::new(AppConfig::default());
    assert_eq!(state.status.current_operation, "Ready");
    assert!(state.logs.is_empty());
    assert!(!state.syncing);
    assert_eq!(state.status.hosts.len(), 8);
    assert_eq!(state.status.hosts[0].name, "ntp.aliyun.com");
    assert_eq!(state.status.hosts[7].name, "www.qq.com");
    assert_eq!(state.status.hosts[7].request_type, RequestType::Http);
    assert!(state.status.hosts.iter().all(|h| h.fail_count == 0 && h.last_error.is_none()));
    assert_eq!(state.config_delay(), 3_600_000);
}

#[test]
fn log_keeps_latest_lines() {
    let mut config = AppConfig::default();
    config.max_log_lines = 2;
    let mut state = RuntimeState::new(config);
    state.push_log("one".to_string());
    state.push_log("two".to_string());
    state.push_log("three".to_string());
    assert_eq!(state.logs, vec!["two".to_string(), "three".to_string()]);
    let mut config = AppConfig::default();
    config.max_log_lines = 0;
    let mut state = RuntimeState::new(config);
    state.push_log("gone".to_string());
    assert!(state.logs.is_empty());
}

#[test]
fn one_run_at_a_time() {
    let mut state = RuntimeState::new(AppConfig::default());
    assert!(state.request_sync(SyncTrigger::Manual));
    assert!(state.syncing);
    assert_eq!(state.status.current_operation, "Syncing (manual)");
    assert_eq!(state.logs, vec!["Starting manual sync".to_string()]);
    assert!(!state.request_sync(SyncTrigger::Timer));
    assert_eq!(state.status.current_operation, "Syncing (manual)");
    assert_eq!(state.logs[1], "Sync ignored: already running (timer)");
}

#[test]
fn failures_are_counted_and_cleared_on_answer() {
    let mut state = RuntimeState::new(AppConfig::default());
    state.request_sync(SyncTrigger::Startup);
    let failed = SyncResult {
        report: None,
        failed_attempts: vec![attempt("ntp.aliyun.com", "timeout"), attempt("ntp.tencent.com", "refused"), attempt("ntp.aliyun.com", "timeout again")],
    };
    state.finish_sync(Ok(failed), SyncTrigger::Startup, times());
    assert!(!state.syncing);
    assert_eq!(state.status.current_operation, "Sync failed (startup)");
    assert_eq!(state.logs.last().unwrap(), "E: all hosts failed in startup sync");
    let aliyun = &state.status.hosts[0];
    assert_eq!(aliyun.fail_count, 2);
    assert_eq!(aliyun.last_error.as_deref(), Some("timeout again"));
    assert_eq!(state.status.hosts[1].fail_count, 1);

    state.request_sync(SyncTrigger::Timer);
    let report = SyncReport {
        server: "ntp.aliyun.com".to_string(),
        request_type: RequestType::Ntp,
        remote_utc: UtcInstant { secs: 1_779_631_200, nanos: 0 },
        applied_utc: UtcInstant { secs: 1_779_631_200, nanos: 0 },
        local_before: UtcInstant { secs: 1_779_631_198, nanos: 0 },
        deviation_ms: 2_000,
        method: "direct".to_string(),
    };
    let ok = SyncResult { report: Some(report), failed_attempts: vec![attempt("ntp.tencent.com", "refused")] };
    state.finish_sync(Ok(ok), SyncTrigger::Timer, times());
    assert_eq!(state.status.current_operation, "Ready");
    let n = state.logs.len();
    assert_eq!(state.logs[n - 2], "[OK] ntp.aliyun.com (NTP) -> 2026-05-24 22:00:01 | deviation=2000ms | direct");
    assert_eq!(state.logs[n - 1], "Remote UTC: 2026-05-24 14:00:00, Local before: 2026-05-24 21:59:58");
    assert_eq!(state.status.hosts[0].fail_count, 0);
    assert!(state.status.hosts[0].last_error.is_none());
    assert_eq!(state.status.hosts[1].fail_count, 2);

    state.request_sync(SyncTrigger::Manual);
    state.finish_sync(Err("build HTTP client: boom".to_string()), SyncTrigger::Manual, times());
    assert_eq!(state.status.current_operation, "Engine error");
    assert_eq!(state.logs.last().unwrap(), "E: sync engine error: build HTTP client: boom");
    assert_eq!(state.status.hosts[1].fail_count, 2);
}

#[test]
fn new_configuration_refreshes_host_lines() {
    let mut state = RuntimeState::new(AppConfig::default());
    state.set_status("Config reloaded".to_string());
    let mut config = AppConfig::default();
    config.hosts = rchronos::config::HostTable::new();
    config.delay_ms = 5;
    state.replace_config(config);
    assert!(state.status.hosts.is_empty());
    assert_eq!(state.status.current_operation, "Config reloaded");
    assert_eq!(state.config_delay(), 5);
}

#[test]
fn snapshot_copies_state() {
    let mut state = RuntimeState::new(AppConfig::default());
    state.push_log("hello".to_string());
    let snap = state.snapshot("C:/rchronos.toml".to_string());
    assert_eq!(snap.logs, vec!["hello".to_string()]);
    assert_eq!(snap.status.current_operation, "Ready");
    assert_eq!(snap.status.hosts.len(), 8);
    assert!(!snap.syncing);
    assert_eq!(snap.config.web_port, 8081);
}

#[test]
fn registry_values_read_back() {
    assert_eq!(time_policy_value(true), "NoSync");
    assert_eq!(time_policy_value(false), "NTP");
    let bytes = registry_string("NTP");
    assert_eq!(bytes, vec![b'N', 0, b'T', 0, b'P', 0, 0, 0]);
    let read = registry_string_from_bytes(&bytes, bytes.len() as u32).unwrap();
    assert_eq!(read, "NTP");
    let mut buf = registry_string("NoSync");
    buf.resize(256, 0xAB);
    assert_eq!(registry_string_from_bytes(&buf, 14).unwrap(), "NoSync");
    let wide = registry_string("時間😀");
    assert_eq!(registry_string_from_bytes(&wide, wide.len() as u32).unwrap(), "時間😀");
    assert_eq!(registry_string_from_bytes(&[], 0).unwrap(), "");
    let lone = [0x00u8, 0xD8, 0x41, 0x00];
    match registry_string_from_bytes(&lone, 4) {
        Err(WinError::Registry(m)) => assert_eq!(m, "UTF-16 转换失败: invalid utf-16: lone surrogate found"),
        other => panic!("unexpected {:?}", other),
    }
}

#[test]
fn event_reports() {
    let r = report_event_log(EventLogLevel::Warning, "héllo");
    assert_eq!(r.event_type, 2);
    assert_eq!(r.source, "rchronos".encode_utf16().chain(std::iter::once(0)).collect::<Vec<u16>>());
    assert_eq!(r.message, "héllo".encode_utf16().chain(std::iter::once(0)).collect::<Vec<u16>>());
    assert_eq!(report_event_log(EventLogLevel::Success, "").event_type, 0);
    assert_eq!(report_event_log(EventLogLevel::Error, "").event_type, 1);
    assert_eq!(report_event_log(EventLogLevel::Information, "").event_type, 4);
    let emoji = report_event_log(EventLogLevel::Information, "😀");
    assert_eq!(emoji.message, vec![0xD83D, 0xDE00, 0]);
}

fn instant(t: chrono::DateTime<Utc>) -> UtcInstant {
    UtcInstant::from_timestamp(t.timestamp(), t.timestamp_subsec_nanos()).unwrap()
}

#[test]
fn test_utc_to_system_time_boundaries() {
    let t1 = Utc.with_ymd_and_hms(2026, 5, 24, 22, 10, 15).unwrap().with_nanosecond(123_000_000).unwrap();
    let st1 = utc_to_system_time(instant(t1));
    assert_eq!(st1.wYear, 2026);
    assert_eq!(st1.wMonth, 5);
    assert_eq!(st1.wDay, 24);
    assert_eq!(st1.wHour, 22);
    assert_eq!(st1.wMinute, 10);
    assert_eq!(st1.wSecond, 15);
    assert_eq!(st1.wMilliseconds, 123);

    let t2 = Utc.with_ymd_and_hms(2024, 2, 29, 12, 0, 0).unwrap();
    let st2 = utc_to_system_time(instant(t2));
    assert_eq!(st2.wYear, 2024);
    assert_eq!(st2.wMonth, 2);
    assert_eq!(st2.wDay, 29);
    assert_eq!(st2.wHour, 12);
    assert_eq!(st2.wDayOfWeek, 4);

    let t3 = Utc.with_ymd_and_hms(2026, 12, 31, 23, 59, 59).unwrap().with_nanosecond(999_000_000).unwrap();
    let st3 = utc_to_system_time(instant(t3));
    assert_eq!(st3.wYear, 2026);
    assert_eq!(st3.wMonth, 12);
    assert_eq!(st3.wDay, 31);
    assert_eq!(st3.wHour, 23);
    assert_eq!(st3.wMinute, 59);
    assert_eq!(st3.wSecond, 59);
    assert_eq!(st3.wMilliseconds, 999);
}

#[test]
fn system_time_before_the_epoch() {
    let st = utc_to_system_time(UtcInstant { secs: -1, nanos: 0 });
    assert_eq!((st.wYear, st.wMonth, st.wDay, st.wHour, st.wMinute, st.wSecond), (1969, 12, 31, 23, 59, 59));
    assert_eq!(st.wDayOfWeek, 3);
    let st = utc_to_system_time(UtcInstant { secs: 0, nanos: 999_999_999 });
    assert_eq!((st.wYear, st.wMonth, st.wDay, st.wDayOfWeek, st.wMilliseconds), (1970, 1, 1, 4, 999));
    let st = utc_to_system_time(UtcInstant { secs: -62_135_596_800, nanos: 0 });
    assert_eq!((st.wYear, st.wMonth, st.wDay), (1, 1, 1));
}
