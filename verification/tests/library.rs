use rchronos::config::{config_or_default, Agreement, AppConfig, ConfigError, HostConfig, HostTable, RequestType, SyncMode, DEFAULT_USER_AGENT};
use rchronos::dashboard::{host_summary_line, host_summary_text, host_table_line, host_table_text, recent_logs_text, agreement_label, enabled_hosts, failing_hosts, request_type_label, should_fallback_to_index, sync_mode_label, theme_is_light};
use rchronos::order::name_less;
use rchronos::runtime::{HostStatus, ReportTimes, RuntimeState};
use rchronos::service::AppError;
use rchronos::sync::{
    collect_candidates, date_header_instant, fetch_request, http_url, parse_date_header, plan_adjustment, offset_fits, request_allowed, request_mode_name,
    slew_skipped, starts_with, AdjustAction, FetchRequest, HostCandidate, SyncError, SyncSession, SyncTrigger,
};
use rchronos::text::{decimal_string, format_ms_adaptive};
use rchronos::time::{add_millis, millis_between, UtcInstant, MAX_UNIX_SECS, MIN_UNIX_SECS};

fn names(c: &[HostCandidate]) -> Vec<&str> {
    c.iter().map(|h| h.name.as_str()).collect()
}

#[test]
fn adaptive_durations() {
    assert_eq!(format_ms_adaptive(0), "0ms");
    assert_eq!(format_ms_adaptive(999), "999ms");
    assert_eq!(format_ms_adaptive(1_000), "1s");
    assert_eq!(format_ms_adaptive(3_600_000), "1h");
    assert_eq!(format_ms_adaptive(3_723_004), "1h 2m 3s 4ms");
    assert_eq!(format_ms_adaptive(61_001), "1m 1s 1ms");
    assert_eq!(format_ms_adaptive(90_000_000), "25h");
    assert_eq!(format_ms_adaptive(u64::MAX), "5124095576030h 25m 51s 615ms");
}

#[test]
fn decimal_rendering() {
    assert_eq!(decimal_string(0), "0");
    assert_eq!(decimal_string(7), "7");
    assert_eq!(decimal_string(10), "10");
    assert_eq!(decimal_string(18_446_744_073_709_551_615), "18446744073709551615");
}

#[test]
fn default_configuration() {
    let c = AppConfig::default();
    assert_eq!(c.sync_mode, SyncMode::Off);
    assert_eq!(c.agreement, Agreement::Mixed);
    assert_eq!(c.delay_ms, 3_600_000);
    assert_eq!(c.timeout_ms, 30_000);
    assert_eq!(c.network_timeout_ms, 5_000);
    assert_eq!(c.web_port, 8081);
    assert_eq!(c.max_log_lines, 200);
    assert_eq!(c.service_name, "Rchronos");
    assert_eq!(c.user_agent, DEFAULT_USER_AGENT);
    assert_eq!(c.hosts.len(), 8);
    let listed: Vec<&str> = (0..c.hosts.len()).map(|i| c.hosts.entry(i).0.as_str()).collect();
    assert_eq!(
        listed,
        vec!["ntp.aliyun.com", "ntp.tencent.com", "rhel.pool.ntp.org", "time.asia.apple.com", "time.cloudflare.com", "www.163.com", "www.baidu.com", "www.qq.com"]
    );
    assert_eq!(HostConfig::default(), HostConfig { request_type: RequestType::Ntp, priority: 0, enabled: true });
    assert_eq!(enabled_hosts(&c), 8);
}

#[test]
fn host_table_keeps_name_order_and_replaces() {
    let mut t = HostTable::new();
    let ntp = HostConfig { request_type: RequestType::Ntp, priority: 0, enabled: true };
    let http = HostConfig { request_type: RequestType::Http, priority: 3, enabled: false };
    t.insert("b".to_string(), ntp);
    t.insert("a".to_string(), ntp);
    t.insert("ab".to_string(), ntp);
    t.insert("B".to_string(), ntp);
    t.insert("a".to_string(), http);
    assert_eq!(t.len(), 4);
    let listed: Vec<(String, HostConfig)> = (0..t.len()).map(|i| t.entry(i).clone()).collect();
    assert_eq!(
        listed,
        vec![("B".to_string(), ntp), ("a".to_string(), http), ("ab".to_string(), ntp), ("b".to_string(), ntp)]
    );
    let copy = t.clone();
    assert_eq!(copy.len(), 4);
    assert_eq!(copy.entry(1).1, http);
}

#[test]
fn name_order_is_byte_order() {
    assert!(name_less("a", "b"));
    assert!(name_less("a", "ab"));
    assert!(!name_less("ab", "a"));
    assert!(!name_less("a", "a"));
    assert!(name_less("Z", "a"));
    assert!(name_less("z", "é"));
}

#[test]
fn candidates_by_priority_then_name() {
    let c = AppConfig::default();
    let cands = collect_candidates(&c);
    assert_eq!(
        names(&cands),
        vec!["ntp.aliyun.com", "ntp.tencent.com", "rhel.pool.ntp.org", "time.asia.apple.com", "time.cloudflare.com", "www.163.com", "www.baidu.com", "www.qq.com"]
    );
    let mut c = AppConfig::default();
    c.hosts.insert("www.qq.com".to_string(), HostConfig { request_type: RequestType::Https, priority: 0, enabled: true });
    c.hosts.insert("ntp.aliyun.com".to_string(), HostConfig { request_type: RequestType::Ntp, priority: 5, enabled: true });
    c.hosts.insert("rhel.pool.ntp.org".to_string(), HostConfig { request_type: RequestType::Ntp, priority: 0, enabled: false });
    let cands = collect_candidates(&c);
    assert_eq!(
        names(&cands),
        vec!["ntp.tencent.com", "time.asia.apple.com", "time.cloudflare.com", "www.qq.com", "www.163.com", "www.baidu.com", "ntp.aliyun.com"]
    );
    assert_eq!(cands[3].request_type, RequestType::Https);
    assert_eq!(enabled_hosts(&c), 7);
}

#[test]
fn agreement_filters_protocols() {
    let mut c = AppConfig::default();
    assert!(request_allowed(&c, RequestType::Ntp) && request_allowed(&c, RequestType::Https));
    c.agreement = Agreement::NtpOnly;
    assert!(request_allowed(&c, RequestType::Ntp));
    assert!(!request_allowed(&c, RequestType::Http));
    let mut s = SyncSession::new(&c);
    let mut asked = Vec::new();
    while let Some(h) = s.current_host() {
        asked.push(h.name.clone());
        s.record_failure(format!("down: {}", h.name));
    }
    assert_eq!(asked, vec!["ntp.aliyun.com", "ntp.tencent.com", "rhel.pool.ntp.org", "time.asia.apple.com", "time.cloudflare.com"]);
    let result = s.finish(None);
    assert!(result.report.is_none());
    assert_eq!(result.failed_attempts.len(), 5);
    assert_eq!(result.failed_attempts[0].host, "ntp.aliyun.com");
    assert_eq!(result.failed_attempts[0].error, "down: ntp.aliyun.com");
    c.agreement = Agreement::HttpOnly;
    assert!(!request_allowed(&c, RequestType::Ntp));
    assert!(request_allowed(&c, RequestType::Http) && request_allowed(&c, RequestType::Https));
    let s = SyncSession::new(&c);
    assert_eq!(s.current_host().unwrap().name, "www.163.com");
}

#[test]
fn names_and_labels() {
    assert_eq!(request_mode_name(RequestType::Ntp), "NTP");
    assert_eq!(request_mode_name(RequestType::Http), "HTTP");
    assert_eq!(request_mode_name(RequestType::Https), "HTTPS");
    assert_eq!(request_type_label(RequestType::Https), "HTTPS");
    assert_eq!(sync_mode_label(SyncMode::Off), "Off");
    assert_eq!(sync_mode_label(SyncMode::Immediate), "Immediate (Step)");
    assert_eq!(sync_mode_label(SyncMode::Slew), "Gradual (Slew)");
    assert_eq!(agreement_label(Agreement::NtpOnly), "NTP only");
    assert_eq!(agreement_label(Agreement::HttpOnly), "HTTP only");
    assert_eq!(agreement_label(Agreement::Mixed), "Mixed");
    assert_eq!(SyncTrigger::Startup.name(), "startup");
    assert_eq!(SyncTrigger::Manual.name(), "manual");
    assert_eq!(SyncTrigger::Timer.name(), "timer");
    assert!(theme_is_light("light"));
    assert!(!theme_is_light("dark"));
    assert!(!theme_is_light("lights"));
    assert!(!theme_is_light(""));
}

#[test]
fn spa_fallback() {
    assert!(should_fallback_to_index("config"));
    assert!(should_fallback_to_index(""));
    assert!(!should_fallback_to_index("assets/app.js"));
    assert!(!should_fallback_to_index("favicon.ico"));
}

#[test]
fn urls_and_requests() {
    assert!(starts_with("https://x", "https://"));
    assert!(!starts_with("http", "http://"));
    assert_eq!(http_url("http", "www.baidu.com"), "http://www.baidu.com");
    assert_eq!(http_url("https", "www.baidu.com"), "https://www.baidu.com");
    assert_eq!(http_url("https", "http://example.com/path"), "http://example.com/path");
    assert_eq!(http_url("http", "https://example.com"), "https://example.com");
    let mut c = AppConfig::default();
    c.network_timeout_ms = 0;
    let ntp = HostCandidate { name: "pool.ntp.org".to_string(), request_type: RequestType::Ntp, priority: 0 };
    match fetch_request(&c, &ntp) {
        FetchRequest::Ntp { address, timeout_ms } => {
            assert_eq!(address, "pool.ntp.org:123");
            assert_eq!(timeout_ms, 1);
        }
        other => panic!("unexpected {:?}", other),
    }
    let web = HostCandidate { name: "www.qq.com".to_string(), request_type: RequestType::Https, priority: 1 };
    match fetch_request(&c, &web) {
        FetchRequest::Http { url, user_agent } => {
            assert_eq!(url, "https://www.qq.com");
            assert_eq!(user_agent, DEFAULT_USER_AGENT);
        }
        other => panic!("unexpected {:?}", other),
    }
}

#[test]
fn http_date_headers() {
    assert_eq!(parse_date_header("Sun, 06 Nov 1994 08:49:37 GMT").unwrap(), UtcInstant { secs: 784_111_777, nanos: 0 });
    assert_eq!(parse_date_header("Sunday, 06-Nov-94 08:49:37 GMT").unwrap(), UtcInstant { secs: 784_111_777, nanos: 0 });
    assert_eq!(parse_date_header("Sun Nov  6 08:49:37 1994").unwrap(), UtcInstant { secs: 784_111_777, nanos: 0 });
    let err = parse_date_header("yesterday").unwrap_err();
    assert_eq!(err, SyncError::InvalidDateHeader);
    assert_eq!(err.message(), "parse Date header: string contains no or an invalid date");
    assert!(parse_date_header("Sun, 06 Nov 1994 08:49:37 GMT\u{e9}").is_err());
}

#[test]
fn chrono_range_is_respected() {
    assert!(UtcInstant::from_timestamp(MAX_UNIX_SECS, 999_999_999).is_some());
    assert!(UtcInstant::from_timestamp(MAX_UNIX_SECS + 1, 0).is_none());
    assert!(UtcInstant::from_timestamp(MIN_UNIX_SECS, 0).is_some());
    assert!(UtcInstant::from_timestamp(MIN_UNIX_SECS - 1, 999_999_999).is_none());
    assert!(UtcInstant::from_timestamp(59, 1_500_000_000).is_none());
    assert!(UtcInstant::from_timestamp(0, 1_000_000_000).is_none());
    assert!(chrono::DateTime::<chrono::Utc>::from_timestamp(MAX_UNIX_SECS, 0).is_some());
    assert!(chrono::DateTime::<chrono::Utc>::from_timestamp(MAX_UNIX_SECS + 1, 0).is_none());
    assert!(chrono::DateTime::<chrono::Utc>::from_timestamp(MIN_UNIX_SECS - 1, 0).is_none());
}

#[test]
fn instant_arithmetic() {
    let t = UtcInstant { secs: 10, nanos: 900_000_000 };
    assert_eq!(add_millis(t, 250), UtcInstant { secs: 11, nanos: 150_000_000 });
    assert_eq!(add_millis(t, -950), UtcInstant { secs: 9, nanos: 950_000_000 });
    assert_eq!(add_millis(t, -10_900), UtcInstant { secs: 0, nanos: 0 });
    assert_eq!(add_millis(t, -11_000), UtcInstant { secs: -1, nanos: 900_000_000 });
    let a = UtcInstant { secs: 0, nanos: 999_999 };
    let b = UtcInstant { secs: 0, nanos: 0 };
    assert_eq!(millis_between(a, b), 0);
    assert_eq!(millis_between(b, UtcInstant { secs: -1, nanos: 998_000_001 }), 1);
    assert_eq!(millis_between(UtcInstant { secs: 5, nanos: 0 }, UtcInstant { secs: 3, nanos: 500_000_000 }), 1_500);
}

#[test]
fn adjustment_decisions() {
    let mut c = AppConfig::default();
    let remote = UtcInstant { secs: 1_000, nanos: 0 };
    let now = UtcInstant { secs: 1_000, nanos: 400_000_000 };
    c.deviation_offset_ms = 500;
    let p = plan_adjustment(&c, remote, now);
    assert_eq!(p.deviation_ms, 400);
    assert_eq!(p.action, AdjustAction::WithinDeviation);
    assert_eq!(p.action.method_name(), Some("skip-within-deviation"));
    c.deviation_offset_ms = 100;
    assert_eq!(plan_adjustment(&c, remote, now).action, AdjustAction::Disabled);
    assert_eq!(AdjustAction::Disabled.method_name(), Some("disabled"));
    c.sync_mode = SyncMode::Immediate;
    assert_eq!(plan_adjustment(&c, remote, now).action, AdjustAction::StepClock);
    assert_eq!(AdjustAction::StepClock.method_name(), Some("direct"));
    c.sync_mode = SyncMode::Slew;
    assert_eq!(plan_adjustment(&c, remote, now).action, AdjustAction::SlewClock);
    assert_eq!(AdjustAction::SlewClock.method_name(), None);
    c.offset_ms = 1_500;
    let p = plan_adjustment(&c, remote, now);
    assert_eq!(p.applied, UtcInstant { secs: 1_001, nanos: 500_000_000 });
    assert_eq!(p.deviation_ms, 1_100);
    // An offset beyond i64::MAX turns negative as chrono receives it.
    c.offset_ms = u64::MAX;
    assert!(offset_fits(&c, remote));
    assert_eq!(plan_adjustment(&c, remote, now).applied, UtcInstant { secs: 999, nanos: 999_000_000 });
    c.offset_ms = 1 << 63;
    assert!(!offset_fits(&c, remote));
}

#[test]
fn slew_threshold() {
    assert!(slew_skipped(0));
    assert!(slew_skipped(1));
    assert!(slew_skipped(-1));
    assert!(!slew_skipped(2));
    assert!(!slew_skipped(-2));
    assert!(!slew_skipped(i64::MIN));
}

#[test]
fn failing_hosts_counts_failures() {
    let mut state = RuntimeState::new(AppConfig::default());
    let snap = state.snapshot("c.toml".to_string());
    assert_eq!(failing_hosts(&snap), 0);
    state.request_sync(SyncTrigger::Manual);
    let mut s = SyncSession::new(&state.config);
    s.record_failure("timeout".to_string());
    s.record_failure("refused".to_string());
    let third = s.current_host().unwrap();
    let remote = UtcInstant::from_timestamp(1_700_000_000, 0).unwrap();
    let plan = plan_adjustment(&state.config, remote, remote);
    let result = s.answered(remote, remote, plan, String::new());
    let report = result.report.clone().unwrap();
    assert_eq!(report.server, third.name);
    assert_eq!(report.method, "skip-within-deviation");
    assert_eq!(report.deviation_ms, 0);
    assert_eq!(result.failed_attempts.len(), 2);
    state.finish_sync(Ok(result), SyncTrigger::Manual, ReportTimes {
        applied_local: String::new(),
        remote_utc: String::new(),
        local_before: String::new(),
    });
    let snap = state.snapshot("c.toml".to_string());
    assert_eq!(failing_hosts(&snap), 2);
    assert_eq!(snap.config_path, "c.toml");
}

#[test]
fn errors_and_defaults() {
    assert!(matches!(AppError::msg("x".to_string()), AppError::Message(m) if m == "x"));
    assert!(matches!(ConfigError::msg("y".to_string()), ConfigError::Message(m) if m == "y"));
    let mut custom = AppConfig::default();
    custom.web_port = 9000;
    assert_eq!(config_or_default(Ok(custom)).web_port, 9000);
    assert_eq!(config_or_default(Err(ConfigError::Io("missing".to_string()))).web_port, 8081);
    assert_eq!(SyncError::NtpTimeOutOfRange.message(), "decode NTP time");
}


#[test]
fn date_header_seconds_become_instants() {
    assert_eq!(date_header_instant(Some(0)), Ok(UtcInstant { secs: 0, nanos: 0 }));
    assert_eq!(date_header_instant(Some(784_111_777)), Ok(UtcInstant { secs: 784_111_777, nanos: 0 }));
    assert_eq!(date_header_instant(Some(MAX_UNIX_SECS as u64)), Ok(UtcInstant { secs: MAX_UNIX_SECS, nanos: 0 }));
    assert_eq!(date_header_instant(Some(MAX_UNIX_SECS as u64 + 1)), Err(SyncError::InvalidDateHeader));
    assert_eq!(date_header_instant(Some(u64::MAX)), Err(SyncError::InvalidDateHeader));
    assert_eq!(date_header_instant(None), Err(SyncError::InvalidDateHeader));
}

#[test]
fn answered_run_reports_the_asked_host() {
    let mut c = AppConfig::default();
    c.sync_mode = SyncMode::Slew;
    let mut s = SyncSession::new(&c);
    let first = s.current_host().unwrap();
    s.record_failure("timeout".to_string());
    let second = s.current_host().unwrap();
    let remote = UtcInstant::from_timestamp(1_700_000_010, 0).unwrap();
    let now = UtcInstant::from_timestamp(1_700_000_000, 0).unwrap();
    let plan = plan_adjustment(&c, remote, now);
    assert_eq!(plan.action, AdjustAction::SlewClock);
    let result = s.answered(remote, now, plan, "slew-precise".to_string());
    let report = result.report.unwrap();
    assert_eq!(report.server, second.name);
    assert_eq!(report.request_type, second.request_type);
    assert_eq!(report.method, "slew-precise");
    assert_eq!(report.deviation_ms, 10_000);
    assert_eq!(report.remote_utc, remote);
    assert_eq!(report.applied_utc, remote);
    assert_eq!(report.local_before, now);
    assert_eq!(result.failed_attempts.len(), 1);
    assert_eq!(result.failed_attempts[0].host, first.name);
}

fn status(name: &str, request_type: RequestType, priority: u32, fail_count: u32, last_error: Option<&str>) -> HostStatus {
    HostStatus { name: name.to_string(), request_type, priority, fail_count, last_error: last_error.map(|e| e.to_string()) }
}

#[test]
fn host_lines_render() {
    let healthy = status("ntp.aliyun.com", RequestType::Ntp, 0, 0, None);
    let failing = status("www.qq.com", RequestType::Https, 12, 3, Some("timeout"));
    assert_eq!(host_summary_line(&healthy), "ntp.aliyun.com • NTP • priority 0");
    assert_eq!(host_summary_line(&failing), "www.qq.com (Fails: 3) • HTTPS • priority 12");
    assert_eq!(host_table_line(&healthy), "✅ ntp.aliyun.com | NTP | priority 0 | fails 0");
    assert_eq!(host_table_line(&failing), "❌ www.qq.com | HTTPS | priority 12 | fails 3 | Error: timeout");
}

#[test]
fn host_panels_render() {
    let state = RuntimeState::new(AppConfig::default());
    let mut snap = state.snapshot("c.toml".to_string());
    snap.status.hosts = Vec::new();
    assert_eq!(host_summary_text(&snap), "No hosts configured.");
    assert_eq!(host_table_text(&snap), "No hosts configured.");
    snap.status.hosts = vec![
        status("a", RequestType::Ntp, 0, 0, None),
        status("b", RequestType::Http, 1, 2, Some("refused")),
    ];
    assert_eq!(host_summary_text(&snap), "a • NTP • priority 0\nb (Fails: 2) • HTTP • priority 1");
    assert_eq!(host_table_text(&snap), "✅ a | NTP | priority 0 | fails 0\n❌ b | HTTP | priority 1 | fails 2 | Error: refused");
    snap.status.hosts = (0..10).map(|i| status(&format!("h{i}"), RequestType::Ntp, i, 0, None)).collect();
    let summary = host_summary_text(&snap);
    assert_eq!(summary.lines().count(), 8);
    assert!(summary.ends_with("h7 • NTP • priority 7"));
    assert_eq!(host_table_text(&snap).lines().count(), 10);
}

#[test]
fn log_panel_shows_newest_first() {
    let state = RuntimeState::new(AppConfig::default());
    let mut snap = state.snapshot("c.toml".to_string());
    snap.logs = Vec::new();
    assert_eq!(recent_logs_text(&snap, 5), "No logs yet.");
    snap.logs = vec!["one".to_string(), "two".to_string(), "three".to_string()];
    assert_eq!(recent_logs_text(&snap, 0), "No logs yet.");
    assert_eq!(recent_logs_text(&snap, 2), "three\ntwo");
    assert_eq!(recent_logs_text(&snap, 10), "three\ntwo\none");
}
