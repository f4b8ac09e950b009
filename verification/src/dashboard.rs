//! What the dashboard derives from the configuration and the snapshot.
use vstd::prelude::*;
use crate::config::{AppConfig, Agreement, HostConfig, RequestType, SyncMode};
use crate::runtime::{HostStatus, RuntimeSnapshot};
use crate::sync::mode_name;
use crate::text::{decimal, decimal_string, join, push_joined};

verus! {

/// How many entries of a table are enabled.
pub open spec fn count_enabled(s: Seq<(Seq<char>, HostConfig)>) -> nat
    decreases s.len(),
{
    if s.len() == 0 {
        0
    } else {
        count_enabled(s.drop_last()) + if s.last().1.enabled { 1nat } else { 0nat }
    }
}

/// How many hosts of the configuration are enabled.
pub fn enabled_hosts(config: &AppConfig) -> (n: usize)
    ensures
        n == count_enabled(config.hosts.entries()),
{
    let len = config.hosts.len();
    let ghost es = config.hosts.entries();
    let mut n: usize = 0;
    let mut i: usize = 0;
    while i < len
        invariant
            len == es.len(),
            es == config.hosts.entries(),
            i <= len,
            n == count_enabled(es.take(i as int)),
            n <= i,
        decreases len - i,
    {
        let e = config.hosts.entry(i);
        assert(es.take(i + 1).drop_last() =~= es.take(i as int));
        if e.1.enabled {
            n = n + 1;
        }
        i = i + 1;
    }
    assert(es.take(len as int) =~= es);
    n
}

/// How many status lines show at least one failure.
pub open spec fn count_failing(s: Seq<HostStatus>) -> nat
    decreases s.len(),
{
    if s.len() == 0 {
        0
    } else {
        count_failing(s.drop_last()) + if s.last().fail_count > 0 { 1nat } else { 0nat }
    }
}

/// How many hosts have failed since their last answer.
pub fn failing_hosts(snapshot: &RuntimeSnapshot) -> (n: usize)
    ensures
        n == count_failing(snapshot.status.hosts@),
{
    let hosts = &snapshot.status.hosts;
    let mut n: usize = 0;
    let mut i: usize = 0;
    while i < hosts.len()
        invariant
            i <= hosts@.len(),
            n == count_failing(hosts@.take(i as int)),
            n <= i,
        decreases hosts@.len() - i,
    {
        assert(hosts@.take(i + 1).drop_last() =~= hosts@.take(i as int));
        if hosts[i].fail_count > 0 {
            n = n + 1;
        }
        i = i + 1;
    }
    assert(hosts@.take(hosts@.len() as int) =~= hosts@);
    n
}

/// The label of a protocol.
pub fn request_type_label(request_type: RequestType) -> (s: &'static str)
    ensures
        s@ == crate::sync::mode_name(request_type),
{
    match request_type {
        RequestType::Http => "HTTP",
        RequestType::Https => "HTTPS",
        RequestType::Ntp => "NTP",
    }
}

pub open spec fn sync_mode_text(mode: SyncMode) -> Seq<char> {
    match mode {
        SyncMode::Off => "Off"@,
        SyncMode::Immediate => "Immediate (Step)"@,
        SyncMode::Slew => "Gradual (Slew)"@,
    }
}

/// The label of a synchronisation mode.
pub fn sync_mode_label(sync_mode: SyncMode) -> (s: &'static str)
    ensures
        s@ == sync_mode_text(sync_mode),
{
    match sync_mode {
        SyncMode::Off => "Off",
        SyncMode::Immediate => "Immediate (Step)",
        SyncMode::Slew => "Gradual (Slew)",
    }
}

pub open spec fn agreement_text(agreement: Agreement) -> Seq<char> {
    match agreement {
        Agreement::NtpOnly => "NTP only"@,
        Agreement::HttpOnly => "HTTP only"@,
        Agreement::Mixed => "Mixed"@,
    }
}

/// The label of an agreement.
pub fn agreement_label(agreement: Agreement) -> (s: &'static str)
    ensures
        s@ == agreement_text(agreement),
{
    match agreement {
        Agreement::NtpOnly => "NTP only",
        Agreement::HttpOnly => "HTTP only",
        Agreement::Mixed => "Mixed",
    }
}

/// A request path without a dot is a route of the single-page application,
/// answered with its index page; a path with a dot names a file.
pub fn should_fallback_to_index(path: &str) -> (r: bool)
    ensures
        r == !path@.contains('.'),
{
    let n = path.unicode_len();
    let mut i: usize = 0;
    while i < n
        invariant
            n == path@.len(),
            i <= n,
            forall|j: int| 0 <= j < i ==> path@[j] != '.',
        decreases n - i,
    {
        if path.get_char(i) == '.' {
            return false;
        }
        i = i + 1;
    }
    true
}

/// Whether the dashboard uses its light theme: only for the name `light`;
/// every other name gets the dark theme.
pub fn theme_is_light(name: &str) -> (r: bool)
    ensures
        r == (name@ == "light"@),
{
    let light = "light";
    proof {
        reveal_strlit("light");
    }
    if name.unicode_len() != 5 {
        return false;
    }
    let mut i: usize = 0;
    while i < 5
        invariant
            name@.len() == 5,
            light@ == "light"@,
            light@.len() == 5,
            i <= 5,
            forall|j: int| 0 <= j < i ==> name@[j] == light@[j],
        decreases 5 - i,
    {
        if name.get_char(i) != light.get_char(i) {
            return false;
        }
        i = i + 1;
    }
    assert(name@ =~= light@);
    true
}

/// A host's line in the host summary: its name, its failure count when it has
/// failed, its protocol and its priority.
pub open spec fn summary_line(h: HostStatus) -> Seq<char> {
    h.name@ + (if h.fail_count > 0 { " (Fails: "@ + decimal(h.fail_count as nat) + ")"@ } else { Seq::empty() })
        + " • "@ + mode_name(h.request_type) + " • priority "@ + decimal(h.priority as nat)
}

/// Renders a host's line of the host summary.
pub fn host_summary_line(host: &HostStatus) -> (s: String)
    ensures
        s@ == summary_line(*host),
{
    proof {
        reveal_strlit(" (Fails: ");
        reveal_strlit(")");
        reveal_strlit(" • ");
        reveal_strlit(" • priority ");
    }
    let mut s = host.name.clone();
    if host.fail_count > 0 {
        s.append(" (Fails: ");
        let n = decimal_string(host.fail_count as u64);
        s.append(n.as_str());
        s.append(")");
    }
    s.append(" • ");
    s.append(request_type_label(host.request_type));
    s.append(" • priority ");
    let p = decimal_string(host.priority as u64);
    s.append(p.as_str());
    s
}

/// The most hosts the host summary lists.
pub const SUMMARY_HOSTS: usize = 8;

/// The host summary: the lines of the first hosts, one per line, or a note
/// that no host is configured.
pub open spec fn summary_text(hosts: Seq<HostStatus>) -> Seq<char> {
    if hosts.len() == 0 {
        "No hosts configured."@
    } else {
        let shown = if hosts.len() < SUMMARY_HOSTS { hosts.len() as int } else { SUMMARY_HOSTS as int };
        join(hosts.take(shown).map_values(|h: HostStatus| summary_line(h)), "\n"@)
    }
}

/// Renders the host summary of a snapshot.
pub fn host_summary_text(snapshot: &RuntimeSnapshot) -> (s: String)
    ensures
        s@ == summary_text(snapshot.status.hosts@),
{
    proof {
        reveal_strlit("No hosts configured.");
        reveal_strlit("\n");
    }
    let hosts = &snapshot.status.hosts;
    if hosts.len() == 0 {
        return String::from_str("No hosts configured.");
    }
    let shown: usize = if hosts.len() < SUMMARY_HOSTS { hosts.len() } else { SUMMARY_HOSTS };
    let mut out = String::new();
    let mut i: usize = 0;
    while i < shown
        invariant
            shown <= hosts@.len(),
            i <= shown,
            out@ == join(hosts@.take(i as int).map_values(|h: HostStatus| summary_line(h)), "\n"@),
        decreases shown - i,
    {
        let line = host_summary_line(&hosts[i]);
        let ghost parts = hosts@.take(i as int).map_values(|h: HostStatus| summary_line(h));
        push_joined(&mut out, "\n", line.as_str(), i == 0, Ghost(parts));
        assert(parts.push(line@) =~= hosts@.take(i + 1).map_values(|h: HostStatus| summary_line(h)));
        i = i + 1;
    }
    out
}

/// A host's row in the host table: a mark for failing or healthy, the name,
/// the protocol, the priority, the failure count, and the last error if any.
pub open spec fn table_line(h: HostStatus) -> Seq<char> {
    (if h.fail_count > 0 { "❌"@ } else { "✅"@ }) + " "@ + h.name@ + " | "@ + mode_name(h.request_type)
        + " | priority "@ + decimal(h.priority as nat) + " | fails "@ + decimal(h.fail_count as nat)
        + match h.last_error {
            Some(e) => " | Error: "@ + e@,
            None => Seq::empty(),
        }
}

/// Renders a host's row of the host table.
pub fn host_table_line(host: &HostStatus) -> (s: String)
    ensures
        s@ == table_line(*host),
{
    proof {
        reveal_strlit("❌");
        reveal_strlit("✅");
        reveal_strlit(" ");
        reveal_strlit(" | ");
        reveal_strlit(" | priority ");
        reveal_strlit(" | fails ");
        reveal_strlit(" | Error: ");
    }
    let mut s = if host.fail_count > 0 { String::from_str("❌") } else { String::from_str("✅") };
    s.append(" ");
    s.append(host.name.as_str());
    s.append(" | ");
    s.append(request_type_label(host.request_type));
    s.append(" | priority ");
    let p = decimal_string(host.priority as u64);
    s.append(p.as_str());
    s.append(" | fails ");
    let f = decimal_string(host.fail_count as u64);
    s.append(f.as_str());
    match &host.last_error {
        Some(e) => {
            s.append(" | Error: ");
            s.append(e.as_str());
        },
        None => {},
    }
    s
}

/// The host table: every host's row, one per line, or a note that no host is
/// configured.
pub open spec fn table_text(hosts: Seq<HostStatus>) -> Seq<char> {
    if hosts.len() == 0 {
        "No hosts configured."@
    } else {
        join(hosts.map_values(|h: HostStatus| table_line(h)), "\n"@)
    }
}

/// Renders the host table of a snapshot.
pub fn host_table_text(snapshot: &RuntimeSnapshot) -> (s: String)
    ensures
        s@ == table_text(snapshot.status.hosts@),
{
    proof {
        reveal_strlit("No hosts configured.");
        reveal_strlit("\n");
    }
    let hosts = &snapshot.status.hosts;
    if hosts.len() == 0 {
        return String::from_str("No hosts configured.");
    }
    let mut out = String::new();
    let mut i: usize = 0;
    while i < hosts.len()
        invariant
            i <= hosts@.len(),
            out@ == join(hosts@.take(i as int).map_values(|h: HostStatus| table_line(h)), "\n"@),
        decreases hosts@.len() - i,
    {
        let line = host_table_line(&hosts[i]);
        let ghost parts = hosts@.take(i as int).map_values(|h: HostStatus| table_line(h));
        push_joined(&mut out, "\n", line.as_str(), i == 0, Ghost(parts));
        assert(parts.push(line@) =~= hosts@.take(i + 1).map_values(|h: HostStatus| table_line(h)));
        i = i + 1;
    }
    assert(hosts@.take(hosts@.len() as int) =~= hosts@);
    out
}

/// The newest `limit` log lines, newest first.
pub open spec fn newest_logs(logs: Seq<Seq<char>>, limit: nat) -> Seq<Seq<char>> {
    let n = if logs.len() < limit { logs.len() } else { limit };
    Seq::new(n, |i: int| logs[logs.len() - 1 - i])
}

/// The log panel: the newest `limit` lines, newest first, one per line, or a
/// note that there are no logs yet.
pub open spec fn logs_text(logs: Seq<Seq<char>>, limit: nat) -> Seq<char> {
    if newest_logs(logs, limit).len() == 0 {
        "No logs yet."@
    } else {
        join(newest_logs(logs, limit), "\n"@)
    }
}

/// Renders the log panel of a snapshot, showing at most `limit` lines.
pub fn recent_logs_text(snapshot: &RuntimeSnapshot, limit: usize) -> (s: String)
    ensures
        s@ == logs_text(crate::runtime::log_texts(snapshot.logs@), limit as nat),
{
    proof {
        reveal_strlit("No logs yet.");
        reveal_strlit("\n");
    }
    let logs = &snapshot.logs;
    let ghost texts = crate::runtime::log_texts(logs@);
    let n: usize = logs.len();
    let shown: usize = if n < limit { n } else { limit };
    if shown == 0 {
        return String::from_str("No logs yet.");
    }
    let mut out = String::new();
    let mut i: usize = 0;
    while i < shown
        invariant
            n == logs@.len(),
            texts == crate::runtime::log_texts(logs@),
            shown <= n,
            shown == newest_logs(texts, limit as nat).len(),
            i <= shown,
            out@ == join(newest_logs(texts, limit as nat).take(i as int), "\n"@),
        decreases shown - i,
    {
        let line = &logs[n - 1 - i];
        let ghost parts = newest_logs(texts, limit as nat).take(i as int);
        push_joined(&mut out, "\n", line.as_str(), i == 0, Ghost(parts));
        assert(parts.push(line@) =~= newest_logs(texts, limit as nat).take(i + 1));
        i = i + 1;
    }
    assert(newest_logs(texts, limit as nat).take(shown as int) =~= newest_logs(texts, limit as nat));
    out
}

} // verus!
