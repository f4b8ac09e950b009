//! Host selection and the decisions of one synchronisation run.
use vstd::prelude::*;
use crate::config::{entry_view, names_sorted, Agreement, AppConfig, HostConfig, RequestType};
use crate::order::{lemma_name_lt_total, name_lt};
use crate::text::{decimal, decimal_string};
use crate::time::UtcInstant;

verus! {

/// Why a time could not be obtained from a host.
#[derive(Clone, Debug, PartialEq, Eq, Structural)]
pub enum SyncError {
    /// A reply whose mode is not the server mode.
    InvalidNtpMode(u8),
    /// A reply whose transmit time chrono cannot represent.
    NtpTimeOutOfRange,
    /// A `Date` header that is not an HTTP date.
    InvalidDateHeader,
}

impl SyncError {
    /// The text of the error, as the service logs it.
    pub open spec fn text(&self) -> Seq<char> {
        match self {
            SyncError::InvalidNtpMode(m) => "invalid NTP server mode: "@ + decimal(*m as nat) + ", expected 4"@,
            SyncError::NtpTimeOutOfRange => "decode NTP time"@,
            SyncError::InvalidDateHeader => "parse Date header: string contains no or an invalid date"@,
        }
    }

    /// Renders the error.
    pub fn message(&self) -> (s: String)
        ensures
            s@ == self.text(),
    {
        match self {
            SyncError::InvalidNtpMode(m) => {
                let mut s = String::from_str("invalid NTP server mode: ");
                let d = decimal_string(*m as u64);
                s.append(d.as_str());
                s.append(", expected 4");
                s
            },
            SyncError::NtpTimeOutOfRange => String::from_str("decode NTP time"),
            SyncError::InvalidDateHeader => String::from_str("parse Date header: string contains no or an invalid date"),
        }
    }
}

/// A host to ask for the time.
#[derive(Debug)]
pub struct HostCandidate {
    pub name: String,
    pub request_type: RequestType,
    pub priority: u32,
}

impl Clone for HostCandidate {
    fn clone(&self) -> (r: Self)
        ensures
            r == *self,
    {
        HostCandidate { name: self.name.clone(), request_type: self.request_type, priority: self.priority }
    }
}

/// `a` is asked before `b`: lower priority value first, then name order.
pub open spec fn asked_before(a: HostCandidate, b: HostCandidate) -> bool {
    a.priority < b.priority || (a.priority == b.priority && name_lt(a.name@, b.name@))
}

/// Strictly ordered by `asked_before`.
pub open spec fn candidates_sorted(s: Seq<HostCandidate>) -> bool {
    forall|i: int, j: int| 0 <= i < j < s.len() ==> asked_before(#[trigger] s[i], #[trigger] s[j])
}

/// The host table entry that a candidate comes from.
pub open spec fn candidate_config(c: HostCandidate) -> HostConfig {
    HostConfig { request_type: c.request_type, priority: c.priority, enabled: true }
}

/// The enabled hosts of `config`, in the order in which they are asked.
pub open spec fn is_candidate_list(config: AppConfig, r: Seq<HostCandidate>) -> bool {
    &&& candidates_sorted(r)
    &&& forall|i: int| 0 <= i < r.len() ==> config.hosts.has((#[trigger] r[i]).name@, candidate_config(r[i]))
    &&& forall|k: Seq<char>, c: HostConfig|
        #![trigger config.hosts.has(k, c)]
        config.hosts.has(k, c) && c.enabled ==> exists|i: int| 0 <= i < r.len() && (#[trigger] r[i]).name@ == k && candidate_config(r[i]) == c
}

/// The host table entry of a candidate.
pub open spec fn cand_entry(c: HostCandidate) -> (Seq<char>, HostConfig) {
    (c.name@, candidate_config(c))
}

/// The host table entries of candidates.
pub open spec fn cand_entries(s: Seq<HostCandidate>) -> Seq<(Seq<char>, HostConfig)> {
    s.map_values(|c: HostCandidate| cand_entry(c))
}

proof fn lemma_take_push<A>(s: Seq<A>, i: int, e: A)
    requires
        0 <= i < s.len(),
    ensures
        s.take(i + 1).contains(e) <==> (s.take(i).contains(e) || e == s[i]),
{
    let t1 = s.take(i + 1);
    let t0 = s.take(i);
    assert(t1 =~= t0.push(s[i]));
    if t1.contains(e) {
        let j = choose|j: int| 0 <= j < t1.len() && t1[j] == e;
        if j < i {
            assert(t0[j] == e);
        }
    }
    if t0.contains(e) {
        let j = choose|j: int| 0 <= j < t0.len() && t0[j] == e;
        assert(t1[j] == e);
    }
    if e == s[i] {
        assert(t1[i] == e);
    }
}

/// Puts `cand` after every candidate of no greater priority value.
fn insert_candidate(hosts: &mut Vec<HostCandidate>, cand: HostCandidate)
    requires
        candidates_sorted(old(hosts)@),
        forall|m: int| 0 <= m < old(hosts)@.len() ==> name_lt((#[trigger] old(hosts)@[m]).name@, cand.name@),
    ensures
        candidates_sorted(final(hosts)@),
        forall|e: (Seq<char>, HostConfig)| #![trigger cand_entries(final(hosts)@).contains(e)]
            cand_entries(final(hosts)@).contains(e)
                <==> (e == cand_entry(cand) || cand_entries(old(hosts)@).contains(e)),
{
    let p = cand.priority;
    let mut q: usize = 0;
    while q < hosts.len() && hosts[q].priority <= p
        invariant
            q <= hosts@.len(),
            forall|m: int| 0 <= m < q ==> (#[trigger] hosts@[m]).priority <= p,
        decreases hosts@.len() - q,
    {
        q = q + 1;
    }
    let ghost old_hosts = hosts@;
    proof {
        lemma_insert_candidate(old_hosts, q as int, cand);
    }
    hosts.insert(q, cand);
    proof {
        old_hosts.insert_ensures(q as int, cand);
        let nm = cand_entries(hosts@);
        let om = cand_entries(old_hosts);
        assert forall|e: (Seq<char>, HostConfig)| nm.contains(e) <==> (e == cand_entry(cand) || om.contains(e)) by {
            if nm.contains(e) {
                let k = choose|k: int| 0 <= k < nm.len() && nm[k] == e;
                if k < q {
                    assert(om[k] == e);
                } else if k > q {
                    assert(hosts@[(k - 1) + 1] == old_hosts[k - 1]);
                    assert(om[k - 1] == e);
                }
            }
            if e == cand_entry(cand) {
                assert(nm[q as int] == e);
            }
            if om.contains(e) {
                let k = choose|k: int| 0 <= k < om.len() && om[k] == e;
                if k < q {
                    assert(nm[k] == e);
                } else {
                    assert(hosts@[k + 1] == old_hosts[k]);
                    assert(nm[k + 1] == e);
                }
            }
        }
    }
}

/// The enabled hosts of the configuration, ordered by priority and then by name.
pub fn collect_candidates(config: &AppConfig) -> (r: Vec<HostCandidate>)
    ensures
        is_candidate_list(*config, r@),
{
    let n = config.hosts.len();
    let ghost es = config.hosts.entries();
    let mut hosts: Vec<HostCandidate> = Vec::new();
    let mut i: usize = 0;
    assert(cand_entries(hosts@) =~= Seq::<(Seq<char>, HostConfig)>::empty());
    while i < n
        invariant
            n == es.len(),
            es == config.hosts.entries(),
            i <= n,
            i > 0 ==> names_sorted(es),
            candidates_sorted(hosts@),
            forall|e: (Seq<char>, HostConfig)| #![trigger cand_entries(hosts@).contains(e)]
                cand_entries(hosts@).contains(e) <==> (es.take(i as int).contains(e) && e.1.enabled),
        decreases n - i,
    {
        let entry = config.hosts.entry(i);
        if entry.1.enabled {
            let cand = HostCandidate { name: entry.0.clone(), request_type: entry.1.request_type, priority: entry.1.priority };
            let ghost om = cand_entries(hosts@);
            proof {
                assert forall|m: int| 0 <= m < hosts@.len() implies name_lt((#[trigger] hosts@[m]).name@, cand.name@) by {
                    assert(om[m] == cand_entry(hosts@[m]));
                    assert(om.contains(cand_entry(hosts@[m])));
                    let tk = es.take(i as int);
                    let j = choose|j: int| 0 <= j < tk.len() && tk[j] == cand_entry(hosts@[m]);
                    assert(name_lt(es[j].0, es[i as int].0));
                }
            }
            assert(cand_entry(cand) == es[i as int]);
            insert_candidate(&mut hosts, cand);
            assert forall|e: (Seq<char>, HostConfig)| #[trigger] cand_entries(hosts@).contains(e) <==> (es.take(i as int + 1).contains(e) && e.1.enabled) by {
                lemma_take_push(es, i as int, e);
            }
        } else {
            assert forall|e: (Seq<char>, HostConfig)| #[trigger] cand_entries(hosts@).contains(e) <==> (es.take(i as int + 1).contains(e) && e.1.enabled) by {
                lemma_take_push(es, i as int, e);
            }
        }
        i = i + 1;
    }
    proof {
        let m = cand_entries(hosts@);
        assert(es.take(n as int) =~= es);
        assert forall|k: int| 0 <= k < hosts@.len() implies config.hosts.has((#[trigger] hosts@[k]).name@, candidate_config(hosts@[k])) by {
            assert(m[k] == cand_entry(hosts@[k]));
            assert(m.contains(cand_entry(hosts@[k])));
        }
        assert forall|k: Seq<char>, c: HostConfig| #![trigger config.hosts.has(k, c)]
            config.hosts.has(k, c) && c.enabled implies exists|j: int| 0 <= j < hosts@.len() && (#[trigger] hosts@[j]).name@ == k && candidate_config(hosts@[j]) == c by {
            assert(m.contains((k, c)));
            let j = choose|j: int| 0 <= j < m.len() && m[j] == (k, c);
            assert(hosts@[j].name@ == k && candidate_config(hosts@[j]) == c);
        }
    }
    hosts
}

proof fn lemma_insert_candidate(s: Seq<HostCandidate>, q: int, c: HostCandidate)
    requires
        candidates_sorted(s),
        0 <= q <= s.len(),
        forall|m: int| 0 <= m < q ==> (#[trigger] s[m]).priority <= c.priority,
        q < s.len() ==> s[q].priority > c.priority,
        forall|m: int| 0 <= m < s.len() ==> name_lt((#[trigger] s[m]).name@, c.name@),
    ensures
        candidates_sorted(s.insert(q, c)),
{
    let t = s.insert(q, c);
    s.insert_ensures(q, c);
    assert forall|a: int, b: int| 0 <= a < b < t.len() implies asked_before(#[trigger] t[a], #[trigger] t[b]) by {
        if b < q {
            assert(asked_before(s[a], s[b]));
        } else if b == q {
            assert(s[a].priority <= c.priority);
            assert(name_lt(s[a].name@, c.name@));
        } else {
            assert(t[b] == s[b - 1]);
            if b - 1 > q {
                assert(asked_before(s[q], s[b - 1]));
            }
            if a < q {
                assert(t[a] == s[a]);
                assert(asked_before(s[a], s[b - 1]));
            } else if a == q {
            } else {
                assert(t[a] == s[a - 1]);
                assert(asked_before(s[a - 1], s[b - 1]));
            }
        }
    }
}

} // verus!

verus! {

/// Whether the agreement permits fetching the time over `request_type`.
pub open spec fn allows(agreement: Agreement, request_type: RequestType) -> bool {
    match agreement {
        Agreement::NtpOnly => request_type == RequestType::Ntp,
        Agreement::HttpOnly => request_type == RequestType::Http || request_type == RequestType::Https,
        Agreement::Mixed => true,
    }
}

/// Whether the configuration permits fetching the time over `request_type`.
pub fn request_allowed(config: &AppConfig, request_type: RequestType) -> (r: bool)
    ensures
        r == allows(config.agreement, request_type),
        config.agreement == Agreement::Mixed ==> r,
        config.agreement == Agreement::NtpOnly ==> (r <==> request_type == RequestType::Ntp),
        config.agreement == Agreement::HttpOnly ==> (r <==> request_type != RequestType::Ntp),
{
    match config.agreement {
        Agreement::NtpOnly => request_type == RequestType::Ntp,
        Agreement::HttpOnly => request_type == RequestType::Http || request_type == RequestType::Https,
        Agreement::Mixed => true,
    }
}

/// The protocols each agreement permits: only NTP, only HTTP and HTTPS, or,
/// under the mixed agreement, every protocol; so under the mixed agreement the
/// ask order of a run holds every enabled host of the table.
pub proof fn lemma_agreement_protocols(config: AppConfig, order: Seq<HostCandidate>, t: RequestType)
    requires
        is_sync_order(config, order),
    ensures
        allows(Agreement::Mixed, t),
        allows(Agreement::NtpOnly, t) <==> t == RequestType::Ntp,
        allows(Agreement::HttpOnly, t) <==> t != RequestType::Ntp,
        config.agreement == Agreement::Mixed ==> forall|k: Seq<char>, c: HostConfig|
            #![trigger config.hosts.has(k, c)]
            config.hosts.has(k, c) && c.enabled ==> exists|i: int|
                0 <= i < order.len() && (#[trigger] order[i]).name@ == k && candidate_config(order[i]) == c,
{
    if config.agreement == Agreement::Mixed {
        assert forall|k: Seq<char>, c: HostConfig| #![trigger config.hosts.has(k, c)]
            config.hosts.has(k, c) && c.enabled implies exists|i: int|
                0 <= i < order.len() && (#[trigger] order[i]).name@ == k && candidate_config(order[i]) == c by {
            assert(allows(config.agreement, c.request_type));
        }
    }
}

/// The protocol name shown in logs.
pub open spec fn mode_name(mode: RequestType) -> Seq<char> {
    match mode {
        RequestType::Ntp => "NTP"@,
        RequestType::Http => "HTTP"@,
        RequestType::Https => "HTTPS"@,
    }
}

/// The protocol name shown in logs.
pub fn request_mode_name(mode: RequestType) -> (s: &'static str)
    ensures
        s@ == mode_name(mode),
{
    match mode {
        RequestType::Ntp => "NTP",
        RequestType::Http => "HTTP",
        RequestType::Https => "HTTPS",
    }
}

/// `s` begins with `p`.
pub open spec fn has_prefix(s: Seq<char>, p: Seq<char>) -> bool {
    p.len() <= s.len() && s.subrange(0, p.len() as int) == p
}

/// Tells whether `s` begins with `p`.
pub fn starts_with(s: &str, p: &str) -> (r: bool)
    ensures
        r == has_prefix(s@, p@),
{
    let n = p.unicode_len();
    let m = s.unicode_len();
    if n > m {
        return false;
    }
    let mut i: usize = 0;
    while i < n
        invariant
            n == p@.len(),
            m == s@.len(),
            n <= m,
            i <= n,
            s@.subrange(0, i as int) == p@.subrange(0, i as int),
        decreases n - i,
    {
        if s.get_char(i) != p.get_char(i) {
            assert(s@.subrange(0, n as int)[i as int] != p@[i as int]);
            return false;
        }
        assert(s@.subrange(0, i + 1) =~= s@.subrange(0, i as int).push(s@[i as int]));
        assert(p@.subrange(0, i + 1) =~= p@.subrange(0, i as int).push(p@[i as int]));
        i = i + 1;
    }
    assert(p@.subrange(0, n as int) =~= p@);
    true
}

/// The URL asked for the time of an HTTP host: the host itself when it already
/// names a scheme, else `scheme://host`.
pub open spec fn http_url_of(scheme: Seq<char>, host: Seq<char>) -> Seq<char> {
    if has_prefix(host, "http://"@) || has_prefix(host, "https://"@) {
        host
    } else {
        scheme + "://"@ + host
    }
}

/// Builds the URL asked for the time of an HTTP host.
pub fn http_url(scheme: &str, host: &str) -> (url: String)
    ensures
        url@ == http_url_of(scheme@, host@),
{
    if starts_with(host, "http://") || starts_with(host, "https://") {
        String::from_str(host)
    } else {
        let mut url = String::from_str(scheme);
        url.append("://");
        url.append(host);
        url
    }
}

/// What is sent to a host to learn its time.
#[derive(Clone, Debug)]
pub enum FetchRequest {
    /// An NTP request to `address` (`host:123`), waiting at most `timeout_ms`.
    Ntp { address: String, timeout_ms: u64 },
    /// An HTTP `HEAD` request to `url`, identifying as `user_agent`.
    Http { url: String, user_agent: String },
}

/// The request for the time of `host`: NTP hosts are asked on port 123 with the
/// network timeout (at least 1 ms); HTTP and HTTPS hosts with a `HEAD` request.
pub fn fetch_request(config: &AppConfig, host: &HostCandidate) -> (r: FetchRequest)
    ensures
        host.request_type == RequestType::Ntp ==> (r matches FetchRequest::Ntp { address, timeout_ms }
            && address@ == host.name@ + ":123"@
            && timeout_ms == if config.network_timeout_ms < 1 { 1 } else { config.network_timeout_ms }),
        host.request_type == RequestType::Http ==> (r matches FetchRequest::Http { url, user_agent }
            && url@ == http_url_of("http"@, host.name@) && user_agent@ == config.user_agent@),
        host.request_type == RequestType::Https ==> (r matches FetchRequest::Http { url, user_agent }
            && url@ == http_url_of("https"@, host.name@) && user_agent@ == config.user_agent@),
{
    match host.request_type {
        RequestType::Ntp => {
            let mut address = host.name.clone();
            address.append(":123");
            let timeout_ms = if config.network_timeout_ms < 1 { 1 } else { config.network_timeout_ms };
            FetchRequest::Ntp { address, timeout_ms }
        },
        RequestType::Http => FetchRequest::Http {
            url: http_url("http", host.name.as_str()),
            user_agent: config.user_agent.clone(),
        },
        RequestType::Https => FetchRequest::Http {
            url: http_url("https", host.name.as_str()),
            user_agent: config.user_agent.clone(),
        },
    }
}

/// The Unix second that `httpdate::parse_http_date` finds in a header value, or
/// `None` where it refuses the text.
pub uninterp spec fn http_date_secs(value: Seq<char>) -> Option<u64>;

/// The last second of year 9999, the latest date `httpdate` accepts, plus one.
pub open spec fn http_date_limit() -> u64 {
    253_402_300_800
}

/// Calls `httpdate::parse_http_date` (IMF-fixdate, RFC 850 and asctime formats)
/// and converts the `SystemTime` it returns to seconds since the Unix epoch. The
/// contract names the result and states what httpdate's source shows of it: text
/// that is not ASCII is refused, and accepted dates lie in years 1970 to 9999.
/// Which texts are accepted, and which second each denotes, is left unsaid.
#[verifier::external_body]
fn parse_http_date(value: &str) -> (r: Option<u64>)
    ensures
        r == http_date_secs(value@),
        !value.is_ascii() ==> r is None,
        r matches Some(secs) ==> secs < http_date_limit(),
{
    match httpdate::parse_http_date(value) {
        Ok(t) => t.duration_since(std::time::UNIX_EPOCH).ok().map(|d| d.as_secs()),
        Err(_) => None,
    }
}

/// The instant of a `Date` header whose value denotes `secs` seconds after the
/// Unix epoch, or the header error where the value was refused or the second
/// lies beyond the time line.
pub fn date_header_instant(secs: Option<u64>) -> (r: Result<UtcInstant, SyncError>)
    ensures
        match secs {
            Some(s) => r == if s <= crate::time::MAX_UNIX_SECS {
                Ok::<UtcInstant, SyncError>(UtcInstant { secs: s as i64, nanos: 0 })
            } else {
                Err::<UtcInstant, SyncError>(SyncError::InvalidDateHeader)
            },
            None => r == Err::<UtcInstant, SyncError>(SyncError::InvalidDateHeader),
        },
        r matches Ok(t) ==> t.wf(),
{
    match secs {
        Some(s) => {
            if s > crate::time::MAX_UNIX_SECS as u64 {
                return Err(SyncError::InvalidDateHeader);
            }
            match UtcInstant::from_timestamp(s as i64, 0) {
                Some(t) => Ok(t),
                None => Err(SyncError::InvalidDateHeader),
            }
        },
        None => Err(SyncError::InvalidDateHeader),
    }
}

/// The instant in an HTTP `Date` header value.
pub fn parse_date_header(value: &str) -> (r: Result<UtcInstant, SyncError>)
    ensures
        match http_date_secs(value@) {
            Some(secs) => r == Ok::<UtcInstant, SyncError>(UtcInstant { secs: secs as i64, nanos: 0 }),
            None => r == Err::<UtcInstant, SyncError>(SyncError::InvalidDateHeader),
        },
        r matches Ok(t) ==> t.wf(),
{
    date_header_instant(parse_http_date(value))
}

} // verus!

verus! {

/// What started a synchronisation run.
#[derive(Clone, Copy, Debug, PartialEq, Eq, Structural)]
pub enum SyncTrigger {
    Startup,
    Manual,
    Timer,
}

impl SyncTrigger {
    /// The trigger's name in logs.
    pub open spec fn text(self) -> Seq<char> {
        match self {
            SyncTrigger::Startup => "startup"@,
            SyncTrigger::Manual => "manual"@,
            SyncTrigger::Timer => "timer"@,
        }
    }

    /// The trigger's name in logs.
    pub fn name(&self) -> (s: &'static str)
        ensures
            s@ == self.text(),
    {
        match self {
            SyncTrigger::Startup => "startup",
            SyncTrigger::Manual => "manual",
            SyncTrigger::Timer => "timer",
        }
    }
}

/// A host that could not give its time, and why.
#[derive(Clone, Debug)]
pub struct HostAttempt {
    pub host: String,
    pub error: String,
}

/// What a successful run found and did.
#[derive(Clone, Debug)]
pub struct SyncReport {
    pub server: String,
    pub request_type: RequestType,
    pub remote_utc: UtcInstant,
    pub applied_utc: UtcInstant,
    pub local_before: UtcInstant,
    pub deviation_ms: u64,
    pub method: String,
}

/// The outcome of a run: the report of the host that answered, if any, and
/// the hosts that failed before it.
#[derive(Clone, Debug)]
pub struct SyncResult {
    pub report: Option<SyncReport>,
    pub failed_attempts: Vec<HostAttempt>,
}

/// What is done with the clock once a host has answered.
#[derive(Clone, Copy, Debug, PartialEq, Eq, Structural)]
pub enum AdjustAction {
    /// The deviation is within the tolerated offset: nothing is done.
    WithinDeviation,
    /// Synchronisation is off: nothing is done.
    Disabled,
    /// The clock is set at once.
    StepClock,
    /// The clock is slewed toward the time.
    SlewClock,
}

impl AdjustAction {
    /// The method recorded in the report, for the actions that name their own.
    pub open spec fn method_text(self) -> Seq<char> {
        match self {
            AdjustAction::WithinDeviation => "skip-within-deviation"@,
            AdjustAction::Disabled => "disabled"@,
            AdjustAction::StepClock => "direct"@,
            AdjustAction::SlewClock => Seq::empty(),
        }
    }

    /// The method recorded in the report; a slew reports the method the slewing
    /// itself names, so it has none here.
    pub fn method_name(&self) -> (s: Option<&'static str>)
        ensures
            *self != AdjustAction::SlewClock ==> (s matches Some(t) && t@ == self.method_text()),
            *self == AdjustAction::SlewClock ==> s is None,
    {
        match self {
            AdjustAction::WithinDeviation => Some("skip-within-deviation"),
            AdjustAction::Disabled => Some("disabled"),
            AdjustAction::StepClock => Some("direct"),
            AdjustAction::SlewClock => None,
        }
    }
}

/// The time to apply, how far the clock is off, and what to do about it.
#[derive(Clone, Copy, Debug, PartialEq, Eq, Structural)]
pub struct AdjustmentPlan {
    pub applied: UtcInstant,
    pub deviation_ms: u64,
    pub action: AdjustAction,
}

/// The configured offset as chrono receives it (`offset_ms as i64`).
pub open spec fn signed_offset(offset_ms: u64) -> i64 {
    offset_ms as i64
}

/// The remote time shifted by the configured offset stays in chrono's range
/// (chrono panics otherwise).
pub open spec fn offset_in_range(offset_ms: u64, remote: UtcInstant) -> bool {
    &&& signed_offset(offset_ms) != i64::MIN
    &&& crate::time::in_chrono_range(remote.total_nanos() + signed_offset(offset_ms) * 1_000_000)
}

/// The decision for a host's answer `remote`, the clock reading `now`.
pub open spec fn adjustment_of(config: AppConfig, remote: UtcInstant, now: UtcInstant) -> AdjustmentPlan {
    let applied = crate::time::instant_at(remote.total_nanos() + signed_offset(config.offset_ms) * 1_000_000);
    let deviation = crate::time::millis_apart(applied, now);
    AdjustmentPlan {
        applied,
        deviation_ms: deviation as u64,
        action: if deviation <= config.deviation_offset_ms {
            AdjustAction::WithinDeviation
        } else {
            match config.sync_mode {
                crate::config::SyncMode::Off => AdjustAction::Disabled,
                crate::config::SyncMode::Immediate => AdjustAction::StepClock,
                crate::config::SyncMode::Slew => AdjustAction::SlewClock,
            }
        },
    }
}

/// What the decision on a host's answer `remote`, with the local clock at `now`,
/// consists of: the applied time is the answer moved by the configured offset;
/// the deviation is the distance from the applied time to the local clock in
/// whole milliseconds, rounded toward zero; nothing is done exactly when the
/// deviation is within the tolerance, and beyond it the synchronisation mode
/// alone decides: off leaves the clock, immediate steps it, slew slews it.
pub proof fn lemma_adjustment_decision(config: AppConfig, remote: UtcInstant, now: UtcInstant)
    requires
        remote.wf(),
        now.wf(),
        offset_in_range(config.offset_ms, remote),
    ensures
        ({
            let r = adjustment_of(config, remote, now);
            let gap = r.applied.total_nanos() - now.total_nanos();
            let dist = if gap >= 0 { gap } else { -gap };
            let beyond = r.deviation_ms > config.deviation_offset_ms;
            &&& r.applied.wf()
            &&& r.applied.total_nanos() == remote.total_nanos() + (config.offset_ms as i64) * 1_000_000
            &&& r.deviation_ms * 1_000_000 <= dist < (r.deviation_ms + 1) * 1_000_000
            &&& (r.action == AdjustAction::WithinDeviation <==> !beyond)
            &&& (r.action == AdjustAction::Disabled <==> beyond && config.sync_mode == crate::config::SyncMode::Off)
            &&& (r.action == AdjustAction::StepClock <==> beyond && config.sync_mode == crate::config::SyncMode::Immediate)
            &&& (r.action == AdjustAction::SlewClock <==> beyond && config.sync_mode == crate::config::SyncMode::Slew)
        }),
{
    let total = remote.total_nanos() + signed_offset(config.offset_ms) * 1_000_000;
    crate::time::lemma_instant_at(total);
    let applied = crate::time::instant_at(total);
    let gap = applied.total_nanos() - now.total_nanos();
    let dist = if gap >= 0 { gap } else { -gap };
    let dev = crate::time::millis_apart(applied, now);
    assert(dev == dist / 1_000_000);
    assert(dist < 17_000_000_000_000_000_000_000);
    assert(dev * 1_000_000 <= dist < (dev + 1) * 1_000_000 && dev < 17_000_000_000_000_000) by (nonlinear_arith)
        requires dev == dist / 1_000_000, 0 <= dist < 17_000_000_000_000_000_000_000;
}

/// Tells whether the configured offset can be applied to `remote`.
pub fn offset_fits(config: &AppConfig, remote: UtcInstant) -> (r: bool)
    requires
        remote.wf(),
    ensures
        r == offset_in_range(config.offset_ms, remote),
{
    let off = config.offset_ms as i64;
    if off == i64::MIN {
        return false;
    }
    let total: i128 = remote.secs as i128 * 1_000_000_000 + remote.nanos as i128 + off as i128 * 1_000_000;
    total >= crate::time::MIN_UNIX_SECS as i128 * 1_000_000_000 && total < (crate::time::MAX_UNIX_SECS as i128 + 1) * 1_000_000_000
}

/// Applies the configured offset to the host's time, measures the deviation
/// from the local clock, and decides what to do: nothing when within the
/// tolerated deviation, else what the synchronisation mode says.
pub fn plan_adjustment(config: &AppConfig, remote: UtcInstant, now: UtcInstant) -> (r: AdjustmentPlan)
    requires
        remote.wf(),
        now.wf(),
        offset_in_range(config.offset_ms, remote),
    ensures
        r == adjustment_of(*config, remote, now),
        r.applied.wf(),
        r.applied.total_nanos() == remote.total_nanos() + (config.offset_ms as i64) * 1_000_000,
        r.deviation_ms * 1_000_000 <= if r.applied.total_nanos() >= now.total_nanos() {
            r.applied.total_nanos() - now.total_nanos()
        } else {
            now.total_nanos() - r.applied.total_nanos()
        } < (r.deviation_ms + 1) * 1_000_000,
        r.action == AdjustAction::WithinDeviation <==> r.deviation_ms <= config.deviation_offset_ms,
        r.action == AdjustAction::Disabled <==> r.deviation_ms > config.deviation_offset_ms
            && config.sync_mode == crate::config::SyncMode::Off,
        r.action == AdjustAction::StepClock <==> r.deviation_ms > config.deviation_offset_ms
            && config.sync_mode == crate::config::SyncMode::Immediate,
        r.action == AdjustAction::SlewClock <==> r.deviation_ms > config.deviation_offset_ms
            && config.sync_mode == crate::config::SyncMode::Slew,
{
    proof {
        lemma_adjustment_decision(*config, remote, now);
    }
    let applied = crate::time::add_millis(remote, config.offset_ms as i64);
    let deviation_ms = crate::time::millis_between(applied, now);
    let action = if deviation_ms <= config.deviation_offset_ms {
        AdjustAction::WithinDeviation
    } else {
        match config.sync_mode {
            crate::config::SyncMode::Off => AdjustAction::Disabled,
            crate::config::SyncMode::Immediate => AdjustAction::StepClock,
            crate::config::SyncMode::Slew => AdjustAction::SlewClock,
        }
    };
    AdjustmentPlan { applied, deviation_ms, action }
}

/// Whether a slew toward a target `diff_ms` milliseconds away is skipped as too small.
pub fn slew_skipped(diff_ms: i64) -> (r: bool)
    ensures
        r == (-2 < diff_ms < 2),
{
    -2 < diff_ms && diff_ms < 2
}

} // verus!

verus! {

/// The hosts a run asks, in order: the candidates whose protocol the agreement permits.
pub open spec fn is_sync_order(config: AppConfig, r: Seq<HostCandidate>) -> bool {
    &&& candidates_sorted(r)
    &&& forall|i: int| 0 <= i < r.len() ==> config.hosts.has((#[trigger] r[i]).name@, candidate_config(r[i]))
        && allows(config.agreement, r[i].request_type)
    &&& forall|k: Seq<char>, c: HostConfig|
        #![trigger config.hosts.has(k, c)]
        config.hosts.has(k, c) && c.enabled && allows(config.agreement, c.request_type)
            ==> exists|i: int| 0 <= i < r.len() && (#[trigger] r[i]).name@ == k && candidate_config(r[i]) == c
}

/// One synchronisation run: the hosts still to ask and the failures so far.
/// The service asks the current host; on failure it records the error and
/// moves on, on success it finishes the run with a report.
pub struct SyncSession {
    hosts: Vec<HostCandidate>,
    next: usize,
    failed: Vec<HostAttempt>,
}

impl SyncSession {
    pub closed spec fn hosts(&self) -> Seq<HostCandidate> {
        self.hosts@
    }

    /// How many hosts have been asked.
    pub closed spec fn asked(&self) -> int {
        self.next as int
    }

    pub closed spec fn failures(&self) -> Seq<HostAttempt> {
        self.failed@
    }

    /// Every host asked so far failed, in order, and no host is asked twice.
    #[verifier::type_invariant]
    spec fn consistent(&self) -> bool {
        &&& self.next <= self.hosts@.len()
        &&& self.failed@.len() == self.next
        &&& failures_follow(self.hosts@, self.failed@)
    }

    /// A run over the hosts that `config` permits, none asked yet.
    pub fn new(config: &AppConfig) -> (s: SyncSession)
        ensures
            is_sync_order(*config, s.hosts()),
            config.agreement == Agreement::Mixed ==> forall|k: Seq<char>, c: HostConfig|
                #![trigger config.hosts.has(k, c)]
                config.hosts.has(k, c) && c.enabled ==> exists|i: int|
                    0 <= i < s.hosts().len() && (#[trigger] s.hosts()[i]).name@ == k && candidate_config(s.hosts()[i]) == c,
            s.asked() == 0,
            s.failures() == Seq::<HostAttempt>::empty(),
    {
        let all = collect_candidates(config);
        let mut hosts: Vec<HostCandidate> = Vec::new();
        let ghost mut idx: Seq<int> = Seq::empty();
        let mut i: usize = 0;
        while i < all.len()
            invariant
                is_candidate_list(*config, all@),
                i <= all@.len(),
                idx.len() == hosts@.len(),
                forall|k: int| 0 <= k < idx.len() ==> 0 <= #[trigger] idx[k] < i && hosts@[k] == all@[idx[k]],
                forall|a: int, b: int| 0 <= a < b < idx.len() ==> #[trigger] idx[a] < #[trigger] idx[b],
                forall|k: int| 0 <= k < hosts@.len() ==> allows(config.agreement, (#[trigger] hosts@[k]).request_type),
                forall|j: int| 0 <= j < i && allows(config.agreement, (#[trigger] all@[j]).request_type)
                    ==> exists|k: int| 0 <= k < idx.len() && idx[k] == j,
            decreases all@.len() - i,
        {
            let ghost old_idx = idx;
            if request_allowed(config, all[i].request_type) {
                let c = all[i].clone();
                hosts.push(c);
                proof {
                    idx = idx.push(i as int);
                    assert(idx[idx.len() - 1] == i);
                }
            }
            proof {
                assert forall|j: int| 0 <= j < i + 1 && allows(config.agreement, (#[trigger] all@[j]).request_type)
                    implies exists|k: int| 0 <= k < idx.len() && idx[k] == j by {
                    if j < i {
                        let k = choose|k: int| 0 <= k < old_idx.len() && old_idx[k] == j;
                        assert(idx[k] == j);
                    } else {
                        assert(idx[idx.len() - 1] == j);
                    }
                }
            }
            i = i + 1;
        }
        proof {
            assert forall|a: int, b: int| 0 <= a < b < hosts@.len() implies asked_before(#[trigger] hosts@[a], #[trigger] hosts@[b]) by {
                assert(idx[a] < idx[b]);
                assert(asked_before(all@[idx[a]], all@[idx[b]]));
            }
            assert forall|k: int| 0 <= k < hosts@.len() implies config.hosts.has((#[trigger] hosts@[k]).name@, candidate_config(hosts@[k]))
                && allows(config.agreement, hosts@[k].request_type) by {
                assert(hosts@[k] == all@[idx[k]]);
            }
            assert forall|k: Seq<char>, c: HostConfig| #![trigger config.hosts.has(k, c)]
                config.hosts.has(k, c) && c.enabled && allows(config.agreement, c.request_type)
                implies exists|m: int| 0 <= m < hosts@.len() && (#[trigger] hosts@[m]).name@ == k && candidate_config(hosts@[m]) == c by {
                let j = choose|j: int| 0 <= j < all@.len() && (#[trigger] all@[j]).name@ == k && candidate_config(all@[j]) == c;
                assert(allows(config.agreement, all@[j].request_type));
                let m = choose|m: int| 0 <= m < idx.len() && idx[m] == j;
                assert(hosts@[m] == all@[j]);
            }
        }
        let s = SyncSession { hosts, next: 0, failed: Vec::new() };
        proof {
            lemma_agreement_protocols(*config, s.hosts(), RequestType::Ntp);
        }
        assert(s.failures() =~= Seq::<HostAttempt>::empty());
        s
    }

    /// The host to ask now, if any is left.
    pub fn current_host(&self) -> (h: Option<HostCandidate>)
        ensures
            h is Some <==> 0 <= self.asked() < self.hosts().len(),
            h matches Some(c) ==> c == self.hosts()[self.asked()],
    {
        if self.next < self.hosts.len() {
            Some(self.hosts[self.next].clone())
        } else {
            None
        }
    }

    /// Records that the current host failed with `error`, and moves on.
    pub fn record_failure(&mut self, error: String)
        requires
            0 <= old(self).asked() < old(self).hosts().len(),
        ensures
            final(self).hosts() == old(self).hosts(),
            final(self).asked() == old(self).asked() + 1,
            final(self).failures().len() == old(self).failures().len() + 1,
            final(self).failures().drop_last() == old(self).failures(),
            final(self).failures().last().host@ == old(self).hosts()[old(self).asked()].name@,
            final(self).failures().last().error@ == error@,
    {
        proof {
            use_type_invariant(&*self);
        }
        let n = self.next;
        let len = self.hosts.len();
        assert(n < len);
        let host = self.hosts[n].name.clone();
        let ghost before = self.failed@;
        let ghost hosts_before = self.hosts@;
        let mut cur = SyncSession { hosts: Vec::new(), next: 0, failed: Vec::new() };
        std::mem::swap(&mut cur, self);
        let SyncSession { hosts, next: _, failed } = cur;
        let mut failed = failed;
        failed.push(HostAttempt { host, error });
        assert(failed@.drop_last() =~= before);
        assert(hosts@ == hosts_before);
        *self = SyncSession { hosts, next: n + 1, failed };
    }

    /// Ends the run. A report is the answer of the host being asked; no report
    /// comes only once every host has been asked and failed.
    pub fn finish(self, report: Option<SyncReport>) -> (r: SyncResult)
        requires
            report matches Some(rep) ==> 0 <= self.asked() < self.hosts().len()
                && rep.server@ == self.hosts()[self.asked()].name@
                && rep.request_type == self.hosts()[self.asked()].request_type,
            report is None ==> self.asked() == self.hosts().len(),
        ensures
            r.report == report,
            r.failed_attempts@ == self.failures(),
            r.failed_attempts@.len() == self.asked(),
            report is None ==> r.failed_attempts@.len() == self.hosts().len(),
            failures_follow(self.hosts(), r.failed_attempts@),
    {
        proof {
            use_type_invariant(&self);
        }
        SyncResult { report, failed_attempts: self.failed }
    }

    /// Ends the run with the answer of the host being asked: its time `remote`,
    /// the clock reading `local_before` taken on receipt, and the `plan` carried
    /// out. The method reported is the plan's own, or for a slew `slew_method`,
    /// the one the slewing named.
    pub fn answered(self, remote: UtcInstant, local_before: UtcInstant, plan: AdjustmentPlan, slew_method: String) -> (r: SyncResult)
        requires
            0 <= self.asked() < self.hosts().len(),
        ensures
            r.report matches Some(rep) && rep.server@ == self.hosts()[self.asked()].name@
                && rep.request_type == self.hosts()[self.asked()].request_type
                && rep.remote_utc == remote
                && rep.applied_utc == plan.applied
                && rep.local_before == local_before
                && rep.deviation_ms == plan.deviation_ms
                && rep.method@ == (if plan.action == AdjustAction::SlewClock { slew_method@ } else { plan.action.method_text() }),
            r.failed_attempts@ == self.failures(),
            r.failed_attempts@.len() == self.asked(),
            failures_follow(self.hosts(), r.failed_attempts@),
    {
        let n = self.next;
        let server = self.hosts[n].name.clone();
        let request_type = self.hosts[n].request_type;
        let method = match plan.action.method_name() {
            Some(name) => name.to_string(),
            None => slew_method,
        };
        let report = SyncReport {
            server,
            request_type,
            remote_utc: remote,
            applied_utc: plan.applied,
            local_before,
            deviation_ms: plan.deviation_ms,
            method,
        };
        self.finish(Some(report))
    }
}

/// The first failures of a run name the first hosts of its ask order.
pub open spec fn failures_follow(hosts: Seq<HostCandidate>, failures: Seq<HostAttempt>) -> bool {
    forall|i: int| 0 <= i < failures.len() && i < hosts.len() ==> (#[trigger] failures[i]).host@ == hosts[i].name@
}

} // verus!

verus! {

/// `r` lists exactly the enabled hosts of `config`, as table entries, in the
/// order in which they are asked.
pub open spec fn ask_order(config: AppConfig, r: Seq<(Seq<char>, HostConfig)>) -> bool {
    &&& forall|i: int, j: int| 0 <= i < j < r.len() ==> #[trigger] entry_before(r[i], r[j])
    &&& forall|i: int| 0 <= i < r.len() ==> config.hosts.has((#[trigger] r[i]).0, r[i].1) && r[i].1.enabled
    &&& forall|k: Seq<char>, c: HostConfig|
        #![trigger config.hosts.has(k, c)]
        config.hosts.has(k, c) && c.enabled ==> r.contains((k, c))
}

/// `a` is asked before `b`.
pub open spec fn entry_before(a: (Seq<char>, HostConfig), b: (Seq<char>, HostConfig)) -> bool {
    a.1.priority < b.1.priority || (a.1.priority == b.1.priority && name_lt(a.0, b.0))
}

/// A candidate list gives the ask order of the table entries.
pub proof fn lemma_candidates_ask_order(config: AppConfig, r: Seq<HostCandidate>)
    requires
        is_candidate_list(config, r),
    ensures
        ask_order(config, cand_entries(r)),
{
    let e = cand_entries(r);
    assert forall|i: int, j: int| 0 <= i < j < e.len() implies #[trigger] entry_before(e[i], e[j]) by {
        assert(asked_before(r[i], r[j]));
    }
    assert forall|i: int| 0 <= i < e.len() implies config.hosts.has((#[trigger] e[i]).0, e[i].1) && e[i].1.enabled by {
        assert(config.hosts.has(r[i].name@, candidate_config(r[i])));
    }
    assert forall|k: Seq<char>, c: HostConfig| #![trigger config.hosts.has(k, c)]
        config.hosts.has(k, c) && c.enabled implies e.contains((k, c)) by {
        let i = choose|i: int| 0 <= i < r.len() && (#[trigger] r[i]).name@ == k && candidate_config(r[i]) == c;
        assert(e[i] == (k, c));
    }
}

} // verus!
