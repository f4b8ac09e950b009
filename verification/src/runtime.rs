//! The runtime state that the service's actor keeps: the configuration, the
//! log, the status shown on the dashboard, per-host failure counts and whether
//! a synchronisation run is in progress. Each message of the actor is a method.
use vstd::prelude::*;

verus! {

/// What is recorded of a host's failures: how many, and the latest error.
pub type FailureInfo = (u32, Option<Seq<char>>);

/// One host's failure record.
#[derive(Debug)]
struct FailureRecord {
    host: String,
    count: u32,
    last_error: Option<String>,
}

spec fn record_info(r: FailureRecord) -> FailureInfo {
    (r.count, match r.last_error { Some(e) => Some(e@), None => None })
}

/// Failure records keyed by host name, at most one per host. It is a vector
/// with unique keys, viewed as a map, because vstd specifies `HashMap` and
/// `BTreeMap` only for keys whose hashing or order it models, and it models
/// neither for `String`.
#[derive(Debug)]
pub struct FailureTable {
    records: Vec<FailureRecord>,
}

/// The failure information of `host`: its record, or no failures.
pub open spec fn failure_info(m: Map<Seq<char>, FailureInfo>, host: Seq<char>) -> FailureInfo {
    if m.contains_key(host) { m[host] } else { (0, None) }
}

/// A failure count plus one, wrapping at the top of `u32` as the service's
/// counter does in a release build.
pub open spec fn next_count(c: u32) -> u32 {
    if c == u32::MAX { 0 } else { (c + 1) as u32 }
}

/// One more failure of `host`, with `error` as the latest.
pub open spec fn with_failure(m: Map<Seq<char>, FailureInfo>, host: Seq<char>, error: Seq<char>) -> Map<Seq<char>, FailureInfo> {
    m.insert(host, (next_count(failure_info(m, host).0), Some(error)))
}

impl FailureTable {
    spec fn keys_unique(&self) -> bool {
        forall|i: int, j: int| 0 <= i < j < self.records@.len() ==> (#[trigger] self.records@[i]).host@ != (#[trigger] self.records@[j]).host@
    }

    #[verifier::type_invariant]
    spec fn inv(&self) -> bool {
        self.keys_unique()
    }

    /// The records as a map from host name.
    pub closed spec fn view_map(&self) -> Map<Seq<char>, FailureInfo> {
        Map::new(
            |k: Seq<char>| exists|i: int| 0 <= i < self.records@.len() && self.records@[i].host@ == k,
            |k: Seq<char>| record_info(self.records@[choose|i: int| 0 <= i < self.records@.len() && self.records@[i].host@ == k]),
        )
    }

    /// An empty table.
    pub fn new() -> (t: FailureTable)
        ensures
            t.view_map() == Map::<Seq<char>, FailureInfo>::empty(),
    {
        let t = FailureTable { records: Vec::new() };
        assert(t.view_map() =~= Map::<Seq<char>, FailureInfo>::empty());
        t
    }

    fn find(&self, host: &String) -> (r: Option<usize>)
        ensures
            r matches Some(i) ==> i < self.records@.len() && self.records@[i as int].host@ == host@,
            r is None ==> forall|i: int| 0 <= i < self.records@.len() ==> (#[trigger] self.records@[i]).host@ != host@,
    {
        let mut i: usize = 0;
        while i < self.records.len()
            invariant
                i <= self.records@.len(),
                forall|j: int| 0 <= j < i ==> (#[trigger] self.records@[j]).host@ != host@,
            decreases self.records@.len() - i,
        {
            if self.records[i].host == *host {
                return Some(i);
            }
            i = i + 1;
        }
        None
    }

    proof fn lemma_at(&self, i: int)
        requires
            self.keys_unique(),
            0 <= i < self.records@.len(),
        ensures
            self.view_map().contains_key(self.records@[i].host@),
            self.view_map()[self.records@[i].host@] == record_info(self.records@[i]),
    {
        let k = self.records@[i].host@;
        assert(self.view_map().contains_key(k));
        let j = choose|j: int| 0 <= j < self.records@.len() && self.records@[j].host@ == k;
        if j != i {
            if j < i { assert(self.records@[j].host@ != self.records@[i].host@); } else { assert(self.records@[i].host@ != self.records@[j].host@); }
        }
    }

    /// The failure information of `host`.
    pub fn get(&self, host: &String) -> (r: (u32, Option<String>))
        ensures
            r.0 == failure_info(self.view_map(), host@).0,
            failure_info(self.view_map(), host@).1 == match r.1 { Some(e) => Some(e@), None => None::<Seq<char>> },
    {
        proof {
            use_type_invariant(self);
        }
        match self.find(host) {
            Some(i) => {
                proof {
                    self.lemma_at(i as int);
                }
                let last = match &self.records[i].last_error {
                    Some(e) => Some(e.clone()),
                    None => None,
                };
                (self.records[i].count, last)
            },
            None => {
                assert(!self.view_map().contains_key(host@));
                (0, None)
            },
        }
    }

    /// Counts one more failure of `host`, with `error` as the latest.
    pub fn record(&mut self, host: String, error: String)
        ensures
            final(self).view_map() == with_failure(old(self).view_map(), host@, error@),
    {
        proof {
            use_type_invariant(&*self);
        }
        let ghost m = self.view_map();
        let mut recs: Vec<FailureRecord> = Vec::new();
        std::mem::swap(&mut recs, &mut self.records);
        let probe = FailureTable { records: recs };
        let found = probe.find(&host);
        let mut recs = probe.records;
        match found {
            Some(i) => {
                let ghost old_recs = recs@;
                let old_count = recs[i].count;
                let count = if old_count == u32::MAX { 0 } else { old_count + 1 };
                let rec = FailureRecord { host, count, last_error: Some(error) };
                recs.set(i, rec);
                let t = FailureTable { records: recs };
                proof {
                    assert(m.contains_key(old_recs[i as int].host@));
                    let k0 = old_recs[i as int].host@;
                    let j0 = choose|j: int| 0 <= j < old_recs.len() && old_recs[j].host@ == k0;
                    if j0 != i as int {
                        if j0 < i { assert(old_recs[j0].host@ != old_recs[i as int].host@); } else { assert(old_recs[i as int].host@ != old_recs[j0].host@); }
                    }
                    assert(m[k0] == record_info(old_recs[i as int]));
                    assert(failure_info(m, host@).0 == old_count);
                    assert(t.keys_unique()) by {
                        assert forall|a: int, b: int| 0 <= a < b < t.records@.len() implies (#[trigger] t.records@[a]).host@ != (#[trigger] t.records@[b]).host@ by {
                            assert(old_recs[a].host@ != old_recs[b].host@);
                        }
                    }
                    assert forall|k: Seq<char>| #[trigger] t.view_map().contains_key(k) <==> with_failure(m, host@, error@).contains_key(k) by {
                        if t.view_map().contains_key(k) {
                            let j = choose|j: int| 0 <= j < t.records@.len() && t.records@[j].host@ == k;
                            if j != i as int { assert(old_recs[j].host@ == k); }
                        }
                        if m.contains_key(k) {
                            let j = choose|j: int| 0 <= j < old_recs.len() && old_recs[j].host@ == k;
                            if j != i as int { assert(t.records@[j].host@ == k); } else { assert(t.records@[i as int].host@ == k); }
                        }
                    }
                    assert forall|k: Seq<char>| #[trigger] t.view_map().contains_key(k) implies t.view_map()[k] == with_failure(m, host@, error@)[k] by {
                        let j = choose|j: int| 0 <= j < t.records@.len() && t.records@[j].host@ == k;
                        t.lemma_at(j);
                        if j != i as int {
                            let jo = choose|jo: int| 0 <= jo < old_recs.len() && old_recs[jo].host@ == k;
                            if jo != j {
                                if jo < j { assert(old_recs[jo].host@ != old_recs[j].host@); } else { assert(old_recs[j].host@ != old_recs[jo].host@); }
                            }
                        }
                    }
                    assert(t.view_map() =~= with_failure(m, host@, error@));
                }
                self.records = t.records;
                assert(self.view_map() == t.view_map());
            },
            None => {
                let ghost old_recs = recs@;
                let rec = FailureRecord { host, count: 1, last_error: Some(error) };
                recs.push(rec);
                let t = FailureTable { records: recs };
                proof {
                    let n = old_recs.len() as int;
                    assert(!m.contains_key(t.records@[n].host@));
                    assert(t.keys_unique()) by {
                        assert forall|a: int, b: int| 0 <= a < b < t.records@.len() implies (#[trigger] t.records@[a]).host@ != (#[trigger] t.records@[b]).host@ by {
                            if b < n { assert(old_recs[a].host@ != old_recs[b].host@); }
                        }
                    }
                    assert forall|k: Seq<char>| #[trigger] t.view_map().contains_key(k) <==> with_failure(m, host@, error@).contains_key(k) by {
                        if t.view_map().contains_key(k) {
                            let j = choose|j: int| 0 <= j < t.records@.len() && t.records@[j].host@ == k;
                            if j != n { assert(old_recs[j].host@ == k); }
                        }
                        if m.contains_key(k) {
                            let j = choose|j: int| 0 <= j < old_recs.len() && old_recs[j].host@ == k;
                            assert(t.records@[j].host@ == k);
                        }
                        if k == host@ {
                            assert(t.records@[n].host@ == k);
                        }
                    }
                    assert forall|k: Seq<char>| #[trigger] t.view_map().contains_key(k) implies t.view_map()[k] == with_failure(m, host@, error@)[k] by {
                        let j = choose|j: int| 0 <= j < t.records@.len() && t.records@[j].host@ == k;
                        t.lemma_at(j);
                        if j != n {
                            let jo = choose|jo: int| 0 <= jo < old_recs.len() && old_recs[jo].host@ == k;
                            if jo != j {
                                if jo < j { assert(old_recs[jo].host@ != old_recs[j].host@); } else { assert(old_recs[j].host@ != old_recs[jo].host@); }
                            }
                        }
                    }
                    assert(t.view_map() =~= with_failure(m, host@, error@));
                }
                self.records = t.records;
                assert(self.view_map() == t.view_map());
            },
        }
    }

    /// Forgets the failures of `host`.
    pub fn remove(&mut self, host: &String)
        ensures
            final(self).view_map() == old(self).view_map().remove(host@),
    {
        proof {
            use_type_invariant(&*self);
        }
        let ghost m = self.view_map();
        let mut recs: Vec<FailureRecord> = Vec::new();
        std::mem::swap(&mut recs, &mut self.records);
        let probe = FailureTable { records: recs };
        let found = probe.find(host);
        let mut recs = probe.records;
        if let Some(i) = found {
            let ghost old_recs = recs@;
            let _gone = recs.remove(i);
            let t = FailureTable { records: recs };
            proof {
                old_recs.remove_ensures(i as int);
                let n = old_recs.len() as int;
                assert forall|a: int| 0 <= a < t.records@.len() implies (#[trigger] t.records@[a]) == if a < i { old_recs[a] } else { old_recs[a + 1] } by {
                    if a >= i { assert(old_recs.remove(i as int)[a] == old_recs[a + 1]); }
                }
                assert(t.keys_unique()) by {
                    assert forall|a: int, b: int| 0 <= a < b < t.records@.len() implies (#[trigger] t.records@[a]).host@ != (#[trigger] t.records@[b]).host@ by {
                        let oa = if a < i { a } else { a + 1 };
                        let ob = if b < i { b } else { b + 1 };
                        assert(old_recs[oa].host@ != old_recs[ob].host@);
                    }
                }
                assert forall|k: Seq<char>| #[trigger] t.view_map().contains_key(k) <==> m.remove(host@).contains_key(k) by {
                    if t.view_map().contains_key(k) {
                        let j = choose|j: int| 0 <= j < t.records@.len() && t.records@[j].host@ == k;
                        let oj = if j < i { j } else { j + 1 };
                        assert(old_recs[oj].host@ == k);
                        assert(old_recs[oj].host@ != old_recs[i as int].host@);
                    }
                    if m.contains_key(k) && k != host@ {
                        let j = choose|j: int| 0 <= j < old_recs.len() && old_recs[j].host@ == k;
                        assert(j != i);
                        if j < i { assert(t.records@[j].host@ == k); } else { assert(t.records@[j - 1].host@ == k); }
                    }
                }
                assert forall|k: Seq<char>| #[trigger] t.view_map().contains_key(k) implies t.view_map()[k] == m.remove(host@)[k] by {
                    let j = choose|j: int| 0 <= j < t.records@.len() && t.records@[j].host@ == k;
                    t.lemma_at(j);
                    let oj = if j < i { j } else { j + 1 };
                    let jo = choose|jo: int| 0 <= jo < old_recs.len() && old_recs[jo].host@ == k;
                    if jo != oj {
                        if jo < oj { assert(old_recs[jo].host@ != old_recs[oj].host@); } else { assert(old_recs[oj].host@ != old_recs[jo].host@); }
                    }
                }
                assert(t.view_map() =~= m.remove(host@));
            }
            self.records = t.records;
            assert(self.view_map() == t.view_map());
        } else {
            let t = FailureTable { records: recs };
            proof {
                assert(!m.contains_key(host@));
                assert(t.view_map() =~= m.remove(host@));
            }
            self.records = t.records;
            assert(self.view_map() == t.view_map());
        }
    }
}

} // verus!

verus! {

/// The status of one host as the dashboard shows it.
#[derive(Debug)]
pub struct HostStatus {
    pub name: String,
    pub request_type: crate::config::RequestType,
    pub priority: u32,
    pub fail_count: u32,
    pub last_error: Option<String>,
}

impl Clone for HostStatus {
    fn clone(&self) -> (r: Self)
        ensures
            r == *self,
    {
        let last_error = match &self.last_error {
            Some(e) => Some(e.clone()),
            None => None,
        };
        HostStatus {
            name: self.name.clone(),
            request_type: self.request_type,
            priority: self.priority,
            fail_count: self.fail_count,
            last_error,
        }
    }
}

/// The current operation and the hosts, in the order they are asked.
#[derive(Debug)]
pub struct RuntimeStatus {
    pub current_operation: String,
    pub hosts: Vec<HostStatus>,
}

/// What the dashboard reads.
#[derive(Debug)]
pub struct RuntimeSnapshot {
    pub config: crate::config::AppConfig,
    pub logs: Vec<String>,
    pub status: RuntimeStatus,
    pub syncing: bool,
    pub config_path: String,
}

/// The texts in which a report's times appear in the log: the applied time in
/// the local time zone, the remote time in UTC, and the local clock before
/// the run, each as `%Y-%m-%d %H:%M:%S`.
#[derive(Debug)]
pub struct ReportTimes {
    pub applied_local: String,
    pub remote_utc: String,
    pub local_before: String,
}

pub open spec fn opt_text(o: Option<String>) -> Option<Seq<char>> {
    match o {
        Some(s) => Some(s@),
        None => None,
    }
}

/// The host table entry that a status line stands for.
pub open spec fn status_entry(h: HostStatus) -> (Seq<char>, crate::config::HostConfig) {
    (h.name@, crate::config::HostConfig { request_type: h.request_type, priority: h.priority, enabled: true })
}

pub open spec fn status_entries(s: Seq<HostStatus>) -> Seq<(Seq<char>, crate::config::HostConfig)> {
    s.map_values(|h: HostStatus| status_entry(h))
}

/// The status lines list the enabled hosts of `config` in ask order, each
/// with the failures recorded for it.
pub open spec fn hosts_match(config: crate::config::AppConfig, failures: Map<Seq<char>, FailureInfo>, hosts: Seq<HostStatus>) -> bool {
    &&& crate::sync::ask_order(config, status_entries(hosts))
    &&& forall|i: int| 0 <= i < hosts.len() ==> (#[trigger] hosts[i]).fail_count == failure_info(failures, hosts[i].name@).0
        && opt_text(hosts[i].last_error) == failure_info(failures, hosts[i].name@).1
}

/// The texts of the log lines.
pub open spec fn log_texts(v: Seq<String>) -> Seq<Seq<char>> {
    v.map_values(|s: String| s@)
}

/// The most recent `max` lines of a log.
pub open spec fn retained(log: Seq<Seq<char>>, max: nat) -> Seq<Seq<char>> {
    if log.len() > max { log.skip(log.len() - max) } else { log }
}

/// The log keeps at most `max` lines, and they are the latest ones in order.
pub proof fn lemma_retained(log: Seq<Seq<char>>, max: nat)
    ensures
        retained(log, max).len() <= max || retained(log, max) == log,
        retained(log, max).len() == if log.len() > max { max } else { log.len() },
        forall|i: int| 0 <= i < retained(log, max).len() ==> #[trigger] retained(log, max)[i] == log[log.len() - retained(log, max).len() + i],
{
}

/// The state that the service's actor keeps.
pub struct RuntimeState {
    pub config: crate::config::AppConfig,
    pub logs: Vec<String>,
    pub status: RuntimeStatus,
    pub failures: FailureTable,
    pub syncing: bool,
}

impl RuntimeState {
    /// Recorded failures, by host name.
    pub open spec fn failures(&self) -> Map<Seq<char>, FailureInfo> {
        self.failures.view_map()
    }

    /// Replaces the host lines of the status with the current candidates and
    /// their recorded failures.
    pub fn update_hosts_in_status(&mut self)
        ensures
            hosts_match(final(self).config, final(self).failures(), final(self).status.hosts@),
            final(self).config == old(self).config,
            final(self).logs == old(self).logs,
            final(self).status.current_operation == old(self).status.current_operation,
            final(self).failures() == old(self).failures(),
            final(self).syncing == old(self).syncing,
    {
        let candidates = crate::sync::collect_candidates(&self.config);
        let mut hosts: Vec<HostStatus> = Vec::new();
        let mut i: usize = 0;
        while i < candidates.len()
            invariant
                i <= candidates@.len(),
                hosts@.len() == i,
                forall|k: int| 0 <= k < i ==> status_entry(#[trigger] hosts@[k]) == crate::sync::cand_entry(candidates@[k]),
                forall|k: int| 0 <= k < i ==> (#[trigger] hosts@[k]).fail_count == failure_info(self.failures.view_map(), hosts@[k].name@).0
                    && opt_text(hosts@[k].last_error) == failure_info(self.failures.view_map(), hosts@[k].name@).1,
            decreases candidates@.len() - i,
        {
            let c = &candidates[i];
            let (fail_count, last_error) = self.failures.get(&c.name);
            let name = c.name.clone();
            hosts.push(HostStatus { name, request_type: c.request_type, priority: c.priority, fail_count, last_error });
            i = i + 1;
        }
        proof {
            crate::sync::lemma_candidates_ask_order(self.config, candidates@);
            assert(status_entries(hosts@) =~= crate::sync::cand_entries(candidates@));
        }
        self.status.hosts = hosts;
    }

    /// Drops the oldest lines beyond the configured maximum.
    pub fn trim_logs(&mut self)
        ensures
            log_texts(final(self).logs@) == retained(log_texts(old(self).logs@), old(self).config.max_log_lines as nat),
            final(self).config == old(self).config,
            final(self).status == old(self).status,
            final(self).failures() == old(self).failures(),
            final(self).syncing == old(self).syncing,
    {
        let len = self.logs.len();
        let max = self.config.max_log_lines;
        if len > max {
            let overflow = len - max;
            let ghost before = self.logs@;
            let kept = self.logs.split_off(overflow);
            self.logs = kept;
            assert(log_texts(self.logs@) =~= log_texts(before).skip(overflow as int));
        }
    }

    /// Appends a line to the log and drops the oldest beyond the maximum.
    pub fn push_log(&mut self, message: String)
        ensures
            log_texts(final(self).logs@) == retained(log_texts(old(self).logs@).push(message@), old(self).config.max_log_lines as nat),
            final(self).config == old(self).config,
            final(self).status == old(self).status,
            final(self).failures() == old(self).failures(),
            final(self).syncing == old(self).syncing,
    {
        let ghost before = self.logs@;
        self.logs.push(message);
        assert(log_texts(self.logs@) =~= log_texts(before).push(message@));
        self.trim_logs();
    }

    /// Sets the current operation shown on the dashboard.
    pub fn set_status(&mut self, status: String)
        ensures
            final(self).status.current_operation == status,
            final(self).status.hosts == old(self).status.hosts,
            final(self).config == old(self).config,
            final(self).logs == old(self).logs,
            final(self).failures() == old(self).failures(),
            final(self).syncing == old(self).syncing,
    {
        self.status.current_operation = status;
    }

    /// Adopts a newly loaded configuration.
    pub fn replace_config(&mut self, config: crate::config::AppConfig)
        ensures
            final(self).config == config,
            hosts_match(config, final(self).failures(), final(self).status.hosts@),
            final(self).logs == old(self).logs,
            final(self).status.current_operation == old(self).status.current_operation,
            final(self).failures() == old(self).failures(),
            final(self).syncing == old(self).syncing,
    {
        self.config = config;
        self.update_hosts_in_status();
    }

    /// How long the periodic loop waits between runs.
    pub fn config_delay(&self) -> (d: u64)
        ensures
            d == self.config.delay_ms,
    {
        self.config.delay_ms
    }
}

} // verus!

verus! {

pub open spec fn ignored_text(t: crate::sync::SyncTrigger) -> Seq<char> {
    "Sync ignored: already running ("@ + t.text() + ")"@
}

pub open spec fn syncing_text(t: crate::sync::SyncTrigger) -> Seq<char> {
    "Syncing ("@ + t.text() + ")"@
}

pub open spec fn starting_text(t: crate::sync::SyncTrigger) -> Seq<char> {
    "Starting "@ + t.text() + " sync"@
}

pub open spec fn failed_status_text(t: crate::sync::SyncTrigger) -> Seq<char> {
    "Sync failed ("@ + t.text() + ")"@
}

pub open spec fn all_failed_text(t: crate::sync::SyncTrigger) -> Seq<char> {
    "E: all hosts failed in "@ + t.text() + " sync"@
}

pub open spec fn engine_error_text(err: Seq<char>) -> Seq<char> {
    "E: sync engine error: "@ + err
}

/// The log line of a successful run.
pub open spec fn ok_text(r: crate::sync::SyncReport, times: ReportTimes) -> Seq<char> {
    "[OK] "@ + r.server@ + " ("@ + crate::sync::mode_name(r.request_type) + ") -> "@ + times.applied_local@
        + " | deviation="@ + crate::text::decimal(r.deviation_ms as nat) + "ms | "@ + r.method@
}

/// The log line with the times of a successful run.
pub open spec fn times_text(times: ReportTimes) -> Seq<char> {
    "Remote UTC: "@ + times.remote_utc@ + ", Local before: "@ + times.local_before@
}

/// The failures after each failed attempt of a run is counted, in order.
pub open spec fn apply_attempts(m: Map<Seq<char>, FailureInfo>, attempts: Seq<crate::sync::HostAttempt>) -> Map<Seq<char>, FailureInfo>
    decreases attempts.len(),
{
    if attempts.len() == 0 {
        m
    } else {
        with_failure(apply_attempts(m, attempts.drop_last()), attempts.last().host@, attempts.last().error@)
    }
}

fn text3(a: &str, b: &str, c: &str) -> (s: String)
    ensures
        s@ == a@ + b@ + c@,
{
    let mut s = String::from_str(a);
    s.append(b);
    s.append(c);
    s
}

impl RuntimeState {
    /// The state at start: empty log, "Ready", no failures, no run in progress.
    pub fn new(config: crate::config::AppConfig) -> (s: RuntimeState)
        ensures
            s.config == config,
            s.logs@.len() == 0,
            s.status.current_operation@ == "Ready"@,
            hosts_match(config, s.failures(), s.status.hosts@),
            s.failures() == Map::<Seq<char>, FailureInfo>::empty(),
            !s.syncing,
    {
        let mut s = RuntimeState {
            config,
            logs: Vec::new(),
            status: RuntimeStatus { current_operation: String::from_str("Ready"), hosts: Vec::new() },
            failures: FailureTable::new(),
            syncing: false,
        };
        s.update_hosts_in_status();
        s
    }

    /// Handles a request for a run. While a run is in progress the request is
    /// only logged as ignored; otherwise the run starts (the result is `true`):
    /// the status says so, the host lines are refreshed and the start is logged.
    pub fn request_sync(&mut self, trigger: crate::sync::SyncTrigger) -> (start: bool)
        ensures
            start == !old(self).syncing,
            final(self).syncing,
            final(self).config == old(self).config,
            final(self).failures() == old(self).failures(),
            old(self).syncing ==> final(self).status == old(self).status
                && log_texts(final(self).logs@) == retained(log_texts(old(self).logs@).push(ignored_text(trigger)), old(self).config.max_log_lines as nat),
            !old(self).syncing ==> final(self).status.current_operation@ == syncing_text(trigger)
                && hosts_match(final(self).config, final(self).failures(), final(self).status.hosts@)
                && log_texts(final(self).logs@) == retained(log_texts(old(self).logs@).push(starting_text(trigger)), old(self).config.max_log_lines as nat),
    {
        let name = trigger.name();
        if self.syncing {
            self.push_log(text3("Sync ignored: already running (", name, ")"));
            false
        } else {
            self.syncing = true;
            self.set_status(text3("Syncing (", name, ")"));
            self.update_hosts_in_status();
            self.push_log(text3("Starting ", name, " sync"));
            true
        }
    }
}

} // verus!

verus! {

fn ok_line(r: &crate::sync::SyncReport, times: &ReportTimes) -> (s: String)
    ensures
        s@ == ok_text(*r, *times),
{
    let mut s = String::from_str("[OK] ");
    s.append(r.server.as_str());
    s.append(" (");
    s.append(crate::sync::request_mode_name(r.request_type));
    s.append(") -> ");
    s.append(times.applied_local.as_str());
    s.append(" | deviation=");
    let d = crate::text::decimal_string(r.deviation_ms);
    s.append(d.as_str());
    s.append("ms | ");
    s.append(r.method.as_str());
    s
}

fn times_line(times: &ReportTimes) -> (s: String)
    ensures
        s@ == times_text(*times),
{
    let mut s = String::from_str("Remote UTC: ");
    s.append(times.remote_utc.as_str());
    s.append(", Local before: ");
    s.append(times.local_before.as_str());
    s
}

impl RuntimeState {
    fn count_failures(&mut self, attempts: &Vec<crate::sync::HostAttempt>)
        ensures
            final(self).failures() == apply_attempts(old(self).failures(), attempts@),
            final(self).config == old(self).config,
            final(self).logs == old(self).logs,
            final(self).status == old(self).status,
            final(self).syncing == old(self).syncing,
    {
        let ghost start = self.failures();
        let mut i: usize = 0;
        while i < attempts.len()
            invariant
                i <= attempts@.len(),
                self.failures() == apply_attempts(start, attempts@.take(i as int)),
                self.config == old(self).config,
                self.logs == old(self).logs,
                self.status == old(self).status,
                self.syncing == old(self).syncing,
            decreases attempts@.len() - i,
        {
            let a = &attempts[i];
            self.failures.record(a.host.clone(), a.error.clone());
            assert(attempts@.take(i + 1).drop_last() =~= attempts@.take(i as int));
            i = i + 1;
        }
        assert(attempts@.take(attempts@.len() as int) =~= attempts@);
    }

    /// Handles the end of a run: the run is over; each failed attempt counts
    /// against its host; an answering host's failures are forgotten and the
    /// report is logged; when every host failed, or the run itself failed,
    /// the status and the log say so. The host lines are refreshed last.
    pub fn finish_sync(&mut self, outcome: Result<crate::sync::SyncResult, String>, trigger: crate::sync::SyncTrigger, times: ReportTimes)
        ensures
            !final(self).syncing,
            final(self).config == old(self).config,
            hosts_match(final(self).config, final(self).failures(), final(self).status.hosts@),
            outcome matches Ok(res) ==> (res.report matches Some(r) ==> (
                failure_info(final(self).failures(), r.server@) == (0u32, None::<Seq<char>>)
                && final(self).failures() == apply_attempts(old(self).failures(), res.failed_attempts@).remove(r.server@)
                && final(self).status.current_operation@ == "Ready"@
                && log_texts(final(self).logs@) == retained(log_texts(old(self).logs@).push(ok_text(r, times)).push(times_text(times)), old(self).config.max_log_lines as nat))),
            outcome matches Ok(res) ==> (res.report is None ==> (
                final(self).failures() == apply_attempts(old(self).failures(), res.failed_attempts@)
                && final(self).status.current_operation@ == failed_status_text(trigger)
                && log_texts(final(self).logs@) == retained(log_texts(old(self).logs@).push(all_failed_text(trigger)), old(self).config.max_log_lines as nat))),
            outcome matches Err(e) ==> (
                final(self).failures() == old(self).failures()
                && final(self).status.current_operation@ == "Engine error"@
                && log_texts(final(self).logs@) == retained(log_texts(old(self).logs@).push(engine_error_text(e@)), old(self).config.max_log_lines as nat)),
    {
        self.syncing = false;
        let ghost before = log_texts(self.logs@);
        match outcome {
            Ok(res) => {
                self.count_failures(&res.failed_attempts);
                match &res.report {
                    Some(report) => {
                        self.failures.remove(&report.server);
                        self.status.current_operation = String::from_str("Ready");
                        let a = ok_line(report, &times);
                        let b = times_line(&times);
                        let ghost (ta, tb) = (a@, b@);
                        self.logs.push(a);
                        self.logs.push(b);
                        assert(log_texts(self.logs@) =~= before.push(ta).push(tb));
                    },
                    None => {
                        self.status.current_operation = text3("Sync failed (", trigger.name(), ")");
                        let a = text3("E: all hosts failed in ", trigger.name(), " sync");
                        let ghost ta = a@;
                        self.logs.push(a);
                        assert(log_texts(self.logs@) =~= before.push(ta));
                    },
                }
            },
            Err(err) => {
                self.status.current_operation = String::from_str("Engine error");
                let mut a = String::from_str("E: sync engine error: ");
                a.append(err.as_str());
                let ghost ta = a@;
                self.logs.push(a);
                assert(log_texts(self.logs@) =~= before.push(ta));
            },
        }
        self.update_hosts_in_status();
        self.trim_logs();
    }
}

} // verus!

verus! {

fn clone_strings(v: &Vec<String>) -> (r: Vec<String>)
    ensures
        r@ == v@,
{
    let mut r: Vec<String> = Vec::new();
    let mut i: usize = 0;
    while i < v.len()
        invariant
            i <= v@.len(),
            r@ == v@.take(i as int),
        decreases v@.len() - i,
    {
        r.push(v[i].clone());
        assert(r@ =~= v@.take(i + 1));
        i = i + 1;
    }
    assert(v@.take(v@.len() as int) =~= v@);
    r
}

fn clone_statuses(v: &Vec<HostStatus>) -> (r: Vec<HostStatus>)
    ensures
        r@ == v@,
{
    let mut r: Vec<HostStatus> = Vec::new();
    let mut i: usize = 0;
    while i < v.len()
        invariant
            i <= v@.len(),
            r@ == v@.take(i as int),
        decreases v@.len() - i,
    {
        r.push(v[i].clone());
        assert(r@ =~= v@.take(i + 1));
        i = i + 1;
    }
    assert(v@.take(v@.len() as int) =~= v@);
    r
}

impl RuntimeState {
    /// A copy of what the dashboard reads, with the path of the configuration file.
    pub fn snapshot(&self, config_path: String) -> (r: RuntimeSnapshot)
        ensures
            r.config.same_as(self.config),
            r.logs@ == self.logs@,
            r.status.current_operation == self.status.current_operation,
            r.status.hosts@ == self.status.hosts@,
            r.syncing == self.syncing,
            r.config_path == config_path,
    {
        RuntimeSnapshot {
            config: self.config.clone(),
            logs: clone_strings(&self.logs),
            status: RuntimeStatus {
                current_operation: self.status.current_operation.clone(),
                hosts: clone_statuses(&self.status.hosts),
            },
            syncing: self.syncing,
            config_path,
        }
    }
}

} // verus!

verus! {

/// How many of the attempts failed on `host`.
pub open spec fn failures_of(attempts: Seq<crate::sync::HostAttempt>, host: Seq<char>) -> nat
    decreases attempts.len(),
{
    if attempts.len() == 0 {
        0
    } else {
        failures_of(attempts.drop_last(), host) + if attempts.last().host@ == host { 1nat } else { 0nat }
    }
}

/// The error of the last attempt that failed on `host`, if any.
pub open spec fn last_error_of(attempts: Seq<crate::sync::HostAttempt>, host: Seq<char>) -> Option<Seq<char>>
    decreases attempts.len(),
{
    if attempts.len() == 0 {
        None
    } else if attempts.last().host@ == host {
        Some(attempts.last().error@)
    } else {
        last_error_of(attempts.drop_last(), host)
    }
}

/// Counting a run's failed attempts adds, for every host, the number of its
/// failures to its count (modulo 2^32) and makes its latest failure's error
/// the recorded one; hosts without failures in the run keep their record.
pub proof fn lemma_failure_accounting(m: Map<Seq<char>, FailureInfo>, attempts: Seq<crate::sync::HostAttempt>, host: Seq<char>)
    ensures
        failure_info(apply_attempts(m, attempts), host).0 == (failure_info(m, host).0 + failures_of(attempts, host)) % 0x1_0000_0000,
        failure_info(apply_attempts(m, attempts), host).1 == match last_error_of(attempts, host) {
            Some(e) => Some(e),
            None => failure_info(m, host).1,
        },
    decreases attempts.len(),
{
    if attempts.len() > 0 {
        lemma_failure_accounting(m, attempts.drop_last(), host);
        let prev = apply_attempts(m, attempts.drop_last());
        let c = failure_info(prev, host).0;
        let base = failure_info(m, host).0 as int;
        let k = failures_of(attempts.drop_last(), host) as int;
        assert(c == (base + k) % 0x1_0000_0000);
        if attempts.last().host@ == host {
            assert(next_count(c) == (base + k + 1) % 0x1_0000_0000) by (nonlinear_arith)
                requires
                    c == (base + k) % 0x1_0000_0000,
                    next_count(c) == if c == u32::MAX { 0 } else { c + 1 },
                    0 <= base, 0 <= k;
        }
    }
}

} // verus!

verus! {

/// The level at which a log line is also written to the service's log file.
#[derive(Clone, Copy, Debug, PartialEq, Eq, Structural)]
pub enum LogLevel {
    Error,
    Warn,
    Info,
}

/// The level that a line's prefix calls for.
pub open spec fn level_of(message: Seq<char>) -> LogLevel {
    if crate::sync::has_prefix(message, "E: "@) || crate::sync::has_prefix(message, "Error: "@) {
        LogLevel::Error
    } else if crate::sync::has_prefix(message, "W: "@) || crate::sync::has_prefix(message, "Warning: "@) {
        LogLevel::Warn
    } else {
        LogLevel::Info
    }
}

/// Lines starting `E: ` or `Error: ` are errors, `W: ` or `Warning: ` warnings,
/// all others information.
pub fn log_level(message: &str) -> (l: LogLevel)
    ensures
        l == level_of(message@),
{
    if crate::sync::starts_with(message, "E: ") || crate::sync::starts_with(message, "Error: ") {
        LogLevel::Error
    } else if crate::sync::starts_with(message, "W: ") || crate::sync::starts_with(message, "Warning: ") {
        LogLevel::Warn
    } else {
        LogLevel::Info
    }
}

} // verus!
