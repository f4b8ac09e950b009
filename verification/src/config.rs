//! The service configuration: protocols, synchronisation modes, the host
//! table and the application settings with their defaults.
use vstd::prelude::*;
use crate::order::{lemma_name_lt_total, lemma_name_lt_transitive, name_less, name_lt};

verus! {

/// The browser identification sent with HTTP time requests by default.
pub const DEFAULT_USER_AGENT: &'static str = "Mozilla/5.0 (Windows NT 10.0; Win64; x64) AppleWebKit/537.36 (KHTML, like Gecko) Chrome/144.0.0.0 Safari/537.36 Edg/144.0.0.0";

/// How the time of a host is fetched.
#[derive(Clone, Copy, Debug, PartialEq, Eq, Structural)]
pub enum RequestType {
    Ntp,
    Http,
    Https,
}

impl Default for RequestType {
    fn default() -> (r: Self)
        ensures
            r == RequestType::Ntp,
    {
        RequestType::Ntp
    }
}

/// What is done with the local clock when it deviates.
#[derive(Clone, Copy, Debug, PartialEq, Eq, Structural)]
pub enum SyncMode {
    Off,
    Immediate,
    Slew,
}

impl Default for SyncMode {
    fn default() -> (r: Self)
        ensures
            r == SyncMode::Off,
    {
        SyncMode::Off
    }
}

/// Which protocols may be used to fetch the time.
#[derive(Clone, Copy, Debug, PartialEq, Eq, Structural)]
pub enum Agreement {
    NtpOnly,
    HttpOnly,
    Mixed,
}

impl Default for Agreement {
    fn default() -> (r: Self)
        ensures
            r == Agreement::Mixed,
    {
        Agreement::Mixed
    }
}

/// The settings of one time host.
#[derive(Clone, Copy, Debug, PartialEq, Eq, Structural)]
pub struct HostConfig {
    pub request_type: RequestType,
    pub priority: u32,
    pub enabled: bool,
}

impl Default for HostConfig {
    fn default() -> (r: Self)
        ensures
            r == (HostConfig { request_type: RequestType::Ntp, priority: 0, enabled: true }),
    {
        HostConfig { request_type: RequestType::default(), priority: 0, enabled: true }
    }
}

/// Names sorted strictly ascending (hence pairwise distinct).
pub open spec fn names_sorted(s: Seq<(Seq<char>, HostConfig)>) -> bool {
    forall|i: int, j: int| 0 <= i < j < s.len() ==> name_lt(#[trigger] s[i].0, #[trigger] s[j].0)
}

/// The hosts of a configuration, keyed by name and kept in name order, as a
/// `BTreeMap<String, HostConfig>` keeps them. It is a sorted vector because
/// vstd specifies `BTreeMap` only for keys whose order it models, and it does not
/// model the order of `String`: with such a key no contract about the map's
/// contents could be proved.
#[derive(Debug)]
pub struct HostTable {
    entries: Vec<(String, HostConfig)>,
}

pub open spec fn entry_view(e: (String, HostConfig)) -> (Seq<char>, HostConfig) {
    (e.0@, e.1)
}

impl HostTable {
    /// The entries, in name order.
    pub closed spec fn entries(&self) -> Seq<(Seq<char>, HostConfig)> {
        self.entries@.map_values(|e: (String, HostConfig)| entry_view(e))
    }

    #[verifier::type_invariant]
    spec fn sorted(&self) -> bool {
        names_sorted(self.entries())
    }

    /// The table holds `config` under `name`.
    pub open spec fn has(&self, name: Seq<char>, config: HostConfig) -> bool {
        self.entries().contains((name, config))
    }

    /// An empty table.
    pub fn new() -> (t: Self)
        ensures
            t.entries() == Seq::<(Seq<char>, HostConfig)>::empty(),
    {
        let t = HostTable { entries: Vec::new() };
        assert(t.entries() =~= Seq::<(Seq<char>, HostConfig)>::empty());
        t
    }

    /// The number of hosts.
    pub fn len(&self) -> (n: usize)
        ensures
            n == self.entries().len(),
    {
        self.entries.len()
    }

    /// The entry at `i`, in name order.
    pub fn entry(&self, i: usize) -> (e: &(String, HostConfig))
        requires
            i < self.entries().len(),
        ensures
            entry_view(*e) == self.entries()[i as int],
            names_sorted(self.entries()),
    {
        proof {
            use_type_invariant(self);
        }
        &self.entries[i]
    }

    /// Sets `name` to `config`, replacing the entry of that name if there is one.
    pub fn insert(&mut self, name: String, config: HostConfig)
        ensures
            names_sorted(final(self).entries()),
            forall|k: Seq<char>, c: HostConfig|
                #![trigger final(self).has(k, c)]
                final(self).has(k, c) <==> ((k == name@ && c == config) || (k != name@ && old(self).has(k, c))),
    {
        proof {
            use_type_invariant(&*self);
        }
        let ghost old_s = self.entries();
        let mut v: Vec<(String, HostConfig)> = Vec::new();
        std::mem::swap(&mut v, &mut self.entries);
        assert(v@.map_values(|e: (String, HostConfig)| entry_view(e)) == old_s);
        let n = v.len();
        let mut i: usize = 0;
        while i < n
            invariant
                n == v@.len(),
                i <= n,
                v@.map_values(|e: (String, HostConfig)| entry_view(e)) == old_s,
                names_sorted(old_s),
                old_s == old(self).entries(),
                forall|j: int| 0 <= j < i ==> name_lt(#[trigger] old_s[j].0, name@),
            decreases n - i,
        {
            assert(old_s[i as int] == entry_view(v@[i as int]));
            if v[i].0 == name {
                let ghost new_s = old_s.update(i as int, (name@, config));
                v.set(i, (name, config));
                assert(v@.map_values(|e: (String, HostConfig)| entry_view(e)) =~= new_s);
                proof {
                    lemma_replace_entry(old_s, i as int, config);
                }
                self.entries = v;
                assert(self.entries() == new_s);
                assert forall|k: Seq<char>, c: HostConfig| #[trigger] self.has(k, c) <==> ((k == name@ && c == config) || (k != name@ && old_s.contains((k, c)))) by {
                    assert(new_s.contains((k, c)) <==> ((k == name@ && c == config) || (k != name@ && old_s.contains((k, c)))));
                }
                return;
            }
            if !name_less(v[i].0.as_str(), name.as_str()) {
                let ghost new_s = old_s.insert(i as int, (name@, config));
                proof {
                    lemma_name_lt_total(old_s[i as int].0, name@);
                    lemma_insert_entry(old_s, i as int, name@, config);
                }
                v.insert(i, (name, config));
                assert(v@.map_values(|e: (String, HostConfig)| entry_view(e)) =~= new_s);
                self.entries = v;
                assert(self.entries() == new_s);
                assert forall|k: Seq<char>, c: HostConfig| #[trigger] self.has(k, c) <==> ((k == name@ && c == config) || (k != name@ && old_s.contains((k, c)))) by {
                    assert(new_s.contains((k, c)) <==> ((k == name@ && c == config) || (k != name@ && old_s.contains((k, c)))));
                }
                return;
            }
            i = i + 1;
        }
        let ghost new_s = old_s.push((name@, config));
        proof {
            assert(old_s.insert(n as int, (name@, config)) =~= new_s);
            lemma_insert_entry(old_s, n as int, name@, config);
        }
        v.push((name, config));
        assert(v@.map_values(|e: (String, HostConfig)| entry_view(e)) =~= new_s);
        self.entries = v;
        assert(self.entries() == new_s);
        assert forall|k: Seq<char>, c: HostConfig| #[trigger] self.has(k, c) <==> ((k == name@ && c == config) || (k != name@ && old_s.contains((k, c)))) by {
            assert(new_s.contains((k, c)) <==> ((k == name@ && c == config) || (k != name@ && old_s.contains((k, c)))));
        }
    }
}

impl Clone for HostTable {
    fn clone(&self) -> (r: Self)
        ensures
            r.entries() == self.entries(),
    {
        proof {
            use_type_invariant(self);
        }
        let ghost s = self.entries();
        let mut v: Vec<(String, HostConfig)> = Vec::new();
        let n = self.entries.len();
        let mut i: usize = 0;
        while i < n
            invariant
                n == self.entries@.len(),
                s == self.entries(),
                i <= n,
                v@.map_values(|e: (String, HostConfig)| entry_view(e)) =~= s.subrange(0, i as int),
            decreases n - i,
        {
            let e = &self.entries[i];
            assert(entry_view(*e) == s[i as int]);
            let ghost before = v@;
            let item = (e.0.clone(), e.1);
            assert(entry_view(item) == s[i as int]);
            v.push(item);
            assert(v@ == before.push(item));
            proof {
                lemma_map_push(before, item);
            }
            assert(s.subrange(0, i as int).push(s[i as int]) =~= s.subrange(0, i + 1));
            i = i + 1;
        }
        assert(s.subrange(0, n as int) =~= s);
        HostTable { entries: v }
    }
}

proof fn lemma_map_push(v: Seq<(String, HostConfig)>, x: (String, HostConfig))
    ensures
        v.push(x).map_values(|e: (String, HostConfig)| entry_view(e)) == v.map_values(|e: (String, HostConfig)| entry_view(e)).push(entry_view(x)),
{
    assert(v.push(x).map_values(|e: (String, HostConfig)| entry_view(e)) =~= v.map_values(|e: (String, HostConfig)| entry_view(e)).push(entry_view(x)));
}

proof fn lemma_replace_entry(s: Seq<(Seq<char>, HostConfig)>, i: int, config: HostConfig)
    requires
        names_sorted(s),
        0 <= i < s.len(),
    ensures
        names_sorted(s.update(i, (s[i].0, config))),
        forall|k: Seq<char>, c: HostConfig|
            #![trigger s.update(i, (s[i].0, config)).contains((k, c))]
            s.update(i, (s[i].0, config)).contains((k, c)) <==> ((k == s[i].0 && c == config) || (k != s[i].0 && s.contains((k, c)))),
{
    let t = s.update(i, (s[i].0, config));
    assert forall|a: int, b: int| 0 <= a < b < t.len() implies name_lt(#[trigger] t[a].0, #[trigger] t[b].0) by {
        assert(name_lt(s[a].0, s[b].0));
    }
    assert forall|k: Seq<char>, c: HostConfig|
        t.contains((k, c)) <==> ((k == s[i].0 && c == config) || (k != s[i].0 && s.contains((k, c)))) by {
        if t.contains((k, c)) {
            let j = choose|j: int| 0 <= j < t.len() && t[j] == (k, c);
            if j != i {
                assert(s[j] == (k, c));
                if k == s[i].0 {
                    if j < i { assert(name_lt(s[j].0, s[i].0)); } else { assert(name_lt(s[i].0, s[j].0)); }
                    lemma_name_lt_total(k, k);
                }
            }
        }
        if k == s[i].0 && c == config {
            assert(t[i] == (k, c));
        }
        if k != s[i].0 && s.contains((k, c)) {
            let j = choose|j: int| 0 <= j < s.len() && s[j] == (k, c);
            assert(t[j] == (k, c));
        }
    }
}

proof fn lemma_insert_index<A>(s: Seq<A>, pos: int, elt: A, j: int)
    requires
        0 <= pos <= s.len(),
        0 <= j <= s.len(),
    ensures
        s.insert(pos, elt)[j] == if j < pos { s[j] } else if j == pos { elt } else { s[j - 1] },
{
    s.insert_ensures(pos, elt);
    if j > pos {
        assert(s.insert(pos, elt)[(j - 1) + 1] == s[j - 1]);
    }
}

proof fn lemma_insert_entry(s: Seq<(Seq<char>, HostConfig)>, i: int, name: Seq<char>, config: HostConfig)
    requires
        names_sorted(s),
        0 <= i <= s.len(),
        forall|j: int| 0 <= j < i ==> name_lt(#[trigger] s[j].0, name),
        i < s.len() ==> name_lt(name, s[i].0),
    ensures
        names_sorted(s.insert(i, (name, config))),
        forall|k: Seq<char>, c: HostConfig|
            #![trigger s.insert(i, (name, config)).contains((k, c))]
            s.insert(i, (name, config)).contains((k, c)) <==> ((k == name && c == config) || (k != name && s.contains((k, c)))),
{
    let t = s.insert(i, (name, config));
    s.insert_ensures(i, (name, config));
    assert forall|a: int, b: int| 0 <= a < b < t.len() implies name_lt(#[trigger] t[a].0, #[trigger] t[b].0) by {
        if b < i {
            assert(name_lt(s[a].0, s[b].0));
        } else if b == i {
            assert(name_lt(s[a].0, name));
        } else if a < i {
            assert(name_lt(s[a].0, name));
            assert(name_lt(name, s[i].0));
            if b - 1 > i {
                assert(name_lt(s[i].0, s[b - 1].0));
                lemma_name_lt_transitive(name, s[i].0, s[b - 1].0);
            }
            lemma_name_lt_transitive(s[a].0, name, s[b - 1].0);
        } else if a == i {
            if b - 1 > i {
                assert(name_lt(s[i].0, s[b - 1].0));
                lemma_name_lt_transitive(name, s[i].0, s[b - 1].0);
            }
        } else {
            assert(name_lt(s[a - 1].0, s[b - 1].0));
        }
    }
    assert forall|k: Seq<char>, c: HostConfig|
        t.contains((k, c)) <==> ((k == name && c == config) || (k != name && s.contains((k, c)))) by {
        if t.contains((k, c)) {
            let j = choose|j: int| 0 <= j < t.len() && t[j] == (k, c);
            lemma_insert_index(s, i, (name, config), j);
            if j < i {
                assert(s[j] == (k, c));
                assert(name_lt(s[j].0, name));
                if k == name { lemma_name_lt_total(k, k); }
                assert(k != name);
                assert(s.contains((k, c)));
            } else if j > i {
                assert(s[j - 1] == (k, c));
                if k == name {
                    if j - 1 > i {
                        assert(name_lt(s[i].0, s[j - 1].0));
                        lemma_name_lt_transitive(name, s[i].0, s[j - 1].0);
                    }
                    lemma_name_lt_total(k, k);
                }
                assert(k != name);
                assert(s.contains((k, c)));
            } else {
                assert(k == name && c == config);
            }
        }
        if k == name && c == config {
            assert(t[i] == (k, c));
        }
        if k != name && s.contains((k, c)) {
            let j = choose|j: int| 0 <= j < s.len() && s[j] == (k, c);
            if j < i {
                lemma_insert_index(s, i, (name, config), j);
                assert(t[j] == (k, c));
            } else {
                lemma_insert_index(s, i, (name, config), j + 1);
                assert(t[j + 1] == (k, c));
            }
        }
    }
}

} // verus!

verus! {

/// The application settings.
#[derive(Debug)]
pub struct AppConfig {
    pub sync_mode: SyncMode,
    pub offset_ms: u64,
    pub deviation_offset_ms: u64,
    pub disable_win32_time: bool,
    pub delay_ms: u64,
    pub timeout_ms: u64,
    pub network_timeout_ms: u64,
    pub agreement: Agreement,
    pub user_agent: String,
    pub hosts: HostTable,
    pub web_port: u16,
    pub max_log_lines: usize,
    pub service_name: String,
}

impl AppConfig {
    /// The two configurations hold the same settings.
    pub open spec fn same_as(self, other: AppConfig) -> bool {
        &&& self.sync_mode == other.sync_mode
        &&& self.offset_ms == other.offset_ms
        &&& self.deviation_offset_ms == other.deviation_offset_ms
        &&& self.disable_win32_time == other.disable_win32_time
        &&& self.delay_ms == other.delay_ms
        &&& self.timeout_ms == other.timeout_ms
        &&& self.network_timeout_ms == other.network_timeout_ms
        &&& self.agreement == other.agreement
        &&& self.user_agent@ == other.user_agent@
        &&& self.hosts.entries() == other.hosts.entries()
        &&& self.web_port == other.web_port
        &&& self.max_log_lines == other.max_log_lines
        &&& self.service_name@ == other.service_name@
    }
}

impl Clone for AppConfig {
    fn clone(&self) -> (r: Self)
        ensures
            r.same_as(*self),
    {
        AppConfig {
            sync_mode: self.sync_mode,
            offset_ms: self.offset_ms,
            deviation_offset_ms: self.deviation_offset_ms,
            disable_win32_time: self.disable_win32_time,
            delay_ms: self.delay_ms,
            timeout_ms: self.timeout_ms,
            network_timeout_ms: self.network_timeout_ms,
            agreement: self.agreement,
            user_agent: self.user_agent.clone(),
            hosts: self.hosts.clone(),
            web_port: self.web_port,
            max_log_lines: self.max_log_lines,
            service_name: self.service_name.clone(),
        }
    }
}

pub open spec fn ntp_host() -> HostConfig {
    HostConfig { request_type: RequestType::Ntp, priority: 0, enabled: true }
}

pub open spec fn http_host() -> HostConfig {
    HostConfig { request_type: RequestType::Http, priority: 1, enabled: true }
}

/// The hosts that a fresh configuration holds.
pub open spec fn default_hosts() -> Seq<(Seq<char>, HostConfig)> {
    seq![
        ("ntp.tencent.com"@, ntp_host()),
        ("ntp.aliyun.com"@, ntp_host()),
        ("time.cloudflare.com"@, ntp_host()),
        ("time.asia.apple.com"@, ntp_host()),
        ("rhel.pool.ntp.org"@, ntp_host()),
        ("www.baidu.com"@, http_host()),
        ("www.qq.com"@, http_host()),
        ("www.163.com"@, http_host()),
    ]
}

/// The settings of a fresh configuration.
pub open spec fn is_default_config(c: AppConfig) -> bool {
    &&& c.sync_mode == SyncMode::Off
    &&& c.offset_ms == 0
    &&& c.deviation_offset_ms == 0
    &&& c.disable_win32_time == false
    &&& c.delay_ms == 3_600_000
    &&& c.timeout_ms == 30_000
    &&& c.network_timeout_ms == 5_000
    &&& c.agreement == Agreement::Mixed
    &&& c.user_agent@ == DEFAULT_USER_AGENT@
    &&& forall|k: Seq<char>, h: HostConfig| #[trigger] c.hosts.has(k, h) <==> default_hosts().contains((k, h))
    &&& c.web_port == 8081
    &&& c.max_log_lines == 200
    &&& c.service_name@ == "Rchronos"@
}

/// A fresh configuration leaves Windows' own time service on (the policy value
/// written is `NTP`), adjusts no clock (synchronisation is off), permits every
/// protocol, and applies neither an offset nor a tolerance.
pub proof fn lemma_default_config(c: AppConfig)
    requires
        is_default_config(c),
    ensures
        !c.disable_win32_time,
        crate::winsys::policy_text(c.disable_win32_time) == "NTP"@,
        c.sync_mode == SyncMode::Off,
        c.agreement == Agreement::Mixed,
        c.offset_ms == 0,
        c.deviation_offset_ms == 0,
{
}

fn insert_host(table: &mut HostTable, name: &str, request_type: RequestType, priority: u32, Ghost(before): Ghost<Seq<(Seq<char>, HostConfig)>>)
    requires
        forall|k: Seq<char>, c: HostConfig| #[trigger] old(table).has(k, c) <==> before.contains((k, c)),
        forall|j: int| 0 <= j < before.len() ==> (#[trigger] before[j]).0 != name@,
    ensures
        forall|k: Seq<char>, c: HostConfig| #[trigger] final(table).has(k, c) <==> before.push((name@, HostConfig { request_type, priority, enabled: true })).contains((k, c)),
{
    let config = HostConfig { request_type, priority, enabled: true };
    table.insert(String::from_str(name), config);
    let ghost after = before.push((name@, config));
    assert forall|k: Seq<char>, c: HostConfig| #[trigger] table.has(k, c) <==> after.contains((k, c)) by {
        if after.contains((k, c)) {
            let j = choose|j: int| 0 <= j < after.len() && after[j] == (k, c);
            if j < before.len() {
                assert(before[j] == (k, c));
                assert(before.contains((k, c)));
            }
        }
        if before.contains((k, c)) {
            let j = choose|j: int| 0 <= j < before.len() && before[j] == (k, c);
            assert(after[j] == (k, c));
        }
        if k == name@ && c == config {
            assert(after[before.len() as int] == (k, c));
        }
    }
}

impl Default for AppConfig {
    /// The settings used when no configuration file exists.
    fn default() -> (c: Self)
        ensures
            is_default_config(c),
            c.disable_win32_time == false,
            c.sync_mode == SyncMode::Off,
            c.agreement == Agreement::Mixed,
            c.offset_ms == 0,
            c.deviation_offset_ms == 0,
            c.delay_ms == 3_600_000,
            c.timeout_ms == 30_000,
            c.network_timeout_ms == 5_000,
            c.web_port == 8081,
            c.max_log_lines == 200,
    {
        proof {
            reveal_strlit("ntp.tencent.com");
            reveal_strlit("ntp.aliyun.com");
            reveal_strlit("time.cloudflare.com");
            reveal_strlit("time.asia.apple.com");
            reveal_strlit("rhel.pool.ntp.org");
            reveal_strlit("www.baidu.com");
            reveal_strlit("www.qq.com");
            reveal_strlit("www.163.com");
            assert("time.cloudflare.com"@[5] != "time.asia.apple.com"@[5]);
        }
        let ghost d = default_hosts();
        let mut hosts = HostTable::new();
        insert_host(&mut hosts, "ntp.tencent.com", RequestType::Ntp, 0, Ghost(d.take(0)));
        assert(d.take(0).push(d[0]) =~= d.take(1));
        assert("ntp.tencent.com"@[4] != "ntp.aliyun.com"@[4]);
        assert(d.take(1)[0].0 != "ntp.aliyun.com"@);
        insert_host(&mut hosts, "ntp.aliyun.com", RequestType::Ntp, 0, Ghost(d.take(1)));
        assert(d.take(1).push(d[1]) =~= d.take(2));
        assert("ntp.tencent.com"@[0] != "time.cloudflare.com"@[0]);
        assert(d.take(2)[0].0 != "time.cloudflare.com"@);
        assert("ntp.aliyun.com"@[0] != "time.cloudflare.com"@[0]);
        assert(d.take(2)[1].0 != "time.cloudflare.com"@);
        insert_host(&mut hosts, "time.cloudflare.com", RequestType::Ntp, 0, Ghost(d.take(2)));
        assert(d.take(2).push(d[2]) =~= d.take(3));
        assert("ntp.tencent.com"@[0] != "time.asia.apple.com"@[0]);
        assert(d.take(3)[0].0 != "time.asia.apple.com"@);
        assert("ntp.aliyun.com"@[0] != "time.asia.apple.com"@[0]);
        assert(d.take(3)[1].0 != "time.asia.apple.com"@);
        assert(d.take(3)[2].0 != "time.asia.apple.com"@);
        insert_host(&mut hosts, "time.asia.apple.com", RequestType::Ntp, 0, Ghost(d.take(3)));
        assert(d.take(3).push(d[3]) =~= d.take(4));
        assert("ntp.tencent.com"@[0] != "rhel.pool.ntp.org"@[0]);
        assert(d.take(4)[0].0 != "rhel.pool.ntp.org"@);
        assert("ntp.aliyun.com"@[0] != "rhel.pool.ntp.org"@[0]);
        assert(d.take(4)[1].0 != "rhel.pool.ntp.org"@);
        assert("time.cloudflare.com"@[0] != "rhel.pool.ntp.org"@[0]);
        assert(d.take(4)[2].0 != "rhel.pool.ntp.org"@);
        assert("time.asia.apple.com"@[0] != "rhel.pool.ntp.org"@[0]);
        assert(d.take(4)[3].0 != "rhel.pool.ntp.org"@);
        insert_host(&mut hosts, "rhel.pool.ntp.org", RequestType::Ntp, 0, Ghost(d.take(4)));
        assert(d.take(4).push(d[4]) =~= d.take(5));
        assert("ntp.tencent.com"@[0] != "www.baidu.com"@[0]);
        assert(d.take(5)[0].0 != "www.baidu.com"@);
        assert("ntp.aliyun.com"@[0] != "www.baidu.com"@[0]);
        assert(d.take(5)[1].0 != "www.baidu.com"@);
        assert("time.cloudflare.com"@[0] != "www.baidu.com"@[0]);
        assert(d.take(5)[2].0 != "www.baidu.com"@);
        assert("time.asia.apple.com"@[0] != "www.baidu.com"@[0]);
        assert(d.take(5)[3].0 != "www.baidu.com"@);
        assert("rhel.pool.ntp.org"@[0] != "www.baidu.com"@[0]);
        assert(d.take(5)[4].0 != "www.baidu.com"@);
        insert_host(&mut hosts, "www.baidu.com", RequestType::Http, 1, Ghost(d.take(5)));
        assert(d.take(5).push(d[5]) =~= d.take(6));
        assert("ntp.tencent.com"@[0] != "www.qq.com"@[0]);
        assert(d.take(6)[0].0 != "www.qq.com"@);
        assert("ntp.aliyun.com"@[0] != "www.qq.com"@[0]);
        assert(d.take(6)[1].0 != "www.qq.com"@);
        assert("time.cloudflare.com"@[0] != "www.qq.com"@[0]);
        assert(d.take(6)[2].0 != "www.qq.com"@);
        assert("time.asia.apple.com"@[0] != "www.qq.com"@[0]);
        assert(d.take(6)[3].0 != "www.qq.com"@);
        assert("rhel.pool.ntp.org"@[0] != "www.qq.com"@[0]);
        assert(d.take(6)[4].0 != "www.qq.com"@);
        assert("www.baidu.com"@[4] != "www.qq.com"@[4]);
        assert(d.take(6)[5].0 != "www.qq.com"@);
        insert_host(&mut hosts, "www.qq.com", RequestType::Http, 1, Ghost(d.take(6)));
        assert(d.take(6).push(d[6]) =~= d.take(7));
        assert("ntp.tencent.com"@[0] != "www.163.com"@[0]);
        assert(d.take(7)[0].0 != "www.163.com"@);
        assert("ntp.aliyun.com"@[0] != "www.163.com"@[0]);
        assert(d.take(7)[1].0 != "www.163.com"@);
        assert("time.cloudflare.com"@[0] != "www.163.com"@[0]);
        assert(d.take(7)[2].0 != "www.163.com"@);
        assert("time.asia.apple.com"@[0] != "www.163.com"@[0]);
        assert(d.take(7)[3].0 != "www.163.com"@);
        assert("rhel.pool.ntp.org"@[0] != "www.163.com"@[0]);
        assert(d.take(7)[4].0 != "www.163.com"@);
        assert("www.baidu.com"@[4] != "www.163.com"@[4]);
        assert(d.take(7)[5].0 != "www.163.com"@);
        assert("www.qq.com"@[4] != "www.163.com"@[4]);
        assert(d.take(7)[6].0 != "www.163.com"@);
        insert_host(&mut hosts, "www.163.com", RequestType::Http, 1, Ghost(d.take(7)));
        assert(d.take(7).push(d[7]) =~= d);
        AppConfig {
            sync_mode: SyncMode::default(),
            offset_ms: 0,
            deviation_offset_ms: 0,
            disable_win32_time: false,
            delay_ms: 3_600_000,
            timeout_ms: 30_000,
            network_timeout_ms: 5_000,
            agreement: Agreement::default(),
            user_agent: String::from_str(DEFAULT_USER_AGENT),
            hosts,
            web_port: 8081,
            max_log_lines: 200,
            service_name: String::from_str("Rchronos"),
        }
    }
}

} // verus!

verus! {

/// Why a configuration could not be loaded or saved.
#[derive(Debug)]
pub enum ConfigError {
    Message(String),
    Io(String),
    TomlDe(String),
    TomlSer(String),
}

impl ConfigError {
    /// An error with a message of its own.
    pub fn msg(message: String) -> (e: ConfigError)
        ensures
            e == ConfigError::Message(message),
    {
        ConfigError::Message(message)
    }
}

/// The loaded configuration, or the default one when loading failed.
pub fn config_or_default(loaded: Result<AppConfig, ConfigError>) -> (c: AppConfig)
    ensures
        loaded matches Ok(l) ==> c == l,
        loaded is Err ==> is_default_config(c),
        loaded is Err ==> c.disable_win32_time == false && c.sync_mode == SyncMode::Off
            && c.agreement == Agreement::Mixed,
{
    match loaded {
        Ok(config) => config,
        Err(_) => AppConfig::default(),
    }
}

} // verus!
