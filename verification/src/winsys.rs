//! What the Windows integration decides and encodes: event log levels, the
//! `W32Time` policy value and its registry encoding.
use vstd::prelude::*;
use vstd::utf8::{char_is_scalar, char_u32_cast, is_scalar};
use crate::time::{chrono_date_of_epoch_day, day_and_second, is_civil_date, UtcInstant, MIN_EPOCH_DAY};

verus! {

/// The severity of an event log entry.
#[derive(Clone, Copy, Debug, PartialEq, Eq, Structural)]
pub enum EventLogLevel {
    Success,
    Error,
    Warning,
    Information,
}

impl EventLogLevel {
    /// The event type code that `ReportEventW` takes.
    pub open spec fn code(self) -> u16 {
        match self {
            EventLogLevel::Success => 0x0000,
            EventLogLevel::Error => 0x0001,
            EventLogLevel::Warning => 0x0002,
            EventLogLevel::Information => 0x0004,
        }
    }

    /// The event type code that `ReportEventW` takes.
    pub fn event_type(&self) -> (c: u16)
        ensures
            c == self.code(),
    {
        match self {
            EventLogLevel::Success => 0x0000,
            EventLogLevel::Error => 0x0001,
            EventLogLevel::Warning => 0x0002,
            EventLogLevel::Information => 0x0004,
        }
    }
}

/// Failures of the Windows integration.
#[derive(Debug)]
pub enum WinError {
    Windows(String),
    Registry(String),
    TimeConversion,
    Driver(String),
}

/// The `Type` value of the `W32Time` parameters: `NoSync` disables the built-in
/// time service, `NTP` leaves it on.
pub open spec fn policy_text(disable_win32_time: bool) -> Seq<char> {
    if disable_win32_time { "NoSync"@ } else { "NTP"@ }
}

/// The `Type` value written to the registry.
pub fn time_policy_value(disable_win32_time: bool) -> (s: &'static str)
    ensures
        s@ == policy_text(disable_win32_time),
{
    if disable_win32_time { "NoSync" } else { "NTP" }
}

/// The UTF-16 code units of one character.
pub open spec fn char_units(c: char) -> Seq<u16> {
    let v = c as u32;
    if v < 0x10000 {
        seq![v as u16]
    } else {
        seq![(0xD800 + (v - 0x10000) / 0x400) as u16, (0xDC00 + (v - 0x10000) % 0x400) as u16]
    }
}

/// The UTF-16 encoding of a text.
pub open spec fn utf16(s: Seq<char>) -> Seq<u16>
    decreases s.len(),
{
    if s.len() == 0 { Seq::empty() } else { utf16(s.drop_last()) + char_units(s.last()) }
}

/// The little-endian bytes of UTF-16 code units, as Windows stores them.
pub open spec fn le_bytes(u: Seq<u16>) -> Seq<u8>
    decreases u.len(),
{
    if u.len() == 0 { Seq::empty() } else { le_bytes(u.drop_last()) + seq![(u.last() % 256) as u8, (u.last() / 256) as u8] }
}

/// The first `n` code units stored little-endian in `b`.
pub open spec fn le_units(b: Seq<u8>, n: int) -> Seq<u16> {
    Seq::new(n as nat, |i: int| (b[2 * i] + 256 * b[2 * i + 1]) as u16)
}

/// The code units before the first zero.
pub open spec fn before_nul(u: Seq<u16>) -> Seq<u16>
    decreases u.len(),
{
    if u.len() == 0 { Seq::empty() } else if u[0] == 0 { Seq::empty() } else { seq![u[0]] + before_nul(u.drop_first()) }
}

/// The bytes of a registry string value: its UTF-16 units and a zero unit.
pub open spec fn registry_string_bytes(value: Seq<char>) -> Seq<u8> {
    le_bytes(utf16(value).push(0))
}

/// Calls `String::from_utf16`, which the standard library documents as decoding
/// UTF-16 and failing when the units are not valid UTF-16.
#[verifier::external_body]
fn string_from_utf16(units: &[u16]) -> (r: Option<String>)
    ensures
        r is Some <==> exists|c: Seq<char>| utf16(c) == units@,
        r matches Some(s) ==> utf16(s@) == units@,
{
    String::from_utf16(units).ok()
}

fn push_char_units(units: &mut Vec<u16>, c: char)
    ensures
        final(units)@ == old(units)@ + char_units(c),
{
    let v = c as u32;
    if v < 0x10000 {
        units.push(v as u16);
        assert(final(units)@ =~= old(units)@ + char_units(c)) by {
            assert(units@ == old(units)@.push(v as u16));
        }
    } else {
        proof {
            char_is_scalar(c);
        }
        let w = v - 0x10000;
        let hi = (0xD800 + w / 0x400) as u16;
        let lo = (0xDC00 + w % 0x400) as u16;
        units.push(hi);
        units.push(lo);
        assert(units@ =~= old(units)@ + char_units(c));
    }
}

/// A text as a NUL-terminated UTF-16 string, as Windows APIs take it.
pub fn wide_nul(value: &str) -> (units: Vec<u16>)
    ensures
        units@ == utf16(value@).push(0),
{
    let n = value.unicode_len();
    let mut units: Vec<u16> = Vec::new();
    let mut i: usize = 0;
    while i < n
        invariant
            n == value@.len(),
            i <= n,
            units@ == utf16(value@.take(i as int)),
        decreases n - i,
    {
        let c = value.get_char(i);
        push_char_units(&mut units, c);
        assert(value@.take(i + 1).drop_last() =~= value@.take(i as int));
        i = i + 1;
    }
    assert(value@.take(n as int) =~= value@);
    units.push(0);
    units
}

/// The bytes written to the registry for a string value: UTF-16, a terminating
/// zero unit, little-endian.
pub fn registry_string(value: &str) -> (bytes: Vec<u8>)
    ensures
        bytes@ == registry_string_bytes(value@),
{
    let units = wide_nul(value);
    let mut bytes: Vec<u8> = Vec::new();
    let mut k: usize = 0;
    while k < units.len()
        invariant
            k <= units@.len(),
            units@ == utf16(value@).push(0),
            bytes@ == le_bytes(units@.take(k as int)),
        decreases units@.len() - k,
    {
        let u = units[k];
        bytes.push((u % 256) as u8);
        bytes.push((u / 256) as u8);
        assert(units@.take(k + 1).drop_last() =~= units@.take(k as int));
        assert(bytes@ =~= le_bytes(units@.take(k + 1)));
        k = k + 1;
    }
    assert(units@.take(units@.len() as int) =~= units@);
    bytes
}

/// The name under which the service's events are logged.
pub const EVENT_SOURCE: &'static str = "rchronos";

/// An entry for the Windows event log: the source name, the event type and the
/// message, the strings NUL-terminated UTF-16.
#[derive(Debug)]
pub struct EventReport {
    pub source: Vec<u16>,
    pub event_type: u16,
    pub message: Vec<u16>,
}

/// Builds the event log entry for `message` at `level`, as the service reports
/// it: from the `rchronos` source, with the level's event type. Writing it to
/// the event log is left to the caller.
pub fn report_event_log(level: EventLogLevel, message: &str) -> (r: EventReport)
    ensures
        r.source@ == utf16(EVENT_SOURCE@).push(0),
        r.event_type == level.code(),
        r.message@ == utf16(message@).push(0),
{
    EventReport { source: wide_nul(EVENT_SOURCE), event_type: level.event_type(), message: wide_nul(message) }
}

} // verus!

verus! {

proof fn lemma_before_nul(u: Seq<u16>, i: int)
    requires
        0 <= i <= u.len(),
        forall|j: int| 0 <= j < i ==> u[j] != 0,
        i == u.len() || u[i] == 0,
    ensures
        before_nul(u) == u.take(i),
    decreases u.len(),
{
    if u.len() == 0 {
        assert(u.take(i) =~= Seq::<u16>::empty());
    } else if i == 0 {
        assert(u.take(i) =~= Seq::<u16>::empty());
    } else {
        lemma_before_nul(u.drop_first(), i - 1);
        assert(seq![u[0]] + u.drop_first().take(i - 1) =~= u.take(i));
    }
}

/// The text of the error raised when registry data is not valid UTF-16.
pub open spec fn utf16_error_text() -> Seq<char> {
    "UTF-16 转换失败: invalid utf-16: lone surrogate found"@
}

/// The string value read from the registry: the `len` bytes returned are taken
/// as little-endian UTF-16 units, cut at the first zero unit, and decoded.
pub fn registry_string_from_bytes(buf: &[u8], len: u32) -> (r: Result<String, WinError>)
    requires
        len <= buf@.len(),
    ensures
        r is Ok <==> exists|c: Seq<char>| utf16(c) == before_nul(le_units(buf@, (len / 2) as int)),
        r matches Ok(s) ==> utf16(s@) == before_nul(le_units(buf@, (len / 2) as int)),
        r matches Err(e) ==> e matches WinError::Registry(m) && m@ == utf16_error_text(),
{
    let n = (len / 2) as usize;
    let ghost all = le_units(buf@, n as int);
    let mut units: Vec<u16> = Vec::new();
    let mut i: usize = 0;
    while i < n
        invariant
            n == len / 2,
            len <= buf@.len(),
            all == le_units(buf@, n as int),
            i <= n,
            units@ == all.take(i as int),
            forall|j: int| 0 <= j < i ==> all[j] != 0,
        ensures
            i <= n,
            units@ == all.take(i as int),
            forall|j: int| 0 <= j < i ==> all[j] != 0,
            i == n || all[i as int] == 0,
        decreases n - i,
    {
        let u = (buf[2 * i] as u16) + 256 * (buf[2 * i + 1] as u16);
        assert(u == all[i as int]);
        if u == 0 {
            break;
        }
        units.push(u);
        assert(units@ =~= all.take(i + 1));
        i = i + 1;
    }
    proof {
        lemma_before_nul(all, i as int);
    }
    match string_from_utf16(units.as_slice()) {
        Some(s) => Ok(s),
        None => Err(WinError::Registry(String::from_str("UTF-16 转换失败: invalid utf-16: lone surrogate found"))),
    }
}

} // verus!

verus! {

proof fn lemma_char_units(c: char)
    ensures
        char_units(c).len() == 1 ==> (c as u32) < 0x10000 && char_units(c)[0] == c as u32
            && !(0xD800 <= char_units(c)[0] <= 0xDFFF),
        char_units(c).len() == 2 ==> 0x10000 <= (c as u32) <= 0x10FFFF
            && 0xD800 <= char_units(c)[0] <= 0xDBFF && 0xDC00 <= char_units(c)[1] <= 0xDFFF,
        char_units(c).len() == 1 || char_units(c).len() == 2,
        c != '\0' ==> char_units(c)[0] != 0 && char_units(c).last() != 0,
{
    char_is_scalar(c);
    let v = c as u32;
    if v >= 0x10000 {
        let w = v - 0x10000;
        assert(w / 0x400 <= 0x3FF) by (nonlinear_arith) requires w <= 0xFFFFF;
        assert(w % 0x400 <= 0x3FF) by (nonlinear_arith) requires w >= 0;
    } else {
        if c != '\0' {
            char_u32_cast(c, v);
            if v == 0 {
                assert((0u32 as char) == '\0');
            }
        }
    }
}

proof fn lemma_char_units_inj(a: char, b: char)
    requires
        char_units(a) == char_units(b),
    ensures
        a == b,
{
    lemma_char_units(a);
    lemma_char_units(b);
    let va = a as u32;
    let vb = b as u32;
    if char_units(a).len() == 2 {
        let wa = va - 0x10000;
        let wb = vb - 0x10000;
        assert(wa / 0x400 == wb / 0x400);
        assert(wa % 0x400 == wb % 0x400);
        assert(wa == wb) by (nonlinear_arith)
            requires wa / 0x400 == wb / 0x400, wa % 0x400 == wb % 0x400, wa >= 0, wb >= 0;
    }
    assert(va == vb);
    char_u32_cast(a, va);
    char_u32_cast(b, vb);
}

proof fn lemma_utf16_len(s: Seq<char>)
    ensures
        utf16(s).len() >= s.len(),
    decreases s.len(),
{
    if s.len() > 0 {
        lemma_utf16_len(s.drop_last());
        lemma_char_units(s.last());
    }
}

/// UTF-16 encoding is one-to-one: different texts have different encodings.
pub proof fn lemma_utf16_injective(a: Seq<char>, b: Seq<char>)
    requires
        utf16(a) == utf16(b),
    ensures
        a == b,
    decreases a.len(),
{
    lemma_utf16_len(a);
    lemma_utf16_len(b);
    if a.len() == 0 {
        if b.len() > 0 {
            lemma_char_units(b.last());
        }
        assert(a =~= b);
    } else if b.len() == 0 {
        lemma_char_units(a.last());
    } else {
        let ua = char_units(a.last());
        let ub = char_units(b.last());
        let u = utf16(a);
        lemma_char_units(a.last());
        lemma_char_units(b.last());
        assert(u =~= utf16(a.drop_last()) + ua);
        assert(u =~= utf16(b.drop_last()) + ub);
        assert(u.last() == ua.last());
        assert(u.last() == ub.last());
        if ua.len() == 2 && ub.len() == 1 {
            assert(false);
        } else if ua.len() == 1 && ub.len() == 2 {
            assert(false);
        }
        assert(ua.len() == ub.len());
        let k = u.len() - ua.len();
        assert(ua =~= u.subrange(k, u.len() as int));
        assert(ub =~= u.subrange(k, u.len() as int));
        assert(utf16(a.drop_last()) =~= u.subrange(0, k));
        assert(utf16(b.drop_last()) =~= u.subrange(0, k));
        lemma_char_units_inj(a.last(), b.last());
        lemma_utf16_injective(a.drop_last(), b.drop_last());
        assert(a =~= a.drop_last().push(a.last()));
        assert(b =~= b.drop_last().push(b.last()));
    }
}

proof fn lemma_utf16_no_zero(s: Seq<char>)
    requires
        forall|i: int| 0 <= i < s.len() ==> s[i] != '\0',
    ensures
        forall|j: int| 0 <= j < utf16(s).len() ==> utf16(s)[j] != 0,
    decreases s.len(),
{
    if s.len() > 0 {
        lemma_utf16_no_zero(s.drop_last());
        lemma_char_units(s.last());
        let p = utf16(s.drop_last());
        let c = char_units(s.last());
        assert(utf16(s) =~= p + c);
        assert forall|j: int| 0 <= j < utf16(s).len() implies utf16(s)[j] != 0 by {
            if j >= p.len() {
                assert(utf16(s)[j] == c[j - p.len()]);
            }
        }
    }
}

proof fn lemma_le_roundtrip(u: Seq<u16>)
    ensures
        le_bytes(u).len() == 2 * u.len(),
        le_units(le_bytes(u), u.len() as int) == u,
    decreases u.len(),
{
    if u.len() > 0 {
        let p = u.drop_last();
        lemma_le_roundtrip(p);
        let b = le_bytes(u);
        let x = u.last();
        vstd::arithmetic::div_mod::lemma_fundamental_div_mod(x as int, 256);
        assert(x / 256 < 256);
        assert forall|i: int| 0 <= i < u.len() implies #[trigger] le_units(b, u.len() as int)[i] == u[i] by {
            if i < p.len() {
                assert(b[2 * i] == le_bytes(p)[2 * i]);
                assert(b[2 * i + 1] == le_bytes(p)[2 * i + 1]);
                assert(le_units(le_bytes(p), p.len() as int)[i] == p[i]);
            } else {
                assert(b[2 * i] == (x % 256) as u8);
                assert(b[2 * i + 1] == (x / 256) as u8);
            }
        }
        assert(le_units(b, u.len() as int) =~= u);
    }
}

/// A registry string value reads back as the text written, for every text
/// without a NUL character (a NUL would end the value early).
pub proof fn lemma_registry_roundtrip(value: Seq<char>)
    requires
        forall|i: int| 0 <= i < value.len() ==> value[i] != '\0',
    ensures
        ({
            let b = registry_string_bytes(value);
            &&& b.len() % 2 == 0
            &&& before_nul(le_units(b, (b.len() / 2) as int)) == utf16(value)
            &&& forall|c: Seq<char>| utf16(c) == before_nul(le_units(b, (b.len() / 2) as int)) ==> c == value
        }),
{
    let w = utf16(value);
    let u = w.push(0);
    lemma_le_roundtrip(u);
    lemma_utf16_no_zero(value);
    lemma_before_nul(u, w.len() as int);
    assert(u.take(w.len() as int) =~= w);
    assert forall|c: Seq<char>| utf16(c) == w implies c == value by {
        lemma_utf16_injective(c, value);
    }
}

/// The fields of a Windows `SYSTEMTIME`: a UTC date and time of day, as
/// `SetSystemTime` takes it.
#[allow(non_snake_case)]
#[derive(Clone, Copy, Debug, PartialEq, Eq, Structural)]
pub struct SystemTimeFields {
    pub wYear: u16,
    pub wMonth: u16,
    pub wDayOfWeek: u16,
    pub wDay: u16,
    pub wHour: u16,
    pub wMinute: u16,
    pub wSecond: u16,
    pub wMilliseconds: u16,
}

/// The `SYSTEMTIME` of an instant: its calendar date (the year cut to 16 bits),
/// the day of the week counted from Sunday, the time of day, and the whole
/// milliseconds of its second.
pub fn utc_to_system_time(time: UtcInstant) -> (st: SystemTimeFields)
    requires
        time.wf(),
    ensures
        exists|y: int| #[trigger] is_civil_date(time.secs / 86400, y, st.wMonth as int, st.wDay as int)
            && st.wYear == #[verifier::truncate] (y as u16),
        st.wDayOfWeek == (time.secs / 86400 + 4) % 7,
        st.wHour == (time.secs % 86400) / 3600,
        st.wMinute == (time.secs % 3600) / 60,
        st.wSecond == time.secs % 60,
        st.wMilliseconds == time.nanos / 1_000_000,
{
    let (day, second) = day_and_second(time);
    let (year, month, d) = chrono_date_of_epoch_day(day);
    let ghost s = time.secs as int;
    assert(s % 3600 == second % 3600 && s % 60 == second % 60) by (nonlinear_arith)
        requires
            second == s % 86400,
    {
        assert(s == (s / 86400) * 86400 + second);
        assert(86400 == 3600 * 24);
    }
    let weekday: u32 = ((day as i64 - MIN_EPOCH_DAY as i64 + 4) % 7) as u32;
    assert(weekday == (day as int + 4) % 7) by (nonlinear_arith)
        requires
            weekday == (day as int + 96_465_292 + 4) % 7,
    {
        assert(96_465_292 == 7 * 13_780_756);
    }
    assert(1 <= month <= 12 && 1 <= d <= 31);
    let year16: u16 = #[verifier::truncate] (year as u16);
    let st = SystemTimeFields {
        wYear: year16,
        wMonth: month as u16,
        wDayOfWeek: weekday as u16,
        wDay: d as u16,
        wHour: (second / 3600) as u16,
        wMinute: ((second % 3600) / 60) as u16,
        wSecond: (second % 60) as u16,
        wMilliseconds: (time.nanos / 1_000_000) as u16,
    };
    assert(is_civil_date(time.secs / 86400, year as int, st.wMonth as int, st.wDay as int));
    st
}

} // verus!
