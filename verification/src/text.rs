//! Text helpers: decimal rendering, joining, and the adaptive duration format.
use vstd::prelude::*;

verus! {

/// The character of a decimal digit.
pub open spec fn digit_char(d: nat) -> char {
    if d == 0 { '0' } else if d == 1 { '1' } else if d == 2 { '2' } else if d == 3 { '3' }
    else if d == 4 { '4' } else if d == 5 { '5' } else if d == 6 { '6' } else if d == 7 { '7' }
    else if d == 8 { '8' } else { '9' }
}

/// The decimal rendering of a natural number, without sign or leading zeros.
pub open spec fn decimal(n: nat) -> Seq<char>
    decreases n,
{
    if n < 10 {
        seq![digit_char(n)]
    } else {
        decimal(n / 10) + seq![digit_char(n % 10)]
    }
}

fn digit_str(d: u64) -> (s: &'static str)
    requires
        d < 10,
    ensures
        s@ == seq![digit_char(d as nat)],
{
    proof {
        reveal_strlit("0");
        reveal_strlit("1");
        reveal_strlit("2");
        reveal_strlit("3");
        reveal_strlit("4");
        reveal_strlit("5");
        reveal_strlit("6");
        reveal_strlit("7");
        reveal_strlit("8");
        reveal_strlit("9");
    }
    if d == 0 { "0" } else if d == 1 { "1" } else if d == 2 { "2" } else if d == 3 { "3" }
    else if d == 4 { "4" } else if d == 5 { "5" } else if d == 6 { "6" } else if d == 7 { "7" }
    else if d == 8 { "8" } else { "9" }
}

/// Renders `n` in decimal.
pub fn decimal_string(n: u64) -> (s: String)
    ensures
        s@ == decimal(n as nat),
    decreases n,
{
    if n < 10 {
        String::from_str(digit_str(n))
    } else {
        let mut s = decimal_string(n / 10);
        s.append(digit_str(n % 10));
        s
    }
}

} // verus!

verus! {

/// `parts` joined with `sep` between consecutive elements.
pub open spec fn join(parts: Seq<Seq<char>>, sep: Seq<char>) -> Seq<char>
    decreases parts.len(),
{
    if parts.len() == 0 {
        Seq::empty()
    } else if parts.len() == 1 {
        parts[0]
    } else {
        join(parts.drop_last(), sep) + sep + parts.last()
    }
}

pub open spec fn ms_per_hour() -> nat { 3_600_000 }
pub open spec fn ms_per_minute() -> nat { 60_000 }
pub open spec fn ms_per_second() -> nat { 1_000 }

/// The hour, minute, second and millisecond components of a duration.
pub open spec fn ms_components(ms: nat) -> (nat, nat, nat, nat) {
    let h = ms / ms_per_hour();
    let m = (ms % ms_per_hour()) / ms_per_minute();
    let s = (ms % ms_per_minute()) / ms_per_second();
    let r = ms % ms_per_second();
    (h, m, s, r)
}

/// A non-zero component rendered with its unit, or nothing.
pub open spec fn unit_part(value: nat, unit: Seq<char>) -> Seq<Seq<char>> {
    if value > 0 { seq![decimal(value) + unit] } else { Seq::empty() }
}

/// The non-zero components of a duration, largest unit first.
pub open spec fn adaptive_parts(ms: nat) -> Seq<Seq<char>> {
    let (h, m, s, r) = ms_components(ms);
    unit_part(h, seq!['h']) + unit_part(m, seq!['m']) + unit_part(s, seq!['s']) + unit_part(r, seq!['m', 's'])
}

/// The adaptive rendering of a duration in milliseconds, such as `1h 1m 1s 1ms`.
pub open spec fn adaptive_text(ms: nat) -> Seq<char> {
    if ms == 0 {
        seq!['0', 'm', 's']
    } else {
        join(adaptive_parts(ms), seq![' '])
    }
}

/// A duration is the sum of its components, each below the next unit.
pub proof fn lemma_ms_components(ms: nat)
    ensures
        ({
            let (h, m, s, r) = ms_components(ms);
            &&& h * ms_per_hour() + m * ms_per_minute() + s * ms_per_second() + r == ms
            &&& m < 60
            &&& s < 60
            &&& r < 1000
        }),
{
    let (h, m, s, r) = ms_components(ms);
    assert(ms == h * 3_600_000 + ms % 3_600_000) by (nonlinear_arith)
        requires h == ms / 3_600_000;
    let x = ms % 3_600_000;
    assert(x == m * 60_000 + x % 60_000 && m < 60) by (nonlinear_arith)
        requires x < 3_600_000, m == x / 60_000;
    assert(x % 60_000 == ms % 60_000) by (nonlinear_arith)
        requires x == ms % 3_600_000;
    let y = ms % 60_000;
    assert(y == s * 1000 + y % 1000 && s < 60) by (nonlinear_arith)
        requires y < 60_000, s == y / 1000;
    assert(y % 1000 == ms % 1000) by (nonlinear_arith)
        requires y == ms % 60_000;
}

proof fn lemma_join_push(parts: Seq<Seq<char>>, p: Seq<char>, sep: Seq<char>)
    ensures
        join(parts.push(p), sep) == if parts.len() == 0 { p } else { join(parts, sep) + sep + p },
{
    assert(parts.push(p).drop_last() =~= parts);
}

/// Appends `part` to `acc` as one more element joined with `sep`; `first`
/// tells whether it is the first element.
pub(crate) fn push_joined(acc: &mut String, sep: &str, part: &str, first: bool, Ghost(parts): Ghost<Seq<Seq<char>>>)
    requires
        old(acc)@ == join(parts, sep@),
        first == (parts.len() == 0),
    ensures
        final(acc)@ == join(parts.push(part@), sep@),
{
    proof {
        lemma_join_push(parts, part@, sep@);
    }
    if !first {
        acc.append(sep);
    }
    acc.append(part);
}

/// Appends `part` to `acc` as one more joined element.
fn push_part(acc: &mut String, part: &str, Ghost(parts): Ghost<Seq<Seq<char>>>)
    requires
        old(acc)@ == join(parts, seq![' ']),
        parts.len() == 0 <==> old(acc)@.len() == 0,
    ensures
        final(acc)@ == join(parts.push(part@), seq![' ']),
{
    proof {
        reveal_strlit(" ");
        lemma_join_push(parts, part@, seq![' ']);
    }
    if acc.unicode_len() > 0 {
        acc.append(" ");
    }
    acc.append(part);
}

} // verus!

verus! {

/// Renders a duration given in milliseconds with the largest fitting units,
/// leaving out zero components: `3_723_004` gives `1h 2m 3s 4ms`, `0` gives `0ms`.
pub fn format_ms_adaptive(ms: u64) -> (s: String)
    ensures
        s@ == adaptive_text(ms as nat),
{
    proof {
        reveal_strlit("0ms");
        reveal_strlit("h");
        reveal_strlit("m");
        reveal_strlit("s");
        reveal_strlit("ms");
    }
    if ms == 0 {
        return String::from_str("0ms");
    }
    let h = ms / 3_600_000;
    let m = (ms % 3_600_000) / 60_000;
    let sec = (ms % 60_000) / 1_000;
    let r = ms % 1_000;
    let ghost hp = unit_part(h as nat, seq!['h']);
    let ghost mp = unit_part(m as nat, seq!['m']);
    let ghost sp = unit_part(sec as nat, seq!['s']);
    let ghost rp = unit_part(r as nat, seq!['m', 's']);
    let mut out = String::new();
    if h > 0 {
        let mut piece = decimal_string(h);
        piece.append("h");
        assert(piece@ =~= decimal(h as nat) + seq!['h']);
        push_part(&mut out, piece.as_str(), Ghost(Seq::empty()));
        assert(Seq::<Seq<char>>::empty().push(piece@) =~= hp);
    } else {
        assert(hp =~= Seq::<Seq<char>>::empty());
    }
    assert(out@ == join(hp, seq![' ']));
    if m > 0 {
        let mut piece = decimal_string(m);
        piece.append("m");
        assert(piece@ =~= decimal(m as nat) + seq!['m']);
        push_part(&mut out, piece.as_str(), Ghost(hp));
        assert(hp.push(piece@) =~= hp + mp);
    } else {
        assert(hp + mp =~= hp);
    }
    assert(out@ == join(hp + mp, seq![' ']));
    assert((hp + mp).len() == 0 <==> out@.len() == 0);
    if sec > 0 {
        let mut piece = decimal_string(sec);
        piece.append("s");
        assert(piece@ =~= decimal(sec as nat) + seq!['s']);
        push_part(&mut out, piece.as_str(), Ghost(hp + mp));
        assert((hp + mp).push(piece@) =~= hp + mp + sp);
    } else {
        assert(hp + mp + sp =~= hp + mp);
    }
    assert(out@ == join(hp + mp + sp, seq![' ']));
    if r > 0 {
        let mut piece = decimal_string(r);
        piece.append("ms");
        assert(piece@ =~= decimal(r as nat) + seq!['m', 's']);
        push_part(&mut out, piece.as_str(), Ghost(hp + mp + sp));
        assert((hp + mp + sp).push(piece@) =~= hp + mp + sp + rp);
    } else {
        assert(hp + mp + sp + rp =~= hp + mp + sp);
    }
    assert(adaptive_parts(ms as nat) == hp + mp + sp + rp);
    out
}

} // verus!
