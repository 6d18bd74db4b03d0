//! Human-readable durations such as `1m 5s` or `<1s`.
use crate::text::{dec, owned, push_char, push_str, u128_to_dec};
use vstd::prelude::*;

verus! {

pub const NANOS_PER_MICROSECOND: u128 = 1_000;

pub const NANOS_PER_MILLISECOND: u128 = 1_000_000;

pub const NANOS_PER_SECOND: u128 = 1_000_000_000;

pub const NANOS_PER_MINUTE: u128 = 60_000_000_000;

pub const NANOS_PER_HOUR: u128 = 3_600_000_000_000;

pub const NANOS_PER_DAY: u128 = 86_400_000_000_000;

/// A span of time: whole seconds and the nanoseconds past them.
#[derive(Clone, Copy, Debug)]
pub struct Duration {
    pub secs: u64,
    pub subsec_nanos: u32,
}

impl Duration {
    /// The length of the span in nanoseconds.
    pub open spec fn total_nanos(self) -> nat {
        self.secs as nat * 1_000_000_000 + self.subsec_nanos as nat
    }

    /// `secs` whole seconds.
    pub fn from_secs(secs: u64) -> (d: Duration)
        ensures
            d.total_nanos() == secs * 1_000_000_000,
            d.subsec_nanos < 1_000_000_000,
    {
        Duration { secs, subsec_nanos: 0 }
    }

    /// `millis` milliseconds.
    pub fn from_millis(millis: u64) -> (d: Duration)
        ensures
            d.total_nanos() == millis * 1_000_000,
            d.subsec_nanos < 1_000_000_000,
    {
        let secs = millis / 1000;
        let rest = (millis % 1000) as u32;
        assert(secs * 1_000_000_000 + rest * 1_000_000 == millis * 1_000_000) by (nonlinear_arith)
            requires
                secs == millis / 1000,
                rest == millis % 1000,
        ;
        Duration { secs, subsec_nanos: rest * 1_000_000 }
    }

    /// `nanos` nanoseconds.
    pub fn from_nanos(nanos: u64) -> (d: Duration)
        ensures
            d.total_nanos() == nanos,
            d.subsec_nanos < 1_000_000_000,
    {
        let secs = nanos / 1_000_000_000;
        let rest = (nanos % 1_000_000_000) as u32;
        assert(secs * 1_000_000_000 + rest == nanos) by (nonlinear_arith)
            requires
                secs == nanos / 1_000_000_000,
                rest == nanos % 1_000_000_000,
        ;
        Duration { secs, subsec_nanos: rest }
    }

    /// Whether the span is empty.
    pub fn is_zero(&self) -> (res: bool)
        ensures
            res == (self.total_nanos() == 0),
    {
        self.secs == 0 && self.subsec_nanos == 0
    }
}

/// The units a duration is written in.
#[derive(Clone, Copy, Debug, PartialEq, Eq, Structural)]
pub enum TimeUnit {
    Nanosecond,
    Microsecond,
    Millisecond,
    Second,
    Minute,
    Hour,
    Day,
}

/// How many components (at most) and which smallest unit to write.
#[derive(Clone, Copy, Debug)]
pub struct PrettyDurationOptions {
    pub max_components: usize,
    pub min_unit: Option<TimeUnit>,
}

impl Default for PrettyDurationOptions {
    fn default() -> (res: Self)
        ensures
            res.max_components == 2,
            res.min_unit is None,
    {
        PrettyDurationOptions { max_components: 2, min_unit: None }
    }
}

pub open spec fn unit_nanos(u: TimeUnit) -> nat {
    match u {
        TimeUnit::Nanosecond => 1,
        TimeUnit::Microsecond => 1_000,
        TimeUnit::Millisecond => 1_000_000,
        TimeUnit::Second => 1_000_000_000,
        TimeUnit::Minute => 60_000_000_000,
        TimeUnit::Hour => 3_600_000_000_000,
        TimeUnit::Day => 86_400_000_000_000,
    }
}

/// The largest unit that is not longer than `t` nanoseconds (nanoseconds
/// when `t` is shorter than a microsecond).
pub open spec fn largest_unit(t: nat) -> TimeUnit {
    if t >= 86_400_000_000_000 {
        TimeUnit::Day
    } else if t >= 3_600_000_000_000 {
        TimeUnit::Hour
    } else if t >= 60_000_000_000 {
        TimeUnit::Minute
    } else if t >= 1_000_000_000 {
        TimeUnit::Second
    } else if t >= 1_000_000 {
        TimeUnit::Millisecond
    } else if t >= 1_000 {
        TimeUnit::Microsecond
    } else {
        TimeUnit::Nanosecond
    }
}

pub open spec fn unit_suffix(u: TimeUnit) -> Seq<char> {
    match u {
        TimeUnit::Nanosecond => seq!['n', 's'],
        TimeUnit::Microsecond => seq!['\u{b5}', 's'],
        TimeUnit::Millisecond => seq!['m', 's'],
        TimeUnit::Second => seq!['s'],
        TimeUnit::Minute => seq!['m'],
        TimeUnit::Hour => seq!['h'],
        TimeUnit::Day => seq!['d'],
    }
}

/// One component: the number followed by the unit's suffix.
pub open spec fn component(v: nat, u: TimeUnit) -> Seq<char> {
    dec(v) + unit_suffix(u)
}

/// `<1` followed by the unit's suffix.
pub open spec fn less_than_one(u: TimeUnit) -> Seq<char> {
    seq!['<', '1'] + unit_suffix(u)
}

/// The text of a duration of `total` nanoseconds: the value in the largest
/// unit that fits, then the remainder in the largest unit that fits it, and so
/// on, up to `max_components` parts (a count of 0 or 1 gives one part); a
/// duration of zero, or one shorter than `min_unit`, is written `<1` unit.
pub open spec fn pretty_duration(total: nat, max_components: nat, min_unit: Option<TimeUnit>) -> Seq<
    char,
> {
    if total == 0 {
        less_than_one(
            match min_unit {
                Some(u) => u,
                None => TimeUnit::Nanosecond,
            },
        )
    } else if min_unit is Some && total < unit_nanos(min_unit->0) {
        less_than_one(min_unit->0)
    } else {
        let u1 = largest_unit(total);
        let v1 = total / unit_nanos(u1);
        let r1 = total % unit_nanos(u1);
        let one = component(v1, u1);
        if max_components <= 1 || r1 == 0 {
            one
        } else {
            let u2 = largest_unit(r1);
            let v2 = r1 / unit_nanos(u2);
            let r2 = r1 % unit_nanos(u2);
            let two = one + seq![' '] + component(v2, u2);
            if v2 == 0 {
                one
            } else if max_components == 2 || r2 == 0 {
                two
            } else {
                let u3 = largest_unit(r2);
                let v3 = r2 / unit_nanos(u3);
                if v3 == 0 {
                    two
                } else {
                    two + seq![' '] + component(v3, u3)
                }
            }
        }
    }
}

fn unit_nanos_exec(u: TimeUnit) -> (res: u128)
    ensures
        res == unit_nanos(u),
        res >= 1,
{
    match u {
        TimeUnit::Nanosecond => 1,
        TimeUnit::Microsecond => NANOS_PER_MICROSECOND,
        TimeUnit::Millisecond => NANOS_PER_MILLISECOND,
        TimeUnit::Second => NANOS_PER_SECOND,
        TimeUnit::Minute => NANOS_PER_MINUTE,
        TimeUnit::Hour => NANOS_PER_HOUR,
        TimeUnit::Day => NANOS_PER_DAY,
    }
}

fn select_largest_unit(total_nanos: u128) -> (res: (TimeUnit, u128))
    ensures
        res.0 == largest_unit(total_nanos as nat),
        res.1 == unit_nanos(res.0),
{
    if total_nanos >= NANOS_PER_DAY {
        return (TimeUnit::Day, NANOS_PER_DAY);
    }
    if total_nanos >= NANOS_PER_HOUR {
        return (TimeUnit::Hour, NANOS_PER_HOUR);
    }
    if total_nanos >= NANOS_PER_MINUTE {
        return (TimeUnit::Minute, NANOS_PER_MINUTE);
    }
    if total_nanos >= NANOS_PER_SECOND {
        return (TimeUnit::Second, NANOS_PER_SECOND);
    }
    if total_nanos >= NANOS_PER_MILLISECOND {
        return (TimeUnit::Millisecond, NANOS_PER_MILLISECOND);
    }
    if total_nanos >= NANOS_PER_MICROSECOND {
        return (TimeUnit::Microsecond, NANOS_PER_MICROSECOND);
    }
    (TimeUnit::Nanosecond, 1)
}

fn push_unit_suffix(out: &mut String, u: TimeUnit)
    ensures
        final(out)@ == old(out)@ + unit_suffix(u),
{
    let ghost start = out@;
    match u {
        TimeUnit::Nanosecond => {
            push_char(out, 'n');
            push_char(out, 's');
        },
        TimeUnit::Microsecond => {
            push_char(out, '\u{b5}');
            push_char(out, 's');
        },
        TimeUnit::Millisecond => {
            push_char(out, 'm');
            push_char(out, 's');
        },
        TimeUnit::Second => push_char(out, 's'),
        TimeUnit::Minute => push_char(out, 'm'),
        TimeUnit::Hour => push_char(out, 'h'),
        TimeUnit::Day => push_char(out, 'd'),
    }
    assert(out@ =~= start + unit_suffix(u));
}

fn push_component(out: &mut String, value: u128, u: TimeUnit)
    ensures
        final(out)@ == old(out)@ + component(value as nat, u),
{
    let ghost start = out@;
    push_str(out, u128_to_dec(value).as_str());
    push_unit_suffix(out, u);
    assert(out@ =~= start + component(value as nat, u));
}

fn format_less_than_one(u: TimeUnit) -> (res: String)
    ensures
        res@ == less_than_one(u),
{
    let mut out = String::new();
    push_char(&mut out, '<');
    push_char(&mut out, '1');
    push_unit_suffix(&mut out, u);
    assert(out@ =~= less_than_one(u));
    out
}

proof fn lemma_largest_unit_fits(t: nat)
    requires
        t > 0,
    ensures
        unit_nanos(largest_unit(t)) <= t,
        t / unit_nanos(largest_unit(t)) >= 1,
{
    assert(t / unit_nanos(largest_unit(t)) >= 1) by (nonlinear_arith)
        requires
            unit_nanos(largest_unit(t)) <= t,
            unit_nanos(largest_unit(t)) >= 1,
    ;
}

/// The text of `duration` under `options` (see [`pretty_duration`]).
pub fn format_duration_with(duration: Duration, options: PrettyDurationOptions) -> (res: String)
    ensures
        res@ == pretty_duration(
            duration.total_nanos(),
            options.max_components as nat,
            options.min_unit,
        ),
{
    if duration.is_zero() {
        let u = match options.min_unit {
            Some(u) => u,
            None => TimeUnit::Nanosecond,
        };
        return format_less_than_one(u);
    }
    let total_nanos: u128 = (duration.subsec_nanos as u128) + (duration.secs as u128)
        * NANOS_PER_SECOND;
    assert(total_nanos == duration.total_nanos());
    let max_components = options.max_components;
    if let Some(min_unit) = options.min_unit {
        if total_nanos < unit_nanos_exec(min_unit) {
            return format_less_than_one(min_unit);
        }
    }
    let (first_unit, first_unit_nanos) = select_largest_unit(total_nanos);
    let first_value = total_nanos / first_unit_nanos;
    let remainder_after_first = total_nanos % first_unit_nanos;
    let mut out = String::new();
    push_component(&mut out, first_value, first_unit);
    if max_components <= 1 || remainder_after_first == 0 {
        return out;
    }
    let (second_unit, second_unit_nanos) = select_largest_unit(remainder_after_first);
    let second_value = remainder_after_first / second_unit_nanos;
    if second_value == 0 {
        return out;
    }
    push_char(&mut out, ' ');
    push_component(&mut out, second_value, second_unit);
    let remainder_after_second = remainder_after_first % second_unit_nanos;
    if max_components == 2 || remainder_after_second == 0 {
        return out;
    }
    let (third_unit, third_unit_nanos) = select_largest_unit(remainder_after_second);
    let third_value = remainder_after_second / third_unit_nanos;
    if third_value == 0 {
        return out;
    }
    push_char(&mut out, ' ');
    push_component(&mut out, third_value, third_unit);
    out
}

/// The text of `duration` with at most two components.
pub fn format_duration(duration: Duration) -> (res: String)
    ensures
        res@ == pretty_duration(duration.total_nanos(), 2, None),
{
    format_duration_with(duration, PrettyDurationOptions::default())
}

/// A point in time read from the system's monotonic clock.
#[verifier::external_type_specification]
#[verifier::external_body]
pub struct ExInstant(std::time::Instant);

/// The current instant: calls `Instant::now`. Trusted: nothing is stated
/// of the instant returned.
#[verifier::external_body]
pub(crate) fn instant_now() -> std::time::Instant {
    std::time::Instant::now()
}

/// Time since `start`: calls `Instant::elapsed`, kept as seconds and
/// nanoseconds. Trusted: the nanoseconds are below one second, as std's
/// `Duration` keeps them; the length itself depends on the clock.
#[verifier::external_body]
pub(crate) fn instant_elapsed(start: &std::time::Instant) -> (res: Duration)
    ensures
        res.subsec_nanos < 1_000_000_000,
{
    let d = start.elapsed();
    Duration { secs: d.as_secs(), subsec_nanos: d.subsec_nanos() }
}

/// The time since `start`, written as [`format_duration`] writes it.
pub fn format_instant_elapsed(start: std::time::Instant) -> (res: String)
    ensures
        exists|d: Duration|
            d.subsec_nanos < 1_000_000_000 && res@ == pretty_duration(#[trigger] d.total_nanos(), 2, None),
{
    let d = instant_elapsed(&start);
    let res = format_duration(d);
    assert(d.subsec_nanos < 1_000_000_000 && res@ == pretty_duration(d.total_nanos(), 2, None));
    res
}

/// The clock reading in milliseconds since the Unix epoch: calls
/// `SystemTime::now` and `duration_since(UNIX_EPOCH)`, cut to 64 bits;
/// `fallback` when the clock is before the epoch. Trusted for nothing: the
/// reading depends on the clock.
#[verifier::external_body]
pub(crate) fn unix_millis_now(fallback: u64) -> u64 {
    std::time::SystemTime::now().duration_since(std::time::UNIX_EPOCH).map(|d| d.as_millis() as u64).unwrap_or(fallback)
}

/// The text of `duration`, written `<1` unit when shorter than `min_unit`.
pub fn format_duration_at_least(duration: Duration, min_unit: TimeUnit) -> (res: String)
    ensures
        res@ == pretty_duration(duration.total_nanos(), 2, Some(min_unit)),
{
    format_duration_with(duration, PrettyDurationOptions { max_components: 2, min_unit: Some(min_unit) })
}

/// The distance from `now` to `then`, two instants given as time since the
/// epoch: `in <d>` when `then` is not earlier than `now`, `<d> ago` otherwise.
pub fn format_system_time_delta(now: Duration, then: Duration) -> (res: String)
    requires
        now.subsec_nanos < 1_000_000_000,
        then.subsec_nanos < 1_000_000_000,
    ensures
        then.total_nanos() >= now.total_nanos() ==> res@ == seq!['i', 'n', ' '] + pretty_duration(
            (then.total_nanos() - now.total_nanos()) as nat,
            2,
            None,
        ),
        then.total_nanos() < now.total_nanos() ==> res@ == pretty_duration(
            (now.total_nanos() - then.total_nanos()) as nat,
            2,
            None,
        ) + seq![' ', 'a', 'g', 'o'],
{
    let now_n: u128 = (now.secs as u128) * NANOS_PER_SECOND + (now.subsec_nanos as u128);
    let then_n: u128 = (then.secs as u128) * NANOS_PER_SECOND + (then.subsec_nanos as u128);
    if then_n >= now_n {
        let d = span_of(then_n - now_n);
        let mut out = String::new();
        push_char(&mut out, 'i');
        push_char(&mut out, 'n');
        push_char(&mut out, ' ');
        let ghost start = out@;
        push_str(&mut out, format_duration(d).as_str());
        assert(out@ =~= seq!['i', 'n', ' '] + pretty_duration(d.total_nanos(), 2, None));
        out
    } else {
        let d = span_of(now_n - then_n);
        let mut out = format_duration(d);
        push_char(&mut out, ' ');
        push_char(&mut out, 'a');
        push_char(&mut out, 'g');
        push_char(&mut out, 'o');
        assert(out@ =~= pretty_duration(d.total_nanos(), 2, None) + seq![' ', 'a', 'g', 'o']);
        out
    }
}

/// The span of `nanos` nanoseconds, for spans up to `u64::MAX` seconds.
fn span_of(nanos: u128) -> (d: Duration)
    requires
        nanos < (u64::MAX as u128 + 1) * 1_000_000_000,
    ensures
        d.total_nanos() == nanos,
{
    let secs = nanos / NANOS_PER_SECOND;
    let rest = nanos % NANOS_PER_SECOND;
    assert(secs * 1_000_000_000 + rest == nanos) by (nonlinear_arith)
        requires
            secs == nanos / 1_000_000_000,
            rest == nanos % 1_000_000_000,
    ;
    assert(secs <= u64::MAX) by (nonlinear_arith)
        requires
            secs == nanos / 1_000_000_000,
            nanos < (u64::MAX as u128 + 1) * 1_000_000_000,
    ;
    Duration { secs: secs as u64, subsec_nanos: rest as u32 }
}

/// A duration of zero, or one shorter than the smallest unit asked for, is
/// written `<1` with that unit.
pub proof fn law_short_durations_are_less_than_one(total: nat, max_components: nat, min_unit: TimeUnit)
    requires
        total < unit_nanos(min_unit),
    ensures
        pretty_duration(total, max_components, Some(min_unit)) == less_than_one(min_unit),
{
}

/// With one component the text is the whole number of the largest unit that
/// fits, and nothing else.
pub proof fn law_single_component(total: nat)
    requires
        total > 0,
    ensures
        pretty_duration(total, 1, None) == component(
            total / unit_nanos(largest_unit(total)),
            largest_unit(total),
        ),
{
}

/// A whole number of a unit is written as that number alone, whatever the
/// number of components allowed.
pub proof fn law_whole_units_have_one_component(v: nat, u: TimeUnit, max_components: nat)
    requires
        v >= 1,
        largest_unit(v * unit_nanos(u)) == u,
    ensures
        pretty_duration(v * unit_nanos(u), max_components, None) == component(v, u),
{
    assert((v * unit_nanos(u)) / unit_nanos(u) == v) by (nonlinear_arith)
        requires
            unit_nanos(u) >= 1,
    ;
    assert((v * unit_nanos(u)) % unit_nanos(u) == 0) by (nonlinear_arith)
        requires
            unit_nanos(u) >= 1,
    ;
    assert(v * unit_nanos(u) > 0) by (nonlinear_arith)
        requires
            v >= 1,
            unit_nanos(u) >= 1,
    ;
}

} // verus!
