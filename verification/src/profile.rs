//! Timing spans reported when profiling is switched on.
use crate::format::time::{format_duration, instant_elapsed, instant_now, pretty_duration, Duration};
use crate::text::{owned, push_str};
use vstd::prelude::*;

verus! {

/// Whether a value of the profiling switch turns profiling on: `1`,
/// `true`, `TRUE`, `yes` or `YES`.
pub open spec fn profile_enabled_spec(value: Option<Seq<char>>) -> bool {
    match value {
        Some(v) => v == "1"@ || v == "true"@ || v == "TRUE"@ || v == "yes"@ || v == "YES"@,
        None => false,
    }
}

/// Whether profiling is on, given the value of the switch (`None` when it
/// is not set).
pub fn enabled_from(value: Option<&str>) -> (res: bool)
    ensures
        res == profile_enabled_spec(match value {
            Some(v) => Some(v@),
            None => None,
        }),
{
    match value {
        Some(v) => crate::text::str_eq(v, "1") || crate::text::str_eq(v, "true") || crate::text::str_eq(
            v,
            "TRUE",
        ) || crate::text::str_eq(v, "yes") || crate::text::str_eq(v, "YES"),
        None => false,
    }
}

/// A named span of work and the instant it began.
pub struct ProfileSpan {
    name: &'static str,
    start: std::time::Instant,
}

impl ProfileSpan {
    /// The span's name.
    pub closed spec fn label(&self) -> Seq<char> {
        self.name@
    }

    /// A span named `name` starting now, when profiling is on.
    pub fn new(name: &'static str, enabled: bool) -> (res: Option<Self>)
        ensures
            res is Some <==> enabled,
            res matches Some(s) ==> s.label() == name@,
    {
        if enabled {
            Some(ProfileSpan { name, start: instant_now() })
        } else {
            None
        }
    }

    /// The report line of the span once `elapsed` has passed.
    pub fn report_line(&self, elapsed: Duration) -> (res: String)
        ensures
            res@ == "[headlamp-profile] "@ + self.label() + " took "@ + pretty_duration(
                elapsed.total_nanos(),
                2,
                None,
            ),
    {
        let mut out = owned("[headlamp-profile] ");
        push_str(&mut out, self.name);
        push_str(&mut out, " took ");
        push_str(&mut out, format_duration(elapsed).as_str());
        out
    }

    /// The report line of the span now that it has ended.
    pub fn report(&self) -> (res: String)
        ensures
            exists|d: Duration|
                d.subsec_nanos < 1_000_000_000 && res@ == "[headlamp-profile] "@ + self.label()
                    + " took "@ + pretty_duration(#[trigger] d.total_nanos(), 2, None),
    {
        let d = instant_elapsed(&self.start);
        let res = self.report_line(d);
        assert(d.subsec_nanos < 1_000_000_000);
        res
    }
}

/// A span named `name`, when profiling is on.
pub fn span(name: &'static str, enabled: bool) -> (res: Option<ProfileSpan>)
    ensures
        res is Some <==> enabled,
        res matches Some(s) ==> s.label() == name@,
{
    ProfileSpan::new(name, enabled)
}

} // verus!
