//! How the age of an object is written.

use vstd::prelude::*;
use vstd::string::*;
use crate::text::{decimal, signed_to_string};

verus! {

/// The text for a span of `seconds`: its two largest units where the span is
/// longer than two of the larger one (days and hours beyond 48 hours, hours and
/// minutes beyond 120 minutes, minutes and seconds beyond 120 seconds), and
/// plain seconds otherwise.
pub open spec fn duration_text(seconds: int) -> Seq<char> {
    let days = seconds / 86400;
    let hours = seconds / 3600;
    let minutes = seconds / 60;
    if hours > 48 {
        decimal(days) + seq!['d'] + decimal(hours - days * 24) + seq!['h']
    } else if minutes > 120 {
        decimal(hours) + seq!['h'] + decimal(minutes - hours * 60) + seq!['m']
    } else if seconds > 120 {
        decimal(minutes) + seq!['m'] + decimal(seconds - minutes * 60) + seq!['s']
    } else {
        decimal(seconds) + seq!['s']
    }
}

/// The seconds from `created` to `now`, held to the range of `i64`.
pub open spec fn age_seconds(now: int, created: int) -> int {
    if now - created > i64::MAX {
        i64::MAX as int
    } else if now - created < i64::MIN {
        i64::MIN as int
    } else {
        now - created
    }
}

fn two_units(major: i64, major_unit: &str, minor: i64, minor_unit: &str) -> (s: String)
    ensures
        s@ == decimal(major as int) + major_unit@ + decimal(minor as int) + minor_unit@,
{
    signed_to_string(major).concat(major_unit).concat(signed_to_string(minor).as_str()).concat(
        minor_unit,
    )
}

/// Writes a span of time given in whole seconds.
pub fn format_duration(seconds: i64) -> (s: String)
    ensures
        s@ == duration_text(seconds as int),
{
    proof {
        reveal_strlit("d");
        reveal_strlit("h");
        reveal_strlit("m");
        reveal_strlit("s");
    }
    if seconds <= 120 {
        let s = signed_to_string(seconds).concat("s");
        assert("s"@ =~= seq!['s']);
        return s;
    }
    let days = seconds / 86400;
    let hours = seconds / 3600;
    let minutes = seconds / 60;
    assert("d"@ =~= seq!['d'] && "h"@ =~= seq!['h'] && "m"@ =~= seq!['m'] && "s"@ =~= seq!['s']);
    if hours > 48 {
        two_units(days, "d", hours - days * 24, "h")
    } else if minutes > 120 {
        two_units(hours, "h", minutes - hours * 60, "m")
    } else {
        two_units(minutes, "m", seconds - minutes * 60, "s")
    }
}

/// Writes the age at `now` of an object created at `created`, both in seconds
/// since the epoch.
pub fn format_creation_since(now: i64, created: i64) -> (s: String)
    ensures
        s@ == duration_text(age_seconds(now as int, created as int)),
{
    let age = match now.checked_sub(created) {
        Some(age) => age,
        None => if now >= 0 {
            i64::MAX
        } else {
            i64::MIN
        },
    };
    format_duration(age)
}

} // verus!
