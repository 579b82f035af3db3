//! Misc utilities that may be helpful when making a website.
use vstd::prelude::*;
use vstd::string::StringExecFns;

use crate::text::{decimal, push_decimal, push_str};

verus! {

/// `secs / p` rounded to the nearest integer, halves up.
pub open spec fn round_div(secs: nat, p: nat) -> nat
    recommends
        p > 0,
{
    secs / p + if 2 * (secs % p) >= p { 1nat } else { 0nat }
}

/// `secs` in units of `p` seconds named `name`: the rounded count, the
/// name, an `s` when the count is over one, and ` ago`.
pub open spec fn unit_text(secs: nat, p: nat, name: Seq<char>) -> Seq<char> {
    let n = round_div(secs, p);
    decimal(n) + " "@ + name + (if n > 1 { "s"@ } else { ""@ }) + " ago"@
}

/// A number of seconds as a relative time: `now` for zero, otherwise in the
/// largest of seconds, minutes, hours, days (30 to a month), months (12 to a
/// year) and years that the time reaches.
pub open spec fn relative_time_spec(secs: nat) -> Seq<char> {
    if secs == 0 {
        "now"@
    } else if secs < 60 {
        unit_text(secs, 1, "second"@)
    } else if secs < 3600 {
        unit_text(secs, 60, "minute"@)
    } else if secs < 86400 {
        unit_text(secs, 3600, "hour"@)
    } else if secs < 2592000 {
        unit_text(secs, 86400, "day"@)
    } else if secs < 31104000 {
        unit_text(secs, 2592000, "month"@)
    } else {
        unit_text(secs, 31104000, "year"@)
    }
}

fn unit_string(secs: u64, p: u64, name: &str) -> (r: String)
    requires
        p > 0,
    ensures
        r@ == unit_text(secs as nat, p as nat, name@),
{
    let rem = secs % p;
    let q = secs / p;
    assert(q <= secs) by (nonlinear_arith)
        requires
            p > 0,
            q == secs / p,
    ;
    assert(p >= 2 ==> q < u64::MAX) by (nonlinear_arith)
        requires
            p > 0,
            q == secs / p,
    ;
    assert(rem < p) by (nonlinear_arith)
        requires
            p > 0,
            rem == secs % p,
    ;
    let n: u64 = if rem >= p - rem { q + 1 } else { q };
    assert(n == round_div(secs as nat, p as nat));
    let mut out = String::new();
    push_decimal(&mut out, n);
    push_str(&mut out, " ");
    push_str(&mut out, name);
    if n > 1 {
        push_str(&mut out, "s");
    }
    push_str(&mut out, " ago");
    proof {
        reveal_strlit(" ");
        reveal_strlit("s");
        reveal_strlit("");
        reveal_strlit(" ago");
        assert(Seq::<char>::empty() + decimal(n as nat) == decimal(n as nat));
        if n > 1 {
            assert(out@ =~= unit_text(secs as nat, p as nat, name@));
        } else {
            assert(out@ =~= unit_text(secs as nat, p as nat, name@));
        }
    }
    out
}

/// Turn a relative number of seconds into a more readable relative time,
/// like `1 minute ago` or `3 years ago`; `now` if the time is 0.
pub fn fmt_relative_time(secs: u64) -> (r: String)
    ensures
        r@ == relative_time_spec(secs as nat),
{
    if secs == 0 {
        return String::from_str("now");
    }
    if secs < 60 {
        unit_string(secs, 1, "second")
    } else if secs < 3600 {
        unit_string(secs, 60, "minute")
    } else if secs < 86400 {
        unit_string(secs, 3600, "hour")
    } else if secs < 2592000 {
        unit_string(secs, 86400, "day")
    } else if secs < 31104000 {
        unit_string(secs, 2592000, "month")
    } else {
        unit_string(secs, 31104000, "year")
    }
}

} // verus!
