//! Rendering a creation time as a local calendar stamp.
//!
//! A task's creation time is stored as seconds since the Unix epoch.  For
//! display it is shifted by the local time zone's offset and written as
//! `YYYY-MM-DD HH:MM`.  The date arithmetic is the era-based civil-calendar
//! computation on the proleptic Gregorian calendar; instants from before
//! the epoch in local time are shown as the epoch, and each intermediate
//! quantity is capped at the top of its calendar range so that every
//! function is total.

use vstd::prelude::*;

use crate::encode::{dec_digits, digit_char, push_dec_digits};
use crate::text::chars_to_string;

verus! {

/// The civil date `(year, month, day)` of the day numbered `z`, counting
/// days from 1970-01-01 as day zero, for non-negative day numbers.
#[verifier::opaque]
pub open spec fn civil_of_days(z: int) -> (int, int, int) {
    let days = z + 719468;
    let era = days / 146097;
    let doe = days % 146097;
    let yoe = (doe - doe / 1460 + doe / 36524 - doe / 146096) / 365;
    let y0 = yoe + era * 400;
    let sub = 365 * yoe + yoe / 4 - yoe / 100;
    let doy0 = if sub <= doe { doe - sub } else { 0 };
    let doy = if doy0 <= 365 { doy0 } else { 365 };
    let mp = (5 * doy + 2) / 153;
    let off = (153 * mp + 2) / 5;
    let d0 = if off <= doy { doy - off + 1 } else { 1 };
    let d = if d0 <= 31 { d0 } else { 31 };
    let m = if mp < 10 { mp + 3 } else { mp - 9 };
    let y = if m <= 2 { y0 + 1 } else { y0 };
    (y, m, d)
}

/// A number below one hundred, two digits wide.
pub open spec fn pad2(n: int) -> Seq<char> {
    if n < 10 {
        seq!['0', digit_char(n)]
    } else {
        dec_digits(n as nat)
    }
}

/// A number padded to at least four digits.
pub open spec fn pad4(n: int) -> Seq<char> {
    if n < 10 {
        seq!['0', '0', '0', digit_char(n)]
    } else if n < 100 {
        seq!['0', '0'] + dec_digits(n as nat)
    } else if n < 1000 {
        seq!['0'] + dec_digits(n as nat)
    } else {
        dec_digits(n as nat)
    }
}

/// The full display stamp of an instant: the civil date and wall-clock
/// hour and minute after shifting `secs` by `offset` seconds of time zone.
#[verifier::opaque]
pub open spec fn local_stamp(secs: u64, offset: i32) -> Seq<char> {
    let local = if secs + offset >= 0 {
        secs + offset
    } else {
        0
    };
    let days = local / 86400;
    let sod = local % 86400;
    let ymd = civil_of_days(days);
    pad4(ymd.0) + seq!['-'] + pad2(ymd.1) + seq!['-'] + pad2(ymd.2) + seq![' '] + pad2(
        sod / 3600,
    ) + seq![':'] + pad2((sod % 3600) / 60)
}

/// The civil date of day number `z`, executable.
fn civil_of_days_exec(z: u128) -> (r: (u64, u64, u64))
    requires
        z <= 0x1_0000_0000_0000_0000u128,
    ensures
        (r.0 as int, r.1 as int, r.2 as int) == civil_of_days(z as int),
        1 <= r.1 <= 12,
        1 <= r.2 <= 31,
{
    proof {
        reveal(civil_of_days);
    }
    let days: u128 = z + 719468;
    let era: u128 = days / 146097;
    let doe: u128 = days % 146097;
    proof {
        vstd::arithmetic::div_mod::lemma_fundamental_div_mod(days as int, 146097);
        vstd::arithmetic::div_mod::lemma_fundamental_div_mod(doe as int, 1460);
        vstd::arithmetic::div_mod::lemma_fundamental_div_mod(doe as int, 36524);
        vstd::arithmetic::div_mod::lemma_fundamental_div_mod(doe as int, 146096);
    }
    let yoe: u128 = (doe - doe / 1460 + doe / 36524 - doe / 146096) / 365;
    proof {
        vstd::arithmetic::div_mod::lemma_fundamental_div_mod(
            (doe - doe / 1460 + doe / 36524 - doe / 146096) as int,
            365,
        );
        vstd::arithmetic::div_mod::lemma_fundamental_div_mod(yoe as int, 4);
        vstd::arithmetic::div_mod::lemma_fundamental_div_mod(yoe as int, 100);
    }
    let y0: u128 = yoe + era * 400;
    let sub: u128 = 365 * yoe + yoe / 4 - yoe / 100;
    let doy0: u128 = if sub <= doe {
        doe - sub
    } else {
        0
    };
    let doy: u128 = if doy0 <= 365 {
        doy0
    } else {
        365
    };
    let mp: u128 = (5 * doy + 2) / 153;
    proof {
        vstd::arithmetic::div_mod::lemma_fundamental_div_mod((5 * doy + 2) as int, 153);
        vstd::arithmetic::div_mod::lemma_fundamental_div_mod((153 * mp + 2) as int, 5);
    }
    let off: u128 = (153 * mp + 2) / 5;
    let d0: u128 = if off <= doy {
        doy - off + 1
    } else {
        1
    };
    let d: u128 = if d0 <= 31 {
        d0
    } else {
        31
    };
    let m: u128 = if mp < 10 {
        mp + 3
    } else {
        mp - 9
    };
    let y: u128 = if m <= 2 {
        y0 + 1
    } else {
        y0
    };
    (y as u64, m as u64, d as u64)
}

/// Append `n` two digits wide.
fn push_pad2(out: &mut Vec<char>, n: u64)
    requires
        n < 100,
    ensures
        final(out)@ == old(out)@ + pad2(n as int),
{
    if n < 10 {
        out.push('0');
        push_dec_digits(out, n);
        proof {
            assert(dec_digits(n as nat) =~= seq![digit_char(n as int)]);
            assert(final(out)@ =~= old(out)@ + pad2(n as int));
        }
    } else {
        push_dec_digits(out, n);
    }
}

/// Append `n` padded to at least four digits.
fn push_pad4(out: &mut Vec<char>, n: u64)
    ensures
        final(out)@ == old(out)@ + pad4(n as int),
{
    if n < 10 {
        out.push('0');
        out.push('0');
        out.push('0');
        push_dec_digits(out, n);
        proof {
            assert(dec_digits(n as nat) =~= seq![digit_char(n as int)]);
            assert(final(out)@ =~= old(out)@ + pad4(n as int));
        }
    } else if n < 100 {
        out.push('0');
        out.push('0');
        push_dec_digits(out, n);
        proof {
            assert(final(out)@ =~= old(out)@ + pad4(n as int));
        }
    } else if n < 1000 {
        out.push('0');
        push_dec_digits(out, n);
        proof {
            assert(final(out)@ =~= old(out)@ + pad4(n as int));
        }
    } else {
        push_dec_digits(out, n);
    }
}

/// Write the display stamp of the instant `secs`, shifted by `offset`.
pub fn format_stamp(secs: u64, offset: i32) -> (r: String)
    ensures
        r@ == local_stamp(secs, offset),
{
    proof {
        reveal(local_stamp);
    }
    let shifted: i128 = secs as i128 + offset as i128;
    let local: u128 = if shifted >= 0 {
        shifted as u128
    } else {
        0
    };
    proof {
        vstd::arithmetic::div_mod::lemma_fundamental_div_mod(local as int, 86400);
    }
    let days: u128 = local / 86400;
    let sod: u128 = local % 86400;
    proof {
        vstd::arithmetic::div_mod::lemma_fundamental_div_mod(sod as int, 3600);
        vstd::arithmetic::div_mod::lemma_fundamental_div_mod((sod % 3600) as int, 60);
    }
    let ymd = civil_of_days_exec(days);
    let hour: u64 = (sod / 3600) as u64;
    let minute: u64 = ((sod % 3600) / 60) as u64;
    let mut out: Vec<char> = Vec::new();
    push_pad4(&mut out, ymd.0);
    out.push('-');
    push_pad2(&mut out, ymd.1);
    out.push('-');
    push_pad2(&mut out, ymd.2);
    out.push(' ');
    push_pad2(&mut out, hour);
    out.push(':');
    push_pad2(&mut out, minute);
    proof {
        assert(out@ =~= local_stamp(secs, offset));
    }
    chars_to_string(&out)
}

} // verus!
