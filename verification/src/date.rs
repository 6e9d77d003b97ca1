//! The `Date` header value: an RFC 1123 date computed from a count of
//! seconds since the Unix epoch. The caller supplies the clock.

use vstd::prelude::*;

verus! {

/// The last second of year 9999: dates beyond this would not fit four
/// year digits.
pub const MAX_DATE_SECS: u64 = 253402300799;

pub open spec fn two_dig(n: int) -> Seq<u8> {
    seq![(48 + n / 10) as u8, (48 + n % 10) as u8]
}

pub open spec fn four_dig(n: int) -> Seq<u8> {
    seq![
        (48 + n / 1000) as u8,
        (48 + (n / 100) % 10) as u8,
        (48 + (n / 10) % 10) as u8,
        (48 + n % 10) as u8,
    ]
}

/// Three-letter day names, indexed with Sunday as zero.
pub open spec fn weekday_name(d: int) -> Seq<u8> {
    if d == 0 {
        seq![83u8, 117u8, 110u8]
    } else if d == 1 {
        seq![77u8, 111u8, 110u8]
    } else if d == 2 {
        seq![84u8, 117u8, 101u8]
    } else if d == 3 {
        seq![87u8, 101u8, 100u8]
    } else if d == 4 {
        seq![84u8, 104u8, 117u8]
    } else if d == 5 {
        seq![70u8, 114u8, 105u8]
    } else {
        seq![83u8, 97u8, 116u8]
    }
}

/// Three-letter month names, indexed from January as one.
pub open spec fn month_name(m: int) -> Seq<u8> {
    if m == 1 {
        seq![74u8, 97u8, 110u8]
    } else if m == 2 {
        seq![70u8, 101u8, 98u8]
    } else if m == 3 {
        seq![77u8, 97u8, 114u8]
    } else if m == 4 {
        seq![65u8, 112u8, 114u8]
    } else if m == 5 {
        seq![77u8, 97u8, 121u8]
    } else if m == 6 {
        seq![74u8, 117u8, 110u8]
    } else if m == 7 {
        seq![74u8, 117u8, 108u8]
    } else if m == 8 {
        seq![65u8, 117u8, 103u8]
    } else if m == 9 {
        seq![83u8, 101u8, 112u8]
    } else if m == 10 {
        seq![79u8, 99u8, 116u8]
    } else if m == 11 {
        seq![78u8, 111u8, 118u8]
    } else {
        seq![68u8, 101u8, 99u8]
    }
}

/// The civil date of a day count since the epoch: year, month, day.
pub open spec fn spec_civil(days: int) -> (int, int, int) {
    let z = days + 719468;
    let era = z / 146097;
    let doe = z % 146097;
    let yoe = (doe - doe / 1460 + doe / 36524 - doe / 146096) / 365;
    let doy = doe - (365 * yoe + yoe / 4 - yoe / 100);
    let mp = (5 * doy + 2) / 153;
    let d_off = (153 * mp + 2) / 5;
    let d = if doy >= d_off {
        doy - d_off + 1
    } else {
        1
    };
    let m = if mp < 10 {
        mp + 3
    } else {
        mp - 9
    };
    let bump: int = if m <= 2 {
        1
    } else {
        0
    };
    let y = yoe + era * 400 + bump;
    (y, m, d)
}

/// The RFC 1123 rendering, `Day, DD Mon YYYY HH:MM:SS GMT`.
pub open spec fn spec_http_date(secs: int) -> Seq<u8> {
    let days = secs / 86400;
    let sod = secs % 86400;
    let ymd = spec_civil(days);
    weekday_name((days + 4) % 7) + seq![44u8, 32u8] + two_dig(ymd.2) + seq![32u8] + month_name(
        ymd.1,
    ) + seq![32u8] + four_dig(ymd.0) + seq![32u8] + two_dig(sod / 3600) + seq![58u8] + two_dig(
        (sod % 3600) / 60,
    ) + seq![58u8] + two_dig(sod % 60) + seq![32u8, 71u8, 77u8, 84u8]
}

/// Appends a two-digit number.
fn push_two_dig(out: &mut Vec<u8>, n: u64)
    requires
        n < 100,
    ensures
        final(out)@ == old(out)@ + two_dig(n as int),
{
    out.push(48 + (n / 10) as u8);
    out.push(48 + (n % 10) as u8);
    proof {
        assert(final(out)@ =~= old(out)@ + two_dig(n as int));
    }
}

/// The year, month, day, and weekday of a day count.
fn civil_parts(days: u64) -> (r: (u64, u64, u64))
    requires
        days <= 2932896,
    ensures
        spec_civil(days as int) == (r.0 as int, r.1 as int, r.2 as int),
        r.0 <= 9999,
        1 <= r.1 <= 12,
        r.2 < 100,
{
    let z = days + 719468;
    let era = z / 146097;
    let doe = z % 146097;
    let yoe = (doe - doe / 1460 + doe / 36524 - doe / 146096) / 365;
    let doy = doe - (365 * yoe + yoe / 4 - yoe / 100);
    let mp = (5 * doy + 2) / 153;
    let d_off = (153 * mp + 2) / 5;
    let d = if doy >= d_off {
        doy - d_off + 1
    } else {
        1
    };
    let m = if mp < 10 {
        mp + 3
    } else {
        mp - 9
    };
    let bump: u64 = if m <= 2 {
        1
    } else {
        0
    };
    let y = yoe + era * 400 + bump;
    proof {
        assert(d < 100) by {
            assert(d_off <= 5 * doy + 2);
        }
    }
    (y, m, d)
}

/// Appends a weekday name, Sunday as zero.
fn push_weekday(out: &mut Vec<u8>, wd: u64)
    ensures
        final(out)@ == old(out)@ + weekday_name(wd as int),
{
    let ghost p = out@;
    if wd == 0 {
        out.push(83u8);
        out.push(117u8);
        out.push(110u8);
    } else if wd == 1 {
        out.push(77u8);
        out.push(111u8);
        out.push(110u8);
    } else if wd == 2 {
        out.push(84u8);
        out.push(117u8);
        out.push(101u8);
    } else if wd == 3 {
        out.push(87u8);
        out.push(101u8);
        out.push(100u8);
    } else if wd == 4 {
        out.push(84u8);
        out.push(104u8);
        out.push(117u8);
    } else if wd == 5 {
        out.push(70u8);
        out.push(114u8);
        out.push(105u8);
    } else {
        out.push(83u8);
        out.push(97u8);
        out.push(116u8);
    }
    proof {
        assert(out@ =~= p + weekday_name(wd as int));
    }
}

/// Appends a month name, January as one.
fn push_month(out: &mut Vec<u8>, m: u64)
    ensures
        final(out)@ == old(out)@ + month_name(m as int),
{
    let ghost p = out@;
    if m == 1 {
        out.push(74u8);
        out.push(97u8);
        out.push(110u8);
    } else if m == 2 {
        out.push(70u8);
        out.push(101u8);
        out.push(98u8);
    } else if m == 3 {
        out.push(77u8);
        out.push(97u8);
        out.push(114u8);
    } else if m == 4 {
        out.push(65u8);
        out.push(112u8);
        out.push(114u8);
    } else if m == 5 {
        out.push(77u8);
        out.push(97u8);
        out.push(121u8);
    } else if m == 6 {
        out.push(74u8);
        out.push(117u8);
        out.push(110u8);
    } else if m == 7 {
        out.push(74u8);
        out.push(117u8);
        out.push(108u8);
    } else if m == 8 {
        out.push(65u8);
        out.push(117u8);
        out.push(103u8);
    } else if m == 9 {
        out.push(83u8);
        out.push(101u8);
        out.push(112u8);
    } else if m == 10 {
        out.push(79u8);
        out.push(99u8);
        out.push(116u8);
    } else if m == 11 {
        out.push(78u8);
        out.push(111u8);
        out.push(118u8);
    } else {
        out.push(68u8);
        out.push(101u8);
        out.push(99u8);
    }
    proof {
        assert(out@ =~= p + month_name(m as int));
    }
}

/// Appends four year digits.
fn push_four_dig(out: &mut Vec<u8>, n: u64)
    requires
        n <= 9999,
    ensures
        final(out)@ == old(out)@ + four_dig(n as int),
{
    out.push(48 + (n / 1000) as u8);
    out.push(48 + ((n / 100) % 10) as u8);
    out.push(48 + ((n / 10) % 10) as u8);
    out.push(48 + (n % 10) as u8);
    proof {
        assert(final(out)@ =~= old(out)@ + four_dig(n as int));
    }
}

/// Renders the date for a `Date` header.
#[verifier::rlimit(100)]
pub fn http_date(secs: u64) -> (r: Vec<u8>)
    requires
        secs <= MAX_DATE_SECS,
    ensures
        r@ == spec_http_date(secs as int),
{
    let days = secs / 86400;
    let sod = secs % 86400;
    let ymd = civil_parts(days);
    let wd = (days + 4) % 7;

    let mut out: Vec<u8> = Vec::new();
    push_weekday(&mut out, wd);
    out.push(44u8);
    out.push(32u8);
    push_two_dig(&mut out, ymd.2);
    out.push(32u8);
    push_month(&mut out, ymd.1);
    out.push(32u8);
    push_four_dig(&mut out, ymd.0);
    out.push(32u8);
    push_two_dig(&mut out, sod / 3600);
    out.push(58u8);
    push_two_dig(&mut out, (sod % 3600) / 60);
    out.push(58u8);
    push_two_dig(&mut out, sod % 60);
    out.push(32u8);
    out.push(71u8);
    out.push(77u8);
    out.push(84u8);
    proof {
        assert(out@ =~= spec_http_date(secs as int));
    }
    out
}

} // verus!
