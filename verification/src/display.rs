//! Human-readable durations and timestamps.
use vstd::prelude::*;
use crate::text::{decimal, from_chars, push_decimal};
use crate::timestamp::Timestamp;

verus! {

/// `3725` seconds read `1h 2m 5s`, `65` read `1m 5s`, `5` read `5s`; leading
/// zero units are left out and negative durations read as zero.
pub open spec fn duration_text(total_seconds: int) -> Seq<char> {
    let t = if total_seconds < 0 {
        0
    } else {
        total_seconds
    };
    let hours = t / 3600;
    let minutes = (t % 3600) / 60;
    let seconds = t % 60;
    if hours > 0 {
        decimal(hours as nat) + "h "@ + decimal(minutes as nat) + "m "@ + decimal(seconds as nat)
            + "s"@
    } else if minutes > 0 {
        decimal(minutes as nat) + "m "@ + decimal(seconds as nat) + "s"@
    } else {
        decimal(seconds as nat) + "s"@
    }
}

pub fn format_duration(total_seconds: i64) -> (r: String)
    ensures
        r@ == duration_text(total_seconds as int),
{
    let t: u64 = if total_seconds < 0 {
        0
    } else {
        total_seconds as u64
    };
    let hours = t / 3600;
    let minutes = (t % 3600) / 60;
    let seconds = t % 60;
    proof {
        reveal_strlit("h ");
        reveal_strlit("m ");
        reveal_strlit("s");
    }
    let mut out: Vec<char> = Vec::new();
    if hours > 0 {
        push_decimal(&mut out, hours);
        out.push('h');
        out.push(' ');
    }
    if hours > 0 || minutes > 0 {
        push_decimal(&mut out, minutes);
        out.push('m');
        out.push(' ');
    }
    push_decimal(&mut out, seconds);
    out.push('s');
    assert(out@ =~= duration_text(total_seconds as int));
    from_chars(out.as_slice())
}

/// A calendar date (proleptic Gregorian) and a time of day, to the second.
#[derive(Debug, Clone, Copy, PartialEq, Eq, Structural)]
pub struct CivilDateTime {
    pub year: i32,
    pub month: u8,
    pub day: u8,
    pub hour: u8,
    pub minute: u8,
    pub second: u8,
}

/// The calendar date and time of day of the instant `unix_seconds` seconds
/// after the Unix epoch, seen at a UTC offset of `offset_seconds`, as the
/// `time` crate computes them; `None` where the crate cannot represent the
/// offset or the resulting date.
pub uninterp spec fn civil_at(unix_seconds: int, offset_seconds: int) -> Option<CivilDateTime>;

/// Calls `time::UtcOffset::from_whole_seconds`,
/// `time::OffsetDateTime::from_unix_timestamp` and
/// `OffsetDateTime::checked_to_offset`, and reads the calendar fields of the
/// result. Claimed: the result is `civil_at` of the arguments, an error or a
/// `None` of the crate gives `None`, and each field lies in the range that the
/// crate documents for it.
#[verifier::external_body]
fn civil_date_time(unix_seconds: i64, offset_seconds: i32) -> (r: Option<CivilDateTime>)
    ensures
        r == civil_at(unix_seconds as int, offset_seconds as int),
        r matches Some(c) ==> 1 <= c.month <= 12 && 1 <= c.day <= 31 && c.hour <= 23 && c.minute
            <= 59 && c.second <= 59,
{
    let offset = time::UtcOffset::from_whole_seconds(offset_seconds).ok()?;
    let local = time::OffsetDateTime::from_unix_timestamp(unix_seconds).ok()?.checked_to_offset(offset)?;
    Some(CivilDateTime {
        year: local.year(),
        month: u8::from(local.month()),
        day: local.day(),
        hour: local.hour(),
        minute: local.minute(),
        second: local.second(),
    })
}

/// `n` in decimal, with zeros in front up to `width` characters.
pub open spec fn padded(n: nat, width: nat) -> Seq<char> {
    let digits = decimal(n);
    let zeros: nat = if width > digits.len() {
        (width - digits.len()) as nat
    } else {
        0
    };
    Seq::new(zeros, |_i: int| '0') + digits
}

/// A year as `[year]` writes it: four digits at least, a `-` before a year
/// before year zero and a `+` before a year past 9999.
pub open spec fn year_text(year: int) -> Seq<char> {
    if year < 0 {
        "-"@ + padded((-year) as nat, 4)
    } else if year >= 10000 {
        "+"@ + padded(year as nat, 4)
    } else {
        padded(year as nat, 4)
    }
}

/// `YYYY-MM-DD HH:MM:SS`.
pub open spec fn civil_text(c: CivilDateTime) -> Seq<char> {
    year_text(c.year as int) + "-"@ + padded(c.month as nat, 2) + "-"@ + padded(c.day as nat, 2)
        + " "@ + padded(c.hour as nat, 2) + ":"@ + padded(c.minute as nat, 2) + ":"@ + padded(
        c.second as nat,
        2,
    )
}

/// An integer in decimal, with a `-` in front when it is negative.
pub open spec fn signed_decimal(i: int) -> Seq<char> {
    if i < 0 {
        "-"@ + decimal((-i) as nat)
    } else {
        decimal(i as nat)
    }
}

/// How a timestamp is shown: its date and time of day at the offset it
/// carries, fractions of a second left out; the Unix time in seconds where
/// the date cannot be had.
pub open spec fn timestamp_text(t: Timestamp) -> Seq<char> {
    match civil_at(t.spec_unix_seconds(), t.spec_offset_seconds()) {
        Some(c) => civil_text(c),
        None => signed_decimal(t.spec_unix_seconds()),
    }
}

fn push_padded(out: &mut Vec<char>, n: u64, width: usize)
    ensures
        final(out)@ == old(out)@ + padded(n as nat, width as nat),
{
    let mut digits: Vec<char> = Vec::new();
    push_decimal(&mut digits, n);
    assert(digits@ =~= decimal(n as nat));
    let len = digits.len();
    let zeros: usize = if width > len {
        width - len
    } else {
        0
    };
    let mut pad: Vec<char> = Vec::new();
    while pad.len() < zeros
        invariant
            pad.len() <= zeros,
            pad@ =~= Seq::new(pad.len() as nat, |_i: int| '0'),
        decreases zeros - pad.len(),
    {
        pad.push('0');
    }
    let ghost pre = out@;
    out.append(&mut pad);
    out.append(&mut digits);
    assert(out@ =~= pre + padded(n as nat, width as nat));
}

/// Writes the date and time that the calendar gave, or else the Unix time.
pub fn date_time_text(civil: Option<CivilDateTime>, unix_seconds: i64) -> (r: String)
    ensures
        r@ == match civil {
            Some(c) => civil_text(c),
            None => signed_decimal(unix_seconds as int),
        },
{
    proof {
        reveal_strlit("-");
        reveal_strlit("+");
        reveal_strlit(" ");
        reveal_strlit(":");
    }
    let mut out: Vec<char> = Vec::new();
    match civil {
        Some(c) => {
            let year: i64 = c.year as i64;
            if year < 0 {
                out.push('-');
                push_padded(&mut out, (-year) as u64, 4);
            } else {
                if year >= 10000 {
                    out.push('+');
                }
                push_padded(&mut out, year as u64, 4);
            }
            out.push('-');
            push_padded(&mut out, c.month as u64, 2);
            out.push('-');
            push_padded(&mut out, c.day as u64, 2);
            out.push(' ');
            push_padded(&mut out, c.hour as u64, 2);
            out.push(':');
            push_padded(&mut out, c.minute as u64, 2);
            out.push(':');
            push_padded(&mut out, c.second as u64, 2);
            assert(out@ =~= civil_text(c));
        },
        None => {
            if unix_seconds < 0 {
                out.push('-');
                let magnitude: u64 = ((-(unix_seconds + 1)) as u64) + 1;
                push_decimal(&mut out, magnitude);
            } else {
                push_decimal(&mut out, unix_seconds as u64);
            }
            assert(out@ =~= signed_decimal(unix_seconds as int));
        },
    }
    from_chars(out.as_slice())
}

/// Shows a timestamp at the offset it carries, to the second.
pub fn format_timestamp_value(value: Timestamp) -> (r: String)
    ensures
        r@ == timestamp_text(value),
{
    let civil = civil_date_time(value.unix_seconds(), value.offset_seconds());
    date_time_text(civil, value.unix_seconds())
}

} // verus!
