use vstd::prelude::*;

use chrono::{Datelike, TimeZone};

use crate::text::string_from_chars;

verus! {

/// Relies on chrono's `Local.timestamp_opt` and `Datelike`: the year, month (1 to 12) and day
/// of the month (1 to 31) of `timestamp` in the machine's time zone; `None` for a timestamp
/// that chrono cannot represent. The date depends on the machine's time zone.
/// Within about 250,000 years of 1970 chrono always dates the timestamp: `from_timestamp`
/// accepts it, and the conversion to local time then has a single result.
#[verifier::external_body]
fn local_date(timestamp: i64) -> (r: Option<(i64, i64, i64)>)
    ensures
        r matches Some(d) ==> 1 <= d.1 <= 12 && 1 <= d.2 <= 31,
        datable(timestamp) ==> r is Some,
{
    chrono::Local.timestamp_opt(timestamp, 0).single().map(
        |d| (d.year() as i64, d.month() as i64, d.day() as i64),
    )
}

/// The timestamps that chrono dates without fail: those within 8 * 10^12 seconds (about
/// 253,000 years) of 1970.
pub open spec fn datable(t: i64) -> bool {
    -8_000_000_000_000 <= t <= 8_000_000_000_000
}

pub const MINUTE: i64 = 60;

pub const HOUR: i64 = 3600;

pub const DAY: i64 = 86400;

/// How long ago something happened, in the coarsest unit that still reads naturally.
#[derive(Debug, PartialEq, Eq, Structural)]
pub enum RecognizableDateTime {
    Now,
    SecondsAgo(i64),
    MinutesAgo(i64),
    HoursAgo(i64),
    DaysAgo(i64),
    MonthDay(i64, i64),
    YearMonthDay(i64, i64, i64),
}

/// The description of something `elapsed` seconds old, dated `year`-`month`-`day`: under a
/// second is now; then seconds, minutes and hours up to a day; days up to a week; the month and
/// day up to 330 days; the full date after that.
pub open spec fn describe(elapsed: int, year: i64, month: i64, day: i64) -> RecognizableDateTime {
    if elapsed < 1 {
        RecognizableDateTime::Now
    } else if elapsed < MINUTE {
        RecognizableDateTime::SecondsAgo(elapsed as i64)
    } else if elapsed < HOUR {
        RecognizableDateTime::MinutesAgo((elapsed / MINUTE as int) as i64)
    } else if elapsed < DAY {
        RecognizableDateTime::HoursAgo((elapsed / HOUR as int) as i64)
    } else if elapsed < 7 * DAY {
        RecognizableDateTime::DaysAgo((elapsed / DAY as int) as i64)
    } else if elapsed < 330 * DAY {
        RecognizableDateTime::MonthDay(month, day)
    } else {
        RecognizableDateTime::YearMonthDay(year, month, day)
    }
}

impl RecognizableDateTime {
    /// The description of something `elapsed` seconds old whose local date is
    /// `year`-`month`-`day`.
    pub fn of_elapsed(elapsed: i64, year: i64, month: i64, day: i64) -> (r: RecognizableDateTime)
        ensures
            r == describe(elapsed as int, year, month, day),
    {
        if elapsed < 1 {
            RecognizableDateTime::Now
        } else if elapsed < MINUTE {
            RecognizableDateTime::SecondsAgo(elapsed)
        } else if elapsed < HOUR {
            RecognizableDateTime::MinutesAgo(elapsed / MINUTE)
        } else if elapsed < DAY {
            RecognizableDateTime::HoursAgo(elapsed / HOUR)
        } else if elapsed < 7 * DAY {
            RecognizableDateTime::DaysAgo(elapsed / DAY)
        } else if elapsed < 330 * DAY {
            RecognizableDateTime::MonthDay(month, day)
        } else {
            RecognizableDateTime::YearMonthDay(year, month, day)
        }
    }

    /// The description of the moment `datetime` seen at `now` (both in seconds since the Unix
    /// epoch); `None` only when chrono cannot date `datetime`.
    pub fn of(datetime: i64, now: i64) -> (r: Option<RecognizableDateTime>)
        ensures
            datable(datetime) ==> r is Some,
            r matches Some(d) ==> exists|year: i64, month: i64, day: i64|
                1 <= month <= 12 && 1 <= day <= 31 && d == #[trigger] describe(
                    clamp(now - datetime),
                    year,
                    month,
                    day,
                ),
    {
        let diff: i128 = now as i128 - datetime as i128;
        let elapsed: i64 = if diff > i64::MAX as i128 {
            i64::MAX
        } else if diff < i64::MIN as i128 {
            i64::MIN
        } else {
            diff as i64
        };
        match local_date(datetime) {
            Some((year, month, day)) => {
                let d = RecognizableDateTime::of_elapsed(elapsed, year, month, day);
                assert(elapsed as int == clamp(now - datetime));
                assert(d == describe(clamp(now - datetime), year, month, day));
                Some(d)
            },
            None => None,
        }
    }

    /// The description as the site shows it.
    pub fn string(&self) -> (r: String)
        ensures
            r@ == shown(*self),
    {
        let mut cs: Vec<char> = Vec::new();
        match self {
            RecognizableDateTime::Now => {
                cs.push('今');
            },
            RecognizableDateTime::SecondsAgo(n) => {
                push_number(*n, 0, &mut cs);
                cs.push('秒');
                cs.push('前');
            },
            RecognizableDateTime::MinutesAgo(n) => {
                push_number(*n, 0, &mut cs);
                cs.push('分');
                cs.push('前');
            },
            RecognizableDateTime::HoursAgo(n) => {
                push_number(*n, 0, &mut cs);
                cs.push('時');
                cs.push('間');
                cs.push('前');
            },
            RecognizableDateTime::DaysAgo(n) => {
                push_number(*n, 0, &mut cs);
                cs.push('日');
                cs.push('前');
            },
            RecognizableDateTime::MonthDay(m, d) => {
                push_number(*m, 2, &mut cs);
                cs.push('/');
                push_number(*d, 2, &mut cs);
            },
            RecognizableDateTime::YearMonthDay(y, m, d) => {
                push_number(*y, 4, &mut cs);
                cs.push('/');
                push_number(*m, 2, &mut cs);
                cs.push('/');
                push_number(*d, 2, &mut cs);
            },
        }
        string_from_chars(&cs)
    }
}

/// How long ago `datetime` was, as the site shows it; `None` when chrono cannot date it or the
/// clock cannot be read.
pub fn recognizable_datetime(datetime: i64) -> (r: Option<String>)
    ensures
        r matches Some(s) ==> exists|now: i64, year: i64, month: i64, day: i64|
            1 <= month <= 12 && 1 <= day <= 31 && s@ == #[trigger] shown(
                describe(clamp(now - datetime), year, month, day),
            ),
{
    let now = match crate::clock::now_timestamp() {
        Some(now) => now,
        None => {
            return None;
        },
    };
    match RecognizableDateTime::of(datetime, now) {
        Some(d) => {
            let s = d.string();
            proof {
                let (year, month, day) = choose|year: i64, month: i64, day: i64|
                    1 <= month <= 12 && 1 <= day <= 31 && d == #[trigger] describe(
                        clamp(now - datetime),
                        year,
                        month,
                        day,
                    );
                assert(s@ == shown(describe(clamp(now - datetime), year, month, day)));
            }
            Some(s)
        },
        None => None,
    }
}

/// `x` brought into the range of `i64`.
pub open spec fn clamp(x: int) -> int {
    if x > i64::MAX {
        i64::MAX as int
    } else if x < i64::MIN {
        i64::MIN as int
    } else {
        x
    }
}

/// The decimal digit for `d`, from 0 to 9.
pub open spec fn digit(d: int) -> char {
    if d == 0 {
        '0'
    } else if d == 1 {
        '1'
    } else if d == 2 {
        '2'
    } else if d == 3 {
        '3'
    } else if d == 4 {
        '4'
    } else if d == 5 {
        '5'
    } else if d == 6 {
        '6'
    } else if d == 7 {
        '7'
    } else if d == 8 {
        '8'
    } else {
        '9'
    }
}

/// The decimal digits of `n`.
pub open spec fn digits(n: nat) -> Seq<char>
    decreases n,
{
    if n < 10 {
        seq![digit(n as int)]
    } else {
        digits(n / 10).push(digit((n % 10) as int))
    }
}

/// `k` zeros, none when `k` is not positive.
pub open spec fn zeros(k: int) -> Seq<char> {
    Seq::new(if k > 0 { k as nat } else { 0 }, |i: int| '0')
}

/// `n` in decimal, its digits padded with zeros to at least `width` characters, the sign
/// included, as `format!("{:0width$}", n)` writes it.
pub open spec fn decimal(n: int, width: int) -> Seq<char> {
    if n >= 0 {
        zeros(width - digits(n as nat).len()) + digits(n as nat)
    } else {
        seq!['-'] + zeros(width - 1 - digits((-n) as nat).len()) + digits((-n) as nat)
    }
}

/// The text that the site shows for a description.
pub open spec fn shown(d: RecognizableDateTime) -> Seq<char> {
    match d {
        RecognizableDateTime::Now => seq!['今'],
        RecognizableDateTime::SecondsAgo(n) => decimal(n as int, 0) + seq!['秒', '前'],
        RecognizableDateTime::MinutesAgo(n) => decimal(n as int, 0) + seq!['分', '前'],
        RecognizableDateTime::HoursAgo(n) => decimal(n as int, 0) + seq!['時', '間', '前'],
        RecognizableDateTime::DaysAgo(n) => decimal(n as int, 0) + seq!['日', '前'],
        RecognizableDateTime::MonthDay(m, d) => decimal(m as int, 2) + seq!['/'] + decimal(
            d as int,
            2,
        ),
        RecognizableDateTime::YearMonthDay(y, m, d) => decimal(y as int, 4) + seq!['/'] + decimal(
            m as int,
            2,
        ) + seq!['/'] + decimal(d as int, 2),
    }
}

fn digit_char(d: u64) -> (r: char)
    requires
        d < 10,
    ensures
        r == digit(d as int),
{
    if d == 0 {
        '0'
    } else if d == 1 {
        '1'
    } else if d == 2 {
        '2'
    } else if d == 3 {
        '3'
    } else if d == 4 {
        '4'
    } else if d == 5 {
        '5'
    } else if d == 6 {
        '6'
    } else if d == 7 {
        '7'
    } else if d == 8 {
        '8'
    } else {
        '9'
    }
}

fn push_digits(n: u64, out: &mut Vec<char>)
    ensures
        final(out)@ == old(out)@ + digits(n as nat),
    decreases n,
{
    if n >= 10 {
        push_digits(n / 10, out);
    }
    out.push(digit_char(n % 10));
    assert(final(out)@ =~= old(out)@ + digits(n as nat));
}

/// Appends `n` in decimal, padded with zeros to `width` characters.
pub(crate) fn push_number(n: i64, width: u64, out: &mut Vec<char>)
    requires
        width <= 4,
    ensures
        final(out)@ == old(out)@ + decimal(n as int, width as int),
{
    let magnitude: u64 = if n >= 0 {
        n as u64
    } else {
        (-(n as i128)) as u64
    };
    let mut scratch: Vec<char> = Vec::new();
    push_digits(magnitude, &mut scratch);
    assert(scratch@ =~= digits(magnitude as nat));
    if n < 0 {
        out.push('-');
    }
    let sign: u64 = if n < 0 {
        1
    } else {
        0
    };
    let mut pad: u64 = 0;
    let ghost len = scratch@.len() as int;
    let ghost before = out@;
    while pad + sign < width && (scratch.len() as u64) < width - pad - sign
        invariant
            width <= 4,
            sign <= 1,
            len == scratch@.len(),
            pad + sign + len <= width || pad == 0,
            pad <= width,
            out@ == before + zeros(pad as int),
        decreases width - pad,
    {
        out.push('0');
        assert(out@ =~= before + zeros(pad + 1));
        pad = pad + 1;
    }
    let mut k: usize = 0;
    while k < scratch.len()
        invariant
            k <= scratch@.len(),
            out@ == before + zeros(pad as int) + scratch@.subrange(0, k as int),
        decreases scratch@.len() - k,
    {
        out.push(scratch[k]);
        assert(out@ =~= before + zeros(pad as int) + scratch@.subrange(0, k + 1));
        k = k + 1;
    }
    assert(scratch@.subrange(0, k as int) =~= scratch@);
    assert(zeros(pad as int) =~= zeros(width - sign - scratch@.len()));
    assert(final(out)@ =~= old(out)@ + decimal(n as int, width as int));
}

} // verus!
