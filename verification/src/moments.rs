//! Dates and times, read with chrono.
use crate::text::{decimal, law_numeral_stands_for_the_number, opt_text, value_of};
use vstd::prelude::*;
use vstd::string::*;

verus! {

// ---- the calendar -----------------------------------------------------------

pub open spec fn is_leap(year: int) -> bool {
    year % 4 == 0 && (year % 100 != 0 || year % 400 == 0)
}

pub open spec fn days_in(year: int, month: int) -> int {
    if month == 2 {
        if is_leap(year) {
            29
        } else {
            28
        }
    } else if month == 4 || month == 6 || month == 9 || month == 11 {
        30
    } else {
        31
    }
}

/// A day of the Gregorian calendar, in a year that chrono can hold.
pub open spec fn real_date(year: int, month: int, day: int) -> bool {
    &&& -262143 <= year <= 262142
    &&& 1 <= month <= 12
    &&& 1 <= day <= days_in(year, month)
}

/// The numeral of `n`, filled up with zeros to at least `width` digits.
pub open spec fn zero_padded(n: nat, width: nat) -> Seq<char> {
    let digits = decimal(n);
    if digits.len() < width {
        Seq::new((width - digits.len()) as nat, |i: int| '0') + digits
    } else {
        digits
    }
}

/// A year in four digits, with a sign where it has more or is negative.
pub open spec fn year_text(year: int) -> Seq<char> {
    if 0 <= year <= 9999 {
        zero_padded(year as nat, 4)
    } else if year < 0 {
        "-"@ + zero_padded((-year) as nat, 4)
    } else {
        "+"@ + zero_padded(year as nat, 4)
    }
}

/// `YYYY-MM-DD`.
pub open spec fn date_text(year: int, month: int, day: int) -> Seq<char> {
    year_text(year) + "-"@ + zero_padded(month as nat, 2) + "-"@ + zero_padded(day as nat, 2)
}

/// `HH:MM:SS.mmm`.
pub open spec fn clock_text(hour: int, minute: int, second: int, milli: int) -> Seq<char> {
    zero_padded(hour as nat, 2) + ":"@ + zero_padded(minute as nat, 2) + ":"@ + zero_padded(
        second as nat,
        2,
    ) + "."@ + zero_padded(milli as nat, 3)
}

proof fn lemma_digits(n: nat)
    ensures
        forall|i: int| 0 <= i < decimal(n).len() ==> '0' <= #[trigger] decimal(n)[i] <= '9',
    decreases n,
{
    if n >= 10 {
        let head = decimal(n / 10);
        lemma_digits(n / 10);
        assert forall|i: int| 0 <= i < decimal(n).len() implies '0' <= #[trigger] decimal(n)[i]
            <= '9' by {
            if i < head.len() {
                assert(decimal(n)[i] == head[i]);
            }
        }
    }
}

proof fn lemma_zero_padded(n: nat, width: nat)
    requires
        width == 2 && n < 100 || width == 4 && n < 10000,
    ensures
        zero_padded(n, width).len() == width,
        forall|i: int|
            0 <= i < width ==> '0' <= #[trigger] zero_padded(n, width)[i] <= '9',
{
    reveal_with_fuel(decimal, 4);
    lemma_digits(n);
}

/// A date with a year of four digits is written in ten characters, digits but
/// for a hyphen behind the year and another one behind the month.
pub proof fn lemma_date_text(year: int, month: int, day: int)
    requires
        0 <= year <= 9999,
        0 <= month <= 99,
        0 <= day <= 99,
    ensures
        date_text(year, month, day).len() == 10,
        date_text(year, month, day)[4] == '-',
        date_text(year, month, day)[7] == '-',
        forall|i: int|
            0 <= i < 10 && i != 4 && i != 7 ==> '0' <= #[trigger] date_text(year, month, day)[i]
                <= '9',
{
    reveal_strlit("-");
    lemma_zero_padded(year as nat, 4);
    lemma_zero_padded(month as nat, 2);
    lemma_zero_padded(day as nat, 2);
    let (y, m, d) = (
        zero_padded(year as nat, 4),
        zero_padded(month as nat, 2),
        zero_padded(day as nat, 2),
    );
    let text = date_text(year, month, day);
    assert forall|i: int| 0 <= i < 10 && i != 4 && i != 7 implies '0' <= #[trigger] text[i]
        <= '9' by {
        if i < 4 {
            assert(text[i] == y[i]);
        } else if i < 7 {
            assert(text[i] == m[i - 5]);
        } else {
            assert(text[i] == d[i - 8]);
        }
    }
}

/// A numeral is no shorter than it is filled up to, and starts with a digit.
proof fn lemma_padded_start(n: nat, width: nat)
    ensures
        zero_padded(n, width).len() >= width,
        zero_padded(n, width).len() > 0,
        '0' <= zero_padded(n, width)[0] <= '9',
{
    lemma_digits(n);
    assert(decimal(n).len() > 0) by {
        reveal_with_fuel(decimal, 2);
    }
    assert('0' <= decimal(n)[0] <= '9');
}

/// A date with a time behind it is longer than a date and starts with a digit or
/// a sign.
pub proof fn lemma_stamp(year: int, month: int, day: int, rest: Seq<char>)
    ensures
        (date_text(year, month, day) + rest).len() >= 10 + rest.len(),
        ({
            let c = (date_text(year, month, day) + rest)[0];
            '0' <= c <= '9' || c == '+' || c == '-'
        }),
{
    reveal_strlit("-");
    reveal_strlit("+");
    lemma_padded_start(year as nat, 4);
    lemma_padded_start((-year) as nat, 4);
    lemma_padded_start(month as nat, 2);
    lemma_padded_start(day as nat, 2);
}

/// The date that chrono reads from a text under a `strftime` format, or why it
/// reads none.
pub uninterp spec fn date_of(text: Seq<char>, format: Seq<char>) -> Result<
    (i32, u32, u32),
    Seq<char>,
>;

/// `chrono::NaiveDate::parse_from_str`, and the year, month and day of what it
/// read; an error is kept by its message. The contract claims that the answer,
/// message and all, depends on the text and the format alone, that a date that was
/// read is a real one, and that under `%Y-%m-%d` a text of four, two and two digits
/// is read as the date it writes, if that is a real one, and as none otherwise.
#[verifier::external_body]
pub(crate) fn parse_date(text: &str, format: &str) -> (r: Result<(i32, u32, u32), String>)
    ensures
        match r {
            Ok(d) => date_of(text@, format@) == Ok::<(i32, u32, u32), Seq<char>>(d),
            Err(e) => date_of(text@, format@) == Err::<(i32, u32, u32), Seq<char>>(e@),
        },
        r matches Ok(d) ==> real_date(d.0 as int, d.1 as int, d.2 as int),
        forall|year: i32, month: u32, day: u32|
            format@ == "%Y-%m-%d"@ && 0 <= year <= 9999 && month <= 99 && day <= 99 && text@
                == #[trigger] date_text(year as int, month as int, day as int) ==> if real_date(
                year as int,
                month as int,
                day as int,
            ) {
                r == Ok::<(i32, u32, u32), String>((year, month, day))
            } else {
                r is Err
            },
{
    let date = chrono::NaiveDate::parse_from_str(text, format).map_err(|e| e.to_string())?;
    Ok((
        chrono::Datelike::year(&date),
        chrono::Datelike::month(&date),
        chrono::Datelike::day(&date),
    ))
}

/// `chrono::DateTime::to_rfc3339_opts` on a time in UTC, with milliseconds and
/// `Z`. The contract claims the text that it writes.
#[verifier::external_body]
pub(crate) fn utc_text(date: (i32, u32, u32), time: (u32, u32, u32, u32)) -> (r: String)
    requires
        real_date(date.0 as int, date.1 as int, date.2 as int),
        time.0 < 24,
        time.1 < 60,
        time.2 < 60,
        time.3 < 1000,
    ensures
        r@ == date_text(date.0 as int, date.1 as int, date.2 as int) + "T"@ + clock_text(
            time.0 as int,
            time.1 as int,
            time.2 as int,
            time.3 as int,
        ) + "Z"@,
{
    let day = chrono::NaiveDate::from_ymd_opt(date.0, date.1, date.2).unwrap();
    let moment = day.and_hms_milli_opt(time.0, time.1, time.2, time.3).unwrap();
    moment.and_utc().to_rfc3339_opts(chrono::SecondsFormat::Millis, true)
}

// ---- Unix seconds -----------------------------------------------------------

/// The Unix second that an RFC 3339 date and time names, as chrono reads it.
pub uninterp spec fn rfc3339_seconds_of(text: Seq<char>) -> Option<i64>;

/// The Unix second of a date and time without a zone, taken as UTC, as chrono
/// reads it under a `strftime` format.
pub uninterp spec fn naive_seconds_of(text: Seq<char>, format: Seq<char>) -> Option<i64>;

/// `chrono::DateTime::parse_from_rfc3339`, then the timestamp of what it read.
/// The contract claims that the answer depends on the text alone.
#[verifier::external_body]
fn rfc3339_seconds(text: &str) -> (r: Option<i64>)
    ensures
        r == rfc3339_seconds_of(text@),
{
    chrono::DateTime::parse_from_rfc3339(text).ok().map(|t| t.timestamp())
}

/// `chrono::NaiveDateTime::parse_from_str`, then the timestamp of what it read
/// in UTC. The contract claims that the answer depends on the text and the
/// format alone.
#[verifier::external_body]
fn naive_seconds(text: &str, format: &str) -> (r: Option<i64>)
    ensures
        r == naive_seconds_of(text@, format@),
{
    chrono::NaiveDateTime::parse_from_str(text, format).ok().map(|t| t.and_utc().timestamp())
}

/// The first of three readings that succeeded.
pub open spec fn first_reading(
    zoned: Option<i64>,
    fractional: Option<i64>,
    whole: Option<i64>,
) -> Option<i64> {
    if zoned is Some {
        zoned
    } else if fractional is Some {
        fractional
    } else {
        whole
    }
}

/// The Unix second that `text` names: an RFC 3339 time, or else a time without
/// a zone, with a fraction of a second or without one.
pub open spec fn capture_seconds(text: Seq<char>) -> Option<i64> {
    first_reading(
        rfc3339_seconds_of(text),
        naive_seconds_of(text, "%Y-%m-%dT%H:%M:%S%.f"@),
        naive_seconds_of(text, "%Y-%m-%dT%H:%M:%S"@),
    )
}

/// Reads the shapes of time that the server writes, as UTC seconds. A time
/// without a zone counts as UTC.
pub fn parse_capture_seconds(s: &str) -> (r: Option<i64>)
    ensures
        r == capture_seconds(s@),
{
    if let Some(t) = rfc3339_seconds(s) {
        return Some(t);
    }
    if let Some(t) = naive_seconds(s, "%Y-%m-%dT%H:%M:%S%.f") {
        return Some(t);
    }
    naive_seconds(s, "%Y-%m-%dT%H:%M:%S")
}

// ---- other forms ------------------------------------------------------------

/// An RFC 3339 date and time in another form, as chrono writes it, where it is
/// one.
pub uninterp spec fn reformatted_of(text: Seq<char>, format: Seq<char>) -> Option<Seq<char>>;

/// `chrono::DateTime::parse_from_rfc3339`, then `format` with the given
/// `strftime` format. The contract claims that the answer depends on the text
/// and the format alone. A format that chrono does not know would panic, so
/// that only the one in use is let through.
#[verifier::external_body]
fn reformat(text: &str, format: &str) -> (r: Option<String>)
    requires
        format@ == "%Y-%m-%d %H:%M:%S"@,
    ensures
        opt_text(r) == reformatted_of(text@, format@),
{
    let moment = chrono::DateTime::parse_from_rfc3339(text).ok()?;
    Some(moment.format(format).to_string())
}

/// A local time in the form that people read; a text that is no time stays.
pub open spec fn readable_time(text: Seq<char>) -> Seq<char> {
    match reformatted_of(text, "%Y-%m-%d %H:%M:%S"@) {
        Some(t) => t,
        None => text,
    }
}

/// Writes a local time for people to read. The server sends it with a `Z`, but
/// it is the time on the clock where the photo was taken, so that the zone is
/// dropped.
pub fn humanize_naive_iso(text: &str) -> (r: String)
    ensures
        r@ == readable_time(text@),
{
    match reformat(text, "%Y-%m-%d %H:%M:%S") {
        Some(t) => t,
        None => text.to_owned(),
    }
}

/// A time with a zone is read as such; one without is read with a fraction of a second
/// first, and without one only where that fails.
pub proof fn law_how_times_are_read(text: Seq<char>, t: i64)
    ensures
        rfc3339_seconds_of(text) == Some(t) ==> capture_seconds(text) == Some(t),
        rfc3339_seconds_of(text) is None && naive_seconds_of(text, "%Y-%m-%dT%H:%M:%S%.f"@) == Some(
            t,
        ) ==> capture_seconds(text) == Some(t),
        rfc3339_seconds_of(text) is None && naive_seconds_of(text, "%Y-%m-%dT%H:%M:%S%.f"@) is None
            ==> capture_seconds(text) == naive_seconds_of(text, "%Y-%m-%dT%H:%M:%S"@),
{
}

/// A time is shown by its day and its clock, and a text that is no time as it is.
pub proof fn law_how_times_are_shown(text: Seq<char>, shown: Seq<char>)
    ensures
        reformatted_of(text, "%Y-%m-%d %H:%M:%S"@) == Some(shown) ==> readable_time(text) == shown,
        reformatted_of(text, "%Y-%m-%d %H:%M:%S"@) is None ==> readable_time(text) == text,
{
}

/// A date is written as its year, month and day, with hyphens between them.
pub proof fn law_dates_are_written(year: int, month: int, day: int)
    requires
        0 <= year <= 9999,
        0 <= month <= 99,
        0 <= day <= 99,
    ensures
        ({
            let text = date_text(year, month, day);
            &&& text.len() == 10
            &&& value_of(text.subrange(0, 4)) == year
            &&& text[4] == '-'
            &&& value_of(text.subrange(5, 7)) == month
            &&& text[7] == '-'
            &&& value_of(text.subrange(8, 10)) == day
        }),
{
    reveal_strlit("-");
    lemma_date_text(year, month, day);
    let text = date_text(year, month, day);
    lemma_padded_value(year as nat, 4);
    lemma_padded_value(month as nat, 2);
    lemma_padded_value(day as nat, 2);
    lemma_zero_padded(year as nat, 4);
    lemma_zero_padded(month as nat, 2);
    lemma_zero_padded(day as nat, 2);
    assert(text.subrange(0, 4) =~= zero_padded(year as nat, 4));
    assert(text.subrange(5, 7) =~= zero_padded(month as nat, 2));
    assert(text.subrange(8, 10) =~= zero_padded(day as nat, 2));
}

proof fn lemma_padded_value(n: nat, width: nat)
    ensures
        value_of(zero_padded(n, width)) == n,
{
    law_numeral_stands_for_the_number(n);
    let digits = decimal(n);
    if digits.len() < width {
        lemma_leading_zeros((width - digits.len()) as nat, digits);
    }
}

proof fn lemma_leading_zeros(k: nat, digits: Seq<char>)
    ensures
        value_of(Seq::new(k, |i: int| '0') + digits) == value_of(digits),
    decreases k + digits.len(),
{
    let zeros = Seq::new(k, |i: int| '0');
    let all = zeros + digits;
    if digits.len() > 0 {
        lemma_leading_zeros(k, digits.drop_last());
        assert(all.drop_last() =~= zeros + digits.drop_last());
        assert(all.last() == digits.last());
    } else if k > 0 {
        lemma_leading_zeros((k - 1) as nat, digits);
        assert(all.drop_last() =~= Seq::new((k - 1) as nat, |i: int| '0') + digits);
        assert(all.last() == '0');
    } else {
        assert(all =~= digits);
    }
}

/// Capture times and local times are read and shown as is said of them.
pub proof fn law_times_are_read_and_shown(text: &str, t: Option<i64>, shown: String)
    requires
        call_ensures(parse_capture_seconds, (text,), t),
        call_ensures(humanize_naive_iso, (text,), shown),
    ensures
        t == capture_seconds(text@),
        shown@ == readable_time(text@),
{
}

} // verus!
