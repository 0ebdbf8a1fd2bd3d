//! What a search is asked for.
use crate::error::Error;
use crate::moments::{
    clock_text, date_of, date_text, lemma_date_text, lemma_stamp, parse_date, real_date, utc_text,
};
use crate::text::{
    blank, is_blank, lemma_trim_empty, lemma_trim_twice, opt_text, trim, trimmed,
};
use vstd::prelude::*;
use vstd::string::*;
use vstd::utf8::{encode_utf8, is_ascii_chars, is_ascii_chars_encode_utf8};

verus! {

pub const DEFAULT_FILTER_LIMIT: u32 = 1000;

pub const DEFAULT_QUERY_LIMIT: u32 = 24;

/// The highest limit of a search with a query.
pub const MAX_QUERY_LIMIT: u32 = 48;

#[derive(Debug)]
pub struct SearchArgs {
    /// What to look for, in words.
    pub query: Option<String>,
    /// Search only the descriptions.
    pub description_only: bool,
    /// The earliest time: ISO 8601, or a day, which counts from its start.
    pub taken_after: Option<String>,
    /// The latest time: ISO 8601, or a day, which counts to its end.
    pub taken_before: Option<String>,
    /// A place, in words.
    pub place: Option<String>,
    /// Text that was recognised in the image.
    pub ocr: Option<String>,
    pub asset_type: Option<AssetTypeArg>,
    /// How many results at most.
    pub limit: Option<u32>,
    pub format: OutputFormat,
    /// Check that the local files exist; missing ones are reported.
    pub verify: bool,
    /// List missing files too.
    pub include_missing: bool,
    /// List assets without a local path too.
    pub include_unmapped: bool,
    /// Search the archive instead of the timeline.
    pub include_archived: bool,
    /// Do not hide the members of a stack behind its cover.
    pub include_stacked: bool,
    pub verbose: bool,
}

#[derive(Debug, Clone, Copy, PartialEq, Eq, Structural)]
pub enum AssetTypeArg {
    Image,
    Video,
    Audio,
    Other,
}

#[derive(Debug, Clone, Copy, PartialEq, Eq, Structural)]
pub enum OutputFormat {
    /// One local path per line.
    Paths,
    /// One JSON object per line.
    Json,
    /// A table of type, day, location and path.
    Table,
}

pub open spec fn api_name(t: AssetTypeArg) -> Seq<char> {
    match t {
        AssetTypeArg::Image => "IMAGE"@,
        AssetTypeArg::Video => "VIDEO"@,
        AssetTypeArg::Audio => "AUDIO"@,
        AssetTypeArg::Other => "OTHER"@,
    }
}

impl AssetTypeArg {
    pub fn as_api_str(self) -> (r: &'static str)
        ensures
            r@ == api_name(self),
    {
        match self {
            AssetTypeArg::Image => "IMAGE",
            AssetTypeArg::Video => "VIDEO",
            AssetTypeArg::Audio => "AUDIO",
            AssetTypeArg::Other => "OTHER",
        }
    }
}

// ---- blank flags ------------------------------------------------------------

/// There is a text, and it is not blank.
pub open spec fn is_set(text: Option<String>) -> bool {
    text is Some && !is_blank(text->0@)
}

pub fn non_blank(text: &Option<String>) -> (r: bool)
    ensures
        r == is_set(*text),
{
    match text {
        Some(s) => !blank(s.as_str()),
        None => false,
    }
}

/// The text as it is sent: trimmed, and not at all where it is blank.
pub open spec fn clean_text(text: Option<String>) -> Option<Seq<char>> {
    if is_set(text) {
        Some(trim(text->0@))
    } else {
        None
    }
}

pub fn cleaned(text: &Option<String>) -> (r: Option<String>)
    ensures
        opt_text(r) == clean_text(*text),
{
    match text {
        Some(s) => if blank(s.as_str()) {
            None
        } else {
            Some(trimmed(s.as_str()).to_owned())
        },
        None => None,
    }
}

impl SearchArgs {
    pub open spec fn filters(self) -> bool {
        ||| is_set(self.query)
        ||| is_set(self.taken_after)
        ||| is_set(self.taken_before)
        ||| is_set(self.place)
        ||| is_set(self.ocr)
        ||| self.asset_type is Some
    }

    /// Whether anything is filtered. A blank flag counts as if it were not
    /// given, so that it cannot be used to list the whole library.
    pub fn has_filter(&self) -> (r: bool)
        ensures
            r == self.filters(),
    {
        non_blank(&self.query) || non_blank(&self.taken_after) || non_blank(&self.taken_before)
            || non_blank(&self.place) || non_blank(&self.ocr) || self.asset_type.is_some()
    }

    pub open spec fn cap(self) -> u32 {
        match self.limit {
            Some(n) => n,
            None => if is_set(self.query) {
                DEFAULT_QUERY_LIMIT
            } else {
                DEFAULT_FILTER_LIMIT
            },
        }
    }

    /// How many results at most.
    pub fn effective_limit(&self) -> (r: u32)
        ensures
            r == self.cap(),
    {
        match self.limit {
            Some(n) => n,
            None => if non_blank(&self.query) {
                DEFAULT_QUERY_LIMIT
            } else {
                DEFAULT_FILTER_LIMIT
            },
        }
    }

    /// Why the arguments are refused, if they are.
    pub open spec fn refusal(self) -> Option<Error> {
        if self.limit == Some(0u32) {
            Some(Error::LimitZero)
        } else if !self.filters() {
            Some(Error::NoFilter)
        } else if is_set(self.query) && self.cap() > MAX_QUERY_LIMIT {
            Some(Error::QueryLimitTooHigh)
        } else {
            None
        }
    }

    pub fn validate(&self) -> (r: Result<(), Error>)
        ensures
            match r {
                Ok(_) => self.refusal() is None,
                Err(e) => self.refusal() == Some(e),
            },
    {
        if let Some(n) = self.limit {
            if n == 0 {
                return Err(Error::LimitZero);
            }
        }
        if !self.has_filter() {
            return Err(Error::NoFilter);
        }
        if non_blank(&self.query) && self.effective_limit() > MAX_QUERY_LIMIT {
            return Err(Error::QueryLimitTooHigh);
        }
        Ok(())
    }
}

/// A search that is not refused filters something and asks for at least one
/// result; with a query, for at most as many as a query may.
pub proof fn law_accepted_search_is_bounded(args: SearchArgs)
    requires
        args.refusal() is None,
    ensures
        args.filters(),
        args.cap() > 0,
        is_set(args.query) ==> args.cap() <= MAX_QUERY_LIMIT,
{
}

// ---- dates ------------------------------------------------------------------

/// A text that is taken for a day: ten bytes, with a hyphen after the year.
pub open spec fn looks_like_a_day(text: Seq<char>) -> bool {
    encode_utf8(text).len() == 10 && text.len() > 4 && text[4] == '-'
}

/// The hour, minute, second and millisecond that a day stands for.
pub open spec fn day_time(end_of_day: bool) -> Seq<char> {
    if end_of_day {
        clock_text(23, 59, 59, 999)
    } else {
        clock_text(0, 0, 0, 0)
    }
}

/// A date that is written with a year of four digits is taken for a day.
pub proof fn law_written_days_look_like_days(year: int, month: int, day: int)
    requires
        0 <= year <= 9999,
        0 <= month <= 99,
        0 <= day <= 99,
    ensures
        looks_like_a_day(date_text(year, month, day)),
{
    lemma_date_text(year, month, day);
    let text = date_text(year, month, day);
    assert(is_ascii_chars(text));
    is_ascii_chars_encode_utf8(text);
}

/// What a date filter that is not blank is sent as. A day becomes its first or
/// its last millisecond in UTC, and nothing where it is not in the calendar;
/// any other text is passed on.
pub open spec fn day_bound(text: Seq<char>, end_of_day: bool) -> Option<Seq<char>> {
    if looks_like_a_day(text) {
        match date_of(text, "%Y-%m-%d"@) {
            Ok(d) => Some(
                date_text(d.0 as int, d.1 as int, d.2 as int) + "T"@ + day_time(end_of_day) + "Z"@,
            ),
            Err(_) => None,
        }
    } else {
        Some(text)
    }
}

/// The complaint about a day that is not in the calendar.
pub open spec fn complains_of(e: Error, text: Seq<char>) -> bool {
    e matches Error::DateInvalid { date, cause } && date@ == text && date_of(text, "%Y-%m-%d"@)
        == Err::<(i32, u32, u32), Seq<char>>(cause@)
}

/// What normalizing a date filter comes to.
pub open spec fn normalized(input: Seq<char>, end_of_day: bool, r: Result<String, Error>) -> bool {
    if is_blank(input) {
        r == Err::<String, Error>(Error::DateEmpty)
    } else {
        match day_bound(trim(input), end_of_day) {
            Some(text) => r is Ok && r->Ok_0@ == text,
            None => r is Err && complains_of(r->Err_0, trim(input)),
        }
    }
}

/// A day that is written with a year of four digits is accepted exactly where
/// it is in the calendar, and the time is put behind it.
pub open spec fn written_day_expands(
    input: Seq<char>,
    end_of_day: bool,
    r: Result<String, Error>,
) -> bool {
    forall|year: i32, month: u32, day: u32|
        0 <= year <= 9999 && month <= 99 && day <= 99 && trim(input) == #[trigger] date_text(
            year as int,
            month as int,
            day as int,
        ) ==> (r is Ok <==> real_date(year as int, month as int, day as int)) && (r is Ok
            ==> r->Ok_0@ == trim(input) + "T"@ + day_time(end_of_day) + "Z"@)
}

proof fn lemma_encoding_is_no_shorter(s: Seq<char>)
    ensures
        encode_utf8(s).len() >= s.len(),
    decreases s.len(),
{
    if s.len() > 0 {
        lemma_encoding_is_no_shorter(s.drop_first());
    }
}

/// Normalizing a date that is normalized already changes nothing, whichever end of
/// the day it is taken for.
pub proof fn law_normalized_dates_stay(
    input: Seq<char>,
    end_of_day: bool,
    once: String,
    again_end: bool,
    twice: Result<String, Error>,
)
    requires
        normalized(input, end_of_day, Ok(once)),
        normalized(once@, again_end, twice),
    ensures
        twice is Ok,
        twice->Ok_0@ == once@,
{
    let text = trim(input);
    lemma_trim_empty(input);
    lemma_trim_twice(input);
    lemma_trim_empty(once@);
    if looks_like_a_day(text) {
        let d = date_of(text, "%Y-%m-%d"@)->Ok_0;
        let date = date_text(d.0 as int, d.1 as int, d.2 as int);
        let rest = "T"@ + day_time(end_of_day) + "Z"@;
        reveal_strlit("T");
        reveal_strlit("Z");
        lemma_stamp(d.0 as int, d.1 as int, d.2 as int, rest);
        assert(date + "T"@ + day_time(end_of_day) + "Z"@ =~= date + rest);
        assert(once@ == date + rest);
        assert(once@.last() == 'Z');
        assert(trim(once@) == once@);
        lemma_encoding_is_no_shorter(once@);
    }
}

pub fn normalize_date(input: &str, end_of_day: bool) -> (r: Result<String, Error>)
    ensures
        normalized(input@, end_of_day, r),
        written_day_expands(input@, end_of_day, r),
{
    let t = trimmed(input);
    proof {
        lemma_trim_empty(input@);
        assert forall|year: i32, month: u32, day: u32|
            0 <= year <= 9999 && month <= 99 && day <= 99 && t@ == #[trigger] date_text(
                year as int,
                month as int,
                day as int,
            ) implies looks_like_a_day(t@) by {
            law_written_days_look_like_days(year as int, month as int, day as int);
        }
    }
    if t.is_empty() {
        return Err(Error::DateEmpty);
    }
    if t.as_bytes().len() == 10 && t.unicode_len() > 4 && t.get_char(4) == '-' {
        return match parse_date(t, "%Y-%m-%d") {
            Err(cause) => Err(Error::DateInvalid { date: t.to_owned(), cause }),
            Ok(date) => {
                let time: (u32, u32, u32, u32) = if end_of_day {
                    (23, 59, 59, 999)
                } else {
                    (0, 0, 0, 0)
                };
                Ok(utc_text(date, time))
            },
        };
    }
    Ok(t.to_owned())
}

/// A day becomes its first millisecond.
pub fn normalize_date_start(input: &str) -> (r: Result<String, Error>)
    ensures
        normalized(input@, false, r),
        written_day_expands(input@, false, r),
{
    normalize_date(input, false)
}

/// A day becomes its last millisecond.
pub fn normalize_date_end(input: &str) -> (r: Result<String, Error>)
    ensures
        normalized(input@, true, r),
        written_day_expands(input@, true, r),
{
    normalize_date(input, true)
}

/// What a date flag is sent as: nothing where it is not set. The outer `None`
/// is a day that is not in the calendar.
pub open spec fn date_bound(flag: Option<String>, end_of_day: bool) -> Option<Option<Seq<char>>> {
    if is_set(flag) {
        match day_bound(trim(flag->0@), end_of_day) {
            Some(text) => Some(Some(text)),
            None => None,
        }
    } else {
        Some(None)
    }
}

/// The complaint about a date flag.
pub open spec fn refuses_date(e: Error, flag: Option<String>) -> bool {
    complains_of(e, trim(flag->0@))
}

/// Reads a date flag.
pub fn read_bound(flag: &Option<String>, end_of_day: bool) -> (r: Result<Option<String>, Error>)
    ensures
        match r {
            Ok(text) => date_bound(*flag, end_of_day) == Some(opt_text(text)),
            Err(e) => date_bound(*flag, end_of_day) is None && refuses_date(e, *flag),
        },
{
    match cleaned(flag) {
        None => Ok(None),
        Some(text) => {
            proof {
                lemma_trim_twice(flag->0@);
                lemma_trim_empty(flag->0@);
                lemma_trim_empty(text@);
            }
            match normalize_date(text.as_str(), end_of_day) {
                Ok(text) => Ok(Some(text)),
                Err(e) => Err(e),
            }
        },
    }
}

} // verus!
