//! Date, time and datetime validators.  Each keeps a list of candidate
//! formats and narrows it by elimination: a value retains exactly the
//! formats under which it parses, and the validator fails once no
//! format is left.
//!
//! Whether a value parses under a format is decided by chrono; each
//! call is named by a spec function of its arguments alone, and the
//! narrowing logic is verified against those names.

use vstd::prelude::*;

use crate::validators::numeric::int_literal_value;
use crate::validators::numeric::parse_i64_str;
use crate::validators::numeric::parses_as_i64;
use crate::validators::ValidationError;

verus! {

/// What `chrono::NaiveDate::parse_from_str` accepts: a function of the
/// value and the format alone.
pub uninterp spec fn date_format_accepts(value: Seq<char>, format: Seq<char>) -> bool;

/// What `chrono::NaiveTime::parse_from_str` accepts.
pub uninterp spec fn time_format_accepts(value: Seq<char>, format: Seq<char>) -> bool;

/// What `chrono::NaiveDateTime::parse_from_str` accepts.
pub uninterp spec fn datetime_format_accepts(value: Seq<char>, format: Seq<char>) -> bool;

/// What `chrono::DateTime::parse_from_rfc2822` accepts.
pub uninterp spec fn rfc2822_accepts(value: Seq<char>) -> bool;

/// What `chrono::DateTime::parse_from_rfc3339` accepts.
pub uninterp spec fn rfc3339_accepts(value: Seq<char>) -> bool;

/// The Unix-second counts that chrono can represent.
pub uninterp spec fn unix_seconds_in_range(secs: i64) -> bool;

/// Relies on `chrono::NaiveDate::parse_from_str`: whether the text is a
/// calendar date under the given strftime-style format.
#[verifier::external_body]
fn parses_as_date(value: &str, format: &str) -> (r: bool)
    ensures
        r == date_format_accepts(value@, format@),
{
    chrono::NaiveDate::parse_from_str(value, format).is_ok()
}

/// Relies on `chrono::NaiveTime::parse_from_str`: whether the text is a
/// time of day under the given strftime-style format.
#[verifier::external_body]
fn parses_as_time(value: &str, format: &str) -> (r: bool)
    ensures
        r == time_format_accepts(value@, format@),
{
    chrono::NaiveTime::parse_from_str(value, format).is_ok()
}

/// Relies on `chrono::NaiveDateTime::parse_from_str`: whether the text
/// is a date and time under the given strftime-style format.
#[verifier::external_body]
fn parses_as_datetime(value: &str, format: &str) -> (r: bool)
    ensures
        r == datetime_format_accepts(value@, format@),
{
    chrono::NaiveDateTime::parse_from_str(value, format).is_ok()
}

/// Relies on `chrono::DateTime::parse_from_rfc2822`.
#[verifier::external_body]
fn parses_as_rfc2822(value: &str) -> (r: bool)
    ensures
        r == rfc2822_accepts(value@),
{
    chrono::DateTime::parse_from_rfc2822(value).is_ok()
}

/// Relies on `chrono::DateTime::parse_from_rfc3339`.
#[verifier::external_body]
fn parses_as_rfc3339(value: &str) -> (r: bool)
    ensures
        r == rfc3339_accepts(value@),
{
    chrono::DateTime::parse_from_rfc3339(value).is_ok()
}

/// Relies on `chrono::DateTime::from_timestamp`: whether this many Unix
/// seconds lies in chrono's representable range.
#[verifier::external_body]
fn unix_timestamp_ok(secs: i64) -> (r: bool)
    ensures
        r == unix_seconds_in_range(secs),
{
    chrono::DateTime::from_timestamp(secs, 0).is_some()
}

// ---------------------------------------------------------------------
// Date
// ---------------------------------------------------------------------
/// The date formats that a value retains.
pub open spec fn date_formats_kept(formats: Seq<String>, v: Seq<char>) -> Seq<String> {
    formats.filter(|f: String| date_format_accepts(v, f@))
}

/// Whether some retained date format accepts the value.
pub open spec fn date_any_accepts(formats: Seq<String>, v: Seq<char>) -> bool {
    exists|i: int| 0 <= i < formats.len() && date_format_accepts(v, formats[i]@)
}

/// A format the value keeps accepts it, and comes from the original
/// list.
pub proof fn lemma_date_kept(fs: Seq<String>, v: Seq<char>, i: int)
    requires
        0 <= i < date_formats_kept(fs, v).len(),
    ensures
        date_format_accepts(v, date_formats_kept(fs, v)[i]@),
        exists|j: int| 0 <= j < fs.len() && fs[j] == date_formats_kept(fs, v)[i],
    decreases fs.len(),
{
    reveal(Seq::filter);
    if fs.len() > 0 {
        let kept = date_formats_kept(fs, v);
        let keptd = date_formats_kept(fs.drop_last(), v);
        if date_format_accepts(v, fs.last()@) && i == keptd.len() {
            assert(kept[i] == fs.last());
            assert(fs[fs.len() - 1] == kept[i]);
        } else {
            lemma_date_kept(fs.drop_last(), v, i);
            let j = choose|j: int| 0 <= j < fs.drop_last().len() && fs.drop_last()[j] == keptd[i];
            assert(fs[j] == kept[i]);
        }
    }
}

/// Recognizes calendar dates: keeps an ordered list of candidate
/// strftime-style formats and eliminates the ones a value fails.
#[derive(Debug)]
pub struct Date {
    pub formats: Vec<String>,
}

impl Clone for Date {
    fn clone(&self) -> (r: Self)
        ensures
            r.formats@ == self.formats@,
    {
        let formats = self.formats.clone();
        proof {
            assert(formats@ =~= self.formats@);
        }
        Date { formats }
    }
}

/// The common date formats a default `Date` validator starts from.
pub open spec fn is_default_date_formats(fs: Seq<String>) -> bool {
    &&& fs.len() == 6
    &&& fs[0]@ == "%Y-%m-%d"@
    &&& fs[1]@ == "%d-%m-%Y"@
    &&& fs[2]@ == "%d/%m/%Y"@
    &&& fs[3]@ == "%m/%d/%Y"@
    &&& fs[4]@ == "%d/%m/%y"@
    &&& fs[5]@ == "%m/%d/%y"@
}

impl Default for Date {
    /// Starts from a list of common date formats.
    fn default() -> (r: Self)
        ensures
            is_default_date_formats(r.formats@),
    {
        Date {
            formats: vec![
                String::from_str("%Y-%m-%d"),
                String::from_str("%d-%m-%Y"),
                String::from_str("%d/%m/%Y"),
                String::from_str("%m/%d/%Y"),
                String::from_str("%d/%m/%y"),
                String::from_str("%m/%d/%y"),
            ],
        }
    }
}

impl Date {
    /// Succeeds iff the value parses under some still-retained format.
    pub fn validate(&self, value: &str) -> (r: Result<(), ValidationError>)
        ensures
            r is Ok <==> date_any_accepts(self.formats@, value@),
    {
        let n = self.formats.len();
        let mut i: usize = 0;
        while i < n
            invariant
                0 <= i <= n,
                n == self.formats@.len(),
                forall|j: int| 0 <= j < i ==> !date_format_accepts(value@, self.formats@[j]@),
            decreases n - i,
        {
            if parses_as_date(value, self.formats[i].as_str()) {
                return Ok(());
            }
            i = i + 1;
        }
        Err(ValidationError { details: String::from_str("value matches no date format") })
    }

    /// Retains exactly the formats under which the value parses, in
    /// their original order; fails iff none is left.
    pub fn consider(&mut self, value: &str) -> (r: Result<(), ValidationError>)
        ensures
            final(self).formats@ == date_formats_kept(old(self).formats@, value@),
            r is Ok <==> date_formats_kept(old(self).formats@, value@).len() > 0,
    {
        let ghost pred = |f: String| date_format_accepts(value@, f@);
        let n = self.formats.len();
        let mut kept: Vec<String> = Vec::new();
        let mut i: usize = 0;
        while i < n
            invariant
                0 <= i <= n,
                n == self.formats@.len(),
                pred == (|f: String| date_format_accepts(value@, f@)),
                kept@ == self.formats@.subrange(0, i as int).filter(pred),
            decreases n - i,
        {
            let ghost prefix = self.formats@.subrange(0, i as int);
            let ghost longer = self.formats@.subrange(0, i + 1 as int);
            let f = &self.formats[i];
            proof {
                reveal(Seq::filter);
                assert(longer.drop_last() =~= prefix);
                assert(longer.last() == self.formats@[i as int]);
            }
            if parses_as_date(value, f.as_str()) {
                kept.push(f.clone());
            }
            i = i + 1;
        }
        proof {
            assert(self.formats@.subrange(0, n as int) =~= self.formats@);
        }
        self.formats = kept;
        if self.formats.len() == 0 {
            Err(ValidationError { details: String::from_str("value eliminated every date format") })
        } else {
            Ok(())
        }
    }
}

// ---------------------------------------------------------------------
// Time
// ---------------------------------------------------------------------
/// The time formats that a value retains.
pub open spec fn time_formats_kept(formats: Seq<String>, v: Seq<char>) -> Seq<String> {
    formats.filter(|f: String| time_format_accepts(v, f@))
}

/// Whether some retained time format accepts the value.
pub open spec fn time_any_accepts(formats: Seq<String>, v: Seq<char>) -> bool {
    exists|i: int| 0 <= i < formats.len() && time_format_accepts(v, formats[i]@)
}

/// A format the value keeps accepts it, and comes from the original
/// list.
pub proof fn lemma_time_kept(fs: Seq<String>, v: Seq<char>, i: int)
    requires
        0 <= i < time_formats_kept(fs, v).len(),
    ensures
        time_format_accepts(v, time_formats_kept(fs, v)[i]@),
        exists|j: int| 0 <= j < fs.len() && fs[j] == time_formats_kept(fs, v)[i],
    decreases fs.len(),
{
    reveal(Seq::filter);
    if fs.len() > 0 {
        let kept = time_formats_kept(fs, v);
        let keptd = time_formats_kept(fs.drop_last(), v);
        if time_format_accepts(v, fs.last()@) && i == keptd.len() {
            assert(kept[i] == fs.last());
            assert(fs[fs.len() - 1] == kept[i]);
        } else {
            lemma_time_kept(fs.drop_last(), v, i);
            let j = choose|j: int| 0 <= j < fs.drop_last().len() && fs.drop_last()[j] == keptd[i];
            assert(fs[j] == kept[i]);
        }
    }
}

/// Recognizes times of day, with the same narrowing-by-elimination as
/// `Date`.
#[derive(Debug)]
pub struct Time {
    pub formats: Vec<String>,
}

impl Clone for Time {
    fn clone(&self) -> (r: Self)
        ensures
            r.formats@ == self.formats@,
    {
        let formats = self.formats.clone();
        proof {
            assert(formats@ =~= self.formats@);
        }
        Time { formats }
    }
}

/// The common time formats a default `Time` validator starts from.
pub open spec fn is_default_time_formats(fs: Seq<String>) -> bool {
    &&& fs.len() == 4
    &&& fs[0]@ == "T%H:%M:%S"@
    &&& fs[1]@ == "%H:%M:%S"@
    &&& fs[2]@ == "%H:%M"@
    &&& fs[3]@ == "%I:%M%p"@
}

impl Default for Time {
    /// Starts from a list of common time formats.
    fn default() -> (r: Self)
        ensures
            is_default_time_formats(r.formats@),
    {
        Time {
            formats: vec![
                String::from_str("T%H:%M:%S"),
                String::from_str("%H:%M:%S"),
                String::from_str("%H:%M"),
                String::from_str("%I:%M%p"),
            ],
        }
    }
}

impl Time {
    /// Succeeds iff the value parses under some still-retained format.
    pub fn validate(&self, value: &str) -> (r: Result<(), ValidationError>)
        ensures
            r is Ok <==> time_any_accepts(self.formats@, value@),
    {
        let n = self.formats.len();
        let mut i: usize = 0;
        while i < n
            invariant
                0 <= i <= n,
                n == self.formats@.len(),
                forall|j: int| 0 <= j < i ==> !time_format_accepts(value@, self.formats@[j]@),
            decreases n - i,
        {
            if parses_as_time(value, self.formats[i].as_str()) {
                return Ok(());
            }
            i = i + 1;
        }
        Err(ValidationError { details: String::from_str("value matches no time format") })
    }

    /// Retains exactly the formats under which the value parses, in
    /// their original order; fails iff none is left.
    pub fn consider(&mut self, value: &str) -> (r: Result<(), ValidationError>)
        ensures
            final(self).formats@ == time_formats_kept(old(self).formats@, value@),
            r is Ok <==> time_formats_kept(old(self).formats@, value@).len() > 0,
    {
        let ghost pred = |f: String| time_format_accepts(value@, f@);
        let n = self.formats.len();
        let mut kept: Vec<String> = Vec::new();
        let mut i: usize = 0;
        while i < n
            invariant
                0 <= i <= n,
                n == self.formats@.len(),
                pred == (|f: String| time_format_accepts(value@, f@)),
                kept@ == self.formats@.subrange(0, i as int).filter(pred),
            decreases n - i,
        {
            let ghost prefix = self.formats@.subrange(0, i as int);
            let ghost longer = self.formats@.subrange(0, i + 1 as int);
            let f = &self.formats[i];
            proof {
                reveal(Seq::filter);
                assert(longer.drop_last() =~= prefix);
                assert(longer.last() == self.formats@[i as int]);
            }
            if parses_as_time(value, f.as_str()) {
                kept.push(f.clone());
            }
            i = i + 1;
        }
        proof {
            assert(self.formats@.subrange(0, n as int) =~= self.formats@);
        }
        self.formats = kept;
        if self.formats.len() == 0 {
            Err(ValidationError { details: String::from_str("value eliminated every time format") })
        } else {
            Ok(())
        }
    }
}

// ---------------------------------------------------------------------
// DateTime
// ---------------------------------------------------------------------
/// A candidate way of reading a combined date and time: a well-known
/// profile, an explicit strftime-style pattern, or Unix epoch seconds.
#[derive(Debug, PartialEq)]
pub enum DateTimeFormat {
    RFC2822,
    RFC3339,
    Strftime(String),
    Unix,
}

impl Clone for DateTimeFormat {
    fn clone(&self) -> (r: Self)
        ensures
            r == *self,
    {
        match self {
            DateTimeFormat::RFC2822 => DateTimeFormat::RFC2822,
            DateTimeFormat::RFC3339 => DateTimeFormat::RFC3339,
            DateTimeFormat::Strftime(p) => DateTimeFormat::Strftime(p.clone()),
            DateTimeFormat::Unix => DateTimeFormat::Unix,
        }
    }
}

/// Whether a value reads as a datetime under one format kind.  Unix
/// epoch text must be a full integer within both the machine range and
/// chrono's representable range.
pub open spec fn datetime_format_matches(f: DateTimeFormat, v: Seq<char>) -> bool {
    match f {
        DateTimeFormat::RFC2822 => rfc2822_accepts(v),
        DateTimeFormat::RFC3339 => rfc3339_accepts(v),
        DateTimeFormat::Strftime(p) => datetime_format_accepts(v, p@),
        DateTimeFormat::Unix => parses_as_i64(v) && unix_seconds_in_range(
            int_literal_value(v) as i64,
        ),
    }
}

/// The datetime format kinds that a value retains.
pub open spec fn datetime_formats_kept(formats: Seq<DateTimeFormat>, v: Seq<char>) -> Seq<
    DateTimeFormat,
> {
    formats.filter(|f: DateTimeFormat| datetime_format_matches(f, v))
}

/// Whether some retained datetime format accepts the value.
pub open spec fn datetime_any_accepts(formats: Seq<DateTimeFormat>, v: Seq<char>) -> bool {
    exists|i: int| 0 <= i < formats.len() && datetime_format_matches(formats[i], v)
}

/// A format kind the value keeps accepts it, and comes from the
/// original list.
pub proof fn lemma_datetime_kept(fs: Seq<DateTimeFormat>, v: Seq<char>, i: int)
    requires
        0 <= i < datetime_formats_kept(fs, v).len(),
    ensures
        datetime_format_matches(datetime_formats_kept(fs, v)[i], v),
        exists|j: int| 0 <= j < fs.len() && fs[j] == datetime_formats_kept(fs, v)[i],
    decreases fs.len(),
{
    reveal(Seq::filter);
    if fs.len() > 0 {
        let kept = datetime_formats_kept(fs, v);
        let keptd = datetime_formats_kept(fs.drop_last(), v);
        if datetime_format_matches(fs.last(), v) && i == keptd.len() {
            assert(kept[i] == fs.last());
            assert(fs[fs.len() - 1] == kept[i]);
        } else {
            lemma_datetime_kept(fs.drop_last(), v, i);
            let j = choose|j: int| 0 <= j < fs.drop_last().len() && fs.drop_last()[j] == keptd[i];
            assert(fs[j] == kept[i]);
        }
    }
}

/// Recognizes combined dates and times over heterogeneous format
/// kinds, narrowing them by elimination as `Date` does.
#[derive(Debug)]
pub struct DateTime {
    pub formats: Vec<DateTimeFormat>,
}

impl Clone for DateTime {
    fn clone(&self) -> (r: Self)
        ensures
            r.formats@ == self.formats@,
    {
        let formats = self.formats.clone();
        proof {
            assert(formats@ =~= self.formats@);
        }
        DateTime { formats }
    }
}

impl DateTime {
    pub fn new(formats: Vec<DateTimeFormat>) -> (r: Self)
        ensures
            r.formats == formats,
    {
        DateTime { formats }
    }

    /// Whether the value reads as a datetime under the given format.
    pub fn is_formatted(&self, format: &DateTimeFormat, value: &str) -> (r: bool)
        ensures
            r == datetime_format_matches(*format, value@),
    {
        match format {
            DateTimeFormat::RFC2822 => parses_as_rfc2822(value),
            DateTimeFormat::RFC3339 => parses_as_rfc3339(value),
            DateTimeFormat::Strftime(strftime) => parses_as_datetime(value, strftime.as_str()),
            DateTimeFormat::Unix => match parse_i64_str(value) {
                Some(timestamp) => unix_timestamp_ok(timestamp),
                None => false,
            },
        }
    }

    /// Succeeds iff the value parses under some still-retained format.
    pub fn validate(&self, value: &str) -> (r: Result<(), ValidationError>)
        ensures
            r is Ok <==> datetime_any_accepts(self.formats@, value@),
    {
        let n = self.formats.len();
        let mut i: usize = 0;
        while i < n
            invariant
                0 <= i <= n,
                n == self.formats@.len(),
                forall|j: int| 0 <= j < i ==> !datetime_format_matches(self.formats@[j], value@),
            decreases n - i,
        {
            let f = &self.formats[i];
            if self.is_formatted(f, value) {
                return Ok(());
            }
            i = i + 1;
        }
        Err(ValidationError { details: String::from_str("value matches no datetime format") })
    }

    /// Retains exactly the format kinds under which the value parses,
    /// in their original order; fails iff none is left.
    pub fn consider(&mut self, value: &str) -> (r: Result<(), ValidationError>)
        ensures
            final(self).formats@ == datetime_formats_kept(old(self).formats@, value@),
            r is Ok <==> datetime_formats_kept(old(self).formats@, value@).len() > 0,
    {
        let ghost pred = |f: DateTimeFormat| datetime_format_matches(f, value@);
        let n = self.formats.len();
        let mut kept: Vec<DateTimeFormat> = Vec::new();
        let mut i: usize = 0;
        while i < n
            invariant
                0 <= i <= n,
                n == self.formats@.len(),
                pred == (|f: DateTimeFormat| datetime_format_matches(f, value@)),
                kept@ == self.formats@.subrange(0, i as int).filter(pred),
            decreases n - i,
        {
            let ghost prefix = self.formats@.subrange(0, i as int);
            let ghost longer = self.formats@.subrange(0, i + 1 as int);
            let f = &self.formats[i];
            proof {
                reveal(Seq::filter);
                assert(longer.drop_last() =~= prefix);
                assert(longer.last() == self.formats@[i as int]);
            }
            if self.is_formatted(f, value) {
                kept.push(f.clone());
            }
            i = i + 1;
        }
        proof {
            assert(self.formats@.subrange(0, n as int) =~= self.formats@);
        }
        self.formats = kept;
        if self.formats.len() == 0 {
            Err(
                ValidationError {
                    details: String::from_str("value eliminated every datetime format"),
                },
            )
        } else {
            Ok(())
        }
    }
}

/// The format kinds a default `DateTime` validator starts from.
pub open spec fn is_default_datetime_formats(fs: Seq<DateTimeFormat>) -> bool {
    &&& fs.len() == 2
    &&& fs[0] == DateTimeFormat::RFC2822
    &&& fs[1] == DateTimeFormat::RFC3339
}

impl Default for DateTime {
    /// Starts from the two well-known datetime profiles.
    fn default() -> (r: Self)
        ensures
            is_default_datetime_formats(r.formats@),
    {
        DateTime { formats: vec![DateTimeFormat::RFC2822, DateTimeFormat::RFC3339] }
    }
}

} // verus!
