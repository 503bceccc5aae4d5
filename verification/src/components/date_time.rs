//! The timestamp component: a timezone-normalized instant, rendered as RFC
//! 2822 date-time text.
//!
//! The instant is held as plain UTC calendar fields. The rendering —
//! weekday, space-padded day, month, four-digit year, time, `+0000` — is
//! written as a single literal token: it is ASCII by construction and is
//! never quoted, folded internally, or transport-encoded. The calendar and
//! timezone arithmetic that produces a normalized instant is the chrono
//! library's work, behind trusted wrappers; everything after that is
//! verified here.

use vstd::prelude::*;
use vstd::string::*;

use chrono::{Datelike, Timelike};

use crate::codec::{push_char, EncodeHandle, TokenView};
use crate::error::EncodeError;
use crate::{char_legal, text_legal, MailType};

verus! {

pub open spec fn is_leap_year(y: int) -> bool {
    y % 4 == 0 && (y % 100 != 0 || y % 400 == 0)
}

pub open spec fn days_in_month(y: int, m: int) -> int {
    if m == 2 {
        if is_leap_year(y) {
            29
        } else {
            28
        }
    } else if m == 4 || m == 6 || m == 9 || m == 11 {
        30
    } else {
        31
    }
}

/// The weekday of a Gregorian date, by Zeller's congruence:
/// 0 is Saturday, 1 Sunday, …, 6 Friday.
pub open spec fn day_of_week(y: int, m: int, d: int) -> int {
    let zy = if m <= 2 { y - 1 } else { y };
    let zm = if m <= 2 { m + 12 } else { m };
    let k = zy % 100;
    let j = zy / 100;
    (d + (13 * (zm + 1)) / 5 + k + k / 4 + j / 4 + 5 * j) % 7
}

pub open spec fn weekday_name(h: int) -> Seq<char> {
    if h == 0 { seq!['S', 'a', 't'] }
    else if h == 1 { seq!['S', 'u', 'n'] }
    else if h == 2 { seq!['M', 'o', 'n'] }
    else if h == 3 { seq!['T', 'u', 'e'] }
    else if h == 4 { seq!['W', 'e', 'd'] }
    else if h == 5 { seq!['T', 'h', 'u'] }
    else { seq!['F', 'r', 'i'] }
}

pub open spec fn month_name(m: int) -> Seq<char> {
    if m == 1 { seq!['J', 'a', 'n'] }
    else if m == 2 { seq!['F', 'e', 'b'] }
    else if m == 3 { seq!['M', 'a', 'r'] }
    else if m == 4 { seq!['A', 'p', 'r'] }
    else if m == 5 { seq!['M', 'a', 'y'] }
    else if m == 6 { seq!['J', 'u', 'n'] }
    else if m == 7 { seq!['J', 'u', 'l'] }
    else if m == 8 { seq!['A', 'u', 'g'] }
    else if m == 9 { seq!['S', 'e', 'p'] }
    else if m == 10 { seq!['O', 'c', 't'] }
    else if m == 11 { seq!['N', 'o', 'v'] }
    else { seq!['D', 'e', 'c'] }
}

pub open spec fn dec_digit(n: int) -> char {
    if n == 0 { '0' } else if n == 1 { '1' } else if n == 2 { '2' }
    else if n == 3 { '3' } else if n == 4 { '4' } else if n == 5 { '5' }
    else if n == 6 { '6' } else if n == 7 { '7' } else if n == 8 { '8' }
    else { '9' }
}

pub open spec fn two_digits(n: int) -> Seq<char> {
    seq![dec_digit(n / 10), dec_digit(n % 10)]
}

/// The day of month, space-padded to two characters.
pub open spec fn day_field(d: int) -> Seq<char> {
    if d < 10 {
        seq![' ', dec_digit(d)]
    } else {
        two_digits(d)
    }
}

pub open spec fn four_digits(n: int) -> Seq<char> {
    seq![
        dec_digit(n / 1000),
        dec_digit((n / 100) % 10),
        dec_digit((n / 10) % 10),
        dec_digit(n % 10),
    ]
}

/// A timezone-normalized point in time, held as plain UTC calendar fields.
/// Always normalized before encoding; immutable once constructed.
#[derive(Debug, Clone, Copy, PartialEq, Eq, Structural, Hash)]
pub struct DateTime {
    pub year: u32,
    pub month: u32,
    pub day: u32,
    pub hour: u32,
    pub minute: u32,
    pub second: u32,
}

/// The RFC 2822 date-time text of an instant: weekday, `, `, space-padded
/// day, month, four-digit year, `HH:MM:SS`, and the `+0000` zone of a
/// normalized instant.
pub open spec fn rfc2822_of(dt: DateTime) -> Seq<char> {
    weekday_name(day_of_week(dt.year as int, dt.month as int, dt.day as int)) + seq![',', ' ']
        + day_field(dt.day as int) + seq![' '] + month_name(dt.month as int) + seq![' ']
        + four_digits(dt.year as int) + seq![' '] + two_digits(dt.hour as int) + seq![':']
        + two_digits(dt.minute as int) + seq![':'] + two_digits(dt.second as int)
        + seq![' ', '+', '0', '0', '0', '0']
}

proof fn lemma_text_legal_concat(a: Seq<char>, b: Seq<char>, mt: MailType)
    requires
        text_legal(a, mt),
        text_legal(b, mt),
    ensures
        text_legal(a + b, mt),
{
    assert forall|i: int| 0 <= i < (a + b).len() implies char_legal(#[trigger] (a + b)[i], mt) by {
        if i < a.len() {
            assert((a + b)[i] == a[i]);
        } else {
            assert((a + b)[i] == b[i - a.len()]);
        }
    }
}

proof fn lemma_three_ascii(s: Seq<char>)
    requires
        s.len() == 3,
        (s[0] as u32) < 128,
        (s[1] as u32) < 128,
        (s[2] as u32) < 128,
    ensures
        text_legal(s, MailType::Ascii),
{
    assert forall|i: int| 0 <= i < s.len() implies char_legal(#[trigger] s[i], MailType::Ascii) by {
        assert(i == 0 || i == 1 || i == 2);
    }
}

proof fn lemma_weekday_name_ascii(h: int)
    ensures
        text_legal(weekday_name(h), MailType::Ascii),
{
    lemma_three_ascii(weekday_name(h));
}

proof fn lemma_month_name_ascii(m: int)
    ensures
        text_legal(month_name(m), MailType::Ascii),
{
    lemma_three_ascii(month_name(m));
}

proof fn lemma_two_ascii(s: Seq<char>)
    requires
        s.len() == 2,
        (s[0] as u32) < 128,
        (s[1] as u32) < 128,
    ensures
        text_legal(s, MailType::Ascii),
{
    assert forall|i: int| 0 <= i < s.len() implies char_legal(#[trigger] s[i], MailType::Ascii) by {
        assert(i == 0 || i == 1);
    }
}

proof fn lemma_dec_digit_ascii(n: int)
    ensures
        (dec_digit(n) as u32) < 128,
{
}

proof fn lemma_rfc2822_ascii(dt: DateTime)
    ensures
        text_legal(rfc2822_of(dt), MailType::Ascii),
{
    let y = dt.year as int;
    let mo = dt.month as int;
    let d = dt.day as int;
    lemma_weekday_name_ascii(day_of_week(y, mo, d));
    lemma_month_name_ascii(mo);
    lemma_dec_digit_ascii(d);
    lemma_dec_digit_ascii(d / 10);
    lemma_dec_digit_ascii(d % 10);
    lemma_two_ascii(day_field(d));
    lemma_dec_digit_ascii(y / 1000);
    lemma_dec_digit_ascii((y / 100) % 10);
    lemma_dec_digit_ascii((y / 10) % 10);
    lemma_dec_digit_ascii(y % 10);
    lemma_dec_digit_ascii((dt.hour as int) / 10);
    lemma_dec_digit_ascii((dt.hour as int) % 10);
    lemma_two_ascii(two_digits(dt.hour as int));
    lemma_dec_digit_ascii((dt.minute as int) / 10);
    lemma_dec_digit_ascii((dt.minute as int) % 10);
    lemma_two_ascii(two_digits(dt.minute as int));
    lemma_dec_digit_ascii((dt.second as int) / 10);
    lemma_dec_digit_ascii((dt.second as int) % 10);
    lemma_two_ascii(two_digits(dt.second as int));
    let four = four_digits(y);
    assert forall|i: int| 0 <= i < four.len() implies char_legal(
        #[trigger] four[i],
        MailType::Ascii,
    ) by {
        assert(i == 0 || i == 1 || i == 2 || i == 3);
    }
    let comma_sp = seq![',', ' '];
    assert(text_legal(comma_sp, MailType::Ascii)) by {
        assert forall|i: int| 0 <= i < comma_sp.len() implies char_legal(
            #[trigger] comma_sp[i],
            MailType::Ascii,
        ) by {
            assert(i == 0 || i == 1);
        }
    }
    let sp = seq![' '];
    assert(text_legal(sp, MailType::Ascii));
    let colon = seq![':'];
    assert(text_legal(colon, MailType::Ascii));
    let zone = seq![' ', '+', '0', '0', '0', '0'];
    assert(text_legal(zone, MailType::Ascii)) by {
        assert forall|i: int| 0 <= i < zone.len() implies char_legal(
            #[trigger] zone[i],
            MailType::Ascii,
        ) by {
            assert(i == 0 || i == 1 || i == 2 || i == 3 || i == 4 || i == 5);
        }
    }
    let wd = weekday_name(day_of_week(y, mo, d));
    lemma_text_legal_concat(wd, comma_sp, MailType::Ascii);
    lemma_text_legal_concat(wd + comma_sp, day_field(d), MailType::Ascii);
    lemma_text_legal_concat(wd + comma_sp + day_field(d), sp, MailType::Ascii);
    lemma_text_legal_concat(wd + comma_sp + day_field(d) + sp, month_name(mo), MailType::Ascii);
    let through_month = wd + comma_sp + day_field(d) + sp + month_name(mo);
    lemma_text_legal_concat(through_month, sp, MailType::Ascii);
    lemma_text_legal_concat(through_month + sp, four, MailType::Ascii);
    lemma_text_legal_concat(through_month + sp + four, sp, MailType::Ascii);
    let through_year = through_month + sp + four + sp;
    lemma_text_legal_concat(through_year, two_digits(dt.hour as int), MailType::Ascii);
    lemma_text_legal_concat(through_year + two_digits(dt.hour as int), colon, MailType::Ascii);
    let through_hour = through_year + two_digits(dt.hour as int) + colon;
    lemma_text_legal_concat(through_hour, two_digits(dt.minute as int), MailType::Ascii);
    lemma_text_legal_concat(through_hour + two_digits(dt.minute as int), colon, MailType::Ascii);
    let through_minute = through_hour + two_digits(dt.minute as int) + colon;
    lemma_text_legal_concat(through_minute, two_digits(dt.second as int), MailType::Ascii);
    lemma_text_legal_concat(through_minute + two_digits(dt.second as int), zone, MailType::Ascii);
    assert(rfc2822_of(dt) == through_minute + two_digits(dt.second as int) + zone);
}

fn exec_dec_digit(n: u32) -> (r: char)
    requires
        n < 10,
    ensures
        r == dec_digit(n as int),
{
    if n == 0 { '0' } else if n == 1 { '1' } else if n == 2 { '2' }
    else if n == 3 { '3' } else if n == 4 { '4' } else if n == 5 { '5' }
    else if n == 6 { '6' } else if n == 7 { '7' } else if n == 8 { '8' }
    else { '9' }
}

fn push_two_digits(out: &mut String, n: u32)
    requires
        n < 100,
    ensures
        final(out)@ == old(out)@ + two_digits(n as int),
{
    push_char(out, exec_dec_digit(n / 10));
    push_char(out, exec_dec_digit(n % 10));
    proof {
        assert(final(out)@ =~= old(out)@ + two_digits(n as int));
    }
}

fn weekday_str(h: u32) -> (r: &'static str)
    requires
        h < 7,
    ensures
        r@ == weekday_name(h as int),
{
    proof {
        reveal_strlit("Sat");
        reveal_strlit("Sun");
        reveal_strlit("Mon");
        reveal_strlit("Tue");
        reveal_strlit("Wed");
        reveal_strlit("Thu");
        reveal_strlit("Fri");
    }
    let r = if h == 0 { "Sat" } else if h == 1 { "Sun" } else if h == 2 { "Mon" }
    else if h == 3 { "Tue" } else if h == 4 { "Wed" } else if h == 5 { "Thu" }
    else { "Fri" };
    proof {
        assert(r@ =~= weekday_name(h as int));
    }
    r
}

fn month_str(m: u32) -> (r: &'static str)
    requires
        1 <= m <= 12,
    ensures
        r@ == month_name(m as int),
{
    proof {
        reveal_strlit("Jan");
        reveal_strlit("Feb");
        reveal_strlit("Mar");
        reveal_strlit("Apr");
        reveal_strlit("May");
        reveal_strlit("Jun");
        reveal_strlit("Jul");
        reveal_strlit("Aug");
        reveal_strlit("Sep");
        reveal_strlit("Oct");
        reveal_strlit("Nov");
        reveal_strlit("Dec");
    }
    let r = if m == 1 { "Jan" } else if m == 2 { "Feb" } else if m == 3 { "Mar" }
    else if m == 4 { "Apr" } else if m == 5 { "May" } else if m == 6 { "Jun" }
    else if m == 7 { "Jul" } else if m == 8 { "Aug" } else if m == 9 { "Sep" }
    else if m == 10 { "Oct" } else if m == 11 { "Nov" } else { "Dec" };
    proof {
        assert(r@ =~= month_name(m as int));
    }
    r
}

fn day_of_week_exec(y: u32, m: u32, d: u32) -> (h: u32)
    requires
        1 <= y <= 9999,
        1 <= m <= 12,
        1 <= d <= 31,
    ensures
        h == day_of_week(y as int, m as int, d as int),
        h < 7,
{
    let zy: u32 = if m <= 2 { y - 1 } else { y };
    let zm: u32 = if m <= 2 { m + 12 } else { m };
    let k: u32 = zy % 100;
    let j: u32 = zy / 100;
    (d + (13 * (zm + 1)) / 5 + k + k / 4 + j / 4 + 5 * j) % 7
}

fn days_in_month_exec(y: u32, m: u32) -> (r: u32)
    requires
        1 <= m <= 12,
    ensures
        r == days_in_month(y as int, m as int),
{
    if m == 2 {
        if y % 4 == 0 && (y % 100 != 0 || y % 400 == 0) {
            29
        } else {
            28
        }
    } else if m == 4 || m == 6 || m == 9 || m == 11 {
        30
    } else {
        31
    }
}

/// What chrono computes for a civil time in a fixed-offset zone: the UTC
/// calendar parts (year, month, day, hour, minute, second) of that instant,
/// or nothing when the offset or the civil time is invalid. A function of
/// the seven arguments alone; its value is fixed only by the trusted
/// wrapper below.
pub uninterp spec fn utc_parts_of(
    y: int,
    mo: int,
    d: int,
    h: int,
    mi: int,
    s: int,
    off: int,
) -> Option<(int, int, int, int, int, int)>;

/// The instant [`DateTime::new`] yields for these arguments, if any: the
/// chrono-computed UTC parts, accepted exactly when the year is
/// representable and the parts name a well-formed date.
pub open spec fn new_spec(y: int, mo: int, d: int, h: int, mi: int, s: int, off: int) -> Option<
    DateTime,
> {
    match utc_parts_of(y, mo, d, h, mi, s, off) {
        Some(p) => {
            let dt = DateTime {
                year: p.0 as u32,
                month: p.1 as u32,
                day: p.2 as u32,
                hour: p.3 as u32,
                minute: p.4 as u32,
                second: p.5 as u32,
            };
            if 1 <= p.0 <= 9999 && dt.wf() {
                Some(dt)
            } else {
                None
            }
        },
        None => None,
    }
}

impl DateTime {
    /// The fields name a real date within the representable range.
    pub open spec fn wf(&self) -> bool {
        1 <= self.year <= 9999 && 1 <= self.month <= 12 && 1 <= self.day <= days_in_month(
            self.year as int,
            self.month as int,
        ) && self.hour < 24 && self.minute < 60 && self.second < 60
    }

    /// An instant from plain, already-normalized UTC fields; rejects
    /// impossible dates and out-of-range fields.
    pub fn from_ymd_hms(year: u32, month: u32, day: u32, hour: u32, minute: u32, second: u32) -> (r:
        Option<DateTime>)
        ensures
            r is Some <==> (DateTime { year, month, day, hour, minute, second }).wf(),
            r matches Some(dt) ==> dt == (DateTime { year, month, day, hour, minute, second }),
    {
        if 1 <= year && year <= 9999 && 1 <= month && month <= 12 && hour < 24 && minute < 60
            && second < 60 && 1 <= day && day <= days_in_month_exec(year, month) {
            Some(DateTime { year, month, day, hour, minute, second })
        } else {
            None
        }
    }

    /// Relies on `std::time::SystemTime::now` for the clock and on
    /// `chrono::DateTime::from_timestamp` — a panic-free `Option`, unlike
    /// `chrono::Utc::now`, which panics on a pre-epoch clock — to turn it
    /// into UTC calendar parts, read out through chrono's accessors, whose
    /// documented ranges are: month 1–12, day of month 1–31, hour 0–23,
    /// minute and second 0–59. `None` for a clock before the epoch or
    /// beyond chrono's range. The year is whatever the clock yields.
    #[verifier::external_body]
    fn utc_now_parts() -> (r: Option<(i64, u32, u32, u32, u32, u32)>)
        ensures
            r matches Some(p) ==> 1 <= p.1 <= 12 && 1 <= p.2 <= 31 && p.3 < 24 && p.4 < 60 && p.5
                < 60,
    {
        let since_epoch = std::time::SystemTime::now()
            .duration_since(std::time::UNIX_EPOCH)
            .ok()?;
        let t = chrono::DateTime::from_timestamp(
            i64::try_from(since_epoch.as_secs()).ok()?,
            since_epoch.subsec_nanos(),
        )?;
        Some((t.year() as i64, t.month(), t.day(), t.hour(), t.minute(), t.second()))
    }

    /// Relies on chrono for calendar and timezone arithmetic:
    /// `FixedOffset::east_opt` builds the zone, `TimeZone::with_ymd_and_hms`
    /// validates the civil time, `with_timezone` renormalizes the instant to
    /// UTC, and the accessors' documented ranges are as for `utc_now_parts`.
    /// `None` when chrono rejects the offset or the civil time. The result
    /// depends on the arguments alone, so it carries the name
    /// [`utc_parts_of`].
    #[verifier::external_body]
    fn utc_from_zoned_parts(
        year: i32,
        month: u32,
        day: u32,
        hour: u32,
        minute: u32,
        second: u32,
        offset_seconds: i32,
    ) -> (r: Option<(i64, u32, u32, u32, u32, u32)>)
        ensures
            r is Some <==> utc_parts_of(
                year as int,
                month as int,
                day as int,
                hour as int,
                minute as int,
                second as int,
                offset_seconds as int,
            ) is Some,
            r matches Some(p) ==> utc_parts_of(
                year as int,
                month as int,
                day as int,
                hour as int,
                minute as int,
                second as int,
                offset_seconds as int,
            ) == Some(
                ((p.0 as int), (p.1 as int), (p.2 as int), (p.3 as int), (p.4 as int), (
                p.5 as int)),
            ),
            r matches Some(p) ==> 1 <= p.1 <= 12 && 1 <= p.2 <= 31 && p.3 < 24 && p.4 < 60 && p.5
                < 60,
    {
        let offset = chrono::FixedOffset::east_opt(offset_seconds)?;
        match chrono::TimeZone::with_ymd_and_hms(&offset, year, month, day, hour, minute, second) {
            chrono::LocalResult::Single(t) => {
                let u = t.with_timezone(&chrono::Utc);
                Some((u.year() as i64, u.month(), u.day(), u.hour(), u.minute(), u.second()))
            },
            chrono::LocalResult::Ambiguous(_, _) => None,
            chrono::LocalResult::None => None,
        }
    }

    /// The current instant. A clock the calendar library cannot place, or
    /// one outside the representable years, falls back to the epoch date
    /// rather than failing.
    pub fn now() -> (r: DateTime)
        ensures
            r.wf(),
    {
        if let Some((y, mo, d, h, mi, s)) = Self::utc_now_parts() {
            if 1 <= y && y <= 9999 {
                if let Some(dt) = Self::from_ymd_hms(y as u32, mo, d, h, mi, s) {
                    return dt;
                }
            }
        }
        DateTime { year: 1970, month: 1, day: 1, hour: 0, minute: 0, second: 0 }
    }

    /// An instant from civil time in a fixed-offset zone, normalized to UTC
    /// by chrono. `None` when the offset or the civil time is invalid, or
    /// the UTC year falls outside the representable range: exactly
    /// [`new_spec`] of the arguments.
    pub fn new(
        year: i32,
        month: u32,
        day: u32,
        hour: u32,
        minute: u32,
        second: u32,
        offset_seconds: i32,
    ) -> (r: Option<DateTime>)
        ensures
            r == new_spec(
                year as int,
                month as int,
                day as int,
                hour as int,
                minute as int,
                second as int,
                offset_seconds as int,
            ),
            r matches Some(dt) ==> dt.wf(),
    {
        match Self::utc_from_zoned_parts(year, month, day, hour, minute, second, offset_seconds) {
            Some((y, mo, d, h, mi, s)) => {
                if 1 <= y && y <= 9999 {
                    let r = Self::from_ymd_hms(y as u32, mo, d, h, mi, s);
                    proof {
                        assert(r == new_spec(
                            year as int,
                            month as int,
                            day as int,
                            hour as int,
                            minute as int,
                            second as int,
                            offset_seconds as int,
                        ));
                    }
                    r
                } else {
                    None
                }
            },
            None => None,
        }
    }

    /// A fixed instant for tests: 2013-08-06 07:11 and `modif` seconds at
    /// UTC+3, that is 04:11 UTC. Falls back to the epoch date if the zone
    /// conversion fails, which a correct calendar library never does here.
    pub fn test_time(modif: u32) -> (r: DateTime)
        requires
            modif < 60,
        ensures
            r.wf(),
            r == (match new_spec(2013, 8, 6, 7, 11, modif as int, 10800) {
                Some(dt) => dt,
                None => (DateTime {
                    year: 1970,
                    month: 1,
                    day: 1,
                    hour: 0,
                    minute: 0,
                    second: 0,
                }),
            }),
    {
        match Self::new(2013, 8, 6, 7, 11, modif, 3 * 3600) {
            Some(dt) => dt,
            None => DateTime { year: 1970, month: 1, day: 1, hour: 0, minute: 0, second: 0 },
        }
    }

    /// The RFC 2822 text of the instant, for example
    /// `Tue,  6 Aug 2013 04:11:45 +0000`.
    pub fn to_rfc2822(&self) -> (r: String)
        requires
            self.wf(),
        ensures
            r@ == rfc2822_of(*self),
    {
        let ghost wd = weekday_name(
            day_of_week(self.year as int, self.month as int, self.day as int),
        );
        let mut out = String::new();
        let h = day_of_week_exec(self.year, self.month, self.day);
        out.append(weekday_str(h));
        push_char(&mut out, ',');
        push_char(&mut out, ' ');
        let ghost e1 = wd + seq![',', ' '];
        proof {
            assert(out@ =~= e1);
        }
        if self.day < 10 {
            push_char(&mut out, ' ');
            push_char(&mut out, exec_dec_digit(self.day));
            proof {
                assert(out@ =~= e1 + day_field(self.day as int));
            }
        } else {
            push_two_digits(&mut out, self.day);
            proof {
                assert(out@ =~= e1 + day_field(self.day as int));
            }
        }
        let ghost e2 = e1 + day_field(self.day as int);
        push_char(&mut out, ' ');
        let ghost e3 = e2 + seq![' '];
        proof {
            assert(out@ =~= e3);
        }
        out.append(month_str(self.month));
        let ghost e4 = e3 + month_name(self.month as int);
        proof {
            assert(out@ =~= e4);
        }
        push_char(&mut out, ' ');
        let ghost e5 = e4 + seq![' '];
        proof {
            assert(out@ =~= e5);
        }
        push_char(&mut out, exec_dec_digit(self.year / 1000));
        push_char(&mut out, exec_dec_digit((self.year / 100) % 10));
        push_char(&mut out, exec_dec_digit((self.year / 10) % 10));
        push_char(&mut out, exec_dec_digit(self.year % 10));
        let ghost e6 = e5 + four_digits(self.year as int);
        proof {
            assert(out@ =~= e6);
        }
        push_char(&mut out, ' ');
        let ghost e7 = e6 + seq![' '];
        proof {
            assert(out@ =~= e7);
        }
        push_two_digits(&mut out, self.hour);
        let ghost e8 = e7 + two_digits(self.hour as int);
        push_char(&mut out, ':');
        let ghost e9 = e8 + seq![':'];
        proof {
            assert(out@ =~= e9);
        }
        push_two_digits(&mut out, self.minute);
        let ghost e10 = e9 + two_digits(self.minute as int);
        push_char(&mut out, ':');
        let ghost e11 = e10 + seq![':'];
        proof {
            assert(out@ =~= e11);
        }
        push_two_digits(&mut out, self.second);
        let ghost e12 = e11 + two_digits(self.second as int);
        push_char(&mut out, ' ');
        push_char(&mut out, '+');
        push_char(&mut out, '0');
        push_char(&mut out, '0');
        push_char(&mut out, '0');
        push_char(&mut out, '0');
        proof {
            assert(out@ =~= e12 + seq![' ', '+', '0', '0', '0', '0']);
            assert(rfc2822_of(*self) == e12 + seq![' ', '+', '0', '0', '0', '0']);
        }
        out
    }

    /// Writes the instant as one literal text token. Always succeeds: the
    /// rendering is ASCII by construction, so both dialects accept it.
    pub fn encode(&self, handle: &mut EncodeHandle) -> (r: Result<(), EncodeError>)
        requires
            self.wf(),
        ensures
            final(handle).mail_type_spec() == old(handle).mail_type_spec(),
            final(handle).committed() == old(handle).committed(),
            old(handle).wf() ==> final(handle).wf(),
            r is Ok,
            final(handle)@ =~= old(handle)@.push(TokenView::Text(rfc2822_of(*self))),
    {
        let text = self.to_rfc2822();
        proof {
            lemma_rfc2822_ascii(*self);
            assert forall|i: int| 0 <= i < text@.len() implies char_legal(
                #[trigger] text@[i],
                old(handle).mail_type_spec(),
            ) by {
                assert(char_legal(text@[i], MailType::Ascii));
            }
        }
        let r = handle.write_literal(text.as_str());
        proof {
            assert(r is Ok);
        }
        r
    }
}

/// Law: the timestamp rendering is a function of the instant alone — the
/// same instant always yields the same text — and follows the fixed RFC 2822
/// pattern. The fixed instant 2013-08-06T04:11:45+00:00 renders exactly as
/// `Tue,  6 Aug 2013 04:11:45 +0000`.
pub proof fn lemma_rfc2822_example()
    ensures
        rfc2822_of(
            (DateTime { year: 2013, month: 8, day: 6, hour: 4, minute: 11, second: 45 }),
        ) == "Tue,  6 Aug 2013 04:11:45 +0000"@,
{
    reveal_strlit("Tue,  6 Aug 2013 04:11:45 +0000");
    let dt = DateTime { year: 2013, month: 8, day: 6, hour: 4, minute: 11, second: 45 };
    assert(day_of_week(2013, 8, 6) == 3);
    assert(rfc2822_of(dt) =~= "Tue,  6 Aug 2013 04:11:45 +0000"@);
}

} // verus!
