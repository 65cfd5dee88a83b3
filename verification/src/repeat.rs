//! Recurrence rule for repeating tasks, and the calendar steps it takes through `chrono`.

use vstd::prelude::*;

use chrono::Datelike;
use chrono::NaiveDate;

use crate::text::{
    chars_of, dec, dec_chars, lowered, parse_u32_chars, parse_u32_spec, seq_eq_str, starts_with,
    starts_with_chars, string_of, trim, trim_lower, trim_str,
};

verus! {

/// Recurrence rule for repeating tasks.
#[derive(Clone, Copy, Debug, PartialEq, Eq, Structural)]
pub enum RepeatRule {
    Daily,
    Weekly,
    Monthly,
    Yearly,
    /// Weekdays (Mon–Fri).
    Weekdays,
    /// Every n days.
    Custom(u32),
}

// ---------------------------------------------------------------------------------------------
// The proleptic Gregorian calendar of `chrono::NaiveDate`.

/// First year `NaiveDate` represents.
pub open spec fn min_year() -> int {
    -262143
}

/// Last year `NaiveDate` represents.
pub open spec fn max_year() -> int {
    262142
}

pub open spec fn is_leap_year(y: int) -> bool {
    (y % 4 == 0 && y % 100 != 0) || y % 400 == 0
}

pub open spec fn days_in_month(y: int, m: int) -> int {
    if m == 2 {
        if is_leap_year(y) {
            29
        } else {
            28
        }
    } else if m == 4 || m == 6 || m == 9 || m == 11 {
        30
    } else {
        31
    }
}

/// A (year, month, day) triple that `NaiveDate` represents.
pub open spec fn valid_ymd(d: (int, int, int)) -> bool {
    &&& min_year() <= d.0 <= max_year()
    &&& 1 <= d.1 <= 12
    &&& 1 <= d.2 <= days_in_month(d.0, d.1)
}

/// The next calendar day, if representable.
pub open spec fn next_day(d: (int, int, int)) -> Option<(int, int, int)> {
    if d.2 < days_in_month(d.0, d.1) {
        Some((d.0, d.1, d.2 + 1))
    } else if d.1 < 12 {
        Some((d.0, d.1 + 1, 1))
    } else if d.0 < max_year() {
        Some((d.0 + 1, 1, 1))
    } else {
        None
    }
}

/// `n` days after `d`, if representable.
pub open spec fn add_days(d: (int, int, int), n: nat) -> Option<(int, int, int)>
    decreases n,
{
    if n == 0 {
        Some(d)
    } else {
        match next_day(d) {
            None => None,
            Some(e) => add_days(e, (n - 1) as nat),
        }
    }
}

/// Days since 1970-01-01 (negative before).
pub open spec fn days_from_civil(d: (int, int, int)) -> int {
    let y = if d.1 <= 2 {
        d.0 - 1
    } else {
        d.0
    };
    let era = y / 400;
    let yoe = y - era * 400;
    let mp = if d.1 > 2 {
        d.1 - 3
    } else {
        d.1 + 9
    };
    let doy = (153 * mp + 2) / 5 + d.2 - 1;
    let doe = yoe * 365 + yoe / 4 - yoe / 100 + doy;
    era * 146097 + doe - 719468
}

/// Day of the week counted from Monday = 0 (1970-01-01 was a Thursday).
pub open spec fn weekday_from_monday(d: (int, int, int)) -> int {
    (days_from_civil(d) + 3) % 7
}

/// `s` left-padded with `'0'` to at least `w` characters.
pub open spec fn zero_pad(s: Seq<char>, w: nat) -> Seq<char> {
    if s.len() >= w {
        s
    } else {
        Seq::new((w - s.len()) as nat, |i: int| '0') + s
    }
}

/// The year as `chrono` prints it: four digits for 0..=9999, else sign and at least four digits.
pub open spec fn year_text(y: int) -> Seq<char> {
    if 0 <= y <= 9999 {
        zero_pad(dec(y as nat), 4)
    } else if y < 0 {
        seq!['-'] + zero_pad(dec((-y) as nat), 4)
    } else {
        seq!['+'] + zero_pad(dec(y as nat), 4)
    }
}

/// `YYYY-MM-DD`, the `Display` text of a `NaiveDate`.
pub open spec fn date_text(d: (int, int, int)) -> Seq<char> {
    year_text(d.0) + seq!['-'] + zero_pad(dec(d.1 as nat), 2) + seq!['-'] + zero_pad(
        dec(d.2 as nat),
        2,
    )
}

/// What `NaiveDate::parse_from_str(s, "%Y-%m-%d")` yields for `s`, as (year, month, day).
pub uninterp spec fn parsed_ymd(s: Seq<char>) -> Option<(int, int, int)>;

#[verifier::external_type_specification]
#[verifier::external_body]
pub struct ExNaiveDate(NaiveDate);

/// A calendar date together with the `NaiveDate` that represents it.
struct Date {
    year: i32,
    month: u32,
    day: u32,
    inner: NaiveDate,
}

spec fn ymd(d: Date) -> (int, int, int) {
    (d.year as int, d.month as int, d.day as int)
}

impl Date {
    /// The year, month and day form a date `NaiveDate` represents (the wrappers that build a
    /// `Date` take them from its `inner` date).
    #[verifier::type_invariant]
    spec fn date_valid(self) -> bool {
        valid_ymd(ymd(self))
    }
}

/// `NaiveDate::parse_from_str(s, "%Y-%m-%d")`; a parsed date is a valid calendar date.
#[verifier::external_body]
fn parse_date(s: &str) -> (r: Option<Date>)
    ensures
        r is Some <==> parsed_ymd(s@) is Some,
        r matches Some(d) ==> ymd(d) == parsed_ymd(s@)->0 && valid_ymd(ymd(d)),
{
    match NaiveDate::parse_from_str(s, "%Y-%m-%d") {
        Ok(nd) => Some(Date { year: nd.year(), month: nd.month(), day: nd.day(), inner: nd }),
        Err(_) => None,
    }
}

/// `NaiveDate::succ_opt`: the next calendar day, `None` after the last representable date.
#[verifier::external_body]
fn date_succ(d: &Date) -> (r: Option<Date>)
    requires
        valid_ymd(ymd(*d)),
    ensures
        r is Some <==> next_day(ymd(*d)) is Some,
        r matches Some(e) ==> ymd(e) == next_day(ymd(*d))->0 && valid_ymd(ymd(e)),
{
    match d.inner.succ_opt() {
        Some(nd) => Some(Date { year: nd.year(), month: nd.month(), day: nd.day(), inner: nd }),
        None => None,
    }
}

/// `NaiveDate + Duration::days(n)`: `n` calendar days later (it panics when out of range).
#[verifier::external_body]
fn date_plus_days(d: &Date, n: u32) -> (r: Date)
    requires
        valid_ymd(ymd(*d)),
        n <= i32::MAX,
        add_days(ymd(*d), n as nat) is Some,
    ensures
        ymd(r) == add_days(ymd(*d), n as nat)->0,
        valid_ymd(ymd(r)),
{
    let nd = d.inner + chrono::Duration::days(n as i64);
    Date { year: nd.year(), month: nd.month(), day: nd.day(), inner: nd }
}

/// `NaiveDate::from_ymd_opt`: `Some` exactly for representable calendar dates.
#[verifier::external_body]
fn date_from_ymd(y: i32, m: u32, d: u32) -> (r: Option<Date>)
    ensures
        r is Some <==> valid_ymd((y as int, m as int, d as int)),
        r matches Some(e) ==> ymd(e) == (y as int, m as int, d as int),
{
    match NaiveDate::from_ymd_opt(y, m, d) {
        Some(nd) => Some(Date { year: y, month: m, day: d, inner: nd }),
        None => None,
    }
}

/// `Datelike::weekday` as `num_days_from_monday` (Monday = 0 … Sunday = 6).
#[verifier::external_body]
fn date_weekday(d: &Date) -> (w: u32)
    requires
        valid_ymd(ymd(*d)),
    ensures
        w as int == weekday_from_monday(ymd(*d)),
{
    d.inner.weekday().num_days_from_monday()
}

/// `NaiveDate::to_string`: the `YYYY-MM-DD` text.
#[verifier::external_body]
fn format_date(d: &Date) -> (s: String)
    requires
        valid_ymd(ymd(*d)),
    ensures
        s@ == date_text(ymd(*d)),
{
    d.inner.to_string()
}

// ---------------------------------------------------------------------------------------------

/// From `d`, walk up to `k` days forward until a day Monday–Friday.
pub open spec fn next_weekday_within(d: (int, int, int), k: nat) -> Option<(int, int, int)>
    decreases k,
{
    if k == 0 || weekday_from_monday(d) < 5 {
        Some(d)
    } else {
        match next_day(d) {
            None => None,
            Some(e) => next_weekday_within(e, (k - 1) as nat),
        }
    }
}

/// The date one recurrence step after the valid date `d`.
pub open spec fn step_date(rule: RepeatRule, d: (int, int, int)) -> Option<(int, int, int)> {
    match rule {
        RepeatRule::Daily => next_day(d),
        RepeatRule::Weekly => add_days(d, 7),
        RepeatRule::Monthly => {
            let (ny, nm) = if d.1 == 12 {
                (d.0 + 1, 1int)
            } else {
                (d.0, d.1 + 1)
            };
            let nd = if d.2 < 28 {
                d.2
            } else {
                28
            };
            if valid_ymd((ny, nm, nd)) {
                Some((ny, nm, nd))
            } else {
                None
            }
        },
        RepeatRule::Yearly => if valid_ymd((d.0 + 1, d.1, d.2)) {
            Some((d.0 + 1, d.1, d.2))
        } else {
            None
        },
        RepeatRule::Weekdays => match next_day(d) {
            None => None,
            Some(e) => next_weekday_within(e, 7),
        },
        RepeatRule::Custom(n) => add_days(d, n as nat),
    }
}

/// The step stays within the dates `NaiveDate` represents where the step is an addition of
/// days (there the calendar arithmetic panics rather than returning `None`).
pub open spec fn step_in_range(rule: RepeatRule, d: (int, int, int)) -> bool {
    match rule {
        RepeatRule::Weekly => add_days(d, 7) is Some,
        RepeatRule::Custom(n) => n <= i32::MAX && add_days(d, n as nat) is Some,
        _ => true,
    }
}

/// `next_due_date` is defined on `from` (it does not panic).
pub open spec fn next_due_defined(rule: RepeatRule, from: Seq<char>) -> bool {
    match parsed_ymd(trim(from)) {
        None => true,
        Some(d) => step_in_range(rule, d),
    }
}

/// The text `next_due_date` returns for `from`.
pub open spec fn next_due_spec(rule: RepeatRule, from: Seq<char>) -> Option<Seq<char>> {
    match parsed_ymd(trim(from)) {
        None => None,
        Some(d) => match step_date(rule, d) {
            None => None,
            Some(e) => Some(date_text(e)),
        },
    }
}

/// What `"…".parse::<RepeatRule>()` gives.
pub open spec fn parse_rule_spec(s: Seq<char>) -> Option<RepeatRule> {
    let t = lowered(trim(s));
    if t == "daily"@ {
        Some(RepeatRule::Daily)
    } else if t == "weekly"@ {
        Some(RepeatRule::Weekly)
    } else if t == "monthly"@ {
        Some(RepeatRule::Monthly)
    } else if t == "yearly"@ {
        Some(RepeatRule::Yearly)
    } else if t == "weekdays"@ {
        Some(RepeatRule::Weekdays)
    } else if starts_with(t, "custom:"@) {
        match parse_u32_spec(t.skip(7)) {
            Some(n) => Some(RepeatRule::Custom(n)),
            None => None,
        }
    } else if t.len() > 0 && t.last() == 'd' {
        match parse_u32_spec(t.drop_last()) {
            Some(n) => Some(RepeatRule::Custom(n)),
            None => None,
        }
    } else if t.len() > 0 && t.last() == 'w' {
        match parse_u32_spec(t.drop_last()) {
            Some(n) => if n * 7 <= u32::MAX {
                Some(RepeatRule::Custom((n * 7) as u32))
            } else {
                None
            },
            None => None,
        }
    } else {
        None
    }
}

/// The display text of a rule.
pub open spec fn rule_text(r: RepeatRule) -> Seq<char> {
    match r {
        RepeatRule::Daily => "daily"@,
        RepeatRule::Weekly => "weekly"@,
        RepeatRule::Monthly => "monthly"@,
        RepeatRule::Yearly => "yearly"@,
        RepeatRule::Weekdays => "weekdays"@,
        RepeatRule::Custom(n) => "custom:"@ + dec(n as nat),
    }
}

impl RepeatRule {
    /// Whether the step from `from` stays in range; `None` when `from` is not a date.
    pub fn step_defined_for(&self, from: &str) -> (r: bool)
        ensures
            r == next_due_defined(*self, from@),
    {
        let t = trim_str(from);
        let ts = string_of(&t);
        match parse_date(ts.as_str()) {
            None => true,
            Some(base) => match self {
                RepeatRule::Weekly => match date_checked_plus(&base, 7) {
                    Some(_) => true,
                    None => false,
                },
                RepeatRule::Custom(n) => {
                    if *n > 2147483647u32 {
                        false
                    } else {
                        match date_checked_plus(&base, *n) {
                            Some(_) => true,
                            None => false,
                        }
                    }
                },
                _ => true,
            },
        }
    }

    /// The next due date (`YYYY-MM-DD`) one step after the date `from`, or `None` when `from`
    /// is not a date or the step leaves the calendar.
    pub fn next_due_date(&self, from: &str) -> (r: Option<String>)
        requires
            next_due_defined(*self, from@),
        ensures
            r is Some <==> next_due_spec(*self, from@) is Some,
            r matches Some(s) ==> s@ == next_due_spec(*self, from@)->0,
    {
        let t = trim_str(from);
        let ts = string_of(&t);
        let base = match parse_date(ts.as_str()) {
            None => return None,
            Some(b) => b,
        };
        match self.step_from(&base) {
            None => None,
            Some(next) => Some(format_date(&next)),
        }
    }

    /// The date one recurrence step after the date (`y`, `m`, `d`): `None` when that is not a
    /// calendar date or the step leaves the calendar.
    pub fn step_ymd(&self, y: i32, m: u32, d: u32) -> (r: Option<(i32, u32, u32)>)
        requires
            valid_ymd((y as int, m as int, d as int)) ==> step_in_range(*self, (y as int, m as int, d as int)),
        ensures
            match r {
                Some(e) => valid_ymd((y as int, m as int, d as int)) && step_date(
                    *self,
                    (y as int, m as int, d as int),
                ) == Some((e.0 as int, e.1 as int, e.2 as int)),
                None => !valid_ymd((y as int, m as int, d as int)) || step_date(
                    *self,
                    (y as int, m as int, d as int),
                ) is None,
            },
    {
        let base = match date_from_ymd(y, m, d) {
            None => return None,
            Some(b) => b,
        };
        match self.step_from(&base) {
            None => None,
            Some(n) => Some((n.year, n.month, n.day)),
        }
    }

    /// One recurrence step after `base`.
    fn step_from(&self, base: &Date) -> (r: Option<Date>)
        requires
            valid_ymd(ymd(*base)),
            step_in_range(*self, ymd(*base)),
        ensures
            r is Some <==> step_date(*self, ymd(*base)) is Some,
            r matches Some(e) ==> ymd(e) == step_date(*self, ymd(*base))->0 && valid_ymd(ymd(e)),
    {
        match self {
            RepeatRule::Daily => date_succ(base),
            RepeatRule::Weekly => Some(date_plus_days(base, 7)),
            RepeatRule::Monthly => {
                let (ny, nm) = if base.month == 12 {
                    (base.year + 1, 1u32)
                } else {
                    (base.year, base.month + 1)
                };
                let nd = if base.day < 28 {
                    base.day
                } else {
                    28
                };
                date_from_ymd(ny, nm, nd)
            },
            RepeatRule::Yearly => date_from_ymd(base.year + 1, base.month, base.day),
            RepeatRule::Weekdays => match date_succ(base) {
                None => None,
                Some(d) => next_weekday(d),
            },
            RepeatRule::Custom(n) => Some(date_plus_days(base, *n)),
        }
    }

    /// Parses `daily`, `weekly`, `monthly`, `yearly`, `weekdays`, `custom:N`, `Nd` (every N days)
    /// or `Nw` (every N weeks), trimmed and case-insensitive.
    pub fn parse(s: &str) -> (r: Option<RepeatRule>)
        ensures
            r == parse_rule_spec(s@),
    {
        let t = trim_lower(s);
        if seq_eq_str(&t, "daily") {
            Some(RepeatRule::Daily)
        } else if seq_eq_str(&t, "weekly") {
            Some(RepeatRule::Weekly)
        } else if seq_eq_str(&t, "monthly") {
            Some(RepeatRule::Monthly)
        } else if seq_eq_str(&t, "yearly") {
            Some(RepeatRule::Yearly)
        } else if seq_eq_str(&t, "weekdays") {
            Some(RepeatRule::Weekdays)
        } else if starts_with_chars(&t, &chars_of("custom:")) {
            proof {
                reveal_strlit("custom:");
            }
            let rest = crate::text::copy_range(&t, 7, t.len());
            assert(rest@ =~= t@.skip(7));
            match parse_u32_chars(&rest) {
                Some(n) => Some(RepeatRule::Custom(n)),
                None => None,
            }
        } else if t.len() > 0 && t[t.len() - 1] == 'd' {
            let rest = crate::text::copy_range(&t, 0, t.len() - 1);
            assert(rest@ =~= t@.drop_last());
            match parse_u32_chars(&rest) {
                Some(n) => Some(RepeatRule::Custom(n)),
                None => None,
            }
        } else if t.len() > 0 && t[t.len() - 1] == 'w' {
            let rest = crate::text::copy_range(&t, 0, t.len() - 1);
            assert(rest@ =~= t@.drop_last());
            match parse_u32_chars(&rest) {
                Some(n) => match n.checked_mul(7) {
                    Some(m) => Some(RepeatRule::Custom(m)),
                    None => None,
                },
                None => None,
            }
        } else {
            None
        }
    }

    /// The display text: `daily`, …, `weekdays` or `custom:N`.
    pub fn to_display_string(&self) -> (r: String)
        ensures
            r@ == rule_text(*self),
    {
        let v = match self {
            RepeatRule::Daily => chars_of("daily"),
            RepeatRule::Weekly => chars_of("weekly"),
            RepeatRule::Monthly => chars_of("monthly"),
            RepeatRule::Yearly => chars_of("yearly"),
            RepeatRule::Weekdays => chars_of("weekdays"),
            RepeatRule::Custom(n) => {
                let mut v = chars_of("custom:");
                let mut d = dec_chars(*n as u64);
                v.append(&mut d);
                v
            },
        };
        string_of(&v)
    }
}

/// `NaiveDate::checked_add_signed(Duration::days(n))`: `n` days later, `None` when out of range.
#[verifier::external_body]
fn date_checked_plus(d: &Date, n: u32) -> (r: Option<Date>)
    requires
        valid_ymd(ymd(*d)),
        n <= i32::MAX,
    ensures
        r is Some <==> add_days(ymd(*d), n as nat) is Some,
        r matches Some(e) ==> ymd(e) == add_days(ymd(*d), n as nat)->0 && valid_ymd(ymd(e)),
{
    match d.inner.checked_add_signed(chrono::Duration::days(n as i64)) {
        Some(nd) => Some(Date { year: nd.year(), month: nd.month(), day: nd.day(), inner: nd }),
        None => None,
    }
}

/// From `d`, up to seven days forward to the first day Monday–Friday.
fn next_weekday(first: Date) -> (r: Option<Date>)
    requires
        valid_ymd(ymd(first)),
    ensures
        r is Some <==> next_weekday_within(ymd(first), 7) is Some,
        r matches Some(e) ==> ymd(e) == next_weekday_within(ymd(first), 7)->0 && valid_ymd(ymd(e)),
{
    let mut d = first;
    let ghost start = ymd(first);
    let mut k: u32 = 0;
    while k < 7
        invariant
            k <= 7,
            valid_ymd(ymd(d)),
            start == ymd(first),
            next_weekday_within(start, 7) == next_weekday_within(ymd(d), (7 - k) as nat),
        decreases 7 - k,
    {
        if date_weekday(&d) < 5 {
            return Some(d);
        }
        d = match date_succ(&d) {
            None => return None,
            Some(e) => e,
        };
        k = k + 1;
    }
    Some(d)
}

impl core::str::FromStr for RepeatRule {
    type Err = ();

    fn from_str(s: &str) -> (r: Result<RepeatRule, ()>)
        ensures
            r == (match parse_rule_spec(s@) {
                Some(rule) => Ok::<RepeatRule, ()>(rule),
                None => Err::<RepeatRule, ()>(()),
            }),
    {
        match RepeatRule::parse(s) {
            Some(r) => Ok(r),
            None => Err(()),
        }
    }
}

} // verus!
