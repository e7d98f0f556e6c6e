//! The release calendar: which week a version is aimed at, and what the
//! tags say actually happened in it.
//!
//! Slippage is not a state anyone sets. It is the difference between the
//! week that was planned and the week the tag is in. The calendar arithmetic
//! itself (ISO weeks, adding days, counting them) is jiff's; what is built
//! on it here is verified.
use vstd::prelude::*;
use jiff::civil::{Date, ISOWeekDate, Weekday};
use crate::number::{padded, parse_in, parsed, push_padded};
use crate::text::{
    append, append_str, chars_of, chars_of_string, drop_tail, dropped_tail, lower_all, lower_text, same_str, split_once_by, split_once_class, trim,
    trimmed, Class,
};

verus! {

/// A day of the proleptic Gregorian calendar.
#[derive(Debug, Clone, Copy, PartialEq, Eq, Structural)]
pub struct Day {
    pub year: i16,
    pub month: i8,
    pub day: i8,
}

pub open spec fn is_leap(y: int) -> bool {
    y % 4 == 0 && (y % 100 != 0 || y % 400 == 0)
}

pub open spec fn month_days(y: int, m: int) -> int {
    if m == 2 {
        if is_leap(y) {
            29
        } else {
            28
        }
    } else if m == 4 || m == 6 || m == 9 || m == 11 {
        30
    } else {
        31
    }
}

/// A day jiff can hold: years -9999 to 9999, and a day its month has.
pub open spec fn is_civil(d: Day) -> bool {
    &&& -9999 <= d.year <= 9999
    &&& 1 <= d.month <= 12
    &&& 1 <= d.day <= month_days(d.year as int, d.month as int)
}

pub open spec fn triple(d: Day) -> (i16, i8, i8) {
    (d.year, d.month, d.day)
}

pub open spec fn day_of(t: (i16, i8, i8)) -> Day {
    Day { year: t.0, month: t.1, day: t.2 }
}

pub open spec fn opt_day(o: Option<(i16, i8, i8)>) -> Option<Day> {
    match o {
        Some(t) => Some(day_of(t)),
        None => None,
    }
}

/// The ISO year and week a day falls in (`ISOWeekDate::from_date`).
pub uninterp spec fn iso_week_of(year: i16, month: i8, day: i8) -> (i16, i8);

/// The Monday, or with `friday` the Friday, of an ISO week, when the year
/// has that week (`ISOWeekDate::new(..).date()`).
pub uninterp spec fn iso_week_day(year: i16, week: i8, friday: bool) -> Option<(i16, i8, i8)>;

/// A day moved by a number of hours (`Date::checked_add` with a
/// `SignedDuration`), when the result is a day jiff can hold.
pub uninterp spec fn date_plus_hours(year: i16, month: i8, day: i8, hours: i64) -> Option<(i16, i8, i8)>;

/// Whole days from one day to another (`Date::since`, then
/// `Span::get_days`).
pub uninterp spec fn days_from_to(from: (i16, i8, i8), to: (i16, i8, i8)) -> Option<i32>;

/// The day a text names, as jiff reads a date (`str::parse::<Date>`).
pub uninterp spec fn date_in(text: Seq<char>) -> Option<(i16, i8, i8)>;

/// The ISO week of a day, by `ISOWeekDate::from_date`, which documents the
/// year as lying in -9999..=9999 and the week in 1..=53.
#[verifier::external_body]
fn iso_week(d: Day) -> (r: Week)
    requires
        is_civil(d),
    ensures
        (r.year, r.week) == iso_week_of(d.year, d.month, d.day),
        -9999 <= r.year <= 9999,
        1 <= r.week <= 53,
{
    let iso = ISOWeekDate::from_date(Date::constant(d.year, d.month, d.day));
    Week { year: iso.year(), week: iso.week() }
}

/// `ISOWeekDate::new(year, week, Monday or Friday)` and its `date()`: `None`
/// when the year has no such week. A `Date` is always a day jiff can hold.
#[verifier::external_body]
fn week_day(year: i16, week: i8, friday: bool) -> (r: Option<Day>)
    ensures
        r == opt_day(iso_week_day(year, week, friday)),
        r matches Some(d) ==> is_civil(d),
{
    let weekday = if friday {
        Weekday::Friday
    } else {
        Weekday::Monday
    };
    match ISOWeekDate::new(year, week, weekday) {
        Ok(iso) => {
            let date = iso.date();
            Some(Day { year: date.year(), month: date.month(), day: date.day() })
        },
        Err(_) => None,
    }
}

/// `Date::checked_add` of `SignedDuration::from_hours(hours)`; the duration
/// panics outside the hours that fit an `i64` of seconds, which `requires`
/// leaves out.
#[verifier::external_body]
fn plus_hours(d: Day, hours: i64) -> (r: Option<Day>)
    requires
        is_civil(d),
        -2562047788015215 <= hours <= 2562047788015215,
    ensures
        r == opt_day(date_plus_hours(d.year, d.month, d.day, hours)),
        r matches Some(x) ==> is_civil(x),
{
    match Date::constant(d.year, d.month, d.day).checked_add(jiff::SignedDuration::from_hours(hours)) {
        Ok(date) => Some(Day { year: date.year(), month: date.month(), day: date.day() }),
        Err(_) => None,
    }
}

/// `to.since(from)` in whole days (`Span::get_days`).
#[verifier::external_body]
fn days_between(from: Day, to: Day) -> (r: Option<i32>)
    requires
        is_civil(from),
        is_civil(to),
    ensures
        r == days_from_to(triple(from), triple(to)),
{
    match Date::constant(to.year, to.month, to.day).since(Date::constant(from.year, from.month, from.day)) {
        Ok(span) => Some(span.get_days()),
        Err(_) => None,
    }
}

/// A date read from text by jiff (`str::parse::<Date>`).
#[verifier::external_body]
fn read_date(text: &str) -> (r: Option<Day>)
    ensures
        r == opt_day(date_in(text@)),
        r matches Some(d) ==> is_civil(d),
{
    match text.parse::<Date>() {
        Ok(date) => Some(Day { year: date.year(), month: date.month(), day: date.day() }),
        Err(_) => None,
    }
}

/// A week of the calendar, as ISO-8601 spells it: `2026-W37`.
#[derive(Debug, Clone, Copy, PartialEq, Eq, Structural, PartialOrd, Ord)]
pub struct Week {
    pub year: i16,
    pub week: i8,
}

/// Weeks in the order of time: by year, then by week.
pub open spec fn earlier(a: Week, b: Week) -> bool {
    a.year < b.year || (a.year == b.year && a.week < b.week)
}

pub open spec fn week_of(d: Day) -> Week {
    Week { year: iso_week_of(d.year, d.month, d.day).0, week: iso_week_of(d.year, d.month, d.day).1 }
}

/// The day `Date::default()` gives.
pub open spec fn day_zero() -> Day {
    Day { year: 0, month: 1, day: 1 }
}

pub open spec fn monday_of(w: Week) -> Day {
    match iso_week_day(w.year, w.week, false) {
        Some(t) => day_of(t),
        None => day_zero(),
    }
}

pub open spec fn friday_of(w: Week) -> Day {
    match iso_week_day(w.year, w.week, true) {
        Some(t) => day_of(t),
        None => monday_of(w),
    }
}

/// How many hours `SignedDuration::from_hours` can take.
pub open spec fn hours_bound() -> int {
    2562047788015215
}

/// The week `n` weeks on, counted through the days from this week's Monday.
pub open spec fn week_plus(w: Week, n: int) -> Week {
    let m = monday_of(w);
    match date_plus_hours(m.year, m.month, m.day, (168 * n) as i64) {
        Some(t) => week_of(day_of(t)),
        None => w,
    }
}

/// Division that drops the remainder toward zero, as `/` on integers does.
pub open spec fn toward_zero(n: int, d: int) -> int {
    if n >= 0 {
        n / d
    } else {
        -((-n) / d)
    }
}

/// Whole weeks from the Monday of `a` to the Monday of `b`.
pub open spec fn weeks_between(a: Week, b: Week) -> int {
    match days_from_to(triple(monday_of(a)), triple(monday_of(b))) {
        Some(d) => toward_zero(d as int, 7),
        None => 0,
    }
}

/// The year and week a text names, before they are checked against the
/// calendar: `2026-W37`, or `2026-W7`, or `2026w7`.
pub open spec fn week_numbers(text: Seq<char>) -> Option<(int, int)> {
    match split_once_class(trim(text), Class::Either('W', 'w')) {
        Some((y, w)) => match (parsed(drop_tail(y, Class::Is('-')), -32768, 32767), parsed(w, -128, 127)) {
            (Some(a), Some(b)) => Some((a, b)),
            _ => None,
        },
        None => None,
    }
}

/// Why a text is not a week.
#[derive(Debug, Clone)]
pub enum WeekError {
    /// Not written as a year, a `W` and a week number.
    Malformed(String),
    /// A week the year does not have.
    NotInYear(String, i16),
}

/// The text a week is written as: `2026-W37`.
pub open spec fn week_text(w: Week) -> Seq<char> {
    padded(w.year as int, 4) + "-W"@ + padded(w.week as int, 2)
}

/// The text a day is written as: `2026-09-07`.
pub open spec fn day_text(d: Day) -> Seq<char> {
    let year = if d.year < 0 {
        "-00"@ + padded(-(d.year as int), 4)
    } else {
        padded(d.year as int, 4)
    };
    year + "-"@ + padded(d.month as int, 2) + "-"@ + padded(d.day as int, 2)
}

impl Day {
    /// The day as jiff prints it.
    pub fn to_text(&self) -> (r: String)
        ensures
            r@ == day_text(*self),
    {
        let mut out: Vec<char> = Vec::new();
        if self.year < 0 {
            crate::text::append_str(&mut out, "-00");
            push_padded(&mut out, -(self.year as i64), 4);
        } else {
            push_padded(&mut out, self.year as i64, 4);
        }
        crate::text::append_str(&mut out, "-");
        push_padded(&mut out, self.month as i64, 2);
        crate::text::append_str(&mut out, "-");
        push_padded(&mut out, self.day as i64, 2);
        proof {
            reveal_strlit("-00");
            reveal_strlit("-");
        }
        crate::text::text_of(&out)
    }
}

/// Today by the system clock, in the machine's time zone
/// (`Zoned::now().date()`). Which day that is depends on the clock and the
/// time zone, so nothing is said of it but that it is a day of jiff's
/// calendar.
#[verifier::external_body]
fn today_local() -> (r: Day)
    ensures
        is_civil(r),
{
    let d = jiff::Zoned::now().date();
    Day { year: d.year(), month: d.month(), day: d.day() }
}

impl Week {
    /// The week a day falls in.
    pub fn of(date: Day) -> (r: Week)
        requires
            is_civil(date),
        ensures
            r == week_of(date),
            1 <= r.week <= 53,
    {
        iso_week(date)
    }

    /// The week today falls in, by the system clock: the week of whatever
    /// day the clock gives.
    pub fn current() -> (r: Week)
        ensures
            exists|d: Day| is_civil(d) && r == week_of(d),
            1 <= r.week <= 53,
    {
        let d = today_local();
        Week::of(d)
    }

    /// The week a recorded date (`YYYY-MM-DD`, possibly with a time after
    /// it) falls in; `None` when the text before any `T` or space is not a
    /// date.
    pub fn of_recorded(stamp: &str) -> (r: Option<Week>)
        ensures
            ({
                let day = crate::text::split_class(stamp@, Class::Either('T', ' '))[0];
                match date_in(day) {
                    Some(t) => r == Some(week_of(day_of(t))),
                    None => r is None,
                }
            }),
    {
        let s = chars_of(stamp);
        let pieces = crate::text::split_by(&s, Class::Either('T', ' '));
        let first = crate::text::text_of(&pieces[0]);
        match read_date(first.as_str()) {
            Some(d) => Some(iso_week(d)),
            None => None,
        }
    }

    /// Reads `2026-W37`, and also the `2026-W7` a person types; refuses a
    /// week the year does not have.
    pub fn parse(text: &str) -> (r: Result<Week, WeekError>)
        ensures
            match week_numbers(text@) {
                None => r matches Err(WeekError::Malformed(t)) && t@ == text@,
                Some((y, w)) => if iso_week_day(y as i16, w as i8, false) is Some {
                    r == Ok::<Week, WeekError>(Week { year: y as i16, week: w as i8 })
                } else {
                    r matches Err(WeekError::NotInYear(t, year)) && t@ == text@ && year == y
                },
            },
    {
        let s = chars_of(text);
        let t = trimmed(&s);
        let (year, week) = match split_once_by(&t, Class::Either('W', 'w')) {
            Some(parts) => parts,
            None => {
                return Err(WeekError::Malformed(text.to_owned()));
            },
        };
        let year = dropped_tail(&year, Class::Is('-'));
        let (y, w) = match (parse_in(&year, -32768, 32767), parse_in(&week, -128, 127)) {
            (Some(y), Some(w)) => (y as i16, w as i8),
            _ => {
                return Err(WeekError::Malformed(text.to_owned()));
            },
        };
        match week_day(y, w, false) {
            Some(_) => Ok(Week { year: y, week: w }),
            None => Err(WeekError::NotInYear(text.to_owned(), y)),
        }
    }

    /// The Monday this week starts on; the day `Date::default` gives for a
    /// week the year does not have.
    pub fn monday(self) -> (r: Day)
        ensures
            r == monday_of(self),
            is_civil(r),
    {
        match week_day(self.year, self.week, false) {
            Some(d) => d,
            None => Day { year: 0, month: 1, day: 1 },
        }
    }

    /// The Friday of this week - the day the line releases on.
    pub fn friday(self) -> (r: Day)
        ensures
            r == friday_of(self),
            is_civil(r),
    {
        match week_day(self.year, self.week, true) {
            Some(d) => d,
            None => self.monday(),
        }
    }

    /// The week `n` weeks after this one, counted through the calendar so
    /// that a 53-week year does not lose a week; this week when the count
    /// runs off the calendar.
    pub fn plus(self, n: i64) -> (r: Week)
        requires
            -hours_bound() <= 168 * n <= hours_bound(),
        ensures
            r == week_plus(self, n as int),
    {
        let m = self.monday();
        let hours: i64 = 168 * n;
        match plus_hours(m, hours) {
            Some(d) => iso_week(d),
            None => self,
        }
    }

    /// Whole weeks from this week to `other`, negative when `other` is
    /// earlier.
    pub fn until(self, other: Week) -> (r: i64)
        ensures
            r == weeks_between(self, other),
    {
        let days: i64 = match days_between(self.monday(), other.monday()) {
            Some(d) => d as i64,
            None => 0,
        };
        if days >= 0 {
            days / 7
        } else {
            -((-days) / 7)
        }
    }

    /// The week as ISO-8601 writes it.
    pub fn to_text(&self) -> (r: String)
        ensures
            r@ == week_text(*self),
    {
        let mut out: Vec<char> = Vec::new();
        push_padded(&mut out, self.year as i64, 4);
        crate::text::append_str(&mut out, "-W");
        push_padded(&mut out, self.week as i64, 2);
        crate::text::text_of(&out)
    }
}

/// How fast a project is meant to release, and how much of the line's
/// attention it gets.
#[derive(Debug, Clone, Copy, PartialEq, Eq, Structural, PartialOrd, Ord)]
pub enum Tier {
    A,
    B,
    C,
    /// Worked on when asked, and deliberately not in the rotation.
    Out,
}

pub open spec fn tier_rank(t: Tier) -> int {
    match t {
        Tier::A => 0,
        Tier::B => 1,
        Tier::C => 2,
        Tier::Out => 3,
    }
}

/// The tier a word names, whatever its case and the space around it.
pub open spec fn tier_named(text: Seq<char>) -> Option<Tier> {
    let t = lower_all(trim(text));
    if t == "a"@ {
        Some(Tier::A)
    } else if t == "b"@ {
        Some(Tier::B)
    } else if t == "c"@ {
        Some(Tier::C)
    } else if t == "out"@ || t == "none"@ {
        Some(Tier::Out)
    } else {
        None
    }
}

pub open spec fn tier_text(t: Tier) -> Seq<char> {
    match t {
        Tier::A => "A"@,
        Tier::B => "B"@,
        Tier::C => "C"@,
        Tier::Out => "out"@,
    }
}

pub open spec fn tier_rhythm(t: Tier) -> Option<u32> {
    match t {
        Tier::A => Some(2u32),
        Tier::B => Some(4u32),
        Tier::C => Some(6u32),
        Tier::Out => None,
    }
}

/// A word that names no tier.
#[derive(Debug, Clone)]
pub struct TierError {
    pub text: String,
}

impl Tier {
    pub fn parse(text: &str) -> (r: Result<Tier, TierError>)
        ensures
            match tier_named(text@) {
                Some(t) => r == Ok::<Tier, TierError>(t),
                None => r matches Err(e) && e.text@ == text@,
            },
    {
        let s = chars_of(text);
        let t = lower_text(&trimmed(&s));
        if same_str(&t, "a") {
            Ok(Tier::A)
        } else if same_str(&t, "b") {
            Ok(Tier::B)
        } else if same_str(&t, "c") {
            Ok(Tier::C)
        } else if same_str(&t, "out") || same_str(&t, "none") {
            Ok(Tier::Out)
        } else {
            Err(TierError { text: text.to_owned() })
        }
    }

    pub fn as_str(self) -> (r: &'static str)
        ensures
            r@ == tier_text(self),
    {
        match self {
            Tier::A => "A",
            Tier::B => "B",
            Tier::C => "C",
            Tier::Out => "out",
        }
    }

    /// What the tier means, in the words the calendar used.
    pub fn describe(self) -> (r: &'static str)
        ensures
            r@ == (match self {
                Tier::A => "carrying - released, in the registries, used every day"@,
                Tier::B => "growing - the code works, the circuit is not closed"@,
                Tier::C => "declared - a name and a plan, no product yet"@,
                Tier::Out => "out of the rotation - worked on when asked"@,
            }),
    {
        match self {
            Tier::A => "carrying - released, in the registries, used every day",
            Tier::B => "growing - the code works, the circuit is not closed",
            Tier::C => "declared - a name and a plan, no product yet",
            Tier::Out => "out of the rotation - worked on when asked",
        }
    }

    /// The rhythm a tier keeps when nobody sets one, in weeks between
    /// releases; `Out` has none.
    pub fn default_rhythm(self) -> (r: Option<u32>)
        ensures
            r == tier_rhythm(self),
    {
        match self {
            Tier::A => Some(2),
            Tier::B => Some(4),
            Tier::C => Some(6),
            Tier::Out => None,
        }
    }
}

/// A tier's name reads back as the same tier.
pub proof fn law_tier_names_read_back(t: Tier)
    ensures
        tier_named(tier_text(t)) == Some(t),
{
    reveal_strlit("A");
    reveal_strlit("B");
    reveal_strlit("C");
    reveal_strlit("out");
    reveal_strlit("a");
    reveal_strlit("b");
    reveal_strlit("c");
    reveal_strlit("none");
    let s = tier_text(t);
    crate::text::lemma_trim_start(s, 0);
    assert(s.skip(0) =~= s);
    crate::text::lemma_trim_end(s, s.len() as int);
    assert(trim(s) == s);
    let l = tier_text_lower(t);
    assert(lower_all(s).len() == l.len());
    assert forall|i: int| 0 <= i < l.len() implies lower_all(s)[i] == l[i] by {
        assert(lower_all(s)[i] == crate::text::lower(s[i]));
    }
    assert(lower_all(s) =~= l);
    assert(lower_all(trim(s)) == l);
    assert("a"@.len() == 1 && "b"@.len() == 1 && "c"@.len() == 1 && "out"@.len() == 3 && "none"@.len() == 4);
    assert("a"@[0] == 'a' && "b"@[0] == 'b' && "c"@[0] == 'c' && "out"@[0] == 'o');
}

pub open spec fn tier_text_lower(t: Tier) -> Seq<char> {
    match t {
        Tier::A => "a"@,
        Tier::B => "b"@,
        Tier::C => "c"@,
        Tier::Out => "out"@,
    }
}

/// One version's place in the calendar: where it was aimed, and where the
/// tag put it.
#[derive(Debug, Clone)]
pub struct Planned {
    pub project: String,
    pub version: String,
    pub title: Option<String>,
    pub planned: Option<Week>,
    /// The week the tag falls in, for a version that shipped.
    pub shipped: Option<Week>,
    pub shipped_at: Option<String>,
}

impl Planned {
    /// Weeks between the plan and the tag: positive is late, negative
    /// early; `None` with no plan or no tag.
    pub fn slip(&self) -> (r: Option<i64>)
        ensures
            r == (match (self.planned, self.shipped) {
                (Some(p), Some(s)) => Some(weeks_between(p, s) as i64),
                _ => None,
            }),
    {
        match (self.planned, self.shipped) {
            (Some(p), Some(s)) => Some(p.until(s)),
            _ => None,
        }
    }

    /// A planned version whose week has passed without a tag, by how many
    /// weeks; this week is not yet late.
    pub fn overdue(&self, now: Week) -> (r: Option<i64>)
        ensures
            r == (match (self.planned, self.shipped) {
                (Some(p), None) => if earlier(p, now) {
                    Some(weeks_between(p, now) as i64)
                } else {
                    None
                },
                _ => None,
            }),
    {
        match (self.planned, self.shipped) {
            (Some(p), None) => {
                if is_earlier(p, now) {
                    Some(p.until(now))
                } else {
                    None
                }
            },
            _ => None,
        }
    }
}

fn is_earlier(a: Week, b: Week) -> (r: bool)
    ensures
        r == earlier(a, b),
{
    a.year < b.year || (a.year == b.year && a.week < b.week)
}

/// How a version reads on the calendar grid.
#[derive(Debug, Clone, Copy, PartialEq, Eq, Structural)]
pub enum Standing {
    /// Planned for this week, still to come.
    Planned,
    /// Shipped in the week it was planned for.
    Shipped,
    /// Shipped, but not in the week it was aimed at.
    Slipped,
    /// The planned week has passed and no tag exists.
    Overdue,
    /// Shipped without ever being planned.
    Unplanned,
}

pub open spec fn mark_of(s: Standing) -> char {
    match s {
        Standing::Planned => '·',
        Standing::Shipped => '+',
        Standing::Slipped => '>',
        Standing::Overdue => '!',
        Standing::Unplanned => '*',
    }
}

impl Standing {
    /// The one character the grid prints for a standing.
    pub fn mark(self) -> (r: char)
        ensures
            r == mark_of(self),
    {
        match self {
            Standing::Planned => '·',
            Standing::Shipped => '+',
            Standing::Slipped => '>',
            Standing::Overdue => '!',
            Standing::Unplanned => '*',
        }
    }
}

/// No two standings print the same mark.
pub proof fn law_marks_are_distinct(a: Standing, b: Standing)
    ensures
        mark_of(a) == mark_of(b) ==> a == b,
{
}

/// One cell of the grid: what a project has in a given week.
#[derive(Debug, Clone)]
pub struct Cell {
    pub week: Week,
    pub version: String,
    pub standing: Standing,
}

/// What a project shows across the weeks being read.
#[derive(Debug, Clone)]
pub struct Row {
    pub project: String,
    pub tier: Option<Tier>,
    pub rhythm_weeks: Option<u32>,
    pub cells: Vec<Cell>,
}

/// Where a version stands and in which week it is shown: the week of its
/// tag once it shipped, its planned week until then.
pub open spec fn placed(v: Planned, now: Week) -> Option<(Week, Standing)> {
    match (v.planned, v.shipped) {
        (Some(p), Some(s)) => if p == s {
            Some((s, Standing::Shipped))
        } else {
            Some((s, Standing::Slipped))
        },
        (None, Some(s)) => Some((s, Standing::Unplanned)),
        (Some(p), None) => if earlier(p, now) {
            Some((p, Standing::Overdue))
        } else {
            Some((p, Standing::Planned))
        },
        (None, None) => None,
    }
}

/// The cells of the versions that land between `from` and `last`, in the
/// order of the versions.
pub open spec fn cells_in(vs: Seq<Planned>, from: Week, last: Week, now: Week) -> Seq<Cell>
    decreases vs.len(),
{
    if vs.len() == 0 {
        Seq::empty()
    } else {
        let rest = cells_in(vs.drop_last(), from, last, now);
        match placed(vs.last(), now) {
            Some((w, st)) => if earlier(w, from) || earlier(last, w) {
                rest
            } else {
                rest.push(Cell { week: w, version: vs.last().version, standing: st })
            },
            None => rest,
        }
    }
}

/// Cells by week, then by version.
pub open spec fn cell_before(a: Cell, b: Cell) -> bool {
    earlier(a.week, b.week) || (a.week == b.week && crate::db::key_less(
        crate::db::version_key(a.version@),
        crate::db::version_key(b.version@),
    ))
}

pub open spec fn cell_order() -> spec_fn(Cell, Cell) -> bool {
    |a: Cell, b: Cell| cell_before(a, b)
}

fn cell_comes_before(a: &Cell, b: &Cell) -> (r: bool)
    ensures
        r == cell_before(*a, *b),
{
    if is_earlier(a.week, b.week) {
        return true;
    }
    if !(a.week.year == b.week.year && a.week.week == b.week.week) {
        return false;
    }
    let x = crate::db::version_order(a.version.as_str());
    let y = crate::db::version_order(b.version.as_str());
    x.0 < y.0 || (x.0 == y.0 && (x.1 < y.1 || (x.1 == y.1 && x.2 < y.2)))
}

/// The last week of a span of `weeks` weeks starting at `from`.
pub open spec fn span_end(from: Week, weeks: u32) -> Week {
    week_plus(from, if weeks > 0 {
        weeks - 1
    } else {
        0
    })
}

/// Lays the versions of one project out over a span of weeks: a version
/// shows in the week it shipped once it has a tag, and in its planned week
/// until then, and only when that week lies in the span.
pub fn row(
    project: &str,
    tier: Option<Tier>,
    rhythm_weeks: Option<u32>,
    versions: &[Planned],
    from: Week,
    weeks: u32,
    now: Week,
) -> (r: Row)
    ensures
        r.project@ == project@,
        r.tier == tier,
        r.rhythm_weeks == rhythm_weeks,
        r.cells@ == crate::order::stable_sort(cells_in(versions@, from, span_end(from, weeks), now), cell_order()),
{
    let n: i64 = if weeks > 0 {
        (weeks - 1) as i64
    } else {
        0
    };
    let last = from.plus(n);
    let mut cells: Vec<Cell> = Vec::new();
    for i in 0..versions.len()
        invariant
            last == span_end(from, weeks),
            cells@ == cells_in(versions@.take(i as int), from, last, now),
    {
        assert(versions@.take(i + 1).drop_last() =~= versions@.take(i as int));
        let v = &versions[i];
        let placed: Option<(Week, Standing)> = match (v.planned, v.shipped) {
            (Some(p), Some(s)) => {
                if p.year == s.year && p.week == s.week {
                    Some((s, Standing::Shipped))
                } else {
                    Some((s, Standing::Slipped))
                }
            },
            (None, Some(s)) => Some((s, Standing::Unplanned)),
            (Some(p), None) => {
                if is_earlier(p, now) {
                    Some((p, Standing::Overdue))
                } else {
                    Some((p, Standing::Planned))
                }
            },
            (None, None) => None,
        };
        match placed {
            Some((w, st)) => {
                if !(is_earlier(w, from) || is_earlier(last, w)) {
                    cells.push(Cell { week: w, version: v.version.clone(), standing: st });
                }
            },
            None => {},
        }
    }
    assert(versions@.take(versions.len() as int) =~= versions@);
    proof {
        assert forall|a: &Cell, b: &Cell, r: bool| call_ensures(cell_comes_before, (a, b), r) implies r == (cell_order())(*a, *b) by {}
    }
    let sorted = crate::order::sorted_by(cells, &cell_comes_before, Ghost(cell_order()));
    Row { project: project.to_owned(), tier, rhythm_weeks, cells: sorted }
}

/// Why a project is the focus of a week, in the words that justify it.
#[derive(Debug, Clone)]
pub struct Focus {
    pub project: String,
    pub tier: Option<Tier>,
    pub version: String,
    pub title: Option<String>,
    pub planned: Week,
    /// Weeks the planned week is already past, for a focus that is late.
    pub overdue_weeks: Option<i64>,
}

/// The weeks a project has gone without shipping, and what its rhythm asks.
#[derive(Debug, Clone)]
pub struct Overdue {
    pub project: String,
    pub tier: Tier,
    pub rhythm_weeks: u32,
    pub since: Option<Week>,
    pub weeks: i64,
}

/// How long a project has gone without shipping: weeks since its last
/// release, or one more than its rhythm when it never shipped.
pub open spec fn gone(since: Option<Week>, rhythm: u32, now: Week) -> int {
    match since {
        Some(w) => weeks_between(w, now),
        None => rhythm + 1,
    }
}

pub open spec fn lapse_of(p: (String, Tier, u32, Option<Week>), now: Week) -> Option<Overdue> {
    let weeks = gone(p.3, p.2, now);
    if weeks > p.2 {
        Some(Overdue { project: p.0, tier: p.1, rhythm_weeks: p.2, since: p.3, weeks: weeks as i64 })
    } else {
        None
    }
}

pub open spec fn lapses(ps: Seq<(String, Tier, u32, Option<Week>)>, now: Week) -> Seq<Overdue>
    decreases ps.len(),
{
    if ps.len() == 0 {
        Seq::empty()
    } else {
        let rest = lapses(ps.drop_last(), now);
        match lapse_of(ps.last(), now) {
            Some(o) => rest.push(o),
            None => rest,
        }
    }
}

/// Worst first: the biggest overshoot of the rhythm, then the tier that
/// promised the most, then by name.
pub open spec fn lapse_before(a: Overdue, b: Overdue) -> bool {
    let oa = a.weeks - a.rhythm_weeks;
    let ob = b.weeks - b.rhythm_weeks;
    ||| oa > ob
    ||| oa == ob && tier_rank(a.tier) < tier_rank(b.tier)
    ||| oa == ob && a.tier == b.tier && crate::order::text_order(a.project@, b.project@) < 0
}

pub open spec fn lapse_order() -> spec_fn(Overdue, Overdue) -> bool {
    |a: Overdue, b: Overdue| lapse_before(a, b)
}

fn rank_of(t: Tier) -> (r: u8)
    ensures
        r == tier_rank(t),
{
    match t {
        Tier::A => 0,
        Tier::B => 1,
        Tier::C => 2,
        Tier::Out => 3,
    }
}

fn lapse_comes_before(a: &Overdue, b: &Overdue) -> (r: bool)
    ensures
        r == lapse_before(*a, *b),
{
    let oa: i128 = a.weeks as i128 - a.rhythm_weeks as i128;
    let ob: i128 = b.weeks as i128 - b.rhythm_weeks as i128;
    if oa != ob {
        return oa > ob;
    }
    let ra = rank_of(a.tier);
    let rb = rank_of(b.tier);
    if ra != rb {
        return ra < rb;
    }
    crate::order::compare_strings(&a.project, &b.project) < 0
}

/// Projects whose rhythm has lapsed: nothing shipped for longer than the
/// tier asks, a project that never shipped counting as lapsed; worst first.
pub fn lapsed(projects: &[(String, Tier, u32, Option<Week>)], now: Week) -> (r: Vec<Overdue>)
    ensures
        r@ == crate::order::stable_sort(lapses(projects@, now), lapse_order()),
{
    let mut out: Vec<Overdue> = Vec::new();
    for i in 0..projects.len()
        invariant
            out@ == lapses(projects@.take(i as int), now),
    {
        assert(projects@.take(i + 1).drop_last() =~= projects@.take(i as int));
        let p = &projects[i];
        let weeks: i64 = match p.3 {
            Some(w) => w.until(now),
            None => p.2 as i64 + 1,
        };
        if weeks > p.2 as i64 {
            out.push(Overdue { project: p.0.clone(), tier: p.1, rhythm_weeks: p.2, since: p.3, weeks });
        }
    }
    assert(projects@.take(projects.len() as int) =~= projects@);
    proof {
        assert forall|a: &Overdue, b: &Overdue, r: bool| call_ensures(lapse_comes_before, (a, b), r) implies r == (lapse_order())(*a, *b) by {}
    }
    crate::order::sorted_by(out, &lapse_comes_before, Ghost(lapse_order()))
}

/// A row reads in the order of time: no cell is after one it should come
/// before (by week, then by version), and every cell in the span is there.
pub proof fn law_row_is_in_order(vs: Seq<Planned>, from: Week, last: Week, now: Week)
    ensures
        crate::order::in_order(crate::order::stable_sort(cells_in(vs, from, last, now), cell_order()), cell_order()),
        crate::order::stable_sort(cells_in(vs, from, last, now), cell_order()).to_multiset() == cells_in(
            vs,
            from,
            last,
            now,
        ).to_multiset(),
{
    crate::order::law_sorted_is_in_order(cells_in(vs, from, last, now), cell_order());
}

/// Whether a cell's standing fits the current week: overdue only once its
/// week lies strictly before the current one, and planned only while it
/// does not.
pub open spec fn fits_now(c: Cell, now: Week) -> bool {
    let gone = c.week.year < now.year || (c.week.year == now.year && c.week.week < now.week);
    (c.standing == Standing::Overdue ==> gone) && (c.standing == Standing::Planned ==> !gone)
}

proof fn lemma_cells_fit_now(vs: Seq<Planned>, from: Week, last: Week, now: Week)
    ensures
        forall|j: int| 0 <= j < cells_in(vs, from, last, now).len() ==> #[trigger] fits_now(cells_in(vs, from, last, now)[j], now),
    decreases vs.len(),
{
    if vs.len() > 0 {
        lemma_cells_fit_now(vs.drop_last(), from, last, now);
        let rest = cells_in(vs.drop_last(), from, last, now);
        let all = cells_in(vs, from, last, now);
        assert forall|j: int| 0 <= j < all.len() implies #[trigger] fits_now(all[j], now) by {
            if j < rest.len() {
                assert(all[j] == rest[j]);
            }
        }
    }
}

/// A version planned and not yet tagged stands overdue on the grid only
/// when its planned week is strictly before the current week: one planned
/// for this week, or later, stands planned.
pub proof fn law_overdue_only_once_its_week_has_passed(vs: Seq<Planned>, from: Week, last: Week, now: Week)
    ensures
        forall|j: int|
            0 <= j < crate::order::stable_sort(cells_in(vs, from, last, now), cell_order()).len() ==> #[trigger] fits_now(
                crate::order::stable_sort(cells_in(vs, from, last, now), cell_order())[j],
                now,
            ),
{
    lemma_cells_fit_now(vs, from, last, now);
    let fits = |c: Cell| fits_now(c, now);
    let cs = cells_in(vs, from, last, now);
    assert forall|j: int| 0 <= j < cs.len() implies #[trigger] fits(cs[j]) by {}
    crate::order::lemma_stable_sort_keeps(cs, cell_order(), fits);
    let sorted = crate::order::stable_sort(cs, cell_order());
    assert forall|j: int| 0 <= j < sorted.len() implies #[trigger] fits_now(sorted[j], now) by {
        assert(fits(sorted[j]));
    }
}

/// One week strictly before another, by year and then by week.
pub open spec fn week_lt(a: Week, b: Week) -> bool {
    a.year < b.year || (a.year == b.year && a.week < b.week)
}

/// Whether a cell is how a version shows on the grid: in the week of its
/// tag once it has one - shipped when that is the week it was planned for,
/// unplanned when it was never planned, slipped otherwise - and until then
/// in its planned week, overdue once that week has passed and planned
/// before; always inside the span from `from` to `last`.
pub open spec fn shows(c: Cell, v: Planned, from: Week, last: Week, now: Week) -> bool {
    &&& c.version == v.version
    &&& !week_lt(c.week, from) && !week_lt(last, c.week)
    &&& match v.shipped {
        Some(s) => c.week == s && c.standing == (if v.planned == Some(s) {
            Standing::Shipped
        } else if v.planned is None {
            Standing::Unplanned
        } else {
            Standing::Slipped
        }),
        None => match v.planned {
            Some(p) => c.week == p && c.standing == (if week_lt(p, now) {
                Standing::Overdue
            } else {
                Standing::Planned
            }),
            None => false,
        },
    }
}

/// The week a version belongs in on the grid: its tag's, else its plan's.
pub open spec fn home_week(v: Planned) -> Option<Week> {
    match v.shipped {
        Some(s) => Some(s),
        None => v.planned,
    }
}

/// Whether a version's week on the grid lies in the span.
pub open spec fn in_span(v: Planned, from: Week, last: Week) -> bool {
    home_week(v) matches Some(w) && !week_lt(w, from) && !week_lt(last, w)
}

proof fn lemma_cells_show(vs: Seq<Planned>, from: Week, last: Week, now: Week)
    ensures
        forall|j: int|
            0 <= j < cells_in(vs, from, last, now).len() ==> exists|i: int|
                0 <= i < vs.len() && shows(#[trigger] cells_in(vs, from, last, now)[j], vs[i], from, last, now),
        forall|i: int|
            0 <= i < vs.len() && #[trigger] in_span(vs[i], from, last)
                ==> exists|j: int|
                0 <= j < cells_in(vs, from, last, now).len() && shows(cells_in(vs, from, last, now)[j], vs[i], from, last, now),
    decreases vs.len(),
{
    if vs.len() > 0 {
        let init = vs.drop_last();
        lemma_cells_show(init, from, last, now);
        let rest = cells_in(init, from, last, now);
        let all = cells_in(vs, from, last, now);
        let n = vs.len() - 1;
        assert forall|j: int| 0 <= j < all.len() implies exists|i: int|
            0 <= i < vs.len() && shows(#[trigger] all[j], vs[i], from, last, now) by {
            if j < rest.len() {
                assert(all[j] == rest[j]);
                let i = choose|i: int| 0 <= i < init.len() && shows(rest[j], init[i], from, last, now);
                assert(init[i] == vs[i]);
            } else {
                assert(shows(all[j], vs[n], from, last, now));
            }
        }
        assert forall|i: int|
            0 <= i < vs.len() && #[trigger] in_span(vs[i], from, last)
                implies exists|j: int| 0 <= j < all.len() && shows(all[j], vs[i], from, last, now) by {
            if i < n {
                assert(init[i] == vs[i]);
                assert(in_span(init[i], from, last));
                let j = choose|j: int| 0 <= j < rest.len() && shows(rest[j], init[i], from, last, now);
                assert(all[j] == rest[j]);
            } else {
                assert(shows(all[all.len() - 1], vs[n], from, last, now));
            }
        }
    }
}

/// The grid's row for a project shows each of its versions that belongs in
/// the span, and nothing else: every cell is how one of the versions shows
/// (see `shows`), and every version whose week lies in the span has its cell.
pub proof fn law_the_row_shows_each_version_where_it_belongs(vs: Seq<Planned>, from: Week, last: Week, now: Week)
    ensures
        forall|j: int|
            0 <= j < crate::order::stable_sort(cells_in(vs, from, last, now), cell_order()).len() ==> exists|i: int|
                0 <= i < vs.len() && shows(
                    #[trigger] crate::order::stable_sort(cells_in(vs, from, last, now), cell_order())[j],
                    vs[i],
                    from,
                    last,
                    now,
                ),
        forall|i: int|
            0 <= i < vs.len() && #[trigger] in_span(vs[i], from, last)
                ==> exists|j: int|
                0 <= j < crate::order::stable_sort(cells_in(vs, from, last, now), cell_order()).len() && shows(
                    crate::order::stable_sort(cells_in(vs, from, last, now), cell_order())[j],
                    vs[i],
                    from,
                    last,
                    now,
                ),
{
    broadcast use vstd::seq_lib::group_to_multiset_ensures;
    lemma_cells_show(vs, from, last, now);
    let cs = cells_in(vs, from, last, now);
    let sorted = crate::order::stable_sort(cs, cell_order());
    law_row_is_in_order(vs, from, last, now);
    let from_one = |c: Cell| exists|i: int| 0 <= i < vs.len() && shows(c, vs[i], from, last, now);
    assert forall|j: int| 0 <= j < cs.len() implies #[trigger] from_one(cs[j]) by {}
    crate::order::lemma_stable_sort_keeps(cs, cell_order(), from_one);
    assert forall|j: int| 0 <= j < sorted.len() implies exists|i: int|
        0 <= i < vs.len() && shows(#[trigger] sorted[j], vs[i], from, last, now) by {
        assert(from_one(sorted[j]));
    }
    assert forall|i: int|
        0 <= i < vs.len() && #[trigger] in_span(vs[i], from, last)
            implies exists|j: int| 0 <= j < sorted.len() && shows(sorted[j], vs[i], from, last, now) by {
        let j = choose|j: int| 0 <= j < cs.len() && shows(cs[j], vs[i], from, last, now);
        assert(cs.to_multiset().count(cs[j]) > 0);
        assert(sorted.to_multiset().count(cs[j]) > 0);
        assert(sorted.contains(cs[j]));
        let k = choose|k: int| 0 <= k < sorted.len() && sorted[k] == cs[j];
        assert(shows(sorted[k], vs[i], from, last, now));
    }
}

/// The lapsed list is worst first: no project is listed after one that
/// overshot less, promised less or sorts later by name.
pub proof fn law_lapsed_worst_first(ps: Seq<(String, Tier, u32, Option<Week>)>, now: Week)
    ensures
        crate::order::in_order(crate::order::stable_sort(lapses(ps, now), lapse_order()), lapse_order()),
        crate::order::stable_sort(lapses(ps, now), lapse_order()).to_multiset() == lapses(ps, now).to_multiset(),
{
    assert forall|a: Overdue| !#[trigger] (lapse_order())(a, a) by {
        crate::order::lemma_text_order(a.project@, a.project@, a.project@);
    }
    assert forall|a: Overdue, b: Overdue, c: Overdue| #[trigger] (lapse_order())(a, b) && #[trigger] (lapse_order())(
        b,
        c,
    ) implies (lapse_order())(a, c) by {
        crate::order::lemma_text_order(a.project@, b.project@, c.project@);
    }
    crate::order::law_sorted_is_in_order(lapses(ps, now), lapse_order());
}

/// A week is written and read the same way: the text a week is written
/// as reads back as its year and its number.
#[verifier::rlimit(60)]
pub proof fn law_week_reads_back(w: Week)
    requires
        0 <= w.year,
        0 <= w.week,
    ensures
        week_numbers(week_text(w)) == Some((w.year as int, w.week as int)),
{
    reveal_strlit("-W");
    reveal_strlit("-");
    let a = padded(w.year as int, 4);
    let b = padded(w.week as int, 2);
    crate::number::law_padded_reads_back(w.year as nat, 4, -32768, 32767);
    crate::number::law_padded_reads_back(w.week as nat, 2, -128, 127);
    let t = week_text(w);
    assert(t =~= a + "-"@ + seq!['W'] + b);
    let i0: int = a.len() as int + 1;
    assert(t[i0] == 'W');
    assert(crate::text::is_digit(t[0]));
    assert(t[t.len() - 1] == b[b.len() - 1]);
    assert(crate::text::is_digit(b[b.len() - 1]));
    crate::text::lemma_trim_start(t, 0);
    assert(t.skip(0) =~= t);
    crate::text::lemma_trim_end(t, t.len() as int);
    assert(t.take(t.len() as int) =~= t);
    assert(trim(t) == t);
    let cl = Class::Either('W', 'w');
    assert forall|j: int| 0 <= j < i0 implies !crate::text::in_class(cl, #[trigger] t[j]) by {
        if j < a.len() {
            assert(t[j] == a[j]);
            assert(crate::text::is_digit(a[j]));
        } else {
            assert(t[j] == '-');
        }
    }
    assert(crate::text::any_in(t, cl)) by {
        assert(crate::text::in_class(cl, t[i0]));
    }
    let i = choose|i: int| 0 <= i < t.len() && crate::text::in_class(cl, t[i]) && forall|j: int| 0 <= j < i ==> !crate::text::in_class(cl, t[j]);
    assert(i == i0);
    let y = t.take(i0);
    assert(y =~= a.push('-'));
    assert(t.skip(i0 + 1) =~= b);
    assert(y.drop_last() =~= a);
    assert(drop_tail(a, Class::Is('-')) == a) by {
        assert(crate::text::is_digit(a[a.len() - 1]));
    }
    assert(drop_tail(y, Class::Is('-')) == a);
}

/// The weeks of a span, from its first: `from` and the `weeks - 1` after it.
pub fn span(from: Week, weeks: u32) -> (r: Vec<Week>)
    ensures
        r.len() == weeks,
        forall|i: int| 0 <= i < weeks ==> #[trigger] r@[i] == week_plus(from, i),
{
    let mut out: Vec<Week> = Vec::new();
    let mut n: u32 = 0;
    while n < weeks
        invariant
            n <= weeks,
            out.len() == n,
            forall|i: int| 0 <= i < n ==> #[trigger] out@[i] == week_plus(from, i),
        decreases weeks - n,
    {
        assert(168 * (n as i64) <= 168 * 4294967295);
        out.push(from.plus(n as i64));
        n = n + 1;
    }
    out
}

/// How much a standing wants to be seen when a cell can show only one.
pub open spec fn severity_of(s: Standing) -> nat {
    match s {
        Standing::Overdue => 4,
        Standing::Slipped => 3,
        Standing::Planned => 2,
        Standing::Unplanned => 1,
        Standing::Shipped => 0,
    }
}

pub fn severity(s: Standing) -> (r: u8)
    ensures
        r == severity_of(s),
{
    match s {
        Standing::Overdue => 4,
        Standing::Slipped => 3,
        Standing::Planned => 2,
        Standing::Unplanned => 1,
        Standing::Shipped => 0,
    }
}

/// The cells of a row that fall in a week, in the row's order.
pub open spec fn in_week(cells: Seq<Cell>, w: Week) -> Seq<Cell>
    decreases cells.len(),
{
    if cells.len() == 0 {
        Seq::empty()
    } else {
        let init = in_week(cells.drop_last(), w);
        if cells.last().week == w {
            init.push(cells.last())
        } else {
            init
        }
    }
}

/// The standing among cells that most wants to be seen.
pub open spec fn worst(cells: Seq<Cell>) -> Standing
    decreases cells.len(),
{
    if cells.len() == 0 {
        Standing::Shipped
    } else {
        let w = worst(cells.drop_last());
        if severity_of(cells.last().standing) >= severity_of(w) {
            cells.last().standing
        } else {
            w
        }
    }
}

/// A cell as the grid names it: its mark, then its version.
pub open spec fn named(c: Cell) -> Seq<char> {
    seq![mark_of(c.standing)] + c.version@
}

/// What one cell of the grid says. Two releases in a week are named; more
/// are counted, between the first and the last, under the mark of the
/// worst of them, so a busy week keeps the column narrow and a slipped
/// release inside it is not hidden.
pub open spec fn cell_text_of(cells: Seq<Cell>, w: Week) -> Seq<char> {
    let cs = in_week(cells, w);
    if cs.len() == 0 {
        Seq::empty()
    } else if cs.len() == 1 {
        named(cs[0])
    } else if cs.len() == 2 {
        named(cs[0]) + " "@ + named(cs[1])
    } else {
        seq![mark_of(worst(cs))] + cs[0].version@ + ".."@ + cs.last().version@ + " ("@ + crate::text::decimal(
            cs.len(),
        ) + ")"@
    }
}

pub fn cell_text(row: &Row, week: Week) -> (r: String)
    ensures
        r@ == cell_text_of(row.cells@, week),
{
    let mut found: Vec<usize> = Vec::new();
    let mut worst_seen = Standing::Shipped;
    let mut i: usize = 0;
    while i < row.cells.len()
        invariant
            i <= row.cells.len(),
            found.len() == in_week(row.cells@.take(i as int), week).len(),
            forall|k: int| 0 <= k < found.len() ==> (#[trigger] found@[k] < i && row.cells@[found@[k] as int]
                == in_week(row.cells@.take(i as int), week)[k]),
            worst_seen == worst(in_week(row.cells@.take(i as int), week)),
        decreases row.cells.len() - i,
    {
        let ghost before = in_week(row.cells@.take(i as int), week);
        assert(row.cells@.take(i + 1).drop_last() =~= row.cells@.take(i as int));
        assert(row.cells@.take(i + 1).last() == row.cells@[i as int]);
        if row.cells[i].week == week {
            assert(before.push(row.cells@[i as int]).drop_last() =~= before);
            let s = row.cells[i].standing;
            if severity(s) >= severity(worst_seen) {
                worst_seen = s;
            }
            found.push(i);
            assert(in_week(row.cells@.take(i + 1), week) == before.push(row.cells@[i as int]));
        } else {
            assert(in_week(row.cells@.take(i + 1), week) == before);
        }
        i = i + 1;
    }
    assert(row.cells@.take(row.cells.len() as int) =~= row.cells@);
    let ghost cs = in_week(row.cells@, week);
    let n = found.len();
    let mut out: Vec<char> = Vec::new();
    if n == 0 {
    } else if n <= 2 {
        let a = &row.cells[found[0]];
        out.push(a.standing.mark());
        append(&mut out, &chars_of_string(&a.version));
        if n == 2 {
            let b = &row.cells[found[1]];
            append_str(&mut out, " ");
            out.push(b.standing.mark());
            append(&mut out, &chars_of_string(&b.version));
            assert(out@ =~= named(cs[0]) + " "@ + named(cs[1]));
        } else {
            assert(out@ =~= named(cs[0]));
        }
    } else {
        out.push(worst_seen.mark());
        append(&mut out, &chars_of_string(&row.cells[found[0]].version));
        append_str(&mut out, "..");
        append(&mut out, &chars_of_string(&row.cells[found[n - 1]].version));
        append_str(&mut out, " (");
        crate::text::push_decimal(&mut out, n as u64);
        append_str(&mut out, ")");
        assert(out@ =~= cell_text_of(row.cells@, week));
    }
    crate::text::text_of(&out)
}

/// How far a version missed its week: early, late, or a week late.
pub open spec fn weeks_late_text(weeks: int) -> Seq<char> {
    if weeks == 1 {
        "a week late"@
    } else if weeks < 0 {
        crate::context::plural_text((-weeks) as nat, "week"@, "weeks"@) + " early"@
    } else {
        crate::context::plural_text(weeks as nat, "week"@, "weeks"@) + " late"@
    }
}

pub fn weeks_late(weeks: i64) -> (r: String)
    ensures
        r@ == weeks_late_text(weeks as int),
{
    let mut out: Vec<char> = Vec::new();
    if weeks == 1 {
        append_str(&mut out, "a week late");
    } else if weeks < 0 {
        let n: u64 = if weeks == i64::MIN {
            9223372036854775808u64
        } else {
            (-weeks) as u64
        };
        crate::context::push_plural(&mut out, n, "week", "weeks");
        append_str(&mut out, " early");
    } else {
        crate::context::push_plural(&mut out, weeks as u64, "week", "weeks");
        append_str(&mut out, " late");
    }
    crate::text::text_of(&out)
}

/// White space of a width.
pub open spec fn spaces(n: nat) -> Seq<char> {
    Seq::new(n, |i: int| ' ')
}

/// A text made up to a width with spaces after it (`{:width$}`).
pub open spec fn pad(s: Seq<char>, w: nat) -> Seq<char> {
    if s.len() >= w {
        s
    } else {
        s + spaces((w - s.len()) as nat)
    }
}

pub(crate) fn push_pad(out: &mut Vec<char>, s: &Vec<char>, w: usize)
    ensures
        final(out)@ == old(out)@ + pad(s@, w as nat),
{
    append(out, s);
    let ghost start = old(out)@ + s@;
    if s.len() < w {
        let mut k = s.len();
        assert(start + spaces(0) =~= start);
        while k < w
            invariant
                s.len() <= k <= w,
                out@ == start + spaces((k - s.len()) as nat),
            decreases w - k,
        {
            out.push(' ');
            assert(start + spaces((k + 1 - s.len()) as nat) =~= (start + spaces((k - s.len()) as nat)).push(' '));
            k = k + 1;
        }
        assert(out@ =~= old(out)@ + (s@ + spaces((w - s@.len()) as nat)));
    } else {
        assert(out@ =~= old(out)@ + s@);
    }
}

/// A week's heading on the grid: this week carries a mark, because a grid
/// read on a Wednesday is read from where the reader stands.
pub open spec fn heading_of(w: Week, now: Week) -> Seq<char> {
    if w == now {
        week_text(w).push('*')
    } else {
        week_text(w)
    }
}

/// A column is as wide as the widest thing in it, its heading included, so
/// a week holding two releases does not push the grid out of line.
pub open spec fn column_width(rows: Seq<Row>, w: Week, now: Week) -> nat
    decreases rows.len(),
{
    if rows.len() == 0 {
        heading_of(w, now).len()
    } else {
        let a = column_width(rows.drop_last(), w, now);
        let b = cell_text_of(rows.last().cells@, w).len();
        if a >= b {
            a
        } else {
            b
        }
    }
}

/// The names are as wide as the widest, and never narrower than seven.
pub open spec fn name_width(rows: Seq<Row>) -> nat
    decreases rows.len(),
{
    if rows.len() == 0 {
        7
    } else {
        let a = name_width(rows.drop_last());
        let b = rows.last().project@.len();
        if a >= b {
            a
        } else {
            b
        }
    }
}

pub open spec fn head_cols(rows: Seq<Row>, span: Seq<Week>, now: Week) -> Seq<char>
    decreases span.len(),
{
    if span.len() == 0 {
        Seq::empty()
    } else {
        head_cols(rows, span.drop_last(), now) + "  "@ + pad(
            heading_of(span.last(), now),
            column_width(rows, span.last(), now),
        )
    }
}

pub open spec fn row_cols(rows: Seq<Row>, row: Row, span: Seq<Week>, now: Week) -> Seq<char>
    decreases span.len(),
{
    if span.len() == 0 {
        Seq::empty()
    } else {
        row_cols(rows, row, span.drop_last(), now) + "  "@ + pad(
            cell_text_of(row.cells@, span.last()),
            column_width(rows, span.last(), now),
        )
    }
}

/// One project's line of the grid: its name, its cells, its tier.
pub open spec fn row_line(rows: Seq<Row>, row: Row, span: Seq<Week>, now: Week) -> Seq<char> {
    pad(row.project@, name_width(rows)) + row_cols(rows, row, span, now) + match row.tier {
        Some(t) => "   "@ + tier_text(t),
        None => Seq::empty(),
    }
}

/// What the marks mean.
pub open spec fn legend_text() -> Seq<char> {
    seq![mark_of(Standing::Shipped)] + " shipped as planned   "@ + seq![mark_of(Standing::Slipped)] + " slipped   "@
        + seq![mark_of(Standing::Overdue)] + " overdue   "@ + seq![mark_of(Standing::Unplanned)] + " unplanned   "@
        + seq![mark_of(Standing::Planned)] + " planned"@
}

/// The grid: the weeks across, one line per project, and what the marks
/// mean.
pub open spec fn grid_text(rows: Seq<Row>, span: Seq<Week>, now: Week) -> Seq<Seq<char>> {
    seq![spaces(name_width(rows)) + head_cols(rows, span, now)] + rows.map_values(
        |r: Row| row_line(rows, r, span, now),
    ) + seq![Seq::empty(), legend_text()]
}

fn chars_len(s: &String) -> (r: usize)
    ensures
        r == s@.len(),
{
    chars_of_string(s).len()
}

fn column_width_of(rows: &Vec<Row>, w: Week, now: Week) -> (r: usize)
    ensures
        r == column_width(rows@, w, now),
{
    let mut h = chars_of_string(&w.to_text());
    if w == now {
        h.push('*');
    }
    let mut best = h.len();
    assert(best == heading_of(w, now).len());
    let mut i: usize = 0;
    while i < rows.len()
        invariant
            i <= rows.len(),
            best == column_width(rows@.take(i as int), w, now),
        decreases rows.len() - i,
    {
        assert(rows@.take(i + 1).drop_last() =~= rows@.take(i as int));
        assert(rows@.take(i + 1).last() == rows@[i as int]);
        let c = chars_len(&cell_text(&rows[i], w));
        if c > best {
            best = c;
        }
        i = i + 1;
    }
    assert(rows@.take(rows.len() as int) =~= rows@);
    best
}

fn name_width_of(rows: &Vec<Row>) -> (r: usize)
    ensures
        r == name_width(rows@),
{
    let mut best: usize = 7;
    let mut i: usize = 0;
    while i < rows.len()
        invariant
            i <= rows.len(),
            best == name_width(rows@.take(i as int)),
        decreases rows.len() - i,
    {
        assert(rows@.take(i + 1).drop_last() =~= rows@.take(i as int));
        assert(rows@.take(i + 1).last() == rows@[i as int]);
        let c = chars_len(&rows[i].project);
        if c > best {
            best = c;
        }
        i = i + 1;
    }
    assert(rows@.take(rows.len() as int) =~= rows@);
    best
}

/// The calendar grid, a line at a time: the weeks of the span across with
/// this week marked, a line for each project, a blank line, and what the
/// marks mean.
pub fn grid(rows: &Vec<Row>, span: &Vec<Week>, now: Week) -> (r: Vec<String>)
    ensures
        crate::text::strings(r@) == grid_text(rows@, span@, now),
{
    let mut widths: Vec<usize> = Vec::new();
    let mut j: usize = 0;
    while j < span.len()
        invariant
            j <= span.len(),
            widths.len() == j,
            forall|k: int| 0 <= k < j ==> #[trigger] widths@[k] == column_width(rows@, span@[k], now),
        decreases span.len() - j,
    {
        widths.push(column_width_of(rows, span[j], now));
        j = j + 1;
    }
    let nw = name_width_of(rows);
    let mut lines: Vec<String> = Vec::new();
    let mut head: Vec<char> = Vec::new();
    push_pad(&mut head, &Vec::new(), nw);
    assert(head@ =~= spaces(nw as nat));
    let mut j: usize = 0;
    while j < span.len()
        invariant
            j <= span.len(),
            widths.len() == span.len(),
            forall|k: int| 0 <= k < span.len() ==> #[trigger] widths@[k] == column_width(rows@, span@[k], now),
            head@ == spaces(nw as nat) + head_cols(rows@, span@.take(j as int), now),
        decreases span.len() - j,
    {
        let w = span[j];
        let mut h = chars_of_string(&w.to_text());
        if w == now {
            h.push('*');
        }
        let ghost before = head@;
        append_str(&mut head, "  ");
        push_pad(&mut head, &h, widths[j]);
        assert(span@.take(j + 1).drop_last() =~= span@.take(j as int));
        assert(span@.take(j + 1).last() == w);
        assert(head@ =~= spaces(nw as nat) + head_cols(rows@, span@.take(j + 1), now));
        j = j + 1;
    }
    assert(span@.take(span.len() as int) =~= span@);
    lines.push(crate::text::text_of(&head));
    let mut i: usize = 0;
    while i < rows.len()
        invariant
            i <= rows.len(),
            widths.len() == span.len(),
            nw == name_width(rows@),
            forall|k: int| 0 <= k < span.len() ==> #[trigger] widths@[k] == column_width(rows@, span@[k], now),
            crate::text::strings(lines@) == seq![spaces(nw as nat) + head_cols(rows@, span@, now)] + rows@.take(
                i as int,
            ).map_values(|r: Row| row_line(rows@, r, span@, now)),
        decreases rows.len() - i,
    {
        let row = &rows[i];
        let mut line: Vec<char> = Vec::new();
        push_pad(&mut line, &chars_of_string(&row.project), nw);
        let ghost start = line@;
        let mut j: usize = 0;
        while j < span.len()
            invariant
                j <= span.len(),
                widths.len() == span.len(),
                forall|k: int| 0 <= k < span.len() ==> #[trigger] widths@[k] == column_width(rows@, span@[k], now),
                line@ == start + row_cols(rows@, *row, span@.take(j as int), now),
            decreases span.len() - j,
        {
            let c = chars_of_string(&cell_text(row, span[j]));
            append_str(&mut line, "  ");
            push_pad(&mut line, &c, widths[j]);
            assert(span@.take(j + 1).drop_last() =~= span@.take(j as int));
            assert(span@.take(j + 1).last() == span@[j as int]);
            assert(line@ =~= start + row_cols(rows@, *row, span@.take(j + 1), now));
            j = j + 1;
        }
        assert(span@.take(span.len() as int) =~= span@);
        match row.tier {
            Some(t) => {
                append_str(&mut line, "   ");
                append_str(&mut line, t.as_str());
            },
            None => {},
        }
        assert(line@ =~= row_line(rows@, *row, span@, now));
        let ghost before = crate::text::strings(lines@);
        lines.push(crate::text::text_of(&line));
        assert(crate::text::strings(lines@) =~= before.push(line@));
        assert(rows@.take(i + 1) =~= rows@.take(i as int).push(*row));
        assert(rows@.take(i + 1).map_values(|r: Row| row_line(rows@, r, span@, now)) =~= rows@.take(
            i as int,
        ).map_values(|r: Row| row_line(rows@, r, span@, now)).push(row_line(rows@, *row, span@, now)));
        i = i + 1;
    }
    assert(rows@.take(rows.len() as int) =~= rows@);
    let ghost body = crate::text::strings(lines@);
    lines.push(crate::text::text_of(&Vec::new()));
    let mut legend: Vec<char> = Vec::new();
    legend.push(Standing::Shipped.mark());
    append_str(&mut legend, " shipped as planned   ");
    legend.push(Standing::Slipped.mark());
    append_str(&mut legend, " slipped   ");
    legend.push(Standing::Overdue.mark());
    append_str(&mut legend, " overdue   ");
    legend.push(Standing::Unplanned.mark());
    append_str(&mut legend, " unplanned   ");
    legend.push(Standing::Planned.mark());
    append_str(&mut legend, " planned");
    assert(legend@ =~= legend_text());
    lines.push(crate::text::text_of(&legend));
    assert(crate::text::strings(lines@) =~= body + seq![Seq::<char>::empty(), legend_text()]);
    lines
}

/// The first version of a name in a list.
pub open spec fn first_named(vs: Seq<Planned>, version: Seq<char>) -> Option<Planned>
    decreases vs.len(),
{
    if vs.len() == 0 {
        None
    } else if vs[0].version@ == version {
        Some(vs[0])
    } else {
        first_named(vs.drop_first(), version)
    }
}

/// The versions listed for a project, the first time it is listed.
pub open spec fn versions_of(all: Seq<(String, Vec<Planned>)>, project: Seq<char>) -> Option<Seq<Planned>>
    decreases all.len(),
{
    if all.len() == 0 {
        None
    } else if all[0].0@ == project {
        Some(all[0].1@)
    } else {
        versions_of(all.drop_first(), project)
    }
}

/// By how many weeks a version missed: the slip of a shipped one, or how
/// overdue an unshipped one is.
pub open spec fn lateness(v: Planned, now: Week) -> Option<i64> {
    match (v.planned, v.shipped) {
        (Some(p), Some(s)) => Some(weeks_between(p, s) as i64),
        (Some(p), None) => if earlier(p, now) {
            Some(weeks_between(p, now) as i64)
        } else {
            None
        },
        _ => None,
    }
}

/// The line a late cell gets under the grid.
pub open spec fn late_line(nw: nat, project: Seq<char>, cell: Cell, v: Planned, weeks: i64) -> Seq<char> {
    pad(project, nw) + "  "@ + cell.version@ + " — aimed at "@ + (match v.planned {
        Some(p) => week_text(p),
        None => Seq::empty(),
    }) + ", "@ + weeks_late_text(weeks as int)
}

/// What a slipped or overdue cell says under the grid, when its version
/// is listed and its lateness is known.
pub open spec fn cell_late(nw: nat, project: Seq<char>, vs: Seq<Planned>, cell: Cell, now: Week) -> Seq<Seq<char>> {
    if cell.standing == Standing::Slipped || cell.standing == Standing::Overdue {
        match first_named(vs, cell.version@) {
            Some(v) => match lateness(v, now) {
                Some(w) => seq![late_line(nw, project, cell, v, w)],
                None => Seq::empty(),
            },
            None => Seq::empty(),
        }
    } else {
        Seq::empty()
    }
}

pub open spec fn row_late(nw: nat, project: Seq<char>, vs: Seq<Planned>, cells: Seq<Cell>, now: Week) -> Seq<Seq<char>>
    decreases cells.len(),
{
    if cells.len() == 0 {
        Seq::empty()
    } else {
        row_late(nw, project, vs, cells.drop_last(), now) + cell_late(nw, project, vs, cells.last(), now)
    }
}

pub open spec fn late_text(rows: Seq<Row>, upto: int, all: Seq<(String, Vec<Planned>)>, now: Week) -> Seq<Seq<char>>
    decreases upto,
{
    if upto <= 0 {
        Seq::empty()
    } else {
        late_text(rows, upto - 1, all, now) + match versions_of(all, rows[upto - 1].project@) {
            Some(vs) => row_late(name_width(rows), rows[upto - 1].project@, vs, rows[upto - 1].cells@, now),
            None => Seq::empty(),
        }
    }
}

fn find_version<'a>(vs: &'a Vec<Planned>, version: &String) -> (r: Option<&'a Planned>)
    ensures
        r matches Some(v) ==> first_named(vs@, version@) == Some(*v),
        r is None ==> first_named(vs@, version@) is None,
{
    let mut i: usize = 0;
    assert(vs@.skip(0) =~= vs@);
    while i < vs.len()
        invariant
            i <= vs.len(),
            first_named(vs@, version@) == first_named(vs@.skip(i as int), version@),
        decreases vs.len() - i,
    {
        assert(vs@.skip(i as int)[0] == vs@[i as int]);
        assert(vs@.skip(i as int).drop_first() =~= vs@.skip(i + 1));
        if crate::order::compare_strings(&vs[i].version, version) == 0 {
            proof {
                crate::order::lemma_text_order(vs@[i as int].version@, version@, version@);
            }
            return Some(&vs[i]);
        }
        proof {
            crate::order::lemma_text_order(vs@[i as int].version@, version@, version@);
        }
        i = i + 1;
    }
    None
}

fn find_versions<'a>(all: &'a Vec<(String, Vec<Planned>)>, project: &String) -> (r: Option<&'a Vec<Planned>>)
    ensures
        r matches Some(vs) ==> versions_of(all@, project@) == Some(vs@),
        r is None ==> versions_of(all@, project@) is None,
{
    let mut i: usize = 0;
    assert(all@.skip(0) =~= all@);
    while i < all.len()
        invariant
            i <= all.len(),
            versions_of(all@, project@) == versions_of(all@.skip(i as int), project@),
        decreases all.len() - i,
    {
        assert(all@.skip(i as int)[0] == all@[i as int]);
        assert(all@.skip(i as int).drop_first() =~= all@.skip(i + 1));
        if crate::order::compare_strings(&all[i].0, project) == 0 {
            proof {
                crate::order::lemma_text_order(all@[i as int].0@, project@, project@);
            }
            return Some(&all[i].1);
        }
        proof {
            crate::order::lemma_text_order(all@[i as int].0@, project@, project@);
        }
        i = i + 1;
    }
    None
}

/// Slippage spelt out under the grid: the grid shows that a release moved,
/// only a number says how far. A line for each slipped or overdue cell, by
/// project and in the order of the cells.
pub fn late_lines(rows: &Vec<Row>, all: &Vec<(String, Vec<Planned>)>, now: Week) -> (r: Vec<String>)
    ensures
        crate::text::strings(r@) == late_text(rows@, rows@.len() as int, all@, now),
{
    let nw = name_width_of(rows);
    let mut out: Vec<String> = Vec::new();
    let mut i: usize = 0;
    while i < rows.len()
        invariant
            i <= rows.len(),
            nw == name_width(rows@),
            crate::text::strings(out@) == late_text(rows@, i as int, all@, now),
        decreases rows.len() - i,
    {
        let row = &rows[i];
        if let Some(vs) = find_versions(all, &row.project) {
            let ghost before = crate::text::strings(out@);
            let mut j: usize = 0;
            while j < row.cells.len()
                invariant
                    j <= row.cells.len(),
                    crate::text::strings(out@) == before + row_late(nw as nat, row.project@, vs@, row.cells@.take(j as int), now),
                decreases row.cells.len() - j,
            {
                let cell = &row.cells[j];
                assert(row.cells@.take(j + 1).drop_last() =~= row.cells@.take(j as int));
                assert(row.cells@.take(j + 1).last() == *cell);
                let ghost was = crate::text::strings(out@);
                if cell.standing == Standing::Slipped || cell.standing == Standing::Overdue {
                    if let Some(v) = find_version(vs, &cell.version) {
                        let weeks = match v.slip() {
                            Some(w) => Some(w),
                            None => v.overdue(now),
                        };
                        assert(weeks == lateness(*v, now));
                        if let Some(w) = weeks {
                            let mut line: Vec<char> = Vec::new();
                            push_pad(&mut line, &chars_of_string(&row.project), nw);
                            append_str(&mut line, "  ");
                            append(&mut line, &chars_of_string(&cell.version));
                            append_str(&mut line, " — aimed at ");
                            match v.planned {
                                Some(p) => append(&mut line, &chars_of_string(&p.to_text())),
                                None => {},
                            }
                            append_str(&mut line, ", ");
                            append(&mut line, &chars_of_string(&weeks_late(w)));
                            assert(line@ =~= late_line(nw as nat, row.project@, *cell, *v, w));
                            out.push(crate::text::text_of(&line));
                            assert(crate::text::strings(out@) =~= was.push(line@));
                        }
                    }
                }
                assert(crate::text::strings(out@) =~= before + row_late(nw as nat, row.project@, vs@, row.cells@.take(j + 1), now));
                j = j + 1;
            }
            assert(row.cells@.take(row.cells.len() as int) =~= row.cells@);
        }
        i = i + 1;
    }
    out
}

} // verus!
