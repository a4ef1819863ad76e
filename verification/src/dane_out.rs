use vstd::prelude::*;

use crate::text::{decimal, push_decimal, push_text};

verus! {

/// Identifies a bus stop.
#[derive(Debug, Clone, Copy, Default, PartialEq, Eq, Structural, Hash)]
pub struct StationId {
    pub id_number: u32,
}

/// Identifies a bus.
#[derive(Debug, Clone, Copy, Default, PartialEq, Eq, Structural, PartialOrd, Ord, Hash)]
pub struct BusId {
    pub id_number: u32,
}

/// Number of days of `month` (1 to 12) in the simulation's calendar,
/// which has no leap years.
pub open spec fn month_length(month: u32) -> u32 {
    if month == 2 {
        28
    } else if month == 4 || month == 6 || month == 9 || month == 11 {
        30
    } else {
        31
    }
}

/// Looks up the length of a month.
pub fn days_in_month(month: u32) -> (days: u32)
    requires
        1 <= month <= 12,
    ensures
        days == month_length(month),
{
    match month {
        2 => 28,
        4 | 6 | 9 | 11 => 30,
        _ => 31,
    }
}

/// A calendar day.
#[derive(Debug, Clone, Copy, PartialEq, Eq, Structural, Ord)]
pub struct Date {
    pub year: u32,
    pub month: u32,
    pub day: u32,
}

impl Date {
    /// A date whose month exists and whose day exists in that month.
    pub open spec fn is_valid(self) -> bool {
        &&& 1 <= self.month <= 12
        &&& 1 <= self.day <= month_length(self.month)
    }

    /// `self` comes strictly before `other`: years first, then months, then days.
    pub open spec fn is_before(self, other: Date) -> bool {
        ||| self.year < other.year
        ||| (self.year == other.year && self.month < other.month)
        ||| (self.year == other.year && self.month == other.month && self.day < other.day)
    }

    /// The day that `next_day` moves to.
    pub open spec fn following_day(self) -> Date {
        if self.day + 1 > month_length(self.month) {
            if self.month + 1 > 12 {
                Date { year: (self.year + 1) as u32, month: 1, day: 1 }
            } else {
                Date { year: self.year, month: (self.month + 1) as u32, day: 1 }
            }
        } else {
            Date { day: (self.day + 1) as u32, ..self }
        }
    }

    /// The inputs on which `next_day` neither indexes outside the calendar
    /// nor overflows a counter.
    pub open spec fn can_advance(self) -> bool {
        &&& 1 <= self.month <= 12
        &&& self.day < u32::MAX
        &&& (self.month == 12 && self.day + 1 > month_length(12) ==> self.year < u32::MAX)
    }

    /// Moves to the following day: past the month's last day the day
    /// becomes 1 and the month advances, past December the month becomes 1
    /// and the year advances.
    pub fn next_day(&mut self)
        requires
            old(self).can_advance(),
        ensures
            *final(self) == old(self).following_day(),
    {
        self.day = self.day + 1;
        if self.day > days_in_month(self.month) {
            self.day = 1;
            self.month = self.month + 1;
        }
        if self.month > 12 {
            self.month = 1;
            self.year = self.year + 1;
        }
    }
}

/// A time of day.
#[derive(Debug, Clone, Copy, Default, PartialEq, Eq, Structural, Ord)]
pub struct Time {
    pub hour: u32,
    pub minute: u32,
}

impl Time {
    /// A time within one day: hour 0 to 23, minute 0 to 59.
    pub open spec fn is_valid(self) -> bool {
        self.hour < 24 && self.minute < 60
    }

    /// `self` comes strictly before `other`: hours first, then minutes.
    pub open spec fn is_before(self, other: Time) -> bool {
        ||| self.hour < other.hour
        ||| (self.hour == other.hour && self.minute < other.minute)
    }

    /// `self` comes at the same time as `other` or before it.
    pub open spec fn is_at_or_before(self, other: Time) -> bool {
        self.is_before(other) || self == other
    }

    /// Minutes from midnight.
    pub open spec fn minute_of_day(self) -> int {
        self.hour * 60 + self.minute
    }

    /// The time that `next_minute` moves to, and whether it crossed midnight.
    pub open spec fn following_minute(self) -> (Time, bool) {
        let (hour, minute) = if self.minute + 1 >= 60 {
            (self.hour + 1, 0int)
        } else {
            (self.hour as int, self.minute + 1)
        };
        if hour >= 24 {
            (Time { hour: 0, minute: minute as u32 }, true)
        } else {
            (Time { hour: hour as u32, minute: minute as u32 }, false)
        }
    }

    /// The inputs on which `next_minute` does not overflow a counter.
    pub open spec fn can_advance(self) -> bool {
        &&& self.minute < u32::MAX
        &&& (self.minute + 1 >= 60 ==> self.hour < u32::MAX)
    }

    /// Moves one minute on. Past minute 59 the minute becomes 0 and the hour
    /// advances; past hour 23 the hour becomes 0 and, where a date is given,
    /// that date moves to the following day.
    pub fn next_minute(&mut self, date: Option<&mut Date>)
        requires
            old(self).can_advance(),
            old(self).following_minute().1 ==> (date matches Some(d) ==> d.can_advance()),
        ensures
            *final(self) == old(self).following_minute().0,
            match date {
                Some(d) => *final(d) == if old(self).following_minute().1 {
                    d.following_day()
                } else {
                    *d
                },
                None => true,
            },
    {
        self.minute = self.minute + 1;
        if self.minute >= 60 {
            self.hour = self.hour + 1;
            self.minute = 0;
        }
        if self.hour >= 24 {
            self.hour = 0;
            if let Some(date) = date {
                date.next_day();
            }
        }
    }
}

impl StationId {
    /// The text that `{:?}` prints for a station id.
    pub open spec fn debug_text(self) -> Seq<char> {
        "StationId { id_number: "@ + decimal(self.id_number as nat) + " }"@
    }

    /// Appends the `{:?}` text of this station id.
    pub fn push_debug(&self, s: &mut String)
        ensures
            final(s)@ == old(s)@ + self.debug_text(),
    {
        push_text(s, "StationId { id_number: ");
        push_decimal(s, self.id_number as u64);
        push_text(s, " }");
    }
}

impl Date {
    /// The text that `{:?}` prints for a date.
    pub open spec fn debug_text(self) -> Seq<char> {
        "Date { year: "@ + decimal(self.year as nat) + ", month: "@ + decimal(self.month as nat)
            + ", day: "@ + decimal(self.day as nat) + " }"@
    }

    /// Appends the `{:?}` text of this date.
    pub fn push_debug(&self, s: &mut String)
        ensures
            final(s)@ == old(s)@ + self.debug_text(),
    {
        push_text(s, "Date { year: ");
        push_decimal(s, self.year as u64);
        push_text(s, ", month: ");
        push_decimal(s, self.month as u64);
        push_text(s, ", day: ");
        push_decimal(s, self.day as u64);
        push_text(s, " }");
    }
}

impl Time {
    /// The text that `{:?}` prints for a time.
    pub open spec fn debug_text(self) -> Seq<char> {
        "Time { hour: "@ + decimal(self.hour as nat) + ", minute: "@ + decimal(self.minute as nat)
            + " }"@
    }

    /// Appends the `{:?}` text of this time.
    pub fn push_debug(&self, s: &mut String)
        ensures
            final(s)@ == old(s)@ + self.debug_text(),
    {
        push_text(s, "Time { hour: ");
        push_decimal(s, self.hour as u64);
        push_text(s, ", minute: ");
        push_decimal(s, self.minute as u64);
        push_text(s, " }");
    }
}

/// Moving to the following day gives a later date, and a date that exists
/// in the calendar is followed by one that exists too.
pub proof fn lemma_following_day_is_later(d: Date)
    requires
        d.can_advance(),
    ensures
        d.is_before(d.following_day()),
        d.is_valid() ==> d.following_day().is_valid(),
{
}

/// Month `month` of year `year` has `days` days: its last day is followed by
/// the first of the next month (of January of the next year after
/// December), and the day before its last by its last.
pub open spec fn month_has_days(year: u32, month: u32, days: u32) -> bool {
    &&& (Date { year, month, day: (days - 1) as u32 }).following_day() == (Date {
        year,
        month,
        day: days,
    })
    &&& (Date { year, month, day: days }).following_day() == if month == 12 {
        Date { year: (year + 1) as u32, month: 1, day: 1 }
    } else {
        Date { year, month: (month + 1) as u32, day: 1 }
    }
}

/// The months have their usual lengths, with no leap years: January 31 days,
/// February 28, March 31, April 30, May 31, June 30, July 31, August 31,
/// September 30, October 31, November 30, December 31.
pub proof fn lemma_month_lengths(year: u32)
    requires
        year < u32::MAX,
    ensures
        month_has_days(year, 1, 31),
        month_has_days(year, 2, 28),
        month_has_days(year, 3, 31),
        month_has_days(year, 4, 30),
        month_has_days(year, 5, 31),
        month_has_days(year, 6, 30),
        month_has_days(year, 7, 31),
        month_has_days(year, 8, 31),
        month_has_days(year, 9, 30),
        month_has_days(year, 10, 31),
        month_has_days(year, 11, 30),
        month_has_days(year, 12, 31),
{
}

/// Dates are ordered as the numbers `year * 512 + month * 32 + day` are,
/// for dates with month below 16 and day below 32: years first, then
/// months, then days.
pub proof fn lemma_date_order_by_number(a: Date, b: Date)
    requires
        a.month < 16 && a.day < 32,
        b.month < 16 && b.day < 32,
    ensures
        a.is_before(b) <==> a.year * 512 + a.month * 32 + a.day < b.year * 512 + b.month * 32
            + b.day,
{
}

/// Dates are totally ordered: of two dates, exactly one comes first or they
/// are the same; and coming before is transitive.
pub proof fn lemma_date_order_total(a: Date, b: Date, c: Date)
    ensures
        a.is_before(b) || a == b || b.is_before(a),
        !(a.is_before(b) && b.is_before(a)),
        !a.is_before(a),
        a.is_before(b) && b.is_before(c) ==> a.is_before(c),
{
}

/// Times are totally ordered: of two times, exactly one comes first or they
/// are the same; and coming before is transitive. Within a day, coming
/// before is having fewer minutes since midnight.
pub proof fn lemma_time_order_total(a: Time, b: Time, c: Time)
    ensures
        a.is_before(b) || a == b || b.is_before(a),
        !(a.is_before(b) && b.is_before(a)),
        !a.is_before(a),
        a.is_before(b) && b.is_before(c) ==> a.is_before(c),
        a.is_valid() && b.is_valid() ==> (a.is_before(b) <==> a.minute_of_day()
            < b.minute_of_day()),
{
}

/// On a time within the day, moving a minute on never overflows, gives a
/// time within the day one minute later modulo a day, and crosses midnight
/// exactly from 23:59.
pub proof fn lemma_following_minute_on_clock(t: Time)
    requires
        t.is_valid(),
    ensures
        t.can_advance(),
        t.following_minute().0.is_valid(),
        t.following_minute().0.minute_of_day() == (t.minute_of_day() + 1) % 1440,
        t.following_minute().1 <==> t.minute_of_day() == 1439,
{
}

impl Default for Date {
    /// The 12th of December 2025.
    fn default() -> (d: Date)
        ensures
            d == (Date { year: 2025, month: 12, day: 12 }),
    {
        Date { year: 2025, month: 12, day: 12 }
    }
}

/// A stop that a bus is planned to make.
#[derive(Debug, Clone, Copy, Default)]
pub struct PlannedStation {
    pub id_of_the_bus: BusId,
    pub id_of_the_station: StationId,
    pub time_of_event: Time,
}

/// What happened when a bus stopped at a station.
#[derive(Debug, Clone, Copy, Default, PartialEq, Eq, Structural)]
pub struct BusEvent {
    pub date_of_event: Date,
    pub time_of_event: Time,
    pub id_of_the_bus: BusId,
    pub id_of_the_station: StationId,
    pub pasangers_coming_in: u32,
    pub pasangers_coming_out: u32,
}

/// The stations a bus calls at, each with its time.
#[derive(Debug, Clone, Default)]
pub struct BusSchedule {
    pub id_of_the_bus: BusId,
    pub stops: Vec<(StationId, Time)>,
}

/// The plan of one bus as a list of planned stops.
#[derive(Debug, Clone, Default)]
pub struct BusPlan {
    pub id_autobusu: BusId,
    pub plan: Vec<PlannedStation>,
}

/// Export as a table of one row: a header line of column names and a line of
/// values, both comma separated.
pub trait TDF {
    /// The column names.
    spec fn tdf_header(&self) -> Seq<char>;

    /// The values.
    spec fn tdf_row(&self) -> Seq<char>;

    fn export_tdf(&self) -> (r: (String, String))
        ensures
            r.0@ == self.tdf_header(),
            r.1@ == self.tdf_row(),
    ;
}

impl TDF for Date {
    open spec fn tdf_header(&self) -> Seq<char> {
        "year,month,day"@
    }

    open spec fn tdf_row(&self) -> Seq<char> {
        decimal(self.year as nat) + ","@ + decimal(self.month as nat) + ","@ + decimal(
            self.day as nat,
        )
    }

    fn export_tdf(&self) -> (r: (String, String)) {
        let header = String::from_str("year,month,day");
        let mut row = String::new();
        push_decimal(&mut row, self.year as u64);
        push_text(&mut row, ",");
        push_decimal(&mut row, self.month as u64);
        push_text(&mut row, ",");
        push_decimal(&mut row, self.day as u64);
        (header, row)
    }
}

impl TDF for Time {
    open spec fn tdf_header(&self) -> Seq<char> {
        "hour,minute"@
    }

    open spec fn tdf_row(&self) -> Seq<char> {
        decimal(self.hour as nat) + ","@ + decimal(self.minute as nat)
    }

    fn export_tdf(&self) -> (r: (String, String)) {
        let header = String::from_str("hour,minute");
        let mut row = String::new();
        push_decimal(&mut row, self.hour as u64);
        push_text(&mut row, ",");
        push_decimal(&mut row, self.minute as u64);
        (header, row)
    }
}

impl TDF for BusEvent {
    open spec fn tdf_header(&self) -> Seq<char> {
        self.time_of_event.tdf_header() + ","@ + self.date_of_event.tdf_header()
            + ",bus id,station id,passangers going in,passangers going out"@
    }

    open spec fn tdf_row(&self) -> Seq<char> {
        self.time_of_event.tdf_row() + ","@ + self.date_of_event.tdf_row() + ","@ + decimal(
            self.id_of_the_bus.id_number as nat,
        ) + ","@ + decimal(self.id_of_the_station.id_number as nat) + ","@ + decimal(
            self.pasangers_coming_in as nat,
        ) + ","@ + decimal(self.pasangers_coming_out as nat)
    }

    fn export_tdf(&self) -> (r: (String, String)) {
        let time_tdf = self.time_of_event.export_tdf();
        let date_tdf = self.date_of_event.export_tdf();
        let mut header = time_tdf.0;
        push_text(&mut header, ",");
        push_text(&mut header, date_tdf.0.as_str());
        push_text(&mut header, ",bus id,station id,passangers going in,passangers going out");
        let mut row = time_tdf.1;
        push_text(&mut row, ",");
        push_text(&mut row, date_tdf.1.as_str());
        push_text(&mut row, ",");
        push_decimal(&mut row, self.id_of_the_bus.id_number as u64);
        push_text(&mut row, ",");
        push_decimal(&mut row, self.id_of_the_station.id_number as u64);
        push_text(&mut row, ",");
        push_decimal(&mut row, self.pasangers_coming_in as u64);
        push_text(&mut row, ",");
        push_decimal(&mut row, self.pasangers_coming_out as u64);
        (header, row)
    }
}

/// The column names of a schedule with `n` stops.
pub open spec fn schedule_header(n: nat) -> Seq<char>
    decreases n,
{
    if n == 0 {
        "BusId"@
    } else {
        schedule_header((n - 1) as nat) + ",stopNumber,station,"@ + "hour,minute"@
    }
}

/// The values of stop number `i` of a schedule: the number, the station
/// and the time, each after a comma.
pub open spec fn schedule_stop_cell(i: nat, station: StationId, time: Time) -> Seq<char> {
    ","@ + decimal(i) + ","@ + decimal(station.id_number as nat) + ","@ + time.tdf_row()
}

/// The values of the stops of a schedule after the bus number: for each
/// stop, its number counted from 0, its station and its time.
pub open spec fn schedule_stop_values(stops: Seq<(StationId, Time)>) -> Seq<char>
    decreases stops.len(),
{
    if stops.len() == 0 {
        Seq::empty()
    } else {
        schedule_stop_values(stops.drop_last()) + schedule_stop_cell(
            (stops.len() - 1) as nat,
            stops.last().0,
            stops.last().1,
        )
    }
}

/// The values of a schedule gain one cell per stop, at the end, numbered
/// from 0 in the order of the stops.
pub proof fn lemma_schedule_values_append(stops: Seq<(StationId, Time)>, x: (StationId, Time))
    ensures
        schedule_stop_values(Seq::<(StationId, Time)>::empty()) == Seq::<char>::empty(),
        schedule_stop_values(stops.push(x)) == schedule_stop_values(stops) + schedule_stop_cell(
            stops.len(),
            x.0,
            x.1,
        ),
{
    assert(stops.push(x).drop_last() =~= stops);
}

fn push_schedule_stop_cell(s: &mut String, i: usize, station: StationId, time: Time)
    ensures
        final(s)@ == old(s)@ + schedule_stop_cell(i as nat, station, time),
{
    let time_tdf = time.export_tdf();
    push_text(s, ",");
    push_decimal(s, i as u64);
    push_text(s, ",");
    push_decimal(s, station.id_number as u64);
    push_text(s, ",");
    push_text(s, time_tdf.1.as_str());
    proof {
        assert(final(s)@ =~= old(s)@ + schedule_stop_cell(i as nat, station, time));
    }
}

impl TDF for BusSchedule {
    open spec fn tdf_header(&self) -> Seq<char> {
        schedule_header(self.stops@.len())
    }

    open spec fn tdf_row(&self) -> Seq<char> {
        decimal(self.id_of_the_bus.id_number as nat) + schedule_stop_values(self.stops@)
    }

    fn export_tdf(&self) -> (r: (String, String)) {
        let mut uprow = String::from_str("BusId");
        let mut downrow = String::new();
        push_decimal(&mut downrow, self.id_of_the_bus.id_number as u64);
        let mut i: usize = 0;
        while i < self.stops.len()
            invariant
                i <= self.stops@.len(),
                uprow@ == schedule_header(i as nat),
                downrow@ == decimal(self.id_of_the_bus.id_number as nat) + schedule_stop_values(
                    self.stops@.subrange(0, i as int),
                ),
            decreases self.stops@.len() - i,
        {
            let (station, time) = self.stops[i];
            push_text(&mut uprow, ",stopNumber,station,");
            push_text(&mut uprow, "hour,minute");
            let ghost before = downrow@;
            push_schedule_stop_cell(&mut downrow, i, station, time);
            proof {
                let pre = self.stops@.subrange(0, i as int);
                let post = self.stops@.subrange(0, i + 1);
                assert(post.drop_last() =~= pre);
                assert(schedule_stop_values(post) == schedule_stop_values(pre)
                    + schedule_stop_cell(i as nat, station, time));
                assert(downrow@ =~= decimal(self.id_of_the_bus.id_number as nat)
                    + schedule_stop_values(post));
            }
            i = i + 1;
        }
        proof {
            assert(self.stops@.subrange(0, i as int) =~= self.stops@);
        }
        (uprow, downrow)
    }
}

} // verus!
