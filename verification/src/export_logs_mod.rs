use vstd::prelude::*;

use crate::dane_out::{BusEvent, BusId, Date, StationId, Time, TDF};
use crate::text::{decimal, push_decimal, push_text};

verus! {

/// The name of the log files of a stop: `y`, `m`, `d` before the year,
/// month and day, `h`, `m` before the hour and minute, `b` before the bus
/// and `s` before the station.
pub open spec fn event_log_name(date: Date, time: Time, bus: BusId, station: StationId) -> Seq<char> {
    "y"@ + decimal(date.year as nat) + "m"@ + decimal(date.month as nat) + "d"@ + decimal(
        date.day as nat,
    ) + "h"@ + decimal(time.hour as nat) + "m"@ + decimal(time.minute as nat) + "b"@ + decimal(
        bus.id_number as nat,
    ) + "s"@ + decimal(station.id_number as nat)
}

/// The logs of one stop: the event under its file name for the event log,
/// and the event with the number of passengers in the bus after it for the
/// log of the bus.
pub fn get_export_data(
    current_time: &Time,
    current_date: &Date,
    id_bus: &BusId,
    id_station: &StationId,
    passangers_entering_amount: u32,
    passangers_leaving_amount: u32,
    passangers_in_bus_debug: u32,
) -> (r: ((String, BusEvent), (BusEvent, u32)))
    ensures
        r.0.0@ == event_log_name(*current_date, *current_time, *id_bus, *id_station),
        r.0.1 == (BusEvent {
            date_of_event: *current_date,
            time_of_event: *current_time,
            id_of_the_bus: *id_bus,
            id_of_the_station: *id_station,
            pasangers_coming_in: passangers_entering_amount,
            pasangers_coming_out: passangers_leaving_amount,
        }),
        r.1.0 == r.0.1,
        r.1.1 == passangers_in_bus_debug,
{
    let export_data = BusEvent {
        date_of_event: *current_date,
        time_of_event: *current_time,
        id_of_the_bus: *id_bus,
        id_of_the_station: *id_station,
        pasangers_coming_in: passangers_entering_amount,
        pasangers_coming_out: passangers_leaving_amount,
    };
    let mut pathname = String::new();
    push_text(&mut pathname, "y");
    push_decimal(&mut pathname, current_date.year as u64);
    push_text(&mut pathname, "m");
    push_decimal(&mut pathname, current_date.month as u64);
    push_text(&mut pathname, "d");
    push_decimal(&mut pathname, current_date.day as u64);
    push_text(&mut pathname, "h");
    push_decimal(&mut pathname, current_time.hour as u64);
    push_text(&mut pathname, "m");
    push_decimal(&mut pathname, current_time.minute as u64);
    push_text(&mut pathname, "b");
    push_decimal(&mut pathname, id_bus.id_number as u64);
    push_text(&mut pathname, "s");
    push_decimal(&mut pathname, id_station.id_number as u64);
    ((pathname, export_data), (export_data, passangers_in_bus_debug))
}

/// The CSV log of one event: its column names, a line break, its values.
pub fn event_log_csv(event: &BusEvent) -> (text: String)
    ensures
        text@ == event.tdf_header() + "\n"@ + event.tdf_row(),
{
    let (header, row) = event.export_tdf();
    let mut text = header;
    push_text(&mut text, "\n");
    push_text(&mut text, row.as_str());
    text
}

/// The line of the text log of a bus for one event.
pub open spec fn bus_log_line(e: BusEvent, inside: u32) -> Seq<char> {
    e.time_of_event.debug_text() + ", "@ + e.id_of_the_station.debug_text()
        + ", People coming in "@ + decimal(e.pasangers_coming_in as nat)
        + ", People going out "@ + decimal(e.pasangers_coming_out as nat)
        + ", People inside the bus "@ + decimal(inside as nat) + "\n"@
}

/// The date of the last of `events`, or `start` where there is none.
pub open spec fn last_date(start: Date, events: Seq<(BusEvent, u32)>) -> Date {
    if events.len() == 0 {
        start
    } else {
        events.last().0.date_of_event
    }
}

/// The text log of a bus: a line per event, and a line with the date
/// before each event whose date differs from that of the event before it
/// (from `start` for the first).
pub open spec fn bus_log_text(start: Date, events: Seq<(BusEvent, u32)>) -> Seq<char>
    decreases events.len(),
{
    if events.len() == 0 {
        Seq::empty()
    } else {
        let before = events.drop_last();
        let (e, inside) = events.last();
        bus_log_text(start, before) + (if e.date_of_event != last_date(start, before) {
            e.date_of_event.debug_text() + "\n"@
        } else {
            Seq::empty()
        }) + bus_log_line(e, inside)
    }
}

/// A date line comes before an event exactly where its date differs from
/// that of the event before it, or from `start` for the first event: a run
/// of events on one date has the date line once.
pub proof fn lemma_date_line_on_change(
    start: Date,
    events: Seq<(BusEvent, u32)>,
    e: (BusEvent, u32),
)
    ensures
        events.len() == 0 ==> bus_log_text(start, seq![e]) == (if e.0.date_of_event != start {
            e.0.date_of_event.debug_text() + "\n"@
        } else {
            Seq::empty()
        }) + bus_log_line(e.0, e.1),
        events.len() > 0 ==> bus_log_text(start, events.push(e)) == bus_log_text(start, events)
            + (if e.0.date_of_event != events.last().0.date_of_event {
            e.0.date_of_event.debug_text() + "\n"@
        } else {
            Seq::empty()
        }) + bus_log_line(e.0, e.1),
{
    if events.len() == 0 {
        let one = seq![e];
        assert(one.drop_last() =~= Seq::<(BusEvent, u32)>::empty());
        assert(one.last() == e);
        assert(bus_log_text(start, one.drop_last()) == Seq::<char>::empty());
        assert(last_date(start, one.drop_last()) == start);
        let head = if e.0.date_of_event != start {
            e.0.date_of_event.debug_text() + "\n"@
        } else {
            Seq::empty()
        };
        assert(bus_log_text(start, one) == Seq::<char>::empty() + head + bus_log_line(e.0, e.1));
        assert(Seq::<char>::empty() + head =~= head);
    } else {
        let more = events.push(e);
        assert(more.drop_last() =~= events);
        assert(more.last() == e);
    }
}

/// The CSV row of the log of a bus for one event.
pub open spec fn bus_csv_row(e: BusEvent, inside: u32) -> Seq<char> {
    decimal(e.time_of_event.hour as nat) + ","@ + decimal(e.time_of_event.minute as nat) + ","@
        + decimal(e.date_of_event.year as nat) + ","@ + decimal(e.date_of_event.month as nat)
        + ","@ + decimal(e.date_of_event.day as nat) + ","@ + decimal(
        e.id_of_the_station.id_number as nat,
    ) + ","@ + decimal(e.pasangers_coming_in as nat) + ","@ + decimal(
        e.pasangers_coming_out as nat,
    ) + ","@ + decimal(inside as nat) + "\n"@
}

/// The CSV rows of the log of a bus, one per event.
pub open spec fn bus_csv_rows(events: Seq<(BusEvent, u32)>) -> Seq<char>
    decreases events.len(),
{
    if events.len() == 0 {
        Seq::empty()
    } else {
        bus_csv_rows(events.drop_last()) + bus_csv_row(events.last().0, events.last().1)
    }
}

fn push_bus_log_line(s: &mut String, e: &BusEvent, inside: u32)
    ensures
        final(s)@ == old(s)@ + bus_log_line(*e, inside),
{
    e.time_of_event.push_debug(s);
    push_text(s, ", ");
    e.id_of_the_station.push_debug(s);
    push_text(s, ", People coming in ");
    push_decimal(s, e.pasangers_coming_in as u64);
    push_text(s, ", People going out ");
    push_decimal(s, e.pasangers_coming_out as u64);
    push_text(s, ", People inside the bus ");
    push_decimal(s, inside as u64);
    push_text(s, "\n");
    proof {
        assert(final(s)@ =~= old(s)@ + bus_log_line(*e, inside));
    }
}

fn push_bus_csv_row(s: &mut String, e: &BusEvent, inside: u32)
    ensures
        final(s)@ == old(s)@ + bus_csv_row(*e, inside),
{
    push_decimal(s, e.time_of_event.hour as u64);
    push_text(s, ",");
    push_decimal(s, e.time_of_event.minute as u64);
    push_text(s, ",");
    push_decimal(s, e.date_of_event.year as u64);
    push_text(s, ",");
    push_decimal(s, e.date_of_event.month as u64);
    push_text(s, ",");
    push_decimal(s, e.date_of_event.day as u64);
    push_text(s, ",");
    push_decimal(s, e.id_of_the_station.id_number as u64);
    push_text(s, ",");
    push_decimal(s, e.pasangers_coming_in as u64);
    push_text(s, ",");
    push_decimal(s, e.pasangers_coming_out as u64);
    push_text(s, ",");
    push_decimal(s, inside as u64);
    push_text(s, "\n");
    proof {
        assert(final(s)@ =~= old(s)@ + bus_csv_row(*e, inside));
    }
}

/// The CSV log of a bus gains one row per event, at the end, in the order
/// of the events.
pub proof fn lemma_bus_csv_rows_append(events: Seq<(BusEvent, u32)>, e: (BusEvent, u32))
    ensures
        bus_csv_rows(Seq::<(BusEvent, u32)>::empty()) == Seq::<char>::empty(),
        bus_csv_rows(events.push(e)) == bus_csv_rows(events) + bus_csv_row(e.0, e.1),
{
    assert(events.push(e).drop_last() =~= events);
}

/// The text log and the CSV log of a bus, from its events in order, each
/// with the number of passengers in the bus after it.
pub fn bus_line_log_texts(start_date: &Date, events: &[(BusEvent, u32)]) -> (r: (String, String))
    ensures
        r.0@ == bus_log_text(*start_date, events@),
        r.1@ == "hour,minute,year,month,day,station,in,out,inside\n"@ + bus_csv_rows(events@),
{
    let mut content = String::new();
    let mut content2 = String::from_str("hour,minute,year,month,day,station,in,out,inside\n");
    let mut cdate = *start_date;
    let mut i: usize = 0;
    while i < events.len()
        invariant
            i <= events@.len(),
            cdate == last_date(*start_date, events@.subrange(0, i as int)),
            content@ == bus_log_text(*start_date, events@.subrange(0, i as int)),
            content2@ == "hour,minute,year,month,day,station,in,out,inside\n"@ + bus_csv_rows(
                events@.subrange(0, i as int),
            ),
        decreases events@.len() - i,
    {
        let (data, pin) = events[i];
        let ghost text_before = content@;
        let ghost csv_before = content2@;
        if data.date_of_event != cdate {
            data.date_of_event.push_debug(&mut content);
            push_text(&mut content, "\n");
            cdate = data.date_of_event;
        }
        push_bus_log_line(&mut content, &data, pin);
        push_bus_csv_row(&mut content2, &data, pin);
        proof {
            let pre = events@.subrange(0, i as int);
            let post = events@.subrange(0, i + 1);
            assert(post.drop_last() =~= pre);
            assert(post.last() == (data, pin));
            assert(bus_csv_rows(post) == bus_csv_rows(pre) + bus_csv_row(data, pin));
            assert(content2@ =~= "hour,minute,year,month,day,station,in,out,inside\n"@
                + bus_csv_rows(post));
            assert(content@ =~= bus_log_text(*start_date, post));
        }
        i = i + 1;
    }
    proof {
        assert(events@.subrange(0, i as int) =~= events@);
    }
    (content, content2)
}

} // verus!
