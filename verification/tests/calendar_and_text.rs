use bus_simulation::dane_out::{BusEvent, BusId, BusSchedule, Date, StationId, Time, TDF};
use bus_simulation::export_logs_mod::{bus_line_log_texts, event_log_csv, get_export_data};
use bus_simulation::text::push_decimal;

fn date(year: u32, month: u32, day: u32) -> Date {
    Date { year, month, day }
}

fn time(hour: u32, minute: u32) -> Time {
    Time { hour, minute }
}

#[test]
fn next_day_within_month() {
    let mut d = date(2025, 3, 14);
    d.next_day();
    assert_eq!(d, date(2025, 3, 15));
}

#[test]
fn next_day_at_end_of_month() {
    let mut d = date(2025, 4, 30);
    d.next_day();
    assert_eq!(d, date(2025, 5, 1));
    let mut d = date(2025, 1, 31);
    d.next_day();
    assert_eq!(d, date(2025, 2, 1));
}

#[test]
fn next_day_february_has_no_leap_day() {
    let mut d = date(2024, 2, 28);
    d.next_day();
    assert_eq!(d, date(2024, 3, 1));
}

#[test]
fn next_day_at_end_of_year() {
    let mut d = date(2025, 12, 31);
    d.next_day();
    assert_eq!(d, date(2026, 1, 1));
}

#[test]
fn next_minute_rolls_hours_and_days() {
    let mut t = time(10, 59);
    t.next_minute(None);
    assert_eq!(t, time(11, 0));

    let mut t = time(7, 5);
    let mut d = date(2025, 6, 1);
    t.next_minute(Some(&mut d));
    assert_eq!(t, time(7, 6));
    assert_eq!(d, date(2025, 6, 1));

    let mut t = time(23, 59);
    let mut d = date(2025, 12, 31);
    t.next_minute(Some(&mut d));
    assert_eq!(t, time(0, 0));
    assert_eq!(d, date(2026, 1, 1));

    let mut t = time(23, 59);
    t.next_minute(None);
    assert_eq!(t, time(0, 0));
}

#[test]
fn dates_and_times_are_ordered() {
    assert!(date(2025, 1, 1) > date(2024, 12, 31));
    assert!(date(2025, 2, 1) > date(2025, 1, 31));
    assert!(date(2025, 2, 2) > date(2025, 2, 1));
    assert!(date(2025, 2, 2) <= date(2025, 2, 2));
    assert!(time(8, 0) > time(7, 59));
    assert!(time(8, 1) > time(8, 0));
    assert!(time(8, 1) >= time(8, 1));
    assert!(time(0, 59) < time(1, 0));
    let mut v = vec![time(9, 0), time(7, 30), time(8, 15), time(7, 5)];
    v.sort();
    assert_eq!(v, vec![time(7, 5), time(7, 30), time(8, 15), time(9, 0)]);
}

#[test]
fn default_date_is_twelfth_of_december_2025() {
    assert_eq!(Date::default(), date(2025, 12, 12));
}

#[test]
fn decimals_are_written_like_display() {
    for n in [0u64, 7, 10, 305, 1000, 4294967295, u64::MAX] {
        let mut s = String::from("x");
        push_decimal(&mut s, n);
        assert_eq!(s, format!("x{}", n));
    }
}

#[test]
fn debug_texts_match_the_derived_debug() {
    let d = date(2025, 12, 3);
    let mut s = String::new();
    d.push_debug(&mut s);
    assert_eq!(s, format!("{:?}", d));
    let t = time(14, 7);
    let mut s = String::new();
    t.push_debug(&mut s);
    assert_eq!(s, format!("{:?}", t));
    let st = StationId { id_number: 42 };
    let mut s = String::new();
    st.push_debug(&mut s);
    assert_eq!(s, format!("{:?}", st));
}

#[test]
fn tdf_of_date_and_time() {
    assert_eq!(
        date(2025, 12, 3).export_tdf(),
        ("year,month,day".to_string(), "2025,12,3".to_string())
    );
    assert_eq!(time(7, 45).export_tdf(), ("hour,minute".to_string(), "7,45".to_string()));
}

fn event() -> BusEvent {
    BusEvent {
        date_of_event: date(2025, 12, 12),
        time_of_event: time(7, 5),
        id_of_the_bus: BusId { id_number: 3 },
        id_of_the_station: StationId { id_number: 4 },
        pasangers_coming_in: 6,
        pasangers_coming_out: 2,
    }
}

#[test]
fn tdf_of_bus_event() {
    let (header, row) = event().export_tdf();
    assert_eq!(
        header,
        "hour,minute,year,month,day,bus id,station id,passangers going in,passangers going out"
    );
    assert_eq!(row, "7,5,2025,12,12,3,4,6,2");
}

#[test]
fn tdf_of_bus_schedule() {
    let schedule = BusSchedule {
        id_of_the_bus: BusId { id_number: 9 },
        stops: vec![(StationId { id_number: 1 }, time(7, 0)), (StationId { id_number: 2 }, time(7, 10))],
    };
    let (header, row) = schedule.export_tdf();
    assert_eq!(
        header,
        "BusId,stopNumber,station,hour,minute,stopNumber,station,hour,minute"
    );
    assert_eq!(row, "9,0,1,7,0,1,2,7,10");
    let empty = BusSchedule { id_of_the_bus: BusId { id_number: 5 }, stops: vec![] };
    assert_eq!(empty.export_tdf(), ("BusId".to_string(), "5".to_string()));
}

#[test]
fn export_data_of_a_stop() {
    let ((name, logged), (bus_logged, inside)) = get_export_data(
        &time(7, 5),
        &date(2025, 12, 12),
        &BusId { id_number: 3 },
        &StationId { id_number: 4 },
        6,
        2,
        17,
    );
    assert_eq!(name, "y2025m12d12h7m5b3s4");
    assert_eq!(logged, event());
    assert_eq!(bus_logged, event());
    assert_eq!(inside, 17);
}

#[test]
fn csv_log_of_an_event() {
    assert_eq!(
        event_log_csv(&event()),
        "hour,minute,year,month,day,bus id,station id,passangers going in,passangers going out\n7,5,2025,12,12,3,4,6,2"
    );
}

#[test]
fn bus_logs_mark_each_new_date() {
    let first = event();
    let mut second = event();
    second.time_of_event = time(8, 0);
    second.id_of_the_station = StationId { id_number: 5 };
    let mut third = event();
    third.date_of_event = date(2025, 12, 13);
    let events = vec![(first, 10), (second, 12), (third, 1)];
    let (text, csv) = bus_line_log_texts(&date(2025, 12, 12), &events);
    let mut expected = String::new();
    for (i, (e, inside)) in events.iter().enumerate() {
        if i == 2 {
            expected += &format!("{:?}\n", e.date_of_event);
        }
        expected += &format!(
            "{:?}, {:?}, People coming in {:?}, People going out {:?}, People inside the bus {:?}\n",
            e.time_of_event, e.id_of_the_station, e.pasangers_coming_in, e.pasangers_coming_out, inside
        );
    }
    assert_eq!(text, expected);
    assert_eq!(
        csv,
        "hour,minute,year,month,day,station,in,out,inside\n7,5,2025,12,12,4,6,2,10\n8,0,2025,12,12,5,6,2,12\n7,5,2025,12,13,4,6,2,1\n"
    );
    let (text, _) = bus_line_log_texts(&date(2025, 1, 1), &events[..1]);
    assert!(text.starts_with("Date { year: 2025, month: 12, day: 12 }\n"));
}

#[test]
fn different_stops_get_different_log_names() {
    let name = |d: Date, t: Time, b: u32, s: u32| {
        get_export_data(&t, &d, &BusId { id_number: b }, &StationId { id_number: s }, 1, 2, 3).0 .0
    };
    let base = name(date(2025, 1, 12), time(1, 2), 3, 4);
    assert_ne!(base, name(date(2025, 11, 2), time(1, 2), 3, 4));
    assert_ne!(base, name(date(2025, 1, 12), time(12, 2), 3, 4));
    assert_ne!(base, name(date(2025, 1, 12), time(1, 2), 34, 4));
    assert_eq!(base, name(date(2025, 1, 12), time(1, 2), 3, 4));
    let other_counts =
        get_export_data(&time(1, 2), &date(2025, 1, 12), &BusId { id_number: 3 }, &StationId { id_number: 4 }, 9, 9, 9).0 .0;
    assert_eq!(base, other_counts);
}
