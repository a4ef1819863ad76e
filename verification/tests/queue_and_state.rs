use bus_simulation::dane_out::{BusId, Date, StationId, Time};
use bus_simulation::setup_simulation::{load_simulation_input_data, sort_queue_by_time, update_bus_lines};
use bus_simulation::simplestucts::{
    Attractivness, Passanger, SimuBusPlan, SimuStation, SimuStopPoint, SimulationInput,
};
use bus_simulation::simulation_tick::{
    get_events_to_simulate, get_next_event_time, get_today_bus_quere, tick_next_day,
};
use bus_simulation::simulsimple::{BusLinesTable, SimulationState, SimulationStateResult, StationDataTable};

fn sta(n: u32) -> StationId {
    StationId { id_number: n }
}

fn bus(n: u32) -> BusId {
    BusId { id_number: n }
}

fn time(hour: u32, minute: u32) -> Time {
    Time { hour, minute }
}

fn date(year: u32, month: u32, day: u32) -> Date {
    Date { year, month, day }
}

fn queue() -> Vec<(Time, BusId, StationId)> {
    vec![
        (time(7, 0), bus(1), sta(1)),
        (time(7, 10), bus(1), sta(2)),
        (time(7, 10), bus(2), sta(5)),
        (time(8, 0), bus(2), sta(6)),
    ]
}

#[test]
fn next_day_tick_restarts_the_queue() {
    let (t, d, q) = tick_next_day(date(2025, 12, 31), &queue());
    assert_eq!(t, time(0, 0));
    assert_eq!(d, date(2026, 1, 1));
    assert_eq!(q, queue());
}

#[test]
fn queue_queries() {
    assert_eq!(get_today_bus_quere(&time(7, 5), queue()), queue()[1..].to_vec());
    assert_eq!(get_next_event_time(&time(7, 5), &queue()), Some(time(7, 10)));
    assert_eq!(get_next_event_time(&time(7, 0), &queue()), Some(time(7, 0)));
    assert_eq!(get_next_event_time(&time(8, 1), &queue()), None);
    assert_eq!(get_events_to_simulate(&time(7, 10), &queue()), queue()[1..3].to_vec());
    assert!(get_events_to_simulate(&time(7, 11), &queue()).is_empty());
}

#[test]
fn queue_sort_is_stable_by_time() {
    let mut q = vec![
        (time(9, 0), bus(1), sta(1)),
        (time(7, 0), bus(2), sta(2)),
        (time(9, 0), bus(3), sta(3)),
        (time(7, 0), bus(4), sta(4)),
        (time(8, 0), bus(5), sta(5)),
    ];
    sort_queue_by_time(&mut q);
    assert_eq!(
        q,
        vec![
            (time(7, 0), bus(2), sta(2)),
            (time(7, 0), bus(4), sta(4)),
            (time(8, 0), bus(5), sta(5)),
            (time(9, 0), bus(1), sta(1)),
            (time(9, 0), bus(3), sta(3)),
        ]
    );
}

fn point(hour: u32, minute: u32, s: u32) -> SimuStopPoint {
    SimuStopPoint { time: time(hour, minute), staid: sta(s) }
}

fn input() -> SimulationInput<f32> {
    SimulationInput {
        start_time: time(0, 0),
        start_date: date(2025, 12, 12),
        end_date: date(2025, 12, 12),
        stations: vec![
            SimuStation {
                staid: sta(1),
                atract_e: Some(vec![Attractivness { start_hour: 7, end_hour: 9, att: 2.0 }]),
                atract_l: None,
            },
            SimuStation { staid: sta(1), atract_e: None, atract_l: None },
        ],
        bus_plans: vec![SimuBusPlan { busid: bus(3), points: vec![point(6, 0, 1), point(6, 20, 2)] }],
    }
}

#[test]
fn bus_lines_repeat_every_hour_from_seven() {
    let mut i = input();
    update_bus_lines(&mut i);
    let points = &i.bus_plans[0].points;
    assert_eq!(points.len(), 2 * 18);
    assert_eq!(points[0], point(6, 0, 1));
    assert_eq!(points[1], point(6, 20, 2));
    assert_eq!(points[2], point(7, 0, 1));
    assert_eq!(points[3], point(7, 20, 2));
    assert_eq!(points[35], point(23, 20, 2));
    assert_eq!(i.stations.len(), 2);
}

#[test]
fn loading_fills_tables_and_sorted_queue() {
    let mut i = input();
    i.bus_plans.push(SimuBusPlan { busid: bus(4), points: vec![point(6, 10, 1), point(6, 0, 2)] });
    let mut stations = StationDataTable::new(0.5f32, 0.0f32);
    let mut lines = BusLinesTable::new();
    let mut q = Vec::new();
    load_simulation_input_data(&i, &mut stations, &mut lines, &mut q);
    assert_eq!(
        q,
        vec![
            (time(6, 0), bus(3), sta(1)),
            (time(6, 0), bus(4), sta(2)),
            (time(6, 10), bus(4), sta(1)),
            (time(6, 20), bus(3), sta(2)),
        ]
    );
    assert_eq!(stations.get_entering_attractivness(&sta(1), 8), 2.0);
    assert_eq!(lines.get_first_future_station_time(&bus(4), Some(&sta(2)), time(6, 0)), vec![(sta(1), time(6, 10))]);
}

#[test]
fn a_day_of_ticks() {
    let mut state = SimulationState::new(input(), 0.5f32, 0.0f32);
    assert_eq!(state.current_time(), time(0, 0));
    let (result, events) = state.simulation_tick();
    assert_eq!(result, SimulationStateResult::TickContinue);
    assert_eq!(state.current_time(), time(6, 0));
    assert_eq!(events, vec![(time(6, 0), bus(3), sta(1))]);
    state.record_bus_stop(bus(3), sta(1), 0, vec![], vec![Passanger::new(sta(2)), Passanger::new(sta(2))]);
    assert_eq!(state.passangers_in_bus()[&3].len(), 2);
    assert_eq!(state.event_export_logs().len(), 1);
    assert_eq!(state.event_export_logs()[0].0, "y2025m12d12h6m0b3s1");
    assert_eq!(state.event_export_logs()[0].1.pasangers_coming_in, 2);
    assert_eq!(state.bus_line_logs()[&3][0].1, 2);
    state.advance_clock(result);
    assert_eq!(state.current_time(), time(6, 1));
    let (result, events) = state.simulation_tick();
    assert_eq!(result, SimulationStateResult::TickContinue);
    assert_eq!(state.current_time(), time(6, 20));
    assert_eq!(events, vec![(time(6, 20), bus(3), sta(2))]);
    state.advance_clock(result);
    state.current_time();
    let mut last = result;
    for _ in 0..40 {
        let (r, _) = state.simulation_tick();
        last = r;
        if r != SimulationStateResult::TickContinue {
            break;
        }
        state.advance_clock(r);
    }
    assert_eq!(last, SimulationStateResult::NextDay);
    state.advance_clock(last);
    assert_eq!(state.current_date(), date(2025, 12, 13));
    assert_eq!(state.current_time(), time(0, 0));
    assert!(state.passangers_in_bus().is_empty());
    let (r, events) = state.simulation_tick();
    assert_eq!(r, SimulationStateResult::SimulationOver);
    assert!(events.is_empty());
}

#[test]
fn next_event_is_the_earliest_stop_waiting() {
    let mut q = vec![
        (time(9, 0), bus(1), sta(1)),
        (time(7, 20), bus(2), sta(2)),
        (time(8, 0), bus(3), sta(3)),
        (time(6, 0), bus(4), sta(4)),
    ];
    sort_queue_by_time(&mut q);
    for now in [time(0, 0), time(6, 1), time(7, 20), time(8, 30), time(9, 1)] {
        let earliest = q.iter().map(|e| e.0).filter(|t| *t >= now).min();
        let next = get_next_event_time(&now, &q);
        assert_eq!(next, earliest);
        if let Some(t) = next {
            assert!(!get_events_to_simulate(&t, &q).is_empty());
        }
    }
}

#[test]
fn following_day_is_later_and_valid() {
    let mut d = date(2025, 1, 1);
    for _ in 0..400 {
        let before = d;
        d.next_day();
        assert!(d > before);
        assert!((1..=12).contains(&d.month) && d.day >= 1 && d.day <= 31);
    }
    assert_eq!(d, date(2026, 2, 5));
}
