use std::collections::HashMap;

use bus_simulation::bus_ai::{
    count_passanger_leaving, get_passangers_in_bus_amount, get_passangers_leaving_at_station,
    get_possible_future_stations, update_passangers_in_bus,
};
use bus_simulation::dane_out::{BusId, StationId, Time};
use bus_simulation::passanger_ai::{get_passangers_leaving_amount_staying, select_posible_stations};
use bus_simulation::simplestucts::{Attractivness, Passanger, SimuStation, StationData};
use bus_simulation::simulsimple::{
    cap_passangers_entering, get_passangers_coming_in_amount, BusLinesTable, StationDataTable,
};

fn sta(n: u32) -> StationId {
    StationId { id_number: n }
}

fn bus(n: u32) -> BusId {
    BusId { id_number: n }
}

fn time(hour: u32, minute: u32) -> Time {
    Time { hour, minute }
}

fn riders(stations: &[u32]) -> Vec<Passanger> {
    stations.iter().map(|s| Passanger::new(sta(*s))).collect()
}

#[test]
fn passanger_new_keeps_its_station() {
    assert_eq!(Passanger::new(sta(8)).station_to_leave, sta(8));
}

#[test]
fn leaving_counts_per_station() {
    let counts = get_passangers_leaving_at_station(&riders(&[1, 2, 1, 3, 1]));
    assert_eq!(counts.len(), 3);
    assert_eq!(counts[&1], 3);
    assert_eq!(counts[&2], 1);
    assert_eq!(counts[&3], 1);
    assert!(get_passangers_leaving_at_station(&[]).is_empty());
}

#[test]
fn counting_one_more_leaving() {
    let mut counts = HashMap::new();
    count_passanger_leaving(&mut counts, &sta(4));
    count_passanger_leaving(&mut counts, &sta(4));
    count_passanger_leaving(&mut counts, &sta(2));
    assert_eq!(counts[&4], 2);
    assert_eq!(counts[&2], 1);
}

#[test]
fn passangers_in_bus_are_replaced() {
    let mut table = HashMap::new();
    table.insert(7, riders(&[9]));
    table.insert(8, riders(&[1, 1]));
    update_passangers_in_bus(&bus(7), riders(&[2, 3]), riders(&[4]), &mut table);
    assert_eq!(table[&7], riders(&[2, 3, 4]));
    assert_eq!(table[&8], riders(&[1, 1]));
    assert_eq!(get_passangers_in_bus_amount(&bus(7), &table), 3);
    assert_eq!(get_passangers_in_bus_amount(&bus(8), &table), 2);
    assert_eq!(get_passangers_in_bus_amount(&bus(99), &table), 0);
}

#[test]
fn stop_splits_leaving_and_staying() {
    let mut table = HashMap::new();
    table.insert(1, riders(&[5, 6, 5, 7]));
    let (leaving, staying) = get_passangers_leaving_amount_staying(&bus(1), &sta(5), &table);
    assert_eq!(leaving, 2);
    assert_eq!(staying, riders(&[6, 7]));
    let (leaving, staying) = get_passangers_leaving_amount_staying(&bus(2), &sta(5), &table);
    assert_eq!(leaving, 0);
    assert!(staying.is_empty());
}

#[test]
fn stations_with_room_are_kept_in_order() {
    let mut counts = HashMap::new();
    counts.insert(2, 20);
    counts.insert(3, 19);
    let candidates = vec![(sta(1), time(8, 0), 0.5f32), (sta(2), time(8, 5), 1.0), (sta(3), time(9, 0), 0.1)];
    let kept = select_posible_stations(candidates, &counts, 20);
    assert_eq!(kept, vec![(sta(1), time(8, 0), 0.5f32), (sta(3), time(9, 0), 0.1)]);
}

#[test]
fn timetable_keeps_times_in_order() {
    let mut lines = BusLinesTable::new();
    lines.insert_station_time(&bus(1), &sta(10), time(9, 0));
    lines.insert_station_time(&bus(1), &sta(10), time(7, 30));
    lines.insert_station_time(&bus(1), &sta(10), time(8, 15));
    lines.insert_station_time(&bus(1), &sta(11), time(7, 40));
    lines.insert_station_time(&bus(2), &sta(10), time(6, 0));
    let mut next = lines.get_first_future_station_time(&bus(1), None, time(8, 0));
    next.sort_by_key(|(s, _)| s.id_number);
    assert_eq!(next, vec![(sta(10), time(8, 15))]);
    let mut next = lines.get_first_future_station_time(&bus(1), None, time(7, 0));
    next.sort_by_key(|(s, _)| s.id_number);
    assert_eq!(next, vec![(sta(10), time(7, 30)), (sta(11), time(7, 40))]);
    let next = lines.get_first_future_station_time(&bus(1), Some(&sta(10)), time(7, 0));
    assert_eq!(next, vec![(sta(11), time(7, 40))]);
    assert!(lines.get_first_future_station_time(&bus(3), None, time(0, 0)).is_empty());
    assert!(lines.get_first_future_station_time(&bus(2), None, time(6, 1)).is_empty());
}

fn weights(start_hour: u32, end_hour: u32, att: f32) -> Attractivness<f32> {
    Attractivness { start_hour, end_hour, att }
}

#[test]
fn station_hours_take_the_last_weight() {
    let station = SimuStation {
        staid: sta(4),
        atract_e: Some(vec![weights(6, 10, 1.5), weights(8, 9, 3.0), weights(20, 24, 0.25)]),
        atract_l: None,
    };
    let data = StationData::from_simu_station(&station);
    assert_eq!(data._id, sta(4));
    assert_eq!(data.attractivness_e[5], None);
    assert_eq!(data.attractivness_e[6], Some(1.5));
    assert_eq!(data.attractivness_e[8], Some(3.0));
    assert_eq!(data.attractivness_e[9], Some(1.5));
    assert_eq!(data.attractivness_e[10], None);
    assert_eq!(data.attractivness_e[23], Some(0.25));
    assert!(data.attractivness_l.iter().all(|w| w.is_none()));
}

#[test]
fn station_weights_with_defaults() {
    let mut table = StationDataTable::new(0.5f32, 0.0f32);
    let station = SimuStation {
        staid: sta(4),
        atract_e: Some(vec![weights(7, 9, 2.0)]),
        atract_l: Some(vec![weights(7, 8, 4.0)]),
    };
    table.insert_station_data(StationData::from_simu_station(&station));
    let other = SimuStation { staid: sta(4), atract_e: None, atract_l: None };
    table.insert_station_data(StationData::from_simu_station(&other));
    assert_eq!(table.get_entering_attractivness(&sta(4), 8), 2.0);
    assert_eq!(table.get_leaving_attractivness(&sta(4), 7), 4.0);
    assert_eq!(table.get_leaving_attractivness(&sta(4), 8), 0.5);
    assert_eq!(table.get_leaving_attractivness(&sta(5), 8), 0.5);
    assert_eq!(table.get_leaving_attractivness(&sta(4), 24), 0.0);
    assert_eq!(table.get_entering_attractivness(&sta(4), 30), 0.0);
}

#[test]
fn possible_future_stations_carry_leaving_weights() {
    let mut lines = BusLinesTable::new();
    lines.insert_station_time(&bus(1), &sta(1), time(7, 0));
    lines.insert_station_time(&bus(1), &sta(2), time(7, 10));
    lines.insert_station_time(&bus(1), &sta(3), time(6, 50));
    let mut table = StationDataTable::new(0.5f32, 0.0f32);
    let station = SimuStation { staid: sta(2), atract_e: None, atract_l: Some(vec![weights(7, 8, 3.0)]) };
    table.insert_station_data(StationData::from_simu_station(&station));
    let mut possible = get_possible_future_stations(&time(7, 0), &bus(1), &sta(1), &lines, &table);
    possible.sort_by_key(|(s, _, _)| s.id_number);
    assert_eq!(possible, vec![(sta(2), time(7, 10), 3.0f32)]);
}

#[test]
fn entering_passangers_are_capped_by_room() {
    assert_eq!(cap_passangers_entering(10, 60), 5);
    assert_eq!(cap_passangers_entering(3, 60), 3);
    assert_eq!(cap_passangers_entering(0, 65), 0);
    assert_eq!(get_passangers_coming_in_amount(4, 4, &riders(&[1; 10])), 4);
    assert_eq!(get_passangers_coming_in_amount(4, 9, &riders(&[1; 63])), 2);
    for _ in 0..50 {
        let n = get_passangers_coming_in_amount(2, 10, &riders(&[1; 3]));
        assert!((2..=10).contains(&n));
    }
}

#[test]
fn entering_passangers_are_drawn_at_random() {
    let staying = riders(&[1; 3]);
    let first = get_passangers_coming_in_amount(2, 10, &staying);
    let mut varied = false;
    for _ in 0..300 {
        if get_passangers_coming_in_amount(2, 10, &staying) != first {
            varied = true;
        }
    }
    assert!(varied);
}

#[test]
fn an_added_call_is_found_again() {
    let mut lines = BusLinesTable::new();
    lines.insert_station_time(&bus(2), &sta(7), time(9, 30));
    lines.insert_station_time(&bus(2), &sta(7), time(8, 0));
    lines.insert_station_time(&bus(2), &sta(7), time(8, 45));
    let next = lines.get_first_future_station_time(&bus(2), None, time(8, 45));
    assert_eq!(next, vec![(sta(7), time(8, 45))]);
}

#[test]
fn leaving_and_staying_make_up_the_bus() {
    let mut table = HashMap::new();
    let inside = riders(&[3, 4, 3, 3, 9, 4]);
    table.insert(5, inside.clone());
    for station in [3, 4, 9, 11] {
        let (leaving, staying) = get_passangers_leaving_amount_staying(&bus(5), &sta(station), &table);
        let heading_there = inside.iter().filter(|p| p.station_to_leave == sta(station)).count();
        assert_eq!(leaving as usize, heading_there);
        assert_eq!(leaving as usize + staying.len(), inside.len());
    }
}

fn line_table(calls: &[(u32, u32, u32, u32)]) -> BusLinesTable {
    let mut lines = BusLinesTable::new();
    for (b, s, h, m) in calls {
        lines.insert_station_time(&bus(*b), &sta(*s), time(*h, *m));
    }
    lines
}

#[test]
fn possible_stations_follow_the_timetable_order() {
    let calls: Vec<(u32, u32, u32, u32)> = (1..40).map(|s| (1, s, 7 + s % 10, s % 60)).collect();
    let lines = line_table(&calls);
    let table = StationDataTable::new(0.5f32, 0.0f32);
    let first = lines.get_first_future_station_time(&bus(1), Some(&sta(3)), time(7, 0));
    let possible = get_possible_future_stations(&time(7, 0), &bus(1), &sta(3), &lines, &table);
    let pairs: Vec<(StationId, Time)> = possible.iter().map(|(s, t, _)| (*s, *t)).collect();
    assert_eq!(pairs, first);
    assert!(possible.iter().all(|(s, _, w)| *s != sta(3) && *w == 0.5));
}

#[test]
fn later_start_finds_no_more_stations() {
    let lines = line_table(&[(1, 1, 7, 0), (1, 1, 9, 0), (1, 2, 8, 0), (1, 3, 6, 0)]);
    let early = lines.get_first_future_station_time(&bus(1), None, time(7, 30));
    let late = lines.get_first_future_station_time(&bus(1), None, time(8, 30));
    assert_eq!(late, vec![(sta(1), time(9, 0))]);
    for (s, t2) in &late {
        assert!(early.iter().any(|(s1, t1)| s1 == s && t1 <= t2));
    }
}

#[test]
fn insertions_commute() {
    let a = line_table(&[(1, 1, 8, 0), (1, 1, 7, 0), (2, 1, 9, 0), (1, 2, 8, 30)]);
    let b = line_table(&[(1, 2, 8, 30), (2, 1, 9, 0), (1, 1, 7, 0), (1, 1, 8, 0)]);
    for bb in [1, 2, 3] {
        for start in [time(0, 0), time(7, 30), time(8, 15)] {
            let mut x = a.get_first_future_station_time(&bus(bb), None, start);
            let mut y = b.get_first_future_station_time(&bus(bb), None, start);
            x.sort_by_key(|(st, _)| st.id_number);
            y.sort_by_key(|(st, _)| st.id_number);
            assert_eq!(x, y);
        }
    }
}
