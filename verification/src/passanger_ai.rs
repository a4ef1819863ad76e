use std::collections::HashMap;
use vstd::prelude::*;

use crate::bus_ai::counted;
use crate::dane_out::{BusId, StationId, Time};
use crate::simplestucts::Passanger;
use crate::simulsimple::PassangersInBusTable;

verus! {

broadcast use vstd::std_specs::hash::group_hash_axioms;

/// The candidate stations at which fewer than `max` passengers are counted
/// as leaving, in their order.
pub open spec fn stations_with_room<W>(
    stations: Seq<(StationId, Time, W)>,
    counts: Map<u32, u32>,
    max: u32,
) -> Seq<(StationId, Time, W)> {
    stations.filter(|x: (StationId, Time, W)| counted(counts, x.0.id_number) < max)
}

/// The stations kept are exactly the candidates at which fewer than `max`
/// passengers are counted as leaving.
pub proof fn lemma_stations_with_room_members<W>(
    stations: Seq<(StationId, Time, W)>,
    counts: Map<u32, u32>,
    max: u32,
)
    ensures
        forall|i: int|
            0 <= i < stations_with_room(stations, counts, max).len() ==> counted(
                counts,
                (#[trigger] stations_with_room(stations, counts, max)[i]).0.id_number,
            ) < max && stations.contains(stations_with_room(stations, counts, max)[i]),
        forall|i: int|
            0 <= i < stations.len() && counted(counts, (#[trigger] stations[i]).0.id_number) < max
                ==> stations_with_room(stations, counts, max).contains(stations[i]),
{
    broadcast use vstd::seq_lib::group_filter_ensures;

    let p = |x: (StationId, Time, W)| counted(counts, x.0.id_number) < max;
    let r = stations_with_room(stations, counts, max);
    assert forall|i: int| 0 <= i < r.len() implies counted(counts, (#[trigger] r[i]).0.id_number)
        < max && stations.contains(r[i]) by {
        stations.lemma_filter_pred(p, i);
        assert(r.contains(r[i]));
        stations.lemma_filter_contains_rev(p, r[i]);
    }
    assert forall|i: int|
        0 <= i < stations.len() && counted(counts, (#[trigger] stations[i]).0.id_number) < max implies r.contains(
        stations[i],
    ) by {
        stations.lemma_filter_contains(p, i);
    }
}

/// Keeps the candidate stations at which fewer than
/// `max_people_leaving_at_station` passengers leave.
pub fn select_posible_stations<W: Copy>(
    posible_stations: Vec<(StationId, Time, W)>,
    people_leaving_at_station: &HashMap<u32, u32>,
    max_people_leaving_at_station: u32,
) -> (r: Vec<(StationId, Time, W)>)
    ensures
        r@ == stations_with_room(
            posible_stations@,
            people_leaving_at_station@,
            max_people_leaving_at_station,
        ),
{
    let ghost counts = people_leaving_at_station@;
    let ghost pred = |x: (StationId, Time, W)|
        counted(counts, x.0.id_number) < max_people_leaving_at_station;
    let mut r: Vec<(StationId, Time, W)> = Vec::new();
    let mut i: usize = 0;
    while i < posible_stations.len()
        invariant
            i <= posible_stations@.len(),
            counts == people_leaving_at_station@,
            pred == (|x: (StationId, Time, W)|
                counted(counts, x.0.id_number) < max_people_leaving_at_station),
            r@ == posible_stations@.subrange(0, i as int).filter(pred),
        decreases posible_stations@.len() - i,
    {
        let x = posible_stations[i];
        let leaving = match people_leaving_at_station.get(&x.0.id_number) {
            Some(c) => *c,
            None => 0,
        };
        if leaving < max_people_leaving_at_station {
            r.push(x);
        }
        proof {
            let post = posible_stations@.subrange(0, i + 1);
            assert(post.drop_last() =~= posible_stations@.subrange(0, i as int));
            reveal(Seq::filter);
        }
        i = i + 1;
    }
    proof {
        assert(posible_stations@.subrange(0, i as int) =~= posible_stations@);
    }
    r
}

/// The passengers of `ps` who do not leave at `station`, in their order.
pub open spec fn staying_past(ps: Seq<Passanger>, station: StationId) -> Seq<Passanger> {
    ps.filter(|p: Passanger| p.station_to_leave != station)
}

/// At a stop, each passenger either leaves (the stop is where the passenger
/// leaves) or stays: those staying and those leaving make up all who were
/// on board.
pub proof fn lemma_stop_splits_passangers(inside: Seq<Passanger>, station: StationId)
    ensures
        staying_past(inside, station).len() + inside.filter(
            |p: Passanger| p.station_to_leave == station,
        ).len() == inside.len(),
    decreases inside.len(),
{
    reveal(Seq::filter);
    if inside.len() > 0 {
        lemma_stop_splits_passangers(inside.drop_last(), station);
    }
}

/// When bus `id_bus` stops at `id_station`: how many of its passengers leave
/// there (as a `u32`, cut to its low 32 bits), and those who stay on, in
/// their order. A bus the table does not hold has none of either.
pub fn get_passangers_leaving_amount_staying(
    id_bus: &BusId,
    id_station: &StationId,
    passangers_in_bus: &PassangersInBusTable,
) -> (r: (u32, Vec<Passanger>))
    ensures
        passangers_in_bus@.contains_key(id_bus.id_number) ==> {
            let inside = passangers_in_bus@[id_bus.id_number]@;
            &&& r.1@ == staying_past(inside, *id_station)
            &&& r.0 == (inside.len() - r.1@.len()) as u32
        },
        !passangers_in_bus@.contains_key(id_bus.id_number) ==> r.0 == 0 && r.1@.len() == 0,
{
    match passangers_in_bus.get(&id_bus.id_number) {
        Some(data) => {
            let ghost pred = |p: Passanger| p.station_to_leave != *id_station;
            let mut staying: Vec<Passanger> = Vec::new();
            let mut i: usize = 0;
            while i < data.len()
                invariant
                    i <= data@.len(),
                    pred == (|p: Passanger| p.station_to_leave != *id_station),
                    staying@ == data@.subrange(0, i as int).filter(pred),
                decreases data@.len() - i,
            {
                let p = data[i];
                if p.station_to_leave != *id_station {
                    staying.push(p);
                }
                proof {
                    let post = data@.subrange(0, i + 1);
                    assert(post.drop_last() =~= data@.subrange(0, i as int));
                    reveal(Seq::filter);
                }
                i = i + 1;
            }
            proof {
                assert(data@.subrange(0, i as int) =~= data@);
                data@.lemma_filter_len(pred);
            }
            let leaving = data.len() - staying.len();
            (leaving as u32, staying)
        },
        None => (0, Vec::new()),
    }
}

} // verus!
