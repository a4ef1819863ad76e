use std::collections::HashMap;
use vstd::prelude::*;

use crate::dane_out::{BusId, StationId, Time};
use crate::simplestucts::Passanger;
use crate::simulsimple::{
    bus_stations, first_future_list, first_future_times, BusLinesTable, PassangersInBusTable,
    StationDataTable,
};

verus! {

broadcast use vstd::std_specs::hash::group_hash_axioms;

/// The passengers of `ps` who leave at the station numbered `s`.
pub open spec fn leaving_at(ps: Seq<Passanger>, s: u32) -> Seq<Passanger> {
    ps.filter(|p: Passanger| p.station_to_leave.id_number == s)
}

/// The passengers leaving at station `s` are exactly those of `ps` whose
/// station is `s`.
pub proof fn lemma_leaving_at_members(ps: Seq<Passanger>, s: u32)
    ensures
        forall|i: int|
            0 <= i < leaving_at(ps, s).len() ==> (#[trigger] leaving_at(ps, s)[i]).station_to_leave.id_number
                == s && ps.contains(leaving_at(ps, s)[i]),
        forall|i: int|
            0 <= i < ps.len() && (#[trigger] ps[i]).station_to_leave.id_number == s ==> leaving_at(
                ps,
                s,
            ).contains(ps[i]),
{
    broadcast use vstd::seq_lib::group_filter_ensures;

    let p = |q: Passanger| q.station_to_leave.id_number == s;
    assert forall|i: int| 0 <= i < leaving_at(ps, s).len() implies (#[trigger] leaving_at(
        ps,
        s,
    )[i]).station_to_leave.id_number == s && ps.contains(leaving_at(ps, s)[i]) by {
        ps.lemma_filter_pred(p, i);
        let x = leaving_at(ps, s)[i];
        assert(leaving_at(ps, s).contains(x));
        ps.lemma_filter_contains_rev(p, x);
    }
    assert forall|i: int|
        0 <= i < ps.len() && (#[trigger] ps[i]).station_to_leave.id_number == s implies leaving_at(
        ps,
        s,
    ).contains(ps[i]) by {
        ps.lemma_filter_contains(p, i);
    }
}

/// A count holds for a station what was last counted for it, and nothing
/// for a station never counted.
pub proof fn lemma_counted(counts: Map<u32, u32>, s: u32, t: u32, v: u32)
    ensures
        counted(Map::<u32, u32>::empty(), s) == 0,
        counted(counts.insert(s, v), s) == v,
        t != s ==> counted(counts.insert(s, v), t) == counted(counts, t),
{
}

/// How many passengers the count `counts` holds for station `s`: none where
/// the station is missing.
pub open spec fn counted(counts: Map<u32, u32>, s: u32) -> u32 {
    if counts.contains_key(s) {
        counts[s]
    } else {
        0
    }
}

/// Counts one more passenger leaving at `station`.
pub fn count_passanger_leaving(counts: &mut HashMap<u32, u32>, station: &StationId)
    requires
        counted(old(counts)@, station.id_number) < u32::MAX,
    ensures
        final(counts)@ == old(counts)@.insert(
            station.id_number,
            (counted(old(counts)@, station.id_number) + 1) as u32,
        ),
{
    let current = match counts.get(&station.id_number) {
        Some(c) => *c,
        None => 0,
    };
    counts.insert(station.id_number, current + 1);
}

/// For each station, how many of the passengers leave there; stations where
/// none leaves are not in the map.
pub fn get_passangers_leaving_at_station(passangers_staying: &[Passanger]) -> (counts: HashMap<
    u32,
    u32,
>)
    requires
        forall|s: u32| #[trigger] leaving_at(passangers_staying@, s).len() <= u32::MAX,
    ensures
        forall|s: u32|
            #![trigger counts@.contains_key(s)]
            counts@.contains_key(s) <==> leaving_at(passangers_staying@, s).len() > 0,
        forall|s: u32|
            #![trigger counts@[s]]
            counts@.contains_key(s) ==> counts@[s] == leaving_at(passangers_staying@, s).len(),
{
    let ghost ps = passangers_staying@;
    let mut counts: HashMap<u32, u32> = HashMap::new();
    let mut i: usize = 0;
    while i < passangers_staying.len()
        invariant
            ps == passangers_staying@,
            i <= ps.len(),
            forall|s: u32| #[trigger] leaving_at(ps, s).len() <= u32::MAX,
            forall|s: u32|
                #![trigger counts@.contains_key(s)]
                counts@.contains_key(s) <==> leaving_at(ps.subrange(0, i as int), s).len() > 0,
            forall|s: u32|
                #![trigger counts@[s]]
                counts@.contains_key(s) ==> counts@[s] == leaving_at(ps.subrange(0, i as int), s).len(),
        decreases ps.len() - i,
    {
        let p = passangers_staying[i];
        proof {
            let pre = ps.subrange(0, i as int);
            let post = ps.subrange(0, i + 1);
            assert(post.drop_last() =~= pre);
            assert forall|s: u32| #[trigger] leaving_at(post, s).len() == leaving_at(pre, s).len()
                + if p.station_to_leave.id_number == s { 1int } else { 0 } by {
                reveal(Seq::filter);
            }
            let sp = p.station_to_leave.id_number;
            ps.lemma_filter_take_len(|q: Passanger| q.station_to_leave.id_number == sp, i + 1);
            assert(ps.take(i + 1) =~= post);
            assert(leaving_at(ps, sp).len() <= u32::MAX);
            assert(leaving_at(post, sp).len() <= leaving_at(ps, sp).len());
            assert(leaving_at(post, sp).len() == leaving_at(pre, sp).len() + 1);
            assert(counted(counts@, sp) < u32::MAX);
        }
        count_passanger_leaving(&mut counts, &p.station_to_leave);
        i = i + 1;
    }
    proof {
        assert(ps.subrange(0, i as int) =~= ps);
    }
    counts
}

/// The passengers in bus `id_bus` become those staying followed by those
/// entering.
pub fn update_passangers_in_bus(
    id_bus: &BusId,
    passangers_staying: Vec<Passanger>,
    passangers_entering: Vec<Passanger>,
    passangers_in_bus: &mut PassangersInBusTable,
)
    ensures
        final(passangers_in_bus)@.dom() == old(passangers_in_bus)@.dom().insert(id_bus.id_number),
        final(passangers_in_bus)@[id_bus.id_number]@ == passangers_staying@ + passangers_entering@,
        forall|b: u32|
            b != id_bus.id_number && #[trigger] old(passangers_in_bus)@.contains_key(b)
                ==> final(passangers_in_bus)@[b] == old(passangers_in_bus)@[b],
{
    let mut inside = passangers_staying;
    let mut entering = passangers_entering;
    inside.append(&mut entering);
    passangers_in_bus.insert(id_bus.id_number, inside);
}

/// How many passengers bus `id_bus` carries, as a `u32` (the count is cut
/// to its low 32 bits); 0 for a bus the table does not hold.
pub fn get_passangers_in_bus_amount(id_bus: &BusId, list: &PassangersInBusTable) -> (amount: u32)
    ensures
        amount == if list@.contains_key(id_bus.id_number) {
            list@[id_bus.id_number]@.len() as u32
        } else {
            0
        },
{
    match list.get(&id_bus.id_number) {
        Some(p) => p.len() as u32,
        None => 0,
    }
}

/// The pairs of station and time of a list of candidate stations.
pub open spec fn without_weights<W>(s: Seq<(StationId, Time, W)>) -> Seq<(StationId, Time)> {
    s.map_values(|x: (StationId, Time, W)| (x.0, x.1))
}

/// The stations that bus `id_bus` reaches after `id_station` from
/// `current_time` on, each with the first time the bus calls there and how
/// attractive the station is to leaving passengers at that hour. The
/// stations come in the order the timetable walks them, the order that
/// `get_first_future_station_time` gives for the same table.
pub fn get_possible_future_stations<W: Copy>(
    current_time: &Time,
    id_bus: &BusId,
    id_station: &StationId,
    bus_lines: &BusLinesTable,
    stations: &StationDataTable<W>,
) -> (r: Vec<(StationId, Time, W)>)
    ensures
        first_future_times(
            bus_lines@,
            id_bus.id_number,
            Some(*id_station),
            *current_time,
            without_weights(r@),
        ),
        without_weights(r@) == first_future_list(
            bus_lines.station_walk(id_bus.id_number),
            bus_stations(bus_lines@, id_bus.id_number),
            Some(*id_station),
            *current_time,
        ),
        forall|i: int|
            0 <= i < r@.len() ==> (#[trigger] r@[i]).2 == stations.weight(
                r@[i].0.id_number,
                r@[i].1.hour,
                true,
            ),
{
    let next_stations = bus_lines.get_first_future_station_time(
        id_bus,
        Some(id_station),
        *current_time,
    );
    let mut r: Vec<(StationId, Time, W)> = Vec::new();
    let mut i: usize = 0;
    while i < next_stations.len()
        invariant
            i <= next_stations@.len(),
            r@.len() == i,
            forall|j: int|
                0 <= j < i ==> (#[trigger] r@[j]).0 == next_stations@[j].0 && r@[j].1
                    == next_stations@[j].1 && r@[j].2 == stations.weight(
                    r@[j].0.id_number,
                    r@[j].1.hour,
                    true,
                ),
        decreases next_stations@.len() - i,
    {
        let (staid, time) = next_stations[i];
        let w = stations.get_leaving_attractivness(&staid, time.hour);
        r.push((staid, time, w));
        i = i + 1;
    }
    proof {
        assert(without_weights(r@) =~= next_stations@);
    }
    r
}

} // verus!
