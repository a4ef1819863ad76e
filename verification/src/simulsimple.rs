use std::collections::HashMap;
use vstd::prelude::*;
use vstd::std_specs::iter::IteratorSpec;

use crate::bus_ai::{get_passangers_in_bus_amount, update_passangers_in_bus};
use crate::dane_out::{BusEvent, BusId, Date, StationId, Time};
use crate::export_logs_mod::{event_log_name, get_export_data};
use crate::random::random_in_range;
use crate::setup_simulation::{
    daily_points, first_with_id, load_simulation_input_data, made_from, plan_stops,
    sorted_by_time, update_bus_lines, with_calls,
};
use crate::simplestucts::{within_day, Passanger, SimulationInput, StationData};
use crate::simulation_tick::{get_events_to_simulate, get_next_event_time, queue_times, stops_at};

verus! {

broadcast use vstd::std_specs::hash::group_hash_axioms;

/// The stops of a day, each as (time, bus, station).
pub type BusQueue = Vec<(Time, BusId, StationId)>;

/// The passengers in each bus, keyed by the bus's `id_number`.
pub type PassangersInBusTable = HashMap<u32, Vec<Passanger>>;

/// The log of every stop: the name of its log file and the event.
pub type ExportEventLogs = Vec<(String, BusEvent)>;

/// The log of each bus, keyed by the bus's `id_number`: each event with the
/// number of passengers in the bus after it.
pub type ExportBusLineLogs = HashMap<u32, Vec<(BusEvent, u32)>>;

/// How many passengers a bus holds.
pub const MAX_PASSANGERS_IN_BUS: u32 = 65;

/// How many passengers wait at a station of weight one: at least the first,
/// at most the second.
pub const AVRG_PASSANGERS_ON_STATION: (u32, u32) = (2, 10);

/// For each station (by `id_number`), its hourly weights, and the weights
/// given where a station or an hour has none set and outside the hours of a
/// day.
pub struct StationDataTable<W> {
    data: HashMap<u32, StationData<W>>,
    unset_weight: W,
    outside_day_weight: W,
}

impl<W: Copy> StationDataTable<W> {
    /// The stations, by `id_number`.
    pub closed spec fn stations(&self) -> Map<u32, StationData<W>> {
        self.data@
    }

    /// The weight of a station or an hour that has none set.
    pub closed spec fn unset_weight(&self) -> W {
        self.unset_weight
    }

    /// The weight of an hour past 23.
    pub closed spec fn outside_day_weight(&self) -> W {
        self.outside_day_weight
    }

    /// The weight of station `s` at `hour` among the hourly weights chosen
    /// by `leaving` (leaving weights where true, entering weights where
    /// false).
    pub open spec fn weight(&self, s: u32, hour: u32, leaving: bool) -> W {
        if hour > 23 {
            self.outside_day_weight()
        } else if self.stations().contains_key(s) {
            let hours = if leaving {
                self.stations()[s].attractivness_l@
            } else {
                self.stations()[s].attractivness_e@
            };
            match hours[hour as int] {
                Some(w) => w,
                None => self.unset_weight(),
            }
        } else {
            self.unset_weight()
        }
    }

    /// Hours within the day take the station's own weight for the hour, or
    /// the unset weight where the station or its weight for the hour is
    /// missing; only hours from 24 on take the outside-day weight.
    pub proof fn lemma_weight_by_hour(&self, s: u32, hour: u32, leaving: bool)
        ensures
            hour >= 24 ==> self.weight(s, hour, leaving) == self.outside_day_weight(),
            hour < 24 && self.stations().contains_key(s) ==> {
                let hours = if leaving {
                    self.stations()[s].attractivness_l@
                } else {
                    self.stations()[s].attractivness_e@
                };
                &&& hours[hour as int] matches Some(w) ==> self.weight(s, hour, leaving) == w
                &&& hours[hour as int] is None ==> self.weight(s, hour, leaving)
                    == self.unset_weight()
            },
            hour < 24 && !self.stations().contains_key(s) ==> self.weight(s, hour, leaving)
                == self.unset_weight(),
    {
    }

    /// A table without stations.
    pub fn new(unset_weight: W, outside_day_weight: W) -> (table: StationDataTable<W>)
        ensures
            table.stations() == Map::<u32, StationData<W>>::empty(),
            table.unset_weight() == unset_weight,
            table.outside_day_weight() == outside_day_weight,
    {
        StationDataTable { data: HashMap::new(), unset_weight, outside_day_weight }
    }

    /// Adds the data of a station, unless the table holds that station
    /// already: then the table keeps what it has.
    pub fn insert_station_data(&mut self, data: StationData<W>)
        ensures
            final(self).stations() == if old(self).stations().contains_key(data._id.id_number) {
                old(self).stations()
            } else {
                old(self).stations().insert(data._id.id_number, data)
            },
            final(self).unset_weight() == old(self).unset_weight(),
            final(self).outside_day_weight() == old(self).outside_day_weight(),
    {
        if !self.data.contains_key(&data._id.id_number) {
            self.data.insert(data._id.id_number, data);
        }
    }

    fn get_attractivness(&self, id: &StationId, hour: u32, leaving: bool) -> (w: W)
        ensures
            w == self.weight(id.id_number, hour, leaving),
    {
        if hour > 23 {
            self.outside_day_weight
        } else {
            match self.data.get(&id.id_number) {
                Some(entry) => {
                    let set = if leaving {
                        entry.attractivness_l[hour as usize]
                    } else {
                        entry.attractivness_e[hour as usize]
                    };
                    match set {
                        Some(w) => w,
                        None => self.unset_weight,
                    }
                },
                None => self.unset_weight,
            }
        }
    }

    /// How attractive station `id` is at `hour` to passengers leaving a bus.
    pub fn get_leaving_attractivness(&self, id: &StationId, hour: u32) -> (w: W)
        ensures
            w == self.weight(id.id_number, hour, true),
    {
        self.get_attractivness(id, hour, true)
    }

    /// How attractive station `id` is at `hour` to passengers entering a bus.
    pub fn get_entering_attractivness(&self, id: &StationId, hour: u32) -> (w: W)
        ensures
            w == self.weight(id.id_number, hour, false),
    {
        self.get_attractivness(id, hour, false)
    }
}

/// Times in order of the day, earliest first, equal times side by side.
pub open spec fn times_in_order(s: Seq<Time>) -> bool {
    forall|i: int, j: int| 0 <= i < j < s.len() ==> (#[trigger] s[i]).is_at_or_before(#[trigger] s[j])
}

/// Every time list of a timetable is in order.
pub open spec fn timetable_in_order(t: Map<u32, Map<u32, Seq<Time>>>) -> bool {
    forall|b: u32, s: u32|
        #![trigger t[b][s]]
        t.contains_key(b) && t[b].contains_key(s) ==> times_in_order(t[b][s])
}

/// How many times of `s` are at or before `t`.
pub open spec fn count_at_or_before(s: Seq<Time>, t: Time) -> nat
    decreases s.len(),
{
    if s.len() == 0 {
        0
    } else {
        count_at_or_before(s.drop_last(), t) + if s.last().is_at_or_before(t) {
            1nat
        } else {
            0
        }
    }
}

/// The first time at or after `start` is a time of the list that is at or
/// after `start`, with none such before it in the list; where there is none,
/// every time of the list is before `start`.
pub proof fn lemma_first_at_or_after_position(s: Seq<Time>, start: Time)
    ensures
        match first_at_or_after(s, start) {
            Some(t) => exists|k: int|
                0 <= k < s.len() && s[k] == t && start.is_at_or_before(t) && forall|j: int|
                    0 <= j < k ==> !start.is_at_or_before(#[trigger] s[j]),
            None => forall|j: int| 0 <= j < s.len() ==> !start.is_at_or_before(#[trigger] s[j]),
        },
    decreases s.len(),
{
    if s.len() > 0 {
        lemma_first_at_or_after_position(s.drop_first(), start);
        if !start.is_at_or_before(s[0]) {
            match first_at_or_after(s.drop_first(), start) {
                Some(t) => {
                    let k = choose|k: int|
                        0 <= k < s.drop_first().len() && s.drop_first()[k] == t
                            && start.is_at_or_before(t) && forall|j: int|
                            0 <= j < k ==> !start.is_at_or_before(#[trigger] s.drop_first()[j]);
                    assert forall|j: int| 0 <= j < k + 1 implies !start.is_at_or_before(
                        #[trigger] s[j],
                    ) by {
                        if j > 0 {
                            assert(s[j] == s.drop_first()[j - 1]);
                        }
                    }
                    assert(s[k + 1] == t);
                },
                None => {
                    assert forall|j: int| 0 <= j < s.len() implies !start.is_at_or_before(
                        #[trigger] s[j],
                    ) by {
                        if j > 0 {
                            assert(s[j] == s.drop_first()[j - 1]);
                        }
                    }
                },
            }
        } else {
            assert(s[0] == first_at_or_after(s, start)->0);
        }
    }
}

/// `t` added to `s` where sorting `s` followed by `t` would put it: after
/// every time at or before it.
pub open spec fn insert_in_order(s: Seq<Time>, t: Time) -> Seq<Time> {
    s.insert(count_at_or_before(s, t) as int, t)
}

/// The first time of `s`, in the order of `s`, that is at or after `start`.
pub open spec fn first_at_or_after(s: Seq<Time>, start: Time) -> Option<Time>
    decreases s.len(),
{
    if s.len() == 0 {
        None
    } else if start.is_at_or_before(s[0]) {
        Some(s[0])
    } else {
        first_at_or_after(s.drop_first(), start)
    }
}

proof fn lemma_count_prefix(s: Seq<Time>, t: Time, i: int)
    requires
        0 <= i <= s.len(),
        forall|j: int| 0 <= j < i ==> (#[trigger] s[j]).is_at_or_before(t),
        forall|j: int| i <= j < s.len() ==> !(#[trigger] s[j]).is_at_or_before(t),
    ensures
        count_at_or_before(s, t) == i,
    decreases s.len(),
{
    if s.len() > 0 {
        let k = if i == s.len() { i - 1 } else { i };
        lemma_count_prefix(s.drop_last(), t, k);
    }
}

proof fn lemma_first_skip(s: Seq<Time>, start: Time, i: int)
    requires
        0 <= i <= s.len(),
        forall|j: int| 0 <= j < i ==> !start.is_at_or_before(#[trigger] s[j]),
    ensures
        first_at_or_after(s, start) == first_at_or_after(s.subrange(i, s.len() as int), start),
    decreases i,
{
    if i > 0 {
        assert(s.subrange(1, s.len() as int) =~= s.drop_first());
        lemma_first_skip(s.drop_first(), start, i - 1);
        assert(s.drop_first().subrange(i - 1, s.drop_first().len() as int) =~= s.subrange(
            i,
            s.len() as int,
        ));
    } else {
        assert(s.subrange(0, s.len() as int) =~= s);
    }
}

/// Puts `t` into the ordered list `times` after every time at or before it.
fn insert_time_in_order(times: &mut Vec<Time>, t: Time)
    requires
        times_in_order(old(times)@),
    ensures
        final(times)@ == insert_in_order(old(times)@, t),
        times_in_order(final(times)@),
{
    let mut i: usize = 0;
    while i < times.len() && times[i] <= t
        invariant
            i <= times@.len(),
            times@ == old(times)@,
            forall|j: int| 0 <= j < i ==> (#[trigger] times@[j]).is_at_or_before(t),
        decreases times@.len() - i,
    {
        i = i + 1;
    }
    proof {
        assert forall|j: int| i <= j < times@.len() implies !(#[trigger] times@[j]).is_at_or_before(t) by {
            assert(times@[i as int].is_at_or_before(times@[j]));
        }
        lemma_count_prefix(times@, t, i as int);
    }
    times.insert(i, t);
}

/// For each bus (by `id_number`) and station (by `id_number`), the times at
/// which the bus calls there, in order.
pub struct BusLinesTable {
    data: HashMap<u32, HashMap<u32, Vec<Time>>>,
}

/// The times of a nested map of buses and stations, as sequences.
spec fn table_view(data: HashMap<u32, HashMap<u32, Vec<Time>>>) -> Map<u32, Map<u32, Seq<Time>>> {
    Map::new(
        |b: u32| data@.contains_key(b),
        |b: u32| Map::new(|s: u32| data@[b]@.contains_key(s), |s: u32| data@[b]@[s]@),
    )
}

impl View for BusLinesTable {
    type V = Map<u32, Map<u32, Seq<Time>>>;

    closed spec fn view(&self) -> Map<u32, Map<u32, Seq<Time>>> {
        table_view(self.data)
    }
}

impl BusLinesTable {
    /// The stations of bus `b`, in the order the table walks them: the same
    /// order each time while the table is unchanged.
    pub closed spec fn station_walk(&self, b: u32) -> Seq<u32> {
        if self.data@.contains_key(b) {
            vstd::std_specs::hash::into_iter(
                vstd::std_specs::hash::spec_hash_map_iter(&self.data@[b]),
            ).map_values(|kv: (u32, Vec<Time>)| kv.0)
        } else {
            Seq::empty()
        }
    }

    /// Every time list of the table is in order.
    #[verifier::type_invariant]
    pub(crate) open spec fn times_kept_in_order(&self) -> bool {
        timetable_in_order(self@)
    }
}

/// The times of station `s` for bus `b` in the timetable `t`, empty where
/// there are none.
pub open spec fn station_times(t: Map<u32, Map<u32, Seq<Time>>>, b: u32, s: u32) -> Seq<Time> {
    if t.contains_key(b) && t[b].contains_key(s) {
        t[b][s]
    } else {
        Seq::empty()
    }
}

/// The stations of bus `b` in the timetable `t`, empty where there are none.
pub open spec fn bus_stations(t: Map<u32, Map<u32, Seq<Time>>>, b: u32) -> Map<u32, Seq<Time>> {
    if t.contains_key(b) {
        t[b]
    } else {
        Map::empty()
    }
}

/// The timetable `t` with a call of bus `b` at station `s` at `time` added
/// to the station's times where sorting would put it.
pub open spec fn with_call(t: Map<u32, Map<u32, Seq<Time>>>, b: u32, s: u32, time: Time) -> Map<
    u32,
    Map<u32, Seq<Time>>,
> {
    t.insert(b, bus_stations(t, b).insert(s, insert_in_order(station_times(t, b, s), time)))
}

proof fn lemma_count_splits_ordered(s: Seq<Time>, t: Time)
    requires
        times_in_order(s),
    ensures
        count_at_or_before(s, t) <= s.len(),
        forall|j: int| 0 <= j < count_at_or_before(s, t) ==> (#[trigger] s[j]).is_at_or_before(t),
        forall|j: int| count_at_or_before(s, t) <= j < s.len() ==> !(#[trigger] s[j]).is_at_or_before(t),
    decreases s.len(),
{
    if s.len() > 0 {
        let front = s.drop_last();
        assert(times_in_order(front)) by {
            assert forall|i: int, j: int| 0 <= i < j < front.len() implies (#[trigger] front[i]).is_at_or_before(
                #[trigger] front[j],
            ) by {
                assert(front[i] == s[i] && front[j] == s[j]);
            }
        }
        lemma_count_splits_ordered(front, t);
        let c = count_at_or_before(front, t) as int;
        if s.last().is_at_or_before(t) {
            assert forall|j: int| 0 <= j < c + 1 implies (#[trigger] s[j]).is_at_or_before(t) by {
                if j < c {
                    assert(s[j] == front[j]);
                }
            }
            assert(c == front.len()) by {
                if c < front.len() {
                    assert(s[c].is_at_or_before(s.last()));
                    assert(s[c] == front[c]);
                }
            }
        } else {
            assert forall|j: int| c <= j < s.len() implies !(#[trigger] s[j]).is_at_or_before(t) by {
                if j < front.len() {
                    assert(s[j] == front[j]);
                }
            }
            assert forall|j: int| 0 <= j < c implies (#[trigger] s[j]).is_at_or_before(t) by {
                assert(s[j] == front[j]);
            }
        }
    }
}

/// What a call added to a timetable is found again: after adding the call of
/// bus `b` at station `s` at `time`, the first time of that station at or
/// after `time` is `time` itself.
pub proof fn lemma_added_call_is_found(
    t: Map<u32, Map<u32, Seq<Time>>>,
    b: u32,
    s: u32,
    time: Time,
)
    requires
        timetable_in_order(t),
    ensures
        first_at_or_after(bus_stations(with_call(t, b, s, time), b)[s], time) == Some(time),
{
    let old_times = station_times(t, b, s);
    if t.contains_key(b) && t[b].contains_key(s) {
        assert(times_in_order(t[b][s]));
    }
    lemma_count_splits_ordered(old_times, time);
    let k = count_at_or_before(old_times, time) as int;
    let times = insert_in_order(old_times, time);
    assert(bus_stations(with_call(t, b, s, time), b)[s] == times);
    assert(times[k] == time);
    lemma_first_at_or_after_position(times, time);
    match first_at_or_after(times, time) {
        Some(e) => {
            let k0 = choose|k0: int|
                0 <= k0 < times.len() && times[k0] == e && time.is_at_or_before(e) && forall|j: int|
                    0 <= j < k0 ==> !time.is_at_or_before(#[trigger] times[j]);
            if k0 > k {
                assert(time.is_at_or_before(times[k]));
            }
            if k0 < k {
                assert(times[k0] == old_times[k0]);
            }
        },
        None => {
            assert(time.is_at_or_before(times[k]));
        },
    }
}

/// A later start never finds an earlier time: where a list has a time at
/// or after `s2`, it has one at or after any earlier `s1`, and the first of
/// those is no later.
pub proof fn lemma_later_start_never_earlier(times: Seq<Time>, s1: Time, s2: Time)
    requires
        s1.is_at_or_before(s2),
    ensures
        first_at_or_after(times, s2) is Some ==> first_at_or_after(times, s1) is Some
            && (first_at_or_after(times, s1)->0).is_at_or_before(first_at_or_after(times, s2)->0),
    decreases times.len(),
{
    if times.len() > 0 {
        lemma_later_start_never_earlier(times.drop_first(), s1, s2);
        lemma_first_at_or_after_position(times, s2);
        if s2.is_at_or_before(times[0]) {
            assert(s1.is_at_or_before(times[0]));
        } else if s1.is_at_or_before(times[0]) {
            if first_at_or_after(times, s2) is Some {
                assert(s2.is_at_or_before(first_at_or_after(times, s2)->0));
            }
        }
    }
}

/// `r` holds the station of `entry` with a time at or before that of
/// `entry`.
pub open spec fn has_station_no_later(r: Seq<(StationId, Time)>, entry: (StationId, Time)) -> bool {
    exists|i: int| 0 <= i < r.len() && r[i].0 == entry.0 && (#[trigger] r[i]).1.is_at_or_before(entry.1)
}

/// Asking a timetable from a later start time never adds a station and
/// never gives a station an earlier time: each station found from `s2` is
/// found from an earlier `s1` too, at the same time or before.
pub proof fn lemma_later_start_finds_no_more(
    t: Map<u32, Map<u32, Seq<Time>>>,
    b: u32,
    current: Option<StationId>,
    s1: Time,
    s2: Time,
    r1: Seq<(StationId, Time)>,
    r2: Seq<(StationId, Time)>,
)
    requires
        s1.is_at_or_before(s2),
        first_future_times(t, b, current, s1, r1),
        first_future_times(t, b, current, s2, r2),
    ensures
        forall|j: int| 0 <= j < r2.len() ==> has_station_no_later(r1, #[trigger] r2[j]),
{
    let stations = bus_stations(t, b);
    assert forall|j: int| 0 <= j < r2.len() implies has_station_no_later(r1, #[trigger] r2[j]) by {
        let (sta, time) = r2[j];
        let s = sta.id_number;
        lemma_later_start_never_earlier(stations[s], s1, s2);
        assert(stations.contains_key(s) && !is_current_station(current, s));
        assert(first_at_or_after(stations[s], s1) is Some);
        let i = choose|i: int|
            0 <= i < r1.len() && #[trigger] r1[i] == (
                StationId { id_number: s },
                first_at_or_after(stations[s], s1)->0,
            );
        assert(r1[i].0 == sta);
        assert(first_at_or_after(stations[s], s2) == Some(time));
        assert(r1[i].1.is_at_or_before(time));
    }
}

proof fn lemma_insertions_commute_ordered(l: Seq<Time>, x: Time, y: Time)
    requires
        times_in_order(l),
        x.is_before(y),
    ensures
        insert_in_order(insert_in_order(l, x), y) == insert_in_order(insert_in_order(l, y), x),
{
    lemma_count_splits_ordered(l, x);
    lemma_count_splits_ordered(l, y);
    let kx = count_at_or_before(l, x) as int;
    let ky = count_at_or_before(l, y) as int;
    assert(kx <= ky) by {
        if kx > ky {
            assert(l[ky].is_at_or_before(x));
        }
    }
    let a1 = l.insert(kx, x);
    let b1 = l.insert(ky, y);
    assert forall|j: int| 0 <= j < ky + 1 implies (#[trigger] a1[j]).is_at_or_before(y) by {
        if j < kx {
            assert(a1[j] == l[j]);
        } else if j > kx {
            assert(a1[j] == l[j - 1]);
        }
    }
    assert forall|j: int| ky + 1 <= j < a1.len() implies !(#[trigger] a1[j]).is_at_or_before(y) by {
        assert(a1[j] == l[j - 1]);
    }
    lemma_count_prefix(a1, y, ky + 1);
    assert forall|j: int| 0 <= j < kx implies (#[trigger] b1[j]).is_at_or_before(x) by {
        assert(b1[j] == l[j]);
    }
    assert forall|j: int| kx <= j < b1.len() implies !(#[trigger] b1[j]).is_at_or_before(x) by {
        if j < ky {
            assert(b1[j] == l[j]);
        } else if j > ky {
            assert(b1[j] == l[j - 1]);
        }
    }
    lemma_count_prefix(b1, x, kx);
    assert(a1.insert(ky + 1, y) =~= b1.insert(kx, x));
}

/// The order of two insertions into a timetable does not matter: adding a
/// call of bus `b1` at station `s1` at `x` and one of bus `b2` at station
/// `s2` at `y` gives the same timetable either way round.
pub proof fn lemma_calls_commute(
    t: Map<u32, Map<u32, Seq<Time>>>,
    b1: u32,
    s1: u32,
    x: Time,
    b2: u32,
    s2: u32,
    y: Time,
)
    requires
        timetable_in_order(t),
    ensures
        with_call(with_call(t, b1, s1, x), b2, s2, y) == with_call(with_call(t, b2, s2, y), b1, s1, x),
{
    let left = with_call(with_call(t, b1, s1, x), b2, s2, y);
    let right = with_call(with_call(t, b2, s2, y), b1, s1, x);
    if b1 == b2 && s1 == s2 {
        let l = station_times(t, b1, s1);
        if t.contains_key(b1) && t[b1].contains_key(s1) {
            assert(times_in_order(t[b1][s1]));
        }
        if x.is_before(y) {
            lemma_insertions_commute_ordered(l, x, y);
        } else if y.is_before(x) {
            lemma_insertions_commute_ordered(l, y, x);
        }
        assert(left[b1] =~= right[b1]);
    } else if b1 == b2 {
        assert(left[b1] =~= right[b1]);
    }
    assert(left =~= right);
}

impl Default for BusLinesTable {
    /// An empty timetable.
    fn default() -> (table: BusLinesTable)
        ensures
            table@ == Map::<u32, Map<u32, Seq<Time>>>::empty(),
    {
        BusLinesTable::new()
    }
}

impl BusLinesTable {
    /// An empty timetable.
    pub fn new() -> (table: BusLinesTable)
        ensures
            table@ == Map::<u32, Map<u32, Seq<Time>>>::empty(),
    {
        let table = BusLinesTable { data: HashMap::new() };
        proof {
            assert(table@ =~= Map::<u32, Map<u32, Seq<Time>>>::empty());
        }
        table
    }

    /// Adds a call of bus `bus_id` at station `staid` at `time`, keeping the
    /// station's times in order.
    pub fn insert_station_time(&mut self, bus_id: &BusId, staid: &StationId, time: Time)
        ensures
            timetable_in_order(old(self)@),
            timetable_in_order(final(self)@),
            final(self)@ == with_call(old(self)@, bus_id.id_number, staid.id_number, time),
    {
        proof {
            use_type_invariant(&*self);
        }
        let ghost old_view = self@;
        let b = bus_id.id_number;
        let s = staid.id_number;
        let mut data: HashMap<u32, HashMap<u32, Vec<Time>>> = HashMap::new();
        proof {
            assert(table_view(data) =~= Map::<u32, Map<u32, Seq<Time>>>::empty());
        }
        std::mem::swap(&mut data, &mut self.data);
        let mut inner = match data.remove(&b) {
            Some(m) => m,
            None => HashMap::new(),
        };
        let mut times = match inner.remove(&s) {
            Some(v) => v,
            None => Vec::new(),
        };
        proof {
            assert(times@ == station_times(old_view, b, s));
            if old_view.contains_key(b) && old_view[b].contains_key(s) {
                assert(times_in_order(old_view[b][s]));
            }
        }
        insert_time_in_order(&mut times, time);
        inner.insert(s, times);
        data.insert(b, inner);
        proof {
            let expected = with_call(old_view, b, s, time);
            let new_view = table_view(data);
            assert(new_view[b] =~= expected[b]);
            assert(new_view =~= expected);
            assert forall|b2: u32, s2: u32|
                new_view.contains_key(b2) && new_view[b2].contains_key(s2) implies times_in_order(
                #[trigger] new_view[b2][s2],
            ) by {
                if b2 != b || s2 != s {
                    assert(new_view[b2][s2] == old_view[b2][s2]);
                }
            }
        }
        self.data = data;
    }
}

/// `current` names station `s`.
pub open spec fn is_current_station(current: Option<StationId>, s: u32) -> bool {
    current matches Some(c) && c.id_number == s
}

/// What `get_first_future_station_time` gives for bus `b` of timetable `t`,
/// leaving the order aside: no station twice, and for each
/// station of the bus other than `current` that has a time at or after
/// `start`, that station with the first such time in its list.
pub open spec fn first_future_times(
    t: Map<u32, Map<u32, Seq<Time>>>,
    b: u32,
    current: Option<StationId>,
    start: Time,
    result: Seq<(StationId, Time)>,
) -> bool {
    let stations = bus_stations(t, b);
    &&& forall|i: int, j: int|
        0 <= i < j < result.len() ==> (#[trigger] result[i]).0 != (#[trigger] result[j]).0
    &&& forall|i: int|
        0 <= i < result.len() ==> {
            let (sta, time) = #[trigger] result[i];
            &&& stations.contains_key(sta.id_number)
            &&& !is_current_station(current, sta.id_number)
            &&& first_at_or_after(stations[sta.id_number], start) == Some(time)
        }
    &&& forall|s: u32|
        #![trigger stations[s]]
        stations.contains_key(s) && !is_current_station(current, s) && first_at_or_after(
            stations[s],
            start,
        ) is Some ==> exists|i: int|
            0 <= i < result.len() && #[trigger] result[i] == (
                StationId { id_number: s },
                first_at_or_after(stations[s], start)->0,
            )
}

/// For each station of `walk` in turn, other than `current`, that has a
/// time at or after `start` in `stations`: that station with the first such
/// time in its list.
pub open spec fn first_future_list(
    walk: Seq<u32>,
    stations: Map<u32, Seq<Time>>,
    current: Option<StationId>,
    start: Time,
) -> Seq<(StationId, Time)>
    decreases walk.len(),
{
    if walk.len() == 0 {
        Seq::empty()
    } else {
        let rest = first_future_list(walk.drop_last(), stations, current, start);
        let s = walk.last();
        if !is_current_station(current, s) && first_at_or_after(stations[s], start) is Some {
            rest.push((StationId { id_number: s }, first_at_or_after(stations[s], start)->0))
        } else {
            rest
        }
    }
}

/// The stations listed are stations of the walk other than `current`, each
/// with the first of its times at or after `start`; and every station of the
/// walk other than `current` that has such a time is listed.
pub proof fn lemma_first_future_list_entries(
    walk: Seq<u32>,
    stations: Map<u32, Seq<Time>>,
    current: Option<StationId>,
    start: Time,
)
    ensures
        forall|i: int|
            0 <= i < first_future_list(walk, stations, current, start).len() ==> {
                let (sta, t) = #[trigger] first_future_list(walk, stations, current, start)[i];
                &&& walk.contains(sta.id_number)
                &&& current != Some(sta)
                &&& first_at_or_after(stations[sta.id_number], start) == Some(t)
            },
        forall|j: int|
            0 <= j < walk.len() && current != Some(StationId { id_number: #[trigger] walk[j] })
                && first_at_or_after(stations[walk[j]], start) is Some ==> first_future_list(
                walk,
                stations,
                current,
                start,
            ).contains((StationId { id_number: walk[j] }, first_at_or_after(stations[walk[j]], start)->0)),
    decreases walk.len(),
{
    if walk.len() > 0 {
        let front = walk.drop_last();
        lemma_first_future_list_entries(front, stations, current, start);
        let rest = first_future_list(front, stations, current, start);
        let r = first_future_list(walk, stations, current, start);
        assert forall|j: int| 0 <= j < front.len() implies walk[j] == front[j] by {}
        assert forall|i: int| 0 <= i < r.len() implies {
            let (sta, t) = #[trigger] r[i];
            &&& walk.contains(sta.id_number)
            &&& current != Some(sta)
            &&& first_at_or_after(stations[sta.id_number], start) == Some(t)
        } by {
            if i < rest.len() {
                assert(r[i] == rest[i]);
                let k = choose|k: int| 0 <= k < front.len() && front[k] == r[i].0.id_number;
                assert(walk[k] == front[k]);
            } else {
                assert(walk[walk.len() - 1] == walk.last());
                if let Some(c) = current {
                    assert(c.id_number != r[i].0.id_number);
                }
            }
        }
        assert forall|j: int|
            0 <= j < walk.len() && current != Some(StationId { id_number: #[trigger] walk[j] })
                && first_at_or_after(stations[walk[j]], start) is Some implies r.contains(
            (StationId { id_number: walk[j] }, first_at_or_after(stations[walk[j]], start)->0),
        ) by {
            let x = (StationId { id_number: walk[j] }, first_at_or_after(stations[walk[j]], start)->0);
            if j < front.len() {
                assert(walk[j] == front[j]);
                assert(rest.contains(x));
                let i = choose|i: int| 0 <= i < rest.len() && rest[i] == x;
                assert(r[i] == x);
            } else {
                assert(walk[j] == walk.last());
                assert(!is_current_station(current, walk[j]));
                assert(r[r.len() - 1] == x);
            }
        }
    }
}

/// The station numbers of the walk over a map of stations.
pub open spec fn walk_keys(pairs: Seq<(&u32, &Vec<Time>)>) -> Seq<u32> {
    pairs.map_values(|kv: (&u32, &Vec<Time>)| *kv.0)
}

/// The first time of `times`, in list order, at or after `start`.
fn find_first_at_or_after(times: &Vec<Time>, start: Time) -> (r: Option<Time>)
    ensures
        r == first_at_or_after(times@, start),
{
    let mut i: usize = 0;
    proof {
        assert(times@.subrange(0, times@.len() as int) =~= times@);
    }
    while i < times.len()
        invariant
            i <= times@.len(),
            first_at_or_after(times@, start) == first_at_or_after(
                times@.subrange(i as int, times@.len() as int),
                start,
            ),
        decreases times@.len() - i,
    {
        let t = times[i];
        let ghost rest = times@.subrange(i as int, times@.len() as int);
        if t >= start {
            proof {
                assert(rest[0] == t);
            }
            return Some(t);
        }
        proof {
            assert(rest.drop_first() =~= times@.subrange(i + 1, times@.len() as int));
        }
        i = i + 1;
    }
    None
}

impl BusLinesTable {
    /// For each station of bus `bus_id` other than `current_staion`, the
    /// first of its times, in list order, that is at or after `start_time`.
    /// The stations come in the order the table walks them
    /// (`station_walk`).
    pub fn get_first_future_station_time(
        &self,
        bus_id: &BusId,
        current_staion: Option<&StationId>,
        start_time: Time,
    ) -> (r: Vec<(StationId, Time)>)
        ensures
            first_future_times(
                self@,
                bus_id.id_number,
                match current_staion {
                    Some(c) => Some(*c),
                    None => None,
                },
                start_time,
                r@,
            ),
            r@ == first_future_list(
                self.station_walk(bus_id.id_number),
                bus_stations(self@, bus_id.id_number),
                match current_staion {
                    Some(c) => Some(*c),
                    None => None,
                },
                start_time,
            ),
    {
        let ghost current = match current_staion {
            Some(c) => Some(*c),
            None => None::<StationId>,
        };
        let mut result: Vec<(StationId, Time)> = Vec::new();
        match self.data.get(&bus_id.id_number) {
            None => {
                proof {
                    assert(result@ =~= first_future_list(
                        self.station_walk(bus_id.id_number),
                        bus_stations(self@, bus_id.id_number),
                        current,
                        start_time,
                    ));
                }
            },
            Some(data) => {
                let ghost stations = bus_stations(self@, bus_id.id_number);
                let iter = data.iter();
                let ghost pairs = iter.remaining();
                let ghost mut pos: Seq<int> = Seq::empty();
                proof {
                    assert(stations.dom() =~= data@.dom());
                    assert(vstd::std_specs::hash::into_iter(iter) == pairs.unref());
                    assert(walk_keys(pairs) =~= self.station_walk(bus_id.id_number));
                }
                for (station, times) in it: iter
                    invariant
                        it.seq() == pairs,
                        current == match current_staion {
                            Some(c) => Some(*c),
                            None => None::<StationId>,
                        },
                        stations == bus_stations(self@, bus_id.id_number),
                        stations.dom() == data@.dom(),
                        forall|s: u32| #[trigger] data@.contains_key(s) ==> stations[s] == data@[s]@,
                        pairs == vstd::std_specs::hash::spec_hash_map_iter(data).remaining(),
                        pairs.no_duplicates(),
                        walk_keys(pairs) == self.station_walk(bus_id.id_number),
                        result@ == first_future_list(
                            walk_keys(pairs).subrange(0, it.index()),
                            stations,
                            current,
                            start_time,
                        ),
                        forall|i: int, j: int|
                            0 <= i < j < result@.len() ==> (#[trigger] result@[i]).0 != (
                            #[trigger] result@[j]).0,
                        pos.len() == result@.len(),
                        forall|i: int|
                            0 <= i < result@.len() ==> 0 <= #[trigger] pos[i] < it.index()
                                && result@[i].0.id_number == *pairs[pos[i]].0,
                        forall|i: int|
                            0 <= i < result@.len() ==> {
                                let (sta, time) = #[trigger] result@[i];
                                &&& stations.contains_key(sta.id_number)
                                &&& !is_current_station(current, sta.id_number)
                                &&& first_at_or_after(stations[sta.id_number], start_time)
                                    == Some(time)
                            },
                        forall|k: int|
                            0 <= k < it.index() ==> {
                                let s = *(#[trigger] pairs[k]).0;
                                !is_current_station(current, s) && first_at_or_after(
                                    stations[s],
                                    start_time,
                                ) is Some ==> exists|i: int|
                                    0 <= i < result@.len() && #[trigger] result@[i] == (
                                        StationId { id_number: s },
                                        first_at_or_after(stations[s], start_time)->0,
                                    )
                            },
                {
                    let ghost idx = it.index();
                    let ghost old_result = result@;
                    proof {
                        assert(*station == *pairs[idx].0);
                        assert(*times == *pairs[idx].1);
                        assert(data@.contains_key(*station));
                        assert(data@[*station] == *times);
                        assert(stations[*station] == times@);
                    }
                    let skip = match current_staion {
                        Some(c) => c.id_number == *station,
                        None => false,
                    };
                    let found = if skip {
                        None
                    } else {
                        find_first_at_or_after(times, start_time)
                    };
                    proof {
                        assert(skip == is_current_station(current, *station));
                    }
                    if let Some(first_time) = found {
                        proof {
                            assert forall|i: int| 0 <= i < result@.len() implies (
                            #[trigger] result@[i]).0.id_number != *station by {
                                let k = pos[i];
                                assert(k != idx);
                                assert(data@[*pairs[k].0] == *pairs[k].1);
                                assert(data@[*pairs[idx].0] == *pairs[idx].1);
                            }
                        }
                        result.push((StationId { id_number: *station }, first_time));
                        proof {
                            pos = pos.push(idx);
                        }
                    }
                    proof {
                        let keys = walk_keys(pairs);
                        assert(keys.subrange(0, idx + 1).drop_last() =~= keys.subrange(0, idx));
                        assert(keys.subrange(0, idx + 1).last() == *station);
                        if found is Some {
                            assert(result@ == old_result.push(
                                (StationId { id_number: *station }, found->0),
                            ));
                        } else {
                            assert(result@ == old_result);
                        }
                    }
                    proof {
                        assert forall|i: int| 0 <= i < result@.len() implies {
                            let (sta, time) = #[trigger] result@[i];
                            &&& stations.contains_key(sta.id_number)
                            &&& !is_current_station(current, sta.id_number)
                            &&& first_at_or_after(stations[sta.id_number], start_time) == Some(time)
                        } by {
                            if i < old_result.len() {
                                assert(result@[i] == old_result[i]);
                            }
                        }
                        assert forall|k: int| 0 <= k < idx + 1 implies {
                            let s = *(#[trigger] pairs[k]).0;
                            !is_current_station(current, s) && first_at_or_after(
                                stations[s],
                                start_time,
                            ) is Some ==> exists|i: int|
                                0 <= i < result@.len() && #[trigger] result@[i] == (
                                    StationId { id_number: s },
                                    first_at_or_after(stations[s], start_time)->0,
                                )
                        } by {
                            let s = *pairs[k].0;
                            if k < idx {
                                if !is_current_station(current, s) && first_at_or_after(
                                    stations[s],
                                    start_time,
                                ) is Some {
                                    let i = choose|i: int|
                                        0 <= i < old_result.len() && old_result[i] == (
                                            StationId { id_number: s },
                                            first_at_or_after(stations[s], start_time)->0,
                                        );
                                    assert(result@[i] == old_result[i]);
                                }
                            } else {
                                if !is_current_station(current, s) && first_at_or_after(
                                    stations[s],
                                    start_time,
                                ) is Some {
                                    assert(result@[old_result.len() as int] == (
                                        StationId { id_number: s },
                                        first_at_or_after(stations[s], start_time)->0,
                                    ));
                                }
                            }
                        }
                    }
                }
                proof {
                    assert(walk_keys(pairs).subrange(0, pairs.len() as int) =~= walk_keys(pairs));
                    assert forall|s: u32|
                        #![trigger stations[s]]
                        stations.contains_key(s) && !is_current_station(current, s)
                            && first_at_or_after(stations[s], start_time) is Some implies exists|i: int|
                        0 <= i < result@.len() && #[trigger] result@[i] == (
                            StationId { id_number: s },
                            first_at_or_after(stations[s], start_time)->0,
                        ) by {
                        assert(data@.contains_key(s));
                        assert(pairs.contains((&s, &data@[s])));
                        let k = choose|k: int| 0 <= k < pairs.len() && pairs[k] == (&s, &data@[s]);
                        assert(*pairs[k].0 == s);
                    }
                }
            },
        }
        result
    }
}

/// What a tick of the simulation found.
#[derive(Debug, Clone, Copy, PartialEq, Eq, Structural)]
pub enum SimulationStateResult {
    /// Stops were served at the current time; the clock moves a minute on.
    TickContinue,
    /// No stop is left today; the next day starts.
    NextDay,
    /// The end date has passed.
    SimulationOver,
}

/// How many passengers can still get on a bus in which `staying` stay
/// (their number taken as a `u32`, cut to its low 32 bits).
pub open spec fn room_in_bus(staying: nat) -> int {
    MAX_PASSANGERS_IN_BUS - (staying as u32)
}

/// Of `drawn` passengers wanting to get on, how many do: no more than the
/// room left in a bus in which `staying` passengers stay.
pub fn cap_passangers_entering(drawn: u32, staying: usize) -> (r: u32)
    requires
        staying as u32 <= MAX_PASSANGERS_IN_BUS,
    ensures
        r == if drawn < room_in_bus(staying as nat) {
            drawn as int
        } else {
            room_in_bus(staying as nat)
        },
{
    let room = MAX_PASSANGERS_IN_BUS - staying as u32;
    if drawn < room {
        drawn
    } else {
        room
    }
}

/// The smaller of two numbers.
pub open spec fn smaller(a: int, b: int) -> int {
    if a < b {
        a
    } else {
        b
    }
}

/// Those getting on never overfill a bus of 65: with `staying` passengers
/// on board (65 at most), those let on and those staying are 65 at most, and
/// all who want to get on do where there is room for them.
pub proof fn lemma_entering_fits(drawn: u32, staying: nat)
    requires
        staying <= 65,
    ensures
        0 <= smaller(drawn as int, room_in_bus(staying)),
        smaller(drawn as int, room_in_bus(staying)) + staying <= 65,
        drawn + staying <= 65 ==> smaller(drawn as int, room_in_bus(staying)) == drawn,
        drawn + staying > 65 ==> smaller(drawn as int, room_in_bus(staying)) + staying == 65,
{
}

/// How many passengers get on at a stop: a number drawn at random from
/// `min_passangers_enter` to `max_passangers_enter`, no more than the room
/// left by the passengers staying.
pub fn get_passangers_coming_in_amount(
    min_passangers_enter: u32,
    max_passangers_enter: u32,
    passangers_staying: &[Passanger],
) -> (r: u32)
    requires
        min_passangers_enter <= max_passangers_enter,
        passangers_staying@.len() as u32 <= MAX_PASSANGERS_IN_BUS,
    ensures
        smaller(min_passangers_enter as int, room_in_bus(passangers_staying@.len())) <= r
            <= smaller(max_passangers_enter as int, room_in_bus(passangers_staying@.len())),
{
    let drawn = random_in_range(min_passangers_enter, max_passangers_enter);
    cap_passangers_entering(drawn, passangers_staying.len())
}

/// `logs` with `entry` added at the end of the log of bus `b`.
pub open spec fn with_bus_log(
    logs: Map<u32, Seq<(BusEvent, u32)>>,
    b: u32,
    entry: (BusEvent, u32),
) -> Map<u32, Seq<(BusEvent, u32)>> {
    logs.insert(
        b,
        if logs.contains_key(b) {
            logs[b]
        } else {
            Seq::empty()
        }.push(entry),
    )
}

/// Recording an entry in the log of bus `b` appends it: the log of `b`
/// becomes its old log (empty for a new bus) followed by the entry, one
/// longer, and the logs of the other buses stay as they were.
pub proof fn lemma_bus_log_appends(
    logs: Map<u32, Seq<(BusEvent, u32)>>,
    b: u32,
    entry: (BusEvent, u32),
)
    ensures
        ({
            let new_logs = with_bus_log(logs, b, entry);
            let old_len: int = if logs.contains_key(b) {
                logs[b].len() as int
            } else {
                0
            };
            &&& new_logs.contains_key(b)
            &&& new_logs[b].len() == old_len + 1
            &&& new_logs[b][old_len] == entry
            &&& logs.contains_key(b) ==> forall|i: int|
                0 <= i < old_len ==> #[trigger] new_logs[b][i] == logs[b][i]
            &&& forall|c: u32|
                c != b ==> (#[trigger] new_logs.contains_key(c) <==> logs.contains_key(c))
            &&& forall|c: u32| c != b && logs.contains_key(c) ==> #[trigger] new_logs[c] == logs[c]
        }),
{
}

/// The logs of the buses, each as a sequence.
pub open spec fn bus_logs_view(logs: ExportBusLineLogs) -> Map<u32, Seq<(BusEvent, u32)>> {
    Map::new(|b: u32| logs@.contains_key(b), |b: u32| logs@[b]@)
}

fn push_bus_log(logs: &mut ExportBusLineLogs, b: u32, entry: (BusEvent, u32))
    ensures
        bus_logs_view(*final(logs)) == with_bus_log(bus_logs_view(*old(logs)), b, entry),
{
    let mut log = match logs.remove(&b) {
        Some(l) => l,
        None => Vec::new(),
    };
    log.push(entry);
    logs.insert(b, log);
    proof {
        assert(bus_logs_view(*final(logs)) =~= with_bus_log(bus_logs_view(*old(logs)), b, entry));
    }
}

/// The state of a running simulation.
pub struct SimulationState<W> {
    simulation_input: SimulationInput<W>,
    event_export_logs: ExportEventLogs,
    bus_line_logs: ExportBusLineLogs,
    current_time: Time,
    current_date: Date,
    every_day_bus_queue: BusQueue,
    passangers_in_bus: PassangersInBusTable,
    station_data: StationDataTable<W>,
    bus_line_data: BusLinesTable,
}

impl<W: Copy> SimulationState<W> {
    /// The input, with the bus plans repeated once an hour.
    pub closed spec fn input(&self) -> SimulationInput<W> {
        self.simulation_input
    }

    /// The log of every stop served, in order.
    pub closed spec fn event_logs(&self) -> Seq<(String, BusEvent)> {
        self.event_export_logs@
    }

    /// The log of each bus, by `id_number`.
    pub closed spec fn bus_logs(&self) -> Map<u32, Seq<(BusEvent, u32)>> {
        bus_logs_view(self.bus_line_logs)
    }

    /// The simulated time of day.
    pub closed spec fn time(&self) -> Time {
        self.current_time
    }

    /// The simulated date.
    pub closed spec fn date(&self) -> Date {
        self.current_date
    }

    /// The stops of every day, in order of time.
    pub closed spec fn queue(&self) -> Seq<(Time, BusId, StationId)> {
        self.every_day_bus_queue@
    }

    /// The passengers in each bus, by `id_number`.
    pub closed spec fn passangers(&self) -> Map<u32, Vec<Passanger>> {
        self.passangers_in_bus@
    }

    /// The attractiveness of the stations.
    pub closed spec fn stations(&self) -> StationDataTable<W> {
        self.station_data
    }

    /// The timetable of the buses.
    pub closed spec fn lines(&self) -> Map<u32, Map<u32, Seq<Time>>> {
        self.bus_line_data@
    }

    /// Sets a simulation up from its input: the bus plans are repeated once
    /// an hour, the stations and the stops are loaded, the clock stands at
    /// the start time and date, and no bus carries anyone yet.
    pub fn new(simulatin_input_data: SimulationInput<W>, unset_weight: W, outside_day_weight: W) -> (s: Self)
        requires
            forall|i: int|
                0 <= i < simulatin_input_data.stations@.len() ==> within_day(
                    (#[trigger] simulatin_input_data.stations@[i]).atract_e,
                ) && within_day(simulatin_input_data.stations@[i].atract_l),
        ensures
            timetable_in_order(s.lines()),
            s.input().start_time == simulatin_input_data.start_time,
            s.input().start_date == simulatin_input_data.start_date,
            s.input().end_date == simulatin_input_data.end_date,
            s.input().stations == simulatin_input_data.stations,
            s.input().bus_plans@.len() == simulatin_input_data.bus_plans@.len(),
            forall|j: int|
                0 <= j < s.input().bus_plans@.len() ==> {
                    &&& (#[trigger] s.input().bus_plans@[j]).busid
                        == simulatin_input_data.bus_plans@[j].busid
                    &&& s.input().bus_plans@[j].points@ == daily_points(
                        simulatin_input_data.bus_plans@[j].points@,
                        23,
                    )
                },
            s.event_logs().len() == 0,
            s.bus_logs() == Map::<u32, Seq<(BusEvent, u32)>>::empty(),
            s.time() == simulatin_input_data.start_time,
            s.date() == simulatin_input_data.start_date,
            s.passangers() == Map::<u32, Vec<Passanger>>::empty(),
            s.stations().unset_weight() == unset_weight,
            s.stations().outside_day_weight() == outside_day_weight,
            forall|id: u32|
                #[trigger] s.stations().stations().contains_key(id) <==> first_with_id(
                    simulatin_input_data.stations@,
                    id,
                ) is Some,
            forall|id: u32|
                #[trigger] first_with_id(simulatin_input_data.stations@, id) is Some ==> made_from(
                    s.stations().stations()[id],
                    simulatin_input_data.stations@[first_with_id(
                        simulatin_input_data.stations@,
                        id,
                    )->0],
                ),
            s.lines() == with_calls(
                Map::<u32, Map<u32, Seq<Time>>>::empty(),
                plan_stops(s.input().bus_plans@),
            ),
            sorted_by_time(s.queue(), plan_stops(s.input().bus_plans@)),
    {
        let mut simulation_input = simulatin_input_data;
        update_bus_lines(&mut simulation_input);
        let mut station_data = StationDataTable::new(unset_weight, outside_day_weight);
        let mut bus_line_data = BusLinesTable::new();
        let mut every_day_bus_queue: BusQueue = Vec::new();
        proof {
            assert(Seq::<(Time, BusId, StationId)>::empty() + plan_stops(simulation_input.bus_plans@)
                =~= plan_stops(simulation_input.bus_plans@));
        }
        load_simulation_input_data(
            &simulation_input,
            &mut station_data,
            &mut bus_line_data,
            &mut every_day_bus_queue,
        );
        let bus_line_logs: ExportBusLineLogs = HashMap::new();
        let s = SimulationState {
            current_time: simulation_input.start_time,
            current_date: simulation_input.start_date,
            simulation_input,
            event_export_logs: Vec::new(),
            bus_line_logs,
            every_day_bus_queue,
            passangers_in_bus: HashMap::new(),
            station_data,
            bus_line_data,
        };
        proof {
            assert(s.bus_logs() =~= Map::<u32, Seq<(BusEvent, u32)>>::empty());
        }
        s
    }

    /// One tick: past the end date the simulation is over; otherwise the
    /// clock moves to the first stop of the queue at or after the current
    /// time, and the stops at that time are handed back to be served; with
    /// no such stop the next day is due.
    pub fn simulation_tick(&mut self) -> (r: (SimulationStateResult, Vec<(Time, BusId, StationId)>))
        ensures
            final(self).input() == old(self).input(),
            final(self).event_logs() == old(self).event_logs(),
            final(self).bus_logs() == old(self).bus_logs(),
            final(self).date() == old(self).date(),
            final(self).queue() == old(self).queue(),
            final(self).passangers() == old(self).passangers(),
            final(self).stations() == old(self).stations(),
            final(self).lines() == old(self).lines(),
            old(self).input().end_date.is_before(old(self).date()) ==> {
                &&& r.0 == SimulationStateResult::SimulationOver
                &&& r.1@.len() == 0
                &&& final(self).time() == old(self).time()
            },
            !old(self).input().end_date.is_before(old(self).date()) ==> match first_at_or_after(
                queue_times(old(self).queue()),
                old(self).time(),
            ) {
                None => {
                    &&& r.0 == SimulationStateResult::NextDay
                    &&& r.1@.len() == 0
                    &&& final(self).time() == old(self).time()
                },
                Some(t) => {
                    &&& r.0 == SimulationStateResult::TickContinue
                    &&& final(self).time() == t
                    &&& r.1@ == stops_at(old(self).queue(), t)
                },
            },
    {
        if self.current_date > self.simulation_input.end_date {
            return (SimulationStateResult::SimulationOver, Vec::new());
        }
        match get_next_event_time(&self.current_time, &self.every_day_bus_queue) {
            Some(time) => {
                self.current_time = time;
            },
            None => {
                return (SimulationStateResult::NextDay, Vec::new());
            },
        }
        let events = get_events_to_simulate(&self.current_time, &self.every_day_bus_queue);
        (SimulationStateResult::TickContinue, events)
    }

    /// Ends the stop of bus `id_bus` at `id_station`: the bus now carries
    /// the passengers staying followed by those entering, and the stop is
    /// logged with the current time and date, for the event log and at the
    /// end of the log of the bus.
    pub fn record_bus_stop(
        &mut self,
        id_bus: BusId,
        id_station: StationId,
        passangers_leaving: u32,
        passangers_staying: Vec<Passanger>,
        passangers_entering: Vec<Passanger>,
    )
        ensures
            final(self).input() == old(self).input(),
            final(self).time() == old(self).time(),
            final(self).date() == old(self).date(),
            final(self).queue() == old(self).queue(),
            final(self).stations() == old(self).stations(),
            final(self).lines() == old(self).lines(),
            final(self).passangers().dom() == old(self).passangers().dom().insert(id_bus.id_number),
            final(self).passangers()[id_bus.id_number]@ == passangers_staying@
                + passangers_entering@,
            forall|b: u32|
                b != id_bus.id_number && #[trigger] old(self).passangers().contains_key(b)
                    ==> final(self).passangers()[b] == old(self).passangers()[b],
            ({
                let event = BusEvent {
                    date_of_event: old(self).date(),
                    time_of_event: old(self).time(),
                    id_of_the_bus: id_bus,
                    id_of_the_station: id_station,
                    pasangers_coming_in: passangers_entering@.len() as u32,
                    pasangers_coming_out: passangers_leaving,
                };
                let inside = (passangers_staying@.len() + passangers_entering@.len()) as u32;
                &&& final(self).event_logs().len() == old(self).event_logs().len() + 1
                &&& final(self).event_logs().drop_last() == old(self).event_logs()
                &&& final(self).event_logs().last().0@ == event_log_name(
                    old(self).date(),
                    old(self).time(),
                    id_bus,
                    id_station,
                )
                &&& final(self).event_logs().last().1 == event
                &&& final(self).bus_logs() == with_bus_log(
                    old(self).bus_logs(),
                    id_bus.id_number,
                    (event, inside),
                )
            }),
    {
        let passangers_entering_amount = passangers_entering.len() as u32;
        update_passangers_in_bus(
            &id_bus,
            passangers_staying,
            passangers_entering,
            &mut self.passangers_in_bus,
        );
        let passangers_in_bus_after = get_passangers_in_bus_amount(&id_bus, &self.passangers_in_bus);
        let (export_log, bus_log) = get_export_data(
            &self.current_time,
            &self.current_date,
            &id_bus,
            &id_station,
            passangers_entering_amount,
            passangers_leaving,
            passangers_in_bus_after,
        );
        push_bus_log(&mut self.bus_line_logs, bus_log.0.id_of_the_bus.id_number, bus_log);
        self.event_export_logs.push(export_log);
        proof {
            assert(self.event_logs().drop_last() =~= old(self).event_logs());
        }
    }

    /// What `advance_clock` needs: after a served tick, a minute can be
    /// added without overflow, and so can a day where the minute crosses
    /// midnight; before a new day, the date can move on.
    pub open spec fn can_advance_clock(&self, result: SimulationStateResult) -> bool {
        match result {
            SimulationStateResult::TickContinue => {
                &&& self.time().can_advance()
                &&& self.time().following_minute().1 ==> self.date().can_advance()
            },
            SimulationStateResult::NextDay => self.date().can_advance(),
            SimulationStateResult::SimulationOver => true,
        }
    }

    /// Whether `advance_clock` can move the clock on after `result`.
    pub fn check_clock_advance(&self, result: SimulationStateResult) -> (b: bool)
        ensures
            b == self.can_advance_clock(result),
    {
        let t = self.current_time;
        let d = self.current_date;
        let date_ok = 1 <= d.month && d.month <= 12 && d.day < u32::MAX && !(d.month == 12
            && d.day + 1 > 31 && d.year == u32::MAX);
        match result {
            SimulationStateResult::TickContinue => {
                if t.minute == u32::MAX {
                    false
                } else if t.minute + 1 >= 60 {
                    if t.hour == u32::MAX {
                        false
                    } else if t.hour + 1 >= 24 {
                        date_ok
                    } else {
                        true
                    }
                } else {
                    t.hour < 24 || date_ok
                }
            },
            SimulationStateResult::NextDay => date_ok,
            SimulationStateResult::SimulationOver => true,
        }
    }

    /// Moves the clock on after a tick: a minute after served stops (and a
    /// day where that crosses midnight); to midnight of the next day, with
    /// every bus emptied, when the day is over; nothing when the simulation
    /// is over.
    pub fn advance_clock(&mut self, result: SimulationStateResult)
        requires
            old(self).can_advance_clock(result),
        ensures
            final(self).input() == old(self).input(),
            final(self).event_logs() == old(self).event_logs(),
            final(self).bus_logs() == old(self).bus_logs(),
            final(self).queue() == old(self).queue(),
            final(self).stations() == old(self).stations(),
            final(self).lines() == old(self).lines(),
            match result {
                SimulationStateResult::TickContinue => {
                    &&& final(self).time() == old(self).time().following_minute().0
                    &&& final(self).date() == if old(self).time().following_minute().1 {
                        old(self).date().following_day()
                    } else {
                        old(self).date()
                    }
                    &&& final(self).passangers() == old(self).passangers()
                },
                SimulationStateResult::NextDay => {
                    &&& final(self).time() == (Time { hour: 0, minute: 0 })
                    &&& final(self).date() == old(self).date().following_day()
                    &&& final(self).passangers() == Map::<u32, Vec<Passanger>>::empty()
                },
                SimulationStateResult::SimulationOver => {
                    &&& final(self).time() == old(self).time()
                    &&& final(self).date() == old(self).date()
                    &&& final(self).passangers() == old(self).passangers()
                },
            },
    {
        match result {
            SimulationStateResult::TickContinue => {
                self.current_time.next_minute(Some(&mut self.current_date));
            },
            SimulationStateResult::NextDay => {
                self.current_date.next_day();
                self.current_time = Time { hour: 0, minute: 0 };
                self.passangers_in_bus.clear();
            },
            SimulationStateResult::SimulationOver => {},
        }
    }

    /// The input, with the bus plans repeated once an hour.
    pub fn simulation_input(&self) -> (r: &SimulationInput<W>)
        ensures
            *r == self.input(),
    {
        &self.simulation_input
    }

    /// The log of every stop served.
    pub fn event_export_logs(&self) -> (r: &ExportEventLogs)
        ensures
            r@ == self.event_logs(),
    {
        &self.event_export_logs
    }

    /// The log of each bus.
    pub fn bus_line_logs(&self) -> (r: &ExportBusLineLogs)
        ensures
            bus_logs_view(*r) == self.bus_logs(),
    {
        &self.bus_line_logs
    }

    /// The simulated time of day.
    pub fn current_time(&self) -> (r: Time)
        ensures
            r == self.time(),
    {
        self.current_time
    }

    /// The simulated date.
    pub fn current_date(&self) -> (r: Date)
        ensures
            r == self.date(),
    {
        self.current_date
    }

    /// The passengers in each bus.
    pub fn passangers_in_bus(&self) -> (r: &PassangersInBusTable)
        ensures
            r@ == self.passangers(),
    {
        &self.passangers_in_bus
    }

    /// The attractiveness of the stations.
    pub fn station_data(&self) -> (r: &StationDataTable<W>)
        ensures
            *r == self.stations(),
    {
        &self.station_data
    }

    /// The timetable of the buses.
    pub fn bus_line_data(&self) -> (r: &BusLinesTable)
        ensures
            r@ == self.lines(),
    {
        &self.bus_line_data
    }
}

} // verus!
