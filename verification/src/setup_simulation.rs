use vstd::prelude::*;

use crate::dane_out::{BusId, StationId, Time};
use crate::simplestucts::{
    hours_weights, within_day, SimuBusPlan, SimuStation, SimuStopPoint, SimulationInput,
    StationData,
};
use crate::simulation_tick::stops_at;
use crate::simulsimple::{timetable_in_order, with_call, BusLinesTable, BusQueue, StationDataTable};

verus! {

/// The stops of a queue come in order of time.
pub open spec fn queue_in_order(q: Seq<(Time, BusId, StationId)>) -> bool {
    forall|i: int, j: int| 0 <= i < j < q.len() ==> (#[trigger] q[i]).0.is_at_or_before((#[trigger] q[j]).0)
}

/// `q` holds the stops of `unsorted` ordered by time, with the stops at
/// one time in the order they had there: what a stable sort by time gives.
pub open spec fn sorted_by_time(
    q: Seq<(Time, BusId, StationId)>,
    unsorted: Seq<(Time, BusId, StationId)>,
) -> bool {
    &&& queue_in_order(q)
    &&& forall|t: Time| #[trigger] stops_at(q, t) == stops_at(unsorted, t)
}

proof fn lemma_filter_insert_unmatched<A>(r: Seq<A>, k: int, e: A, p: spec_fn(A) -> bool)
    requires
        0 <= k <= r.len(),
        !p(e),
    ensures
        r.insert(k, e).filter(p) == r.filter(p),
    decreases r.len(),
{
    reveal(Seq::filter);
    if k == r.len() {
        assert(r.insert(k, e).drop_last() =~= r);
    } else {
        assert(r.insert(k, e).drop_last() =~= r.drop_last().insert(k, e));
        lemma_filter_insert_unmatched(r.drop_last(), k, e, p);
    }
}

proof fn lemma_filter_insert_matched<A>(r: Seq<A>, k: int, e: A, p: spec_fn(A) -> bool)
    requires
        0 <= k <= r.len(),
        p(e),
        forall|j: int| k <= j < r.len() ==> !p(#[trigger] r[j]),
    ensures
        r.insert(k, e).filter(p) == r.filter(p).push(e),
    decreases r.len(),
{
    reveal(Seq::filter);
    if k == r.len() {
        assert(r.insert(k, e).drop_last() =~= r);
    } else {
        assert(r.insert(k, e).drop_last() =~= r.drop_last().insert(k, e));
        lemma_filter_insert_matched(r.drop_last(), k, e, p);
    }
}

/// Sorts the stops of the queue by time, keeping the stops at one time in
/// their order.
pub fn sort_queue_by_time(queue: &mut BusQueue)
    ensures
        sorted_by_time(final(queue)@, old(queue)@),
{
    let ghost unsorted = queue@;
    let mut sorted: BusQueue = Vec::new();
    let mut i: usize = 0;
    proof {
        assert forall|t: Time| #[trigger] stops_at(sorted@, t) == stops_at(unsorted.subrange(0, 0), t) by {
            reveal(Seq::filter);
            assert(unsorted.subrange(0, 0) =~= sorted@);
        }
    }
    while i < queue.len()
        invariant
            queue@ == unsorted,
            i <= unsorted.len(),
            sorted_by_time(sorted@, unsorted.subrange(0, i as int)),
        decreases unsorted.len() - i,
    {
        let e = queue[i];
        let mut j: usize = sorted.len();
        while j > 0 && sorted[j - 1].0 > e.0
            invariant
                j <= sorted@.len(),
                forall|m: int| j <= m < sorted@.len() ==> e.0.is_before((#[trigger] sorted@[m]).0),
            decreases j,
        {
            j = j - 1;
        }
        let ghost before = sorted@;
        proof {
            assert forall|m: int| 0 <= m < j implies (#[trigger] before[m]).0.is_at_or_before(e.0) by {
                assert(before[m].0.is_at_or_before(before[j - 1].0));
            }
        }
        sorted.insert(j, e);
        proof {
            let pre = unsorted.subrange(0, i as int);
            let post = unsorted.subrange(0, i + 1);
            assert(post =~= pre.push(e));
            assert forall|t: Time| #[trigger] stops_at(sorted@, t) == stops_at(post, t) by {
                let p = |x: (Time, BusId, StationId)| x.0.hour == t.hour && x.0.minute == t.minute;
                assert(stops_at(before, t) == before.filter(p));
                assert(stops_at(sorted@, t) == sorted@.filter(p));
                assert(stops_at(post, t) == post.filter(p));
                assert(stops_at(pre, t) == pre.filter(p));
                assert(post.drop_last() =~= pre);
                assert(post.last() == e);
                reveal(Seq::filter);
                if p(e) {
                    assert forall|m: int| j <= m < before.len() implies !p(#[trigger] before[m]) by {
                        assert(e.0.is_before(before[m].0));
                    }
                    lemma_filter_insert_matched(before, j as int, e, p);
                } else {
                    lemma_filter_insert_unmatched(before, j as int, e, p);
                }
            }
            assert(queue_in_order(sorted@));
        }
        i = i + 1;
    }
    proof {
        assert(unsorted.subrange(0, i as int) =~= unsorted);
    }
    *queue = sorted;
}

/// The stop points of `points` moved to hour `h`, keeping their minutes and
/// stations.
pub open spec fn at_hour(points: Seq<SimuStopPoint>, h: u32) -> Seq<SimuStopPoint> {
    points.map_values(
        |p: SimuStopPoint| SimuStopPoint { time: Time { hour: h, minute: p.time.minute }, staid: p.staid },
    )
}

/// `points` followed by a copy of them at each hour from 7 to `last_hour`.
pub open spec fn daily_points(points: Seq<SimuStopPoint>, last_hour: u32) -> Seq<SimuStopPoint>
    decreases last_hour,
{
    if last_hour < 7 {
        points
    } else {
        daily_points(points, (last_hour - 1) as u32) + at_hour(points, last_hour)
    }
}

/// Repeating the stops once an hour from 7 to 23 makes eighteen times as
/// many stops.
pub proof fn lemma_daily_points_len(points: Seq<SimuStopPoint>, last_hour: u32)
    requires
        6 <= last_hour,
    ensures
        daily_points(points, last_hour).len() == (last_hour - 5) * points.len(),
    decreases last_hour,
{
    if last_hour > 6 {
        lemma_daily_points_len(points, (last_hour - 1) as u32);
        let n = points.len() as int;
        let h = last_hour as int;
        assert(daily_points(points, last_hour) == daily_points(points, (last_hour - 1) as u32)
            + at_hour(points, last_hour));
        assert(at_hour(points, last_hour).len() == n);
        assert((h - 6) * n + n == (h - 5) * n) by (nonlinear_arith);
        assert(daily_points(points, (last_hour - 1) as u32).len() == (h - 6) * n);
    } else {
        assert(daily_points(points, last_hour) == points);
        assert((last_hour - 5) * points.len() == points.len());
    }
}

proof fn lemma_daily_points_at(points: Seq<SimuStopPoint>, last_hour: u32, k: int, i: int)
    requires
        6 <= last_hour <= 23,
        0 <= k < last_hour - 5,
        0 <= i < points.len(),
    ensures
        0 <= k * points.len() + i < daily_points(points, last_hour).len(),
        daily_points(points, last_hour)[k * points.len() + i] == if k == 0 {
            points[i]
        } else {
            SimuStopPoint {
                time: Time { hour: (6 + k) as u32, minute: points[i].time.minute },
                staid: points[i].staid,
            }
        },
    decreases last_hour,
{
    let n = points.len() as int;
    lemma_daily_points_len(points, last_hour);
    let h = last_hour as int;
    assert(k * n + i < (h - 5) * n) by (nonlinear_arith)
        requires
            0 <= k < h - 5,
            0 <= i < n,
    ;
    assert(0 <= k * n) by (nonlinear_arith)
        requires
            0 <= k,
            0 <= n,
    ;
    if last_hour > 6 {
        let front = daily_points(points, (last_hour - 1) as u32);
        lemma_daily_points_len(points, (last_hour - 1) as u32);
        assert(daily_points(points, last_hour) == front + at_hour(points, last_hour));
        if k < h - 6 {
            lemma_daily_points_at(points, (last_hour - 1) as u32, k, i);
            assert(k * n + i < (h - 6) * n) by (nonlinear_arith)
                requires
                    0 <= k < h - 6,
                    0 <= i < n,
            ;
        } else {
            assert(k * n == (h - 6) * n);
        }
    }
}

/// The stop points repeated once an hour: the first copy is the points
/// themselves, and copy `k` (from 1 to 17) has each point at hour `6 + k`,
/// with its minute and station.
pub proof fn lemma_daily_points_content(points: Seq<SimuStopPoint>, k: int, i: int)
    requires
        0 <= k < 18,
        0 <= i < points.len(),
    ensures
        daily_points(points, 23).len() == 18 * points.len(),
        daily_points(points, 23)[k * points.len() + i] == if k == 0 {
            points[i]
        } else {
            SimuStopPoint {
                time: Time { hour: (6 + k) as u32, minute: points[i].time.minute },
                staid: points[i].staid,
            }
        },
{
    lemma_daily_points_len(points, 23);
    lemma_daily_points_at(points, 23, k, i);
}

/// The stops of plans, plan after plan: each new plan adds its stops at the
/// end, each stop as its time, the plan's bus and its station.
pub proof fn lemma_plan_stops_append(plans: Seq<SimuBusPlan>, plan: SimuBusPlan, i: int)
    ensures
        plan_stops(Seq::<SimuBusPlan>::empty()).len() == 0,
        plan_stops(plans.push(plan)) == plan_stops(plans) + stops_of_plan(plan),
        stops_of_plan(plan).len() == plan.points@.len(),
        0 <= i < plan.points@.len() ==> stops_of_plan(plan)[i] == (
            plan.points@[i].time,
            plan.busid,
            plan.points@[i].staid,
        ),
{
    assert(plans.push(plan).drop_last() =~= plans);
}

/// Repeats the stops of every bus plan once an hour: each plan keeps its
/// stops and gains a copy of them at each hour from 7 to 23, same minutes,
/// same stations.
pub fn update_bus_lines<W>(simulinput: &mut SimulationInput<W>)
    ensures
        final(simulinput).start_time == old(simulinput).start_time,
        final(simulinput).start_date == old(simulinput).start_date,
        final(simulinput).end_date == old(simulinput).end_date,
        final(simulinput).stations == old(simulinput).stations,
        final(simulinput).bus_plans@.len() == old(simulinput).bus_plans@.len(),
        forall|j: int|
            0 <= j < final(simulinput).bus_plans@.len() ==> {
                &&& (#[trigger] final(simulinput).bus_plans@[j]).busid
                    == old(simulinput).bus_plans@[j].busid
                &&& final(simulinput).bus_plans@[j].points@ == daily_points(
                    old(simulinput).bus_plans@[j].points@,
                    23,
                )
            },
{
    let mut plans: Vec<SimuBusPlan> = Vec::new();
    let mut i: usize = 0;
    while i < simulinput.bus_plans.len()
        invariant
            i <= simulinput.bus_plans@.len(),
            plans@.len() == i,
            forall|j: int|
                0 <= j < i ==> {
                    &&& (#[trigger] plans@[j]).busid == simulinput.bus_plans@[j].busid
                    &&& plans@[j].points@ == daily_points(simulinput.bus_plans@[j].points@, 23)
                },
        decreases simulinput.bus_plans@.len() - i,
    {
        let plan = &simulinput.bus_plans[i];
        let mut points: Vec<SimuStopPoint> = Vec::new();
        let mut k: usize = 0;
        while k < plan.points.len()
            invariant
                k <= plan.points@.len(),
                points@ == plan.points@.subrange(0, k as int),
            decreases plan.points@.len() - k,
        {
            points.push(plan.points[k]);
            proof {
                assert(points@ =~= plan.points@.subrange(0, k + 1));
            }
            k = k + 1;
        }
        proof {
            assert(plan.points@.subrange(0, k as int) =~= plan.points@);
            assert(points@ == daily_points(plan.points@, 6));
        }
        let mut hour: u32 = 7;
        while hour <= 23
            invariant
                7 <= hour <= 24,
                points@ == daily_points(plan.points@, (hour - 1) as u32),
            decreases 24 - hour,
        {
            let ghost before = points@;
            let mut k: usize = 0;
            while k < plan.points.len()
                invariant
                    k <= plan.points@.len(),
                    points@ == before + at_hour(plan.points@, hour).subrange(0, k as int),
                decreases plan.points@.len() - k,
            {
                let p = plan.points[k];
                points.push(
                    SimuStopPoint { time: Time { hour: hour, minute: p.time.minute }, staid: p.staid },
                );
                proof {
                    assert(points@ =~= before + at_hour(plan.points@, hour).subrange(0, k + 1));
                }
                k = k + 1;
            }
            proof {
                assert(at_hour(plan.points@, hour).subrange(0, k as int) =~= at_hour(
                    plan.points@,
                    hour,
                ));
            }
            hour = hour + 1;
        }
        plans.push(SimuBusPlan { busid: plan.busid, points });
        i = i + 1;
    }
    simulinput.bus_plans = plans;
}

/// The stops of a list of bus plans, plan after plan, each as (time, bus,
/// station).
pub open spec fn plan_stops(plans: Seq<SimuBusPlan>) -> Seq<(Time, BusId, StationId)>
    decreases plans.len(),
{
    if plans.len() == 0 {
        Seq::empty()
    } else {
        plan_stops(plans.drop_last()) + stops_of_plan(plans.last())
    }
}

/// The stops of one bus plan, each as (time, bus, station).
pub open spec fn stops_of_plan(plan: SimuBusPlan) -> Seq<(Time, BusId, StationId)> {
    plan.points@.map_values(|p: SimuStopPoint| (p.time, plan.busid, p.staid))
}

/// The timetable `t` with the calls of `stops` added one after another.
pub open spec fn with_calls(
    t: Map<u32, Map<u32, Seq<Time>>>,
    stops: Seq<(Time, BusId, StationId)>,
) -> Map<u32, Map<u32, Seq<Time>>>
    decreases stops.len(),
{
    if stops.len() == 0 {
        t
    } else {
        let (time, bus, station) = stops.last();
        with_call(with_calls(t, stops.drop_last()), bus.id_number, station.id_number, time)
    }
}

/// The position of the first station of `sts` numbered `id`, if any.
pub open spec fn first_with_id<W>(sts: Seq<SimuStation<W>>, id: u32) -> Option<int>
    decreases sts.len(),
{
    if sts.len() == 0 {
        None
    } else {
        match first_with_id(sts.drop_last(), id) {
            Some(k) => Some(k),
            None => if sts.last().staid.id_number == id {
                Some(sts.len() - 1)
            } else {
                None
            },
        }
    }
}

/// `data` is the hourly data made from the input station `st`.
pub open spec fn made_from<W>(data: StationData<W>, st: SimuStation<W>) -> bool {
    &&& data._id == st.staid
    &&& data.attractivness_e@ == hours_weights(st.atract_e)
    &&& data.attractivness_l@ == hours_weights(st.atract_l)
}

/// The first station with a number is the one of that number that comes
/// before every other of that number; where none has the number, there is
/// none.
pub proof fn lemma_first_with_id_bounds<W>(sts: Seq<SimuStation<W>>, id: u32)
    ensures
        first_with_id(sts, id) matches Some(k) ==> 0 <= k < sts.len() && sts[k].staid.id_number
            == id && forall|j: int| 0 <= j < k ==> (#[trigger] sts[j]).staid.id_number != id,
        first_with_id(sts, id) is None ==> forall|j: int|
            0 <= j < sts.len() ==> (#[trigger] sts[j]).staid.id_number != id,
    decreases sts.len(),
{
    if sts.len() > 0 {
        lemma_first_with_id_bounds(sts.drop_last(), id);
        assert forall|j: int| 0 <= j < sts.len() - 1 implies sts[j] == sts.drop_last()[j] by {}
    }
}

/// The data of the input stations go into `stations` (a station already
/// held, or repeated in the input, keeps its first data); the stops of the
/// bus plans go into `bus_lines` and onto `bus_queue`, plan after plan, and
/// the queue is then sorted by time, stops at one time keeping their order.
pub fn load_simulation_input_data<W: Copy>(
    simulinput: &SimulationInput<W>,
    stations: &mut StationDataTable<W>,
    bus_lines: &mut BusLinesTable,
    bus_queue: &mut BusQueue,
)
    requires
        forall|i: int|
            0 <= i < simulinput.stations@.len() ==> within_day(
                (#[trigger] simulinput.stations@[i]).atract_e,
            ) && within_day(simulinput.stations@[i].atract_l),
    ensures
        timetable_in_order(old(bus_lines)@),
        final(stations).unset_weight() == old(stations).unset_weight(),
        final(stations).outside_day_weight() == old(stations).outside_day_weight(),
        forall|id: u32|
            #[trigger] final(stations).stations().contains_key(id) <==> old(
                stations,
            ).stations().contains_key(id) || first_with_id(simulinput.stations@, id) is Some,
        forall|id: u32|
            #[trigger] old(stations).stations().contains_key(id) ==> final(stations).stations()[id]
                == old(stations).stations()[id],
        forall|id: u32|
            !old(stations).stations().contains_key(id) && #[trigger] first_with_id(
                simulinput.stations@,
                id,
            ) is Some ==> made_from(
                final(stations).stations()[id],
                simulinput.stations@[first_with_id(simulinput.stations@, id)->0],
            ),
        timetable_in_order(final(bus_lines)@),
        final(bus_lines)@ == with_calls(old(bus_lines)@, plan_stops(simulinput.bus_plans@)),
        sorted_by_time(final(bus_queue)@, old(bus_queue)@ + plan_stops(simulinput.bus_plans@)),
{
    let ghost sts = simulinput.stations@;
    let ghost old_stations = stations.stations();
    let mut i: usize = 0;
    while i < simulinput.stations.len()
        invariant
            sts == simulinput.stations@,
            i <= sts.len(),
            forall|j: int|
                0 <= j < sts.len() ==> within_day((#[trigger] sts[j]).atract_e) && within_day(
                    sts[j].atract_l,
                ),
            stations.unset_weight() == old(stations).unset_weight(),
            stations.outside_day_weight() == old(stations).outside_day_weight(),
            old_stations == old(stations).stations(),
            forall|id: u32|
                #[trigger] stations.stations().contains_key(id) <==> old_stations.contains_key(id)
                    || first_with_id(sts.subrange(0, i as int), id) is Some,
            forall|id: u32|
                #[trigger] old_stations.contains_key(id) ==> stations.stations()[id]
                    == old_stations[id],
            forall|id: u32|
                !old_stations.contains_key(id) && #[trigger] first_with_id(
                    sts.subrange(0, i as int),
                    id,
                ) is Some ==> made_from(
                    stations.stations()[id],
                    sts[first_with_id(sts.subrange(0, i as int), id)->0],
                ),
        decreases sts.len() - i,
    {
        let st = &simulinput.stations[i];
        let data = StationData::from_simu_station(st);
        stations.insert_station_data(data);
        proof {
            let pre = sts.subrange(0, i as int);
            let post = sts.subrange(0, i + 1);
            assert(post.drop_last() =~= pre);
            assert forall|id: u32| #[trigger] first_with_id(post, id) is Some implies {
                let k = first_with_id(post, id)->0;
                0 <= k <= i && sts[k].staid.id_number == id
            } by {
                lemma_first_with_id_bounds(post, id);
            }
            assert forall|id: u32| #[trigger] first_with_id(pre, id) is Some implies
                first_with_id(pre, id)->0 < i by {
                lemma_first_with_id_bounds(pre, id);
            }
            assert forall|id: u32|
                !old_stations.contains_key(id) && #[trigger] first_with_id(post, id) is Some implies made_from(
                stations.stations()[id],
                sts[first_with_id(post, id)->0],
            ) by {
                lemma_first_with_id_bounds(pre, id);
                if first_with_id(pre, id) is Some {
                    assert(first_with_id(post, id) == first_with_id(pre, id));
                } else {
                    assert(first_with_id(post, id) == Some(i as int));
                    assert(st.staid.id_number == id);
                }
            }
        }
        i = i + 1;
    }
    proof {
        assert(sts.subrange(0, i as int) =~= sts);
    }
    proof {
        use_type_invariant(&*bus_lines);
    }
    let ghost plans = simulinput.bus_plans@;
    let ghost old_lines = bus_lines@;
    let ghost old_queue = bus_queue@;
    let mut i: usize = 0;
    proof {
        assert(old_queue + plan_stops(plans.subrange(0, 0)) =~= old_queue);
    }
    while i < simulinput.bus_plans.len()
        invariant
            plans == simulinput.bus_plans@,
            i <= plans.len(),
            timetable_in_order(bus_lines@),
            bus_lines@ == with_calls(old_lines, plan_stops(plans.subrange(0, i as int))),
            bus_queue@ == old_queue + plan_stops(plans.subrange(0, i as int)),
        decreases plans.len() - i,
    {
        let plan = &simulinput.bus_plans[i];
        let ghost done = plan_stops(plans.subrange(0, i as int));
        let mut k: usize = 0;
        proof {
            assert(done + stops_of_plan(*plan).subrange(0, 0) =~= done);
        }
        while k < plan.points.len()
            invariant
                k <= plan.points@.len(),
                timetable_in_order(bus_lines@),
                bus_lines@ == with_calls(old_lines, done + stops_of_plan(*plan).subrange(0, k as int)),
                bus_queue@ == old_queue + done + stops_of_plan(*plan).subrange(0, k as int),
            decreases plan.points@.len() - k,
        {
            let point = plan.points[k];
            bus_lines.insert_station_time(&plan.busid, &point.staid, point.time);
            bus_queue.push((point.time, plan.busid, point.staid));
            proof {
                let pre = done + stops_of_plan(*plan).subrange(0, k as int);
                let post = done + stops_of_plan(*plan).subrange(0, k + 1);
                assert(post.drop_last() =~= pre);
                assert(post.last() == (point.time, plan.busid, point.staid));
                assert(bus_queue@ =~= old_queue + post);
            }
            k = k + 1;
        }
        proof {
            let next = plans.subrange(0, i + 1);
            assert(next.drop_last() =~= plans.subrange(0, i as int));
            assert(stops_of_plan(*plan).subrange(0, k as int) =~= stops_of_plan(*plan));
            assert(plan_stops(next) == done + stops_of_plan(*plan));
            assert(old_queue + done + stops_of_plan(*plan) =~= old_queue + plan_stops(next));
        }
        i = i + 1;
    }
    proof {
        assert(plans.subrange(0, i as int) =~= plans);
    }
    sort_queue_by_time(bus_queue);
}

} // verus!
