use vstd::prelude::*;

use crate::dane_out::{BusId, Date, StationId, Time};
use crate::setup_simulation::queue_in_order;
use crate::simulsimple::{first_at_or_after, lemma_first_at_or_after_position, BusQueue};

verus! {

/// The times of the stops of a queue, in queue order.
pub open spec fn queue_times(queue: Seq<(Time, BusId, StationId)>) -> Seq<Time> {
    queue.map_values(|e: (Time, BusId, StationId)| e.0)
}

/// The stops of `queue` at `time` or later, in queue order.
pub open spec fn stops_from(queue: Seq<(Time, BusId, StationId)>, time: Time) -> Seq<
    (Time, BusId, StationId),
> {
    queue.filter(|e: (Time, BusId, StationId)| time.is_at_or_before(e.0))
}

/// The stops kept from `time` on are all the stops at that time or later,
/// the one exactly at `time` among them, and no other: with the stops before
/// `time` they make up the queue.
pub proof fn lemma_stops_from_keeps_due(queue: Seq<(Time, BusId, StationId)>, time: Time)
    ensures
        forall|i: int|
            0 <= i < queue.len() && ((#[trigger] queue[i]).0 == time || time.is_before(queue[i].0))
                ==> stops_from(queue, time).contains(queue[i]),
        forall|i: int|
            0 <= i < stops_from(queue, time).len() ==> queue.contains(
                #[trigger] stops_from(queue, time)[i],
            ) && !stops_from(queue, time)[i].0.is_before(time),
        stops_from(queue, time).len() + queue.filter(
            |e: (Time, BusId, StationId)| e.0.is_before(time),
        ).len() == queue.len(),
    decreases queue.len(),
{
    broadcast use vstd::seq_lib::group_filter_ensures;

    let p = |e: (Time, BusId, StationId)| time.is_at_or_before(e.0);
    assert forall|i: int|
        0 <= i < queue.len() && ((#[trigger] queue[i]).0 == time || time.is_before(queue[i].0))
            implies stops_from(queue, time).contains(queue[i]) by {
        queue.lemma_filter_contains(p, i);
    }
    assert forall|i: int| 0 <= i < stops_from(queue, time).len() implies queue.contains(
        #[trigger] stops_from(queue, time)[i],
    ) && !stops_from(queue, time)[i].0.is_before(time) by {
        queue.lemma_filter_pred(p, i);
        let x = stops_from(queue, time)[i];
        assert(stops_from(queue, time).contains(x));
        queue.lemma_filter_contains_rev(p, x);
    }
    lemma_filter_split_len(queue, time);
}

proof fn lemma_filter_split_len(queue: Seq<(Time, BusId, StationId)>, time: Time)
    ensures
        stops_from(queue, time).len() + queue.filter(
            |e: (Time, BusId, StationId)| e.0.is_before(time),
        ).len() == queue.len(),
    decreases queue.len(),
{
    reveal(Seq::filter);
    if queue.len() > 0 {
        lemma_filter_split_len(queue.drop_last(), time);
    }
}

/// The stops due now are all the stops exactly at `time` and no other.
pub proof fn lemma_stops_at_are_due(queue: Seq<(Time, BusId, StationId)>, time: Time)
    ensures
        forall|i: int|
            0 <= i < queue.len() && (#[trigger] queue[i]).0 == time ==> stops_at(
                queue,
                time,
            ).contains(queue[i]),
        forall|i: int|
            0 <= i < stops_at(queue, time).len() ==> queue.contains(
                #[trigger] stops_at(queue, time)[i],
            ) && stops_at(queue, time)[i].0 == time,
{
    broadcast use vstd::seq_lib::group_filter_ensures;

    let p = |e: (Time, BusId, StationId)| e.0.hour == time.hour && e.0.minute == time.minute;
    assert forall|i: int| 0 <= i < queue.len() && (#[trigger] queue[i]).0 == time implies stops_at(
        queue,
        time,
    ).contains(queue[i]) by {
        queue.lemma_filter_contains(p, i);
    }
    assert forall|i: int| 0 <= i < stops_at(queue, time).len() implies queue.contains(
        #[trigger] stops_at(queue, time)[i],
    ) && stops_at(queue, time)[i].0 == time by {
        queue.lemma_filter_pred(p, i);
        let x = stops_at(queue, time)[i];
        assert(stops_at(queue, time).contains(x));
        queue.lemma_filter_contains_rev(p, x);
    }
}

/// The stops of `queue` at exactly `time`, in queue order.
pub open spec fn stops_at(queue: Seq<(Time, BusId, StationId)>, time: Time) -> Seq<
    (Time, BusId, StationId),
> {
    queue.filter(|e: (Time, BusId, StationId)| e.0.hour == time.hour && e.0.minute == time.minute)
}

/// Copies a queue.
pub fn copy_queue(queue: &BusQueue) -> (r: BusQueue)
    ensures
        r@ == queue@,
{
    let mut r: BusQueue = Vec::new();
    let mut i: usize = 0;
    while i < queue.len()
        invariant
            i <= queue@.len(),
            r@ == queue@.subrange(0, i as int),
        decreases queue@.len() - i,
    {
        r.push(queue[i]);
        proof {
            assert(r@ =~= queue@.subrange(0, i + 1));
        }
        i = i + 1;
    }
    proof {
        assert(queue@.subrange(0, i as int) =~= queue@);
    }
    r
}

/// The start of the following day: midnight, the next date, and the whole
/// queue of the day's stops again.
pub fn tick_next_day(simulation_date: Date, bus_queue: &BusQueue) -> (r: (Time, Date, BusQueue))
    requires
        simulation_date.can_advance(),
    ensures
        r.0 == (Time { hour: 0, minute: 0 }),
        r.1 == simulation_date.following_day(),
        r.2@ == bus_queue@,
{
    let mut date = simulation_date;
    date.next_day();
    (Time { hour: 0, minute: 0 }, date, copy_queue(bus_queue))
}

/// The stops of the day from `simulation_time` on, in queue order.
pub fn get_today_bus_quere(simulation_time: &Time, today_bus_queue: BusQueue) -> (r: BusQueue)
    ensures
        r@ == stops_from(today_bus_queue@, *simulation_time),
{
    let ghost pred = |e: (Time, BusId, StationId)| simulation_time.is_at_or_before(e.0);
    let mut r: BusQueue = Vec::new();
    let mut i: usize = 0;
    while i < today_bus_queue.len()
        invariant
            i <= today_bus_queue@.len(),
            pred == (|e: (Time, BusId, StationId)| simulation_time.is_at_or_before(e.0)),
            r@ == today_bus_queue@.subrange(0, i as int).filter(pred),
        decreases today_bus_queue@.len() - i,
    {
        let e = today_bus_queue[i];
        if e.0 >= *simulation_time {
            r.push(e);
        }
        proof {
            let post = today_bus_queue@.subrange(0, i + 1);
            assert(post.drop_last() =~= today_bus_queue@.subrange(0, i as int));
            reveal(Seq::filter);
        }
        i = i + 1;
    }
    proof {
        assert(today_bus_queue@.subrange(0, i as int) =~= today_bus_queue@);
    }
    r
}

/// The time of the first stop in the queue, in queue order, at or after
/// `simulation_time`.
pub fn get_next_event_time(simulation_time: &Time, today_bus_queue: &BusQueue) -> (r: Option<Time>)
    ensures
        r == first_at_or_after(queue_times(today_bus_queue@), *simulation_time),
{
    let ghost times = queue_times(today_bus_queue@);
    let mut i: usize = 0;
    proof {
        assert(times.subrange(0, times.len() as int) =~= times);
    }
    while i < today_bus_queue.len()
        invariant
            times == queue_times(today_bus_queue@),
            i <= times.len(),
            first_at_or_after(times, *simulation_time) == first_at_or_after(
                times.subrange(i as int, times.len() as int),
                *simulation_time,
            ),
        decreases times.len() - i,
    {
        let t = today_bus_queue[i].0;
        let ghost rest = times.subrange(i as int, times.len() as int);
        proof {
            assert(rest[0] == t);
        }
        if t >= *simulation_time {
            return Some(t);
        }
        proof {
            assert(rest.drop_first() =~= times.subrange(i + 1, times.len() as int));
        }
        i = i + 1;
    }
    None
}

/// The stops of the queue at exactly `simulation_time`, in queue order.
pub fn get_events_to_simulate(simulation_time: &Time, today_bus_queue: &BusQueue) -> (r: Vec<
    (Time, BusId, StationId),
>)
    ensures
        r@ == stops_at(today_bus_queue@, *simulation_time),
{
    let ghost pred = |e: (Time, BusId, StationId)| e.0 == *simulation_time;
    let mut r: Vec<(Time, BusId, StationId)> = Vec::new();
    let mut i: usize = 0;
    while i < today_bus_queue.len()
        invariant
            i <= today_bus_queue@.len(),
            pred == (|e: (Time, BusId, StationId)| e.0 == *simulation_time),
            r@ == today_bus_queue@.subrange(0, i as int).filter(pred),
        decreases today_bus_queue@.len() - i,
    {
        let e = today_bus_queue[i];
        if e.0 == *simulation_time {
            r.push(e);
        }
        proof {
            let post = today_bus_queue@.subrange(0, i + 1);
            assert(post.drop_last() =~= today_bus_queue@.subrange(0, i as int));
            reveal(Seq::filter);
        }
        i = i + 1;
    }
    proof {
        assert(today_bus_queue@.subrange(0, i as int) =~= today_bus_queue@);
        let spec_pred = |e: (Time, BusId, StationId)|
            e.0.hour == simulation_time.hour && e.0.minute == simulation_time.minute;
        assert(pred =~= spec_pred);
    }
    r
}

/// Ticking from event to event serves every stop: in a queue ordered by
/// time, the next event time from `time` is at or after `time`, stops wait
/// at it, and no stop at or after `time` comes before it; where there is
/// none, every stop of the queue is before `time`.
pub proof fn lemma_next_event_skips_no_stop(q: Seq<(Time, BusId, StationId)>, time: Time)
    requires
        queue_in_order(q),
    ensures
        match first_at_or_after(queue_times(q), time) {
            Some(t) => {
                &&& time.is_at_or_before(t)
                &&& stops_at(q, t).len() > 0
                &&& forall|i: int|
                    0 <= i < q.len() && time.is_at_or_before(#[trigger] q[i].0) ==> t.is_at_or_before(
                        q[i].0,
                    )
            },
            None => forall|i: int| 0 <= i < q.len() ==> (#[trigger] q[i].0).is_before(time),
        },
{
    let s = queue_times(q);
    lemma_first_at_or_after_position(s, time);
    match first_at_or_after(s, time) {
        Some(t) => {
            let k = choose|k: int|
                0 <= k < s.len() && s[k] == t && time.is_at_or_before(t) && forall|j: int|
                    0 <= j < k ==> !time.is_at_or_before(#[trigger] s[j]);
            assert(q[k].0 == t);
            let p = |e: (Time, BusId, StationId)| e.0.hour == t.hour && e.0.minute == t.minute;
            q.lemma_filter_contains(p, k);
            assert(stops_at(q, t).contains(q[k]));
            assert forall|i: int|
                0 <= i < q.len() && time.is_at_or_before(#[trigger] q[i].0) implies t.is_at_or_before(
                q[i].0,
            ) by {
                assert(s[i] == q[i].0);
                if i < k {
                } else if i > k {
                    assert(q[k].0.is_at_or_before(q[i].0));
                }
            }
        },
        None => {
            assert forall|i: int| 0 <= i < q.len() implies (#[trigger] q[i].0).is_before(time) by {
                assert(s[i] == q[i].0);
            }
        },
    }
}

} // verus!
