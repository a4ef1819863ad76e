use vstd::prelude::*;

use crate::dane_out::{BusId, Date, StationId, Time};

verus! {

/// The stops of one bus in the simulation input.
#[derive(Debug, Clone, Default)]
pub struct SimuBusPlan {
    pub busid: BusId,
    pub points: Vec<SimuStopPoint>,
}

/// One stop of a bus: when and where.
#[derive(Debug, Clone, Copy, Default, PartialEq, Eq, Structural)]
pub struct SimuStopPoint {
    pub time: Time,
    pub staid: StationId,
}

/// How attractive a station is during the hours `start_hour` up to, not
/// including, `end_hour`. The weight `att` is carried, never computed on.
#[derive(Debug, Clone, Copy, Default)]
pub struct Attractivness<W> {
    pub start_hour: u32,
    pub end_hour: u32,
    pub att: W,
}

/// A station of the simulation input, with its attractiveness for passengers
/// entering (`atract_e`) and leaving (`atract_l`).
#[derive(Debug, Clone, Default)]
pub struct SimuStation<W> {
    pub staid: StationId,
    pub atract_e: Option<Vec<Attractivness<W>>>,
    pub atract_l: Option<Vec<Attractivness<W>>>,
}

/// Everything the simulation starts from.
#[derive(Debug, Clone, Default)]
pub struct SimulationInput<W> {
    pub start_time: Time,
    pub start_date: Date,
    pub end_date: Date,
    pub stations: Vec<SimuStation<W>>,
    pub bus_plans: Vec<SimuBusPlan>,
}

/// A passenger riding a bus, who leaves it at `station_to_leave`.
#[derive(Debug, Clone, Copy, PartialEq, Eq, Structural)]
pub struct Passanger {
    pub station_to_leave: StationId,
}

impl Passanger {
    pub fn new(id: StationId) -> (p: Passanger)
        ensures
            p.station_to_leave == id,
    {
        Passanger { station_to_leave: id }
    }
}

/// The weight of each hour of the day at a station, where one is set.
#[derive(Debug, Clone, Copy)]
pub struct StationData<W> {
    pub _id: StationId,
    pub attractivness_e: [Option<W>; 24],
    pub attractivness_l: [Option<W>; 24],
}

/// The weight that the list `pts` gives to hour `h`: that of the last entry
/// whose hours hold `h`, if there is one.
pub open spec fn hour_weight<W>(pts: Seq<Attractivness<W>>, h: int) -> Option<W>
    decreases pts.len(),
{
    if pts.len() == 0 {
        None
    } else if pts.last().start_hour <= h < pts.last().end_hour {
        Some(pts.last().att)
    } else {
        hour_weight(pts.drop_last(), h)
    }
}

/// The entry `pt` covers hour `h`.
pub open spec fn covers<W>(pt: Attractivness<W>, h: int) -> bool {
    pt.start_hour <= h < pt.end_hour
}

/// The last entry wins: the weight of an hour is that of the last entry of
/// the list whose hours hold it, no later entry holding it; an hour that no
/// entry holds has no weight.
pub proof fn lemma_last_entry_wins<W>(pts: Seq<Attractivness<W>>, h: int)
    ensures
        hour_weight(pts, h) matches Some(w) ==> exists|k: int|
            0 <= k < pts.len() && covers(#[trigger] pts[k], h) && pts[k].att == w && forall|j: int|
                k < j < pts.len() ==> !covers(#[trigger] pts[j], h),
        hour_weight(pts, h) is None ==> forall|j: int| 0 <= j < pts.len() ==> !covers(#[trigger] pts[j], h),
    decreases pts.len(),
{
    if pts.len() > 0 {
        let front = pts.drop_last();
        lemma_last_entry_wins(front, h);
        assert forall|j: int| 0 <= j < front.len() implies pts[j] == front[j] by {}
        if covers(pts.last(), h) {
            assert(covers(pts[pts.len() - 1], h));
        } else {
            match hour_weight(front, h) {
                Some(w) => {
                    let k = choose|k: int|
                        0 <= k < front.len() && covers(#[trigger] front[k], h) && front[k].att == w
                            && forall|j: int| k < j < front.len() ==> !covers(#[trigger] front[j], h);
                    assert(covers(pts[k], h));
                    assert forall|j: int| k < j < pts.len() implies !covers(#[trigger] pts[j], h) by {
                        if j < front.len() {
                            assert(pts[j] == front[j]);
                        }
                    }
                },
                None => {},
            }
        }
    }
}

/// The weights that an optional list gives to the hours of a day.
pub open spec fn hours_weights<W>(pts: Option<Vec<Attractivness<W>>>) -> Seq<Option<W>> {
    Seq::new(
        24,
        |h: int|
            match pts {
                Some(v) => hour_weight(v@, h),
                None => None,
            },
    )
}

/// Every entry with any hours at all ends by hour 24.
pub open spec fn entries_within_day<W>(pts: Seq<Attractivness<W>>) -> bool {
    forall|i: int|
        0 <= i < pts.len() ==> (#[trigger] pts[i]).start_hour >= pts[i].end_hour
            || pts[i].end_hour <= 24
}

/// The hours of a day take their weights from the list, hour by hour; with
/// no list, no hour has a weight.
pub proof fn lemma_hours_weights<W>(pts: Option<Vec<Attractivness<W>>>, h: int)
    ensures
        hours_weights(pts).len() == 24,
        0 <= h < 24 ==> hours_weights(pts)[h] == match pts {
            Some(v) => hour_weight(v@, h),
            None => None,
        },
{
}

/// The entries of an optional list lie within the day.
pub open spec fn within_day<W>(pts: Option<Vec<Attractivness<W>>>) -> bool {
    match pts {
        Some(v) => entries_within_day(v@),
        None => true,
    }
}

fn entries_fit_day<W>(v: &Vec<Attractivness<W>>) -> (b: bool)
    ensures
        b == entries_within_day(v@),
{
    let mut i: usize = 0;
    while i < v.len()
        invariant
            i <= v@.len(),
            forall|j: int|
                0 <= j < i ==> (#[trigger] v@[j]).start_hour >= v@[j].end_hour || v@[j].end_hour
                    <= 24,
        decreases v@.len() - i,
    {
        if v[i].start_hour < v[i].end_hour && v[i].end_hour > 24 {
            return false;
        }
        i = i + 1;
    }
    true
}

impl<W> SimulationInput<W> {
    /// Whether every attractiveness entry of every station lies within the
    /// day, as `StationData::from_simu_station` needs.
    pub fn stations_within_day(&self) -> (b: bool)
        ensures
            b == forall|i: int|
                0 <= i < self.stations@.len() ==> within_day((#[trigger] self.stations@[i]).atract_e)
                    && within_day(self.stations@[i].atract_l),
    {
        let mut i: usize = 0;
        while i < self.stations.len()
            invariant
                i <= self.stations@.len(),
                forall|j: int|
                    0 <= j < i ==> within_day((#[trigger] self.stations@[j]).atract_e) && within_day(
                        self.stations@[j].atract_l,
                    ),
            decreases self.stations@.len() - i,
        {
            let st = &self.stations[i];
            let e_ok = match &st.atract_e {
                Some(v) => entries_fit_day(v),
                None => true,
            };
            let l_ok = match &st.atract_l {
                Some(v) => entries_fit_day(v),
                None => true,
            };
            if !(e_ok && l_ok) {
                return false;
            }
            i = i + 1;
        }
        true
    }
}

fn fill_hours<W: Copy>(v: &Vec<Attractivness<W>>) -> (hours: [Option<W>; 24])
    requires
        entries_within_day(v@),
    ensures
        forall|h: int| 0 <= h < 24 ==> hours@[h] == hour_weight(v@, h),
{
    let mut hours: [Option<W>; 24] = [None; 24];
    let mut k: usize = 0;
    while k < v.len()
        invariant
            entries_within_day(v@),
            k <= v@.len(),
            hours@.len() == 24,
            forall|h: int| 0 <= h < 24 ==> hours@[h] == hour_weight(v@.subrange(0, k as int), h),
        decreases v@.len() - k,
    {
        let pt = v[k];
        proof {
            assert(pt == v@[k as int]);
        }
        let mut hr = pt.start_hour;
        while hr < pt.end_hour
            invariant
                k < v@.len(),
                pt == v@[k as int],
                pt.start_hour >= pt.end_hour || pt.end_hour <= 24,
                pt.start_hour <= hr,
                hr <= pt.end_hour || hr == pt.start_hour,
                hours@.len() == 24,
                forall|h: int|
                    0 <= h < 24 ==> hours@[h] == if pt.start_hour <= h < hr {
                        Some(pt.att)
                    } else {
                        hour_weight(v@.subrange(0, k as int), h)
                    },
            decreases pt.end_hour - hr,
        {
            hours[hr as usize] = Some(pt.att);
            hr = hr + 1;
        }
        proof {
            let next = v@.subrange(0, k + 1);
            assert(next.drop_last() =~= v@.subrange(0, k as int));
            assert forall|h: int| 0 <= h < 24 implies hours@[h] == hour_weight(next, h) by {
                if pt.start_hour < pt.end_hour {
                    assert(hr == pt.end_hour);
                }
            }
        }
        k = k + 1;
    }
    proof {
        assert(v@.subrange(0, k as int) =~= v@);
    }
    hours
}

fn fill_optional_hours<W: Copy>(pts: &Option<Vec<Attractivness<W>>>) -> (hours: [Option<W>; 24])
    requires
        within_day(*pts),
    ensures
        hours@ == hours_weights(*pts),
{
    let hours = match pts {
        Some(v) => fill_hours(v),
        None => [None; 24],
    };
    proof {
        assert(hours@ =~= hours_weights(*pts));
    }
    hours
}

impl<W: Copy> StationData<W> {
    /// The hourly weights of a station of the simulation input: each hour
    /// takes the weight of the last entry that covers it.
    pub fn from_simu_station(value: &SimuStation<W>) -> (data: StationData<W>)
        requires
            within_day(value.atract_e),
            within_day(value.atract_l),
        ensures
            data._id == value.staid,
            data.attractivness_e@ == hours_weights(value.atract_e),
            data.attractivness_l@ == hours_weights(value.atract_l),
    {
        let att_e = fill_optional_hours(&value.atract_e);
        let att_l = fill_optional_hours(&value.atract_l);
        StationData { _id: value.staid, attractivness_e: att_e, attractivness_l: att_l }
    }
}

} // verus!
