use core::cmp::Ordering;
use vstd::prelude::*;
use vstd::std_specs::cmp::PartialOrdSpecImpl;

use crate::dane_out::{Date, Time};

verus! {

/// The order of two dates, by year, then month, then day.
pub open spec fn date_order(a: Date, b: Date) -> Ordering {
    if a.is_before(b) {
        Ordering::Less
    } else if a == b {
        Ordering::Equal
    } else {
        Ordering::Greater
    }
}

/// The order of two times of day, by hour, then minute.
pub open spec fn time_order(a: Time, b: Time) -> Ordering {
    if a.is_before(b) {
        Ordering::Less
    } else if a == b {
        Ordering::Equal
    } else {
        Ordering::Greater
    }
}

impl PartialOrd for Date {
    fn partial_cmp(&self, other: &Date) -> (r: Option<Ordering>) {
        if self.year > other.year {
            return Some(Ordering::Greater);
        }
        if self.year < other.year {
            return Some(Ordering::Less);
        }
        if self.month > other.month {
            return Some(Ordering::Greater);
        }
        if self.month < other.month {
            return Some(Ordering::Less);
        }
        if self.day > other.day {
            Some(Ordering::Greater)
        } else if self.day < other.day {
            Some(Ordering::Less)
        } else {
            Some(Ordering::Equal)
        }
    }
}

impl PartialOrdSpecImpl for Date {
    open spec fn obeys_partial_cmp_spec() -> bool {
        true
    }

    open spec fn partial_cmp_spec(&self, other: &Date) -> Option<Ordering> {
        Some(date_order(*self, *other))
    }
}

impl PartialOrd for Time {
    fn partial_cmp(&self, other: &Time) -> (r: Option<Ordering>) {
        if self.hour > other.hour {
            Some(Ordering::Greater)
        } else if self.hour == other.hour {
            if self.minute > other.minute {
                Some(Ordering::Greater)
            } else if self.minute == other.minute {
                Some(Ordering::Equal)
            } else {
                Some(Ordering::Less)
            }
        } else {
            Some(Ordering::Less)
        }
    }
}

impl PartialOrdSpecImpl for Time {
    open spec fn obeys_partial_cmp_spec() -> bool {
        true
    }

    open spec fn partial_cmp_spec(&self, other: &Time) -> Option<Ordering> {
        Some(time_order(*self, *other))
    }
}

} // verus!
