use vstd::prelude::*;

use crate::model::{Checkin, GaugeLevel, Place};

verus! {

/// The check-in counts toward the occupancy of `place_id` at instant `at`.
pub open spec fn is_active(c: Checkin, place_id: u128, at: i64) -> bool {
    c.place_id == place_id && c.start_timestamp <= at && at < c.end_timestamp
}

/// Sum of `number` over the check-ins of `place_id` whose `[start, end)` contains `at`.
pub open spec fn active_count(cs: Seq<Checkin>, place_id: u128, at: i64) -> nat
    decreases cs.len(),
{
    if cs.len() == 0 {
        0
    } else {
        active_count(cs.drop_last(), place_id, at) + if is_active(cs.last(), place_id, at) {
            cs.last().number as nat
        } else {
            0nat
        }
    }
}

/// Share of the capacity in use, rounded half up and capped at one hundred.
pub open spec fn percent_of(gauge: nat, maximum: nat) -> nat
    recommends
        maximum > 0,
{
    let r = (200 * gauge + maximum) / (2 * maximum);
    if r > 100 {
        100
    } else {
        r
    }
}

/// The percentage, defined exactly when a positive capacity is known.
pub open spec fn percent_spec(gauge: nat, maximum: Option<u64>) -> Option<u64> {
    match maximum {
        Some(m) => if m > 0 {
            Some(percent_of(gauge, m as nat) as u64)
        } else {
            None
        },
        None => None,
    }
}

/// Level thresholds: nobody is `Empty`; at or over capacity is `Full`; under half is
/// `Low`; under three quarters is `Medium`; the rest is `High`.
pub open spec fn level_of(gauge: nat, maximum: Option<u64>) -> GaugeLevel {
    if gauge == 0 {
        GaugeLevel::Empty
    } else {
        match maximum {
            Some(m) => if m == 0 {
                GaugeLevel::Unknown
            } else if gauge >= m {
                GaugeLevel::Full
            } else if 2 * gauge < m {
                GaugeLevel::Low
            } else if 4 * gauge < 3 * m {
                GaugeLevel::Medium
            } else {
                GaugeLevel::High
            },
            None => GaugeLevel::Unknown,
        }
    }
}

/// `p` with its gauge fields recomputed from the check-ins as of `now`.
pub open spec fn refreshed(p: Place, cs: Seq<Checkin>, now: i64) -> Place {
    let g = active_count(cs, p.id, now);
    Place {
        current_gauge: g as u64,
        current_gauge_level: level_of(g, p.maximum_gauge),
        current_gauge_percent: percent_spec(g, p.maximum_gauge),
        ..p
    }
}

pub fn gauge_percent(current_gauge: u64, maximum_gauge: Option<u64>) -> (r: Option<u64>)
    ensures
        r == percent_spec(current_gauge as nat, maximum_gauge),
{
    match maximum_gauge {
        Some(m) => {
            if m > 0 {
                let r: u128 = (200 * (current_gauge as u128) + (m as u128)) / (2 * (m as u128));
                if r > 100 {
                    Some(100)
                } else {
                    Some(r as u64)
                }
            } else {
                None
            }
        },
        None => None,
    }
}

pub fn gauge_level(current_gauge: u64, maximum_gauge: Option<u64>) -> (r: GaugeLevel)
    ensures
        r == level_of(current_gauge as nat, maximum_gauge),
{
    if current_gauge == 0 {
        GaugeLevel::Empty
    } else {
        match maximum_gauge {
            Some(m) => {
                let g = current_gauge as u128;
                let m = m as u128;
                if m == 0 {
                    GaugeLevel::Unknown
                } else if g >= m {
                    GaugeLevel::Full
                } else if 2 * g < m {
                    GaugeLevel::Low
                } else if 4 * g < 3 * m {
                    GaugeLevel::Medium
                } else {
                    GaugeLevel::High
                }
            },
            None => GaugeLevel::Unknown,
        }
    }
}

/// The occupancy of `place_id` at `at`: the sum of `number` over its active check-ins.
pub fn occupancy(checkins: &Vec<Checkin>, place_id: u128, at: i64) -> (r: u64)
    requires
        checkins.len() <= u32::MAX,
    ensures
        r as nat == active_count(checkins@, place_id, at),
        r <= checkins.len() * u32::MAX,
{
    let mut total: u64 = 0;
    let mut i: usize = 0;
    while i < checkins.len()
        invariant
            i <= checkins.len() <= u32::MAX,
            total as nat == active_count(checkins@.take(i as int), place_id, at),
            total <= i * u32::MAX,
        decreases checkins.len() - i,
    {
        let c = &checkins[i];
        proof {
            let s = checkins@.take(i + 1);
            assert(s.drop_last() =~= checkins@.take(i as int));
            assert(s.last() == checkins@[i as int]);
            assert(total + u32::MAX <= (i + 1) * u32::MAX <= u32::MAX * u32::MAX) by (nonlinear_arith)
                requires
                    total <= i * u32::MAX,
                    i + 1 <= u32::MAX,
            ;
        }
        if c.place_id == place_id && c.start_timestamp <= at && at < c.end_timestamp {
            total = total + c.number as u64;
        }
        i = i + 1;
    }
    assert(checkins@.take(checkins.len() as int) =~= checkins@);
    total
}


/// A place has no occupancy at an instant before every check-in starts, or at or
/// after every check-in ends.
pub proof fn lemma_occupancy_outside_intervals(cs: Seq<Checkin>, place_id: u128, at: i64)
    requires
        (forall|i: int| 0 <= i < cs.len() ==> at < (#[trigger] cs[i]).start_timestamp) || (forall|
            i: int,
        | 0 <= i < cs.len() ==> (#[trigger] cs[i]).end_timestamp <= at),
    ensures
        active_count(cs, place_id, at) == 0,
    decreases cs.len(),
{
    if cs.len() > 0 {
        let t = cs.drop_last();
        assert(cs.last() == cs[cs.len() - 1]);
        assert forall|i: int| 0 <= i < t.len() implies #[trigger] t[i] == cs[i] by {}
        lemma_occupancy_outside_intervals(t, place_id, at);
    }
}

/// The percentage exists exactly when a positive capacity is set, and then lies in
/// `[0, 100]`, however far the occupancy exceeds the capacity.
pub proof fn lemma_percent_bounds(gauge: nat, maximum: Option<u64>)
    ensures
        percent_spec(gauge, maximum) is Some <==> (maximum is Some && maximum->0 > 0),
        percent_spec(gauge, maximum) is Some ==> 0 <= percent_spec(gauge, maximum)->0 <= 100,
        percent_spec(gauge, maximum) is Some && gauge >= maximum->0 ==> percent_spec(
            gauge,
            maximum,
        )->0 == 100,
{
    if let Some(m) = maximum {
        if m > 0 && gauge >= m {
            let mm = m as int;
            let g = gauge as int;
            assert((200 * g + mm) / (2 * mm) >= 100) by (nonlinear_arith)
                requires
                    g >= mm,
                    mm > 0,
            ;
        }
    }
}

} // verus!
