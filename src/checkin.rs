use vstd::prelude::*;

use crate::model::{Checkin, Error};
use crate::store::{find_place, has_enabled_place, Store};

verus! {

/// The length in minutes that a visit is recorded for: the requested duration, capped
/// by the place's maximum.
pub open spec fn capped_duration(duration: i64, maximum_duration: i64) -> i64 {
    if duration < maximum_duration {
        duration
    } else {
        maximum_duration
    }
}

/// End of a visit that starts at `start` (seconds) for `duration` minutes.
pub open spec fn visit_end(start: i64, duration: i64, maximum_duration: i64) -> int {
    start + 60 * capped_duration(duration, maximum_duration)
}

/// The visit cannot be recorded: nobody, an empty interval, or an end past the clock's range.
pub open spec fn visit_rejected(start: i64, duration: i64, maximum_duration: i64, number: u32) -> bool {
    number == 0 || capped_duration(duration, maximum_duration) <= 0 || visit_end(
        start,
        duration,
        maximum_duration,
    ) > i64::MAX
}

/// Records that `number` people arrived at the enabled place `place_id` at `start` for
/// `duration` minutes; the interval is `[start, start + 60 * min(duration, maximum_duration))`.
/// `NotFound` when the place is absent or disabled, `InvalidArgument` when the visit is
/// rejected, `ResourceUnavailable` when the store holds as many check-ins as it can.
pub fn create_checkin(
    store: &mut Store,
    id: u128,
    place_id: u128,
    session_id: u128,
    user_id: Option<u128>,
    start: i64,
    duration: i64,
    number: u32,
) -> (r: Result<(), Error>)
    requires
        old(store).wf(),
    ensures
        final(store).wf(),
        final(store).places@ == old(store).places@,
        final(store).organizations@ == old(store).organizations@,
        r is Err ==> final(store).checkins@ == old(store).checkins@,
        !has_enabled_place(old(store).places@, place_id) ==> r == Err::<(), Error>(Error::NotFound),
        forall|k: int|
            0 <= k < old(store).places.len() && (#[trigger] old(store).places@[k]).id == place_id
                && !old(store).places@[k].disabled ==> {
                let m = old(store).places@[k].maximum_duration;
                &&& visit_rejected(start, duration, m, number) ==> r == Err::<(), Error>(
                    Error::InvalidArgument,
                )
                &&& !visit_rejected(start, duration, m, number) && old(store).checkins.len()
                    == u32::MAX ==> r == Err::<(), Error>(Error::ResourceUnavailable)
                &&& !visit_rejected(start, duration, m, number) && old(store).checkins.len()
                    < u32::MAX ==> r is Ok && final(store).checkins@ == old(store).checkins@.push(
                    Checkin {
                        id,
                        place_id,
                        session_id,
                        user_id,
                        start_timestamp: start,
                        end_timestamp: visit_end(start, duration, m) as i64,
                        duration: capped_duration(duration, m),
                        number,
                        potential_infection: false,
                        confirmed: false,
                    },
                )
            },
{
    let k = match find_place(&store.places, place_id) {
        Some(k) => k,
        None => {
            return Err(Error::NotFound);
        },
    };
    if store.places[k].disabled {
        return Err(Error::NotFound);
    }
    let m = store.places[k].maximum_duration;
    let capped: i64 = if duration < m {
        duration
    } else {
        m
    };
    let end: i128 = (start as i128) + 60 * (capped as i128);
    if number == 0 || capped <= 0 || end > i64::MAX as i128 {
        return Err(Error::InvalidArgument);
    }
    if store.checkins.len() >= u32::MAX as usize {
        return Err(Error::ResourceUnavailable);
    }
    let c = Checkin {
        id,
        place_id,
        session_id,
        user_id,
        start_timestamp: start,
        end_timestamp: end as i64,
        duration: capped,
        number,
        potential_infection: false,
        confirmed: false,
    };
    let ghost before = store.checkins@;
    store.checkins.push(c);
    assert forall|i: int| 0 <= i < store.checkins.len() implies (#[trigger] store.checkins@[i]).start_timestamp
        < store.checkins@[i].end_timestamp && store.checkins@[i].number >= 1 by {
        if i < before.len() {
            assert(store.checkins@[i] == before[i]);
        }
    }
    Ok(())
}

} // verus!
