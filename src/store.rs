use vstd::prelude::*;

use crate::gauge::{gauge_level, gauge_percent, lemma_percent_bounds, occupancy, percent_spec, refreshed};
use crate::model::{Checkin, Error, Organization, Place};

verus! {

/// The places, organizations and check-ins that the core reads and writes.
pub struct Store {
    pub places: Vec<Place>,
    pub organizations: Vec<Organization>,
    pub checkins: Vec<Checkin>,
}

pub open spec fn has_org(orgs: Seq<Organization>, id: u128) -> bool {
    exists|k: int| 0 <= k < orgs.len() && (#[trigger] orgs[k]).id == id
}

/// The organization with identifier `id`.
pub open spec fn org_of(orgs: Seq<Organization>, id: u128) -> Organization
    recommends
        has_org(orgs, id),
{
    orgs[choose|k: int| 0 <= k < orgs.len() && (#[trigger] orgs[k]).id == id]
}

/// Some enabled place has identifier `id`.
pub open spec fn has_enabled_place(places: Seq<Place>, id: u128) -> bool {
    exists|k: int| 0 <= k < places.len() && (#[trigger] places[k]).id == id && !places[k].disabled
}

/// Some enabled place with identifier `id` belongs to `organization_id`.
pub open spec fn owns_enabled_place(places: Seq<Place>, organization_id: u128, id: u128) -> bool {
    exists|k: int|
        0 <= k < places.len() && (#[trigger] places[k]).id == id && places[k].organization_id
            == organization_id && !places[k].disabled
}

/// Every place of `places` with its gauge fields recomputed as of `now`.
pub open spec fn refresh_all(places: Seq<Place>, cs: Seq<Checkin>, now: i64) -> Seq<Place> {
    places.map_values(|p: Place| refreshed(p, cs, now))
}

impl Store {
    /// Identifiers are unique, every place has its organization and a gauge percentage
    /// derived from its gauge and capacity, every check-in
    /// interval is non-empty and counts at least one person, and the check-ins are
    /// few enough for any sum of their counts to fit in 64 bits.
    pub open spec fn wf(&self) -> bool {
        &&& forall|i: int, j: int|
            0 <= i < self.places.len() && 0 <= j < self.places.len() && i != j
                ==> (#[trigger] self.places@[i]).id != (#[trigger] self.places@[j]).id
        &&& forall|i: int, j: int|
            0 <= i < self.organizations.len() && 0 <= j < self.organizations.len() && i != j
                ==> (#[trigger] self.organizations@[i]).id != (#[trigger] self.organizations@[j]).id
        &&& forall|i: int|
            0 <= i < self.places.len() ==> has_org(
                self.organizations@,
                (#[trigger] self.places@[i]).organization_id,
            )
        &&& forall|i: int|
            0 <= i < self.places.len() ==> (#[trigger] self.places@[i]).current_gauge_percent
                == percent_spec(self.places@[i].current_gauge as nat, self.places@[i].maximum_gauge)
        &&& self.checkins.len() <= u32::MAX
        &&& forall|i: int|
            0 <= i < self.checkins.len() ==> (#[trigger] self.checkins@[i]).start_timestamp
                < self.checkins@[i].end_timestamp && self.checkins@[i].number >= 1
    }

    pub fn new() -> (r: Store)
        ensures
            r.wf(),
            r.places@ == Seq::<Place>::empty(),
            r.organizations@ == Seq::<Organization>::empty(),
            r.checkins@ == Seq::<Checkin>::empty(),
    {
        Store { places: Vec::new(), organizations: Vec::new(), checkins: Vec::new() }
    }
}

/// Position of the place with identifier `id`, if any.
pub fn find_place(places: &Vec<Place>, id: u128) -> (r: Option<usize>)
    ensures
        match r {
            Some(k) => k < places.len() && places@[k as int].id == id,
            None => forall|k: int| 0 <= k < places.len() ==> (#[trigger] places@[k]).id != id,
        },
{
    let mut i: usize = 0;
    while i < places.len()
        invariant
            i <= places.len(),
            forall|k: int| 0 <= k < i ==> (#[trigger] places@[k]).id != id,
        decreases places.len() - i,
    {
        if places[i].id == id {
            return Some(i);
        }
        i = i + 1;
    }
    None
}

/// Position of the organization with identifier `id`, if any.
pub fn find_organization(organizations: &Vec<Organization>, id: u128) -> (r: Option<usize>)
    ensures
        match r {
            Some(k) => k < organizations.len() && organizations@[k as int].id == id,
            None => !has_org(organizations@, id),
        },
{
    let mut i: usize = 0;
    while i < organizations.len()
        invariant
            i <= organizations.len(),
            forall|k: int| 0 <= k < i ==> (#[trigger] organizations@[k]).id != id,
        decreases organizations.len() - i,
    {
        if organizations[i].id == id {
            return Some(i);
        }
        i = i + 1;
    }
    None
}

/// In a well-formed store, the organization found by identifier is `org_of` it.
pub proof fn lemma_org_of(store: &Store, k: int)
    requires
        store.wf(),
        0 <= k < store.organizations.len(),
    ensures
        org_of(store.organizations@, store.organizations@[k].id) == store.organizations@[k],
{
    let orgs = store.organizations@;
    assert(has_org(orgs, orgs[k].id));
}

/// Position of the enabled place with identifier `id`, if any.
fn find_enabled_place(store: &Store, id: u128) -> (r: Option<usize>)
    requires
        store.wf(),
    ensures
        match r {
            Some(k) => k < store.places.len() && store.places@[k as int].id == id
                && !store.places@[k as int].disabled,
            None => !has_enabled_place(store.places@, id),
        },
{
    match find_place(&store.places, id) {
        Some(k) => {
            if store.places[k].disabled {
                None
            } else {
                Some(k)
            }
        },
        None => None,
    }
}

/// The enabled place with identifier `id`.
pub fn get(store: &Store, id: u128) -> (r: Result<Place, Error>)
    requires
        store.wf(),
    ensures
        match r {
            Ok(p) => exists|k: int|
                0 <= k < store.places.len() && p == (#[trigger] store.places@[k]) && p.id == id
                    && !p.disabled,
            Err(e) => e == Error::NotFound && !has_enabled_place(store.places@, id),
        },
{
    match find_enabled_place(store, id) {
        Some(k) => Ok(store.places[k].duplicate()),
        None => Err(Error::NotFound),
    }
}

/// The enabled place with identifier `id`, with its organization.
pub fn get_with_organization(store: &Store, id: u128) -> (r: Result<(Place, Organization), Error>)
    requires
        store.wf(),
    ensures
        match r {
            Ok((p, o)) => (exists|k: int|
                0 <= k < store.places.len() && p == (#[trigger] store.places@[k]) && p.id == id
                    && !p.disabled) && o == org_of(store.organizations@, p.organization_id),
            Err(e) => e == Error::NotFound && !has_enabled_place(store.places@, id),
        },
{
    match find_enabled_place(store, id) {
        Some(k) => {
            let p = store.places[k].duplicate();
            assert(has_org(store.organizations@, p.organization_id));
            match find_organization(&store.organizations, p.organization_id) {
                Some(j) => {
                    proof {
                        lemma_org_of(store, j as int);
                    }
                    Ok((p, store.organizations[j].duplicate()))
                },
                None => Err(Error::NotFound),
            }
        },
        None => Err(Error::NotFound),
    }
}

/// Succeeds exactly when every identifier names an enabled place owned by
/// `organization_id`; otherwise `NotFound`, without saying which one failed.
pub fn validate_places_owned(store: &Store, organization_id: u128, places_ids: &Vec<u128>) -> (r:
    Result<(), Error>)
    requires
        store.wf(),
    ensures
        r is Ok <==> forall|i: int|
            0 <= i < places_ids.len() ==> owns_enabled_place(
                store.places@,
                organization_id,
                #[trigger] places_ids@[i],
            ),
        r is Err ==> r == Err::<(), Error>(Error::NotFound),
{
    let mut i: usize = 0;
    while i < places_ids.len()
        invariant
            i <= places_ids.len(),
            store.wf(),
            forall|k: int|
                0 <= k < i ==> owns_enabled_place(
                    store.places@,
                    organization_id,
                    #[trigger] places_ids@[k],
                ),
        decreases places_ids.len() - i,
    {
        let id = places_ids[i];
        match find_enabled_place(store, id) {
            Some(k) => {
                if store.places[k].organization_id != organization_id {
                    assert(!owns_enabled_place(store.places@, organization_id, id));
                    return Err(Error::NotFound);
                }
            },
            None => {
                return Err(Error::NotFound);
            },
        }
        i = i + 1;
    }
    Ok(())
}

/// Recomputes the gauge fields of every place as of `now`, in one pass over the
/// store, and returns the number of places written.
pub fn refresh_all_gauges(store: &mut Store, now: i64) -> (r: usize)
    requires
        old(store).wf(),
    ensures
        final(store).wf(),
        final(store).places@ == refresh_all(old(store).places@, old(store).checkins@, now),
        final(store).organizations@ == old(store).organizations@,
        final(store).checkins@ == old(store).checkins@,
        r == old(store).places.len(),
{
    let ghost before = store.places@;
    let mut i: usize = 0;
    while i < store.places.len()
        invariant
            i <= store.places.len() == before.len(),
            store.wf(),
            store.organizations@ == old(store).organizations@,
            store.checkins@ == old(store).checkins@,
            before == old(store).places@,
            forall|k: int|
                0 <= k < i ==> store.places@[k] == refreshed(before[k], store.checkins@, now),
            forall|k: int| i <= k < before.len() ==> store.places@[k] == before[k],
        decreases before.len() - i,
    {
        let g = occupancy(&store.checkins, store.places[i].id, now);
        let level = gauge_level(g, store.places[i].maximum_gauge);
        let percent = gauge_percent(g, store.places[i].maximum_gauge);
        store.places[i].current_gauge = g;
        store.places[i].current_gauge_level = level;
        store.places[i].current_gauge_percent = percent;
        assert(store.places@[i as int] == refreshed(before[i as int], store.checkins@, now));
        i = i + 1;
    }
    assert(store.places@ =~= refresh_all(before, store.checkins@, now));
    store.places.len()
}


/// In a well-formed store every place has a gauge percentage exactly when it has a
/// positive capacity, and that percentage lies in `[0, 100]`.
pub proof fn lemma_stored_percent_bounds(store: &Store)
    requires
        store.wf(),
    ensures
        forall|i: int|
            0 <= i < store.places.len() ==> {
                let p = #[trigger] store.places@[i];
                &&& p.current_gauge_percent is Some <==> (p.maximum_gauge is Some
                    && p.maximum_gauge->0 > 0)
                &&& p.current_gauge_percent is Some ==> p.current_gauge_percent->0 <= 100
            },
{
    assert forall|i: int| 0 <= i < store.places.len() implies {
        let p = #[trigger] store.places@[i];
        &&& p.current_gauge_percent is Some <==> (p.maximum_gauge is Some && p.maximum_gauge->0 > 0)
        &&& p.current_gauge_percent is Some ==> p.current_gauge_percent->0 <= 100
    } by {
        let p = store.places@[i];
        lemma_percent_bounds(p.current_gauge as nat, p.maximum_gauge);
    }
}

/// Refreshing twice with the same check-ins and the same instant leaves the places as
/// one refresh left them.
pub proof fn lemma_refresh_idempotent(places: Seq<Place>, cs: Seq<Checkin>, now: i64)
    ensures
        refresh_all(refresh_all(places, cs, now), cs, now) == refresh_all(places, cs, now),
{
    let once = refresh_all(places, cs, now);
    let twice = refresh_all(once, cs, now);
    assert forall|i: int| 0 <= i < places.len() implies #[trigger] twice[i] == once[i] by {
        assert(once[i] == refreshed(places[i], cs, now));
    }
    assert(twice =~= once);
}

} // verus!
