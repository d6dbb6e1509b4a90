use vstd::prelude::*;

use crate::gauge::{gauge_level, gauge_percent, level_of, percent_spec};
use crate::model::{clone_text, Checkin, Error, GaugeLevel, Organization, Place, PlaceInsert, PlaceUpdate};
use crate::ranking::{lemma_ranked, rank, ranked, RankKey};
use crate::store::{find_organization, find_place, has_org, lemma_org_of, org_of, Store};

verus! {

/// The place that `insert` stores: enabled, with nobody present yet.
pub open spec fn inserted(id: u128, now: i64, p: PlaceInsert) -> Place {
    Place {
        id,
        organization_id: p.organization_id,
        name: p.name,
        description: p.description,
        average_duration: p.average_duration,
        disabled: false,
        updated_at: now,
        created_at: now,
        maximum_gauge: p.maximum_gauge,
        address: p.address,
        location: p.location,
        maximum_duration: p.maximum_duration,
        current_gauge: 0,
        current_gauge_level: GaugeLevel::Empty,
        current_gauge_percent: percent_spec(0, p.maximum_gauge),
    }
}

/// `old` with every editable field taken from `u`, and its gauge level and percent
/// derived anew against the new capacity.
pub open spec fn updated(old: Place, u: PlaceUpdate, now: i64) -> Place {
    Place {
        name: u.name,
        description: u.description,
        average_duration: u.average_duration,
        maximum_gauge: u.maximum_gauge,
        address: u.address,
        location: u.location,
        maximum_duration: u.maximum_duration,
        updated_at: now,
        current_gauge_level: level_of(old.current_gauge as nat, u.maximum_gauge),
        current_gauge_percent: percent_spec(old.current_gauge as nat, u.maximum_gauge),
        ..old
    }
}

/// Position of the enabled place `id` owned by `organization_id`, if any.
pub open spec fn owned_index(places: Seq<Place>, id: u128, organization_id: u128, k: int) -> bool {
    0 <= k < places.len() && places[k].id == id && places[k].organization_id == organization_id
        && !places[k].disabled
}

pub open spec fn has_owned(places: Seq<Place>, id: u128, organization_id: u128) -> bool {
    exists|k: int| #[trigger] owned_index(places, id, organization_id, k)
}

fn find_owned(store: &Store, id: u128, organization_id: u128) -> (r: Option<usize>)
    requires
        store.wf(),
    ensures
        match r {
            Some(k) => owned_index(store.places@, id, organization_id, k as int),
            None => !has_owned(store.places@, id, organization_id),
        },
{
    match find_place(&store.places, id) {
        Some(k) => {
            if store.places[k].organization_id == organization_id && !store.places[k].disabled {
                Some(k)
            } else {
                assert forall|j: int| !owned_index(store.places@, id, organization_id, j) by {
                    if owned_index(store.places@, id, organization_id, j) {
                        assert(j == k);
                    }
                }
                None
            }
        },
        None => None,
    }
}

/// Registers an organization; `InvalidArgument` when its identifier is taken.
pub fn add_organization(store: &mut Store, organization: Organization) -> (r: Result<(), Error>)
    requires
        old(store).wf(),
    ensures
        final(store).wf(),
        final(store).places@ == old(store).places@,
        final(store).checkins@ == old(store).checkins@,
        r is Ok <==> !has_org(old(store).organizations@, organization.id),
        r is Ok ==> final(store).organizations@ == old(store).organizations@.push(organization),
        r is Err ==> r == Err::<(), Error>(Error::InvalidArgument) && final(store).organizations@
            == old(store).organizations@,
{
    match find_organization(&store.organizations, organization.id) {
        Some(_) => Err(Error::InvalidArgument),
        None => {
            let ghost before = store.organizations@;
            store.organizations.push(organization);
            assert forall|i: int| 0 <= i < store.places.len() implies has_org(
                store.organizations@,
                (#[trigger] store.places@[i]).organization_id,
            ) by {
                let id = store.places@[i].organization_id;
                assert(has_org(before, id));
                let k = choose|k: int| 0 <= k < before.len() && (#[trigger] before[k]).id == id;
                assert(store.organizations@[k] == before[k]);
            }
            Ok(())
        },
    }
}

/// Creates a place under identifier `id` at time `now`. `NotFound` when the owner is
/// unknown; `InvalidArgument` when the identifier is taken.
pub fn insert(store: &mut Store, id: u128, now: i64, place: &PlaceInsert) -> (r: Result<u128, Error>)
    requires
        old(store).wf(),
    ensures
        final(store).wf(),
        final(store).organizations@ == old(store).organizations@,
        final(store).checkins@ == old(store).checkins@,
        !has_org(old(store).organizations@, place.organization_id) ==> r == Err::<u128, Error>(
            Error::NotFound,
        ),
        has_org(old(store).organizations@, place.organization_id) && (exists|k: int|
            0 <= k < old(store).places.len() && (#[trigger] old(store).places@[k]).id == id)
            ==> r == Err::<u128, Error>(Error::InvalidArgument),
        r is Ok ==> r == Ok::<u128, Error>(id) && final(store).places@ == old(store).places@.push(
            inserted(id, now, *place),
        ),
        r is Err ==> final(store).places@ == old(store).places@,
        has_org(old(store).organizations@, place.organization_id) && (forall|k: int|
            0 <= k < old(store).places.len() ==> (#[trigger] old(store).places@[k]).id != id)
            ==> r is Ok,
{
    if find_organization(&store.organizations, place.organization_id).is_none() {
        return Err(Error::NotFound);
    }
    if find_place(&store.places, id).is_some() {
        return Err(Error::InvalidArgument);
    }
    let p = Place {
        id,
        organization_id: place.organization_id,
        name: place.name.clone(),
        description: clone_text(&place.description),
        average_duration: place.average_duration,
        disabled: false,
        updated_at: now,
        created_at: now,
        maximum_gauge: place.maximum_gauge,
        address: clone_text(&place.address),
        location: place.location,
        maximum_duration: place.maximum_duration,
        current_gauge: 0,
        current_gauge_level: GaugeLevel::Empty,
        current_gauge_percent: gauge_percent(0, place.maximum_gauge),
    };
    let ghost before = store.places@;
    store.places.push(p);
    assert forall|i: int, j: int|
        0 <= i < store.places.len() && 0 <= j < store.places.len() && i != j implies (
        #[trigger] store.places@[i]).id != (#[trigger] store.places@[j]).id by {
        if i < before.len() && j < before.len() {
            assert(store.places@[i] == before[i] && store.places@[j] == before[j]);
        } else if i < before.len() {
            assert(store.places@[i] == before[i]);
        } else {
            assert(store.places@[j] == before[j]);
        }
    }
    assert forall|i: int| 0 <= i < store.places.len() implies has_org(
        store.organizations@,
        (#[trigger] store.places@[i]).organization_id,
    ) by {
        if i < before.len() {
            assert(store.places@[i] == before[i]);
        }
    }
    Ok(id)
}

/// Writes the editable fields of the enabled place `id` owned by `organization_id`.
/// `NotFound` when there is no such place.
pub fn update(
    store: &mut Store,
    id: u128,
    organization_id: u128,
    now: i64,
    place: &PlaceUpdate,
) -> (r: Result<(), Error>)
    requires
        old(store).wf(),
    ensures
        final(store).wf(),
        final(store).organizations@ == old(store).organizations@,
        final(store).checkins@ == old(store).checkins@,
        r is Ok <==> has_owned(old(store).places@, id, organization_id),
        r is Err ==> r == Err::<(), Error>(Error::NotFound) && final(store).places@ == old(store).places@,
        forall|k: int|
            #[trigger] owned_index(old(store).places@, id, organization_id, k) ==> final(store).places@ == old(store).places@.update(k, updated(old(store).places@[k], *place, now)),
{
    match find_owned(store, id, organization_id) {
        Some(k) => {
            let ghost before = store.places@;
            let g = store.places[k].current_gauge;
            let p = Place {
                id: store.places[k].id,
                organization_id: store.places[k].organization_id,
                name: place.name.clone(),
                description: clone_text(&place.description),
                average_duration: place.average_duration,
                disabled: store.places[k].disabled,
                updated_at: now,
                created_at: store.places[k].created_at,
                maximum_gauge: place.maximum_gauge,
                address: clone_text(&place.address),
                location: place.location,
                maximum_duration: place.maximum_duration,
                current_gauge: g,
                current_gauge_level: gauge_level(g, place.maximum_gauge),
                current_gauge_percent: gauge_percent(g, place.maximum_gauge),
            };
            store.places[k] = p;
            assert(store.places@ == before.update(k as int, updated(before[k as int], *place, now)));
            assert forall|i: int| 0 <= i < store.places.len() implies (#[trigger] store.places@[i]).id
                == before[i].id && store.places@[i].organization_id == before[i].organization_id by {}
            assert forall|j: int| #[trigger] owned_index(before, id, organization_id, j) implies j
                == k by {}
            Ok(())
        },
        None => Err(Error::NotFound),
    }
}

/// Sets the `disabled` flag of the enabled place `id` owned by `organization_id`.
/// `NotFound` when there is no such place.
pub fn set_disabled(store: &mut Store, id: u128, organization_id: u128, disabled: bool) -> (r: Result<
    (),
    Error,
>)
    requires
        old(store).wf(),
    ensures
        final(store).wf(),
        final(store).organizations@ == old(store).organizations@,
        final(store).checkins@ == old(store).checkins@,
        r is Ok <==> has_owned(old(store).places@, id, organization_id),
        r is Err ==> r == Err::<(), Error>(Error::NotFound) && final(store).places@ == old(store).places@,
        forall|k: int|
            #[trigger] owned_index(old(store).places@, id, organization_id, k) ==> final(store).places@ == old(store).places@.update(k, Place { disabled, ..old(store).places@[k] }),
{
    match find_owned(store, id, organization_id) {
        Some(k) => {
            let ghost before = store.places@;
            store.places[k].disabled = disabled;
            assert(store.places@ =~= before.update(k as int, Place { disabled, ..before[k as int] }));
            assert forall|i: int| 0 <= i < store.places.len() implies (#[trigger] store.places@[i]).id
                == before[i].id && store.places@[i].organization_id == before[i].organization_id by {}
            assert forall|j: int| #[trigger] owned_index(before, id, organization_id, j) implies j
                == k by {}
            Ok(())
        },
        None => Err(Error::NotFound),
    }
}

/// Keys `(-created_at, id, position)` of the enabled places of `organization_id` among
/// the first `n`, in store order.
pub open spec fn listing_keys(places: Seq<Place>, organization_id: u128, n: nat) -> Seq<RankKey>
    decreases n,
{
    if n == 0 {
        Seq::empty()
    } else {
        let i = (n - 1) as int;
        listing_keys(places, organization_id, (n - 1) as nat) + if places[i].organization_id
            == organization_id && !places[i].disabled {
            seq![((-(places[i].created_at as i128)) as i128, places[i].id, i as usize)]
        } else {
            Seq::empty()
        }
    }
}

/// The enabled places of an organization, newest first, ties broken by identifier.
pub open spec fn listing_order(places: Seq<Place>, organization_id: u128) -> Seq<RankKey> {
    ranked(listing_keys(places, organization_id, places.len()))
}

proof fn lemma_listing_keys(places: Seq<Place>, organization_id: u128, n: nat)
    requires
        n <= places.len() <= usize::MAX,
    ensures
        forall|k: RankKey|
            #[trigger] listing_keys(places, organization_id, n).contains(k) ==> (0 <= k.2 < n
                && places[k.2 as int].organization_id == organization_id && !places[k.2 as int].disabled),
    decreases n,
{
    if n > 0 {
        let m = (n - 1) as nat;
        lemma_listing_keys(places, organization_id, m);
        let prev = listing_keys(places, organization_id, m);
        let s = listing_keys(places, organization_id, n);
        let i = m as int;
        let tail = if places[i].organization_id == organization_id && !places[i].disabled {
            seq![((-(places[i].created_at as i128)) as i128, places[i].id, i as usize)]
        } else {
            Seq::<RankKey>::empty()
        };
        assert(s == prev + tail);
        assert forall|k: RankKey| #[trigger] s.contains(k) implies (0 <= k.2 < n
            && places[k.2 as int].organization_id == organization_id && !places[k.2 as int].disabled) by {
            let j = choose|j: int| 0 <= j < s.len() && s[j] == k;
            if j < prev.len() {
                assert(prev[j] == k);
                assert(prev.contains(k));
            } else {
                assert(s[j] == tail[j - prev.len()]);
            }
        }
    }
}

/// The enabled places of `organization_id` with their organization, newest first.
pub fn get_all_with_organization(store: &Store, organization_id: u128) -> (r: Result<
    Vec<(Place, Organization)>,
    Error,
>)
    requires
        store.wf(),
    ensures
        match r {
            Ok(v) => {
                let order = listing_order(store.places@, organization_id);
                &&& v.len() == order.len()
                &&& forall|j: int|
                    0 <= j < v.len() ==> 0 <= (#[trigger] order[j]).2 < store.places.len() && v@[j].0
                        == store.places@[order[j].2 as int] && v@[j].1 == org_of(
                        store.organizations@,
                        organization_id,
                    )
            },
            Err(_) => false,
        },
{
    let ghost places = store.places@;
    let mut keys: Vec<RankKey> = Vec::new();
    let mut i: usize = 0;
    while i < store.places.len()
        invariant
            i <= store.places.len(),
            places == store.places@,
            keys@ == listing_keys(places, organization_id, i as nat),
        decreases store.places.len() - i,
    {
        let p = &store.places[i];
        if p.organization_id == organization_id && !p.disabled {
            keys.push((-(p.created_at as i128), p.id, i));
        }
        i = i + 1;
    }
    let order = rank(&keys);
    proof {
        lemma_listing_keys(places, organization_id, places.len());
        lemma_ranked(keys@);
    }
    let mut out: Vec<(Place, Organization)> = Vec::new();
    let mut j: usize = 0;
    while j < order.len()
        invariant
            j <= order.len(),
            order@ == listing_order(places, organization_id),
            store.wf(),
            places == store.places@,
            forall|k: RankKey|
                #[trigger] order@.contains(k) ==> (0 <= k.2 < places.len()
                    && places[k.2 as int].organization_id == organization_id),
            out.len() == j,
            forall|m: int|
                0 <= m < j ==> 0 <= (#[trigger] order@[m]).2 < places.len() && out@[m].0
                    == places[order@[m].2 as int] && out@[m].1 == org_of(
                    store.organizations@,
                    organization_id,
                ),
        decreases order.len() - j,
    {
        let k = order[j];
        assert(order@.contains(order@[j as int]));
        let place = store.places[k.2].duplicate();
        assert(has_org(store.organizations@, place.organization_id));
        match find_organization(&store.organizations, organization_id) {
            Some(o) => {
                proof {
                    lemma_org_of(store, o as int);
                }
                out.push((place, store.organizations[o].duplicate()));
            },
            None => {
                return Err(Error::NotFound);
            },
        }
        j = j + 1;
    }
    Ok(out)
}

} // verus!
