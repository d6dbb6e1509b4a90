use vstd::prelude::*;

use crate::model::{Error, Organization, OrganizationSummary, Pagination, PaginationQuery, Place, PlaceSearchResult};
use crate::ranking::{is_ascending, key_le, lemma_ranked, rank, ranked, RankKey};
use crate::store::{find_organization, has_org, lemma_org_of, org_of, Store};

verus! {

/// The place may be returned by a search of radius `radius` when it lies `distance` meters away.
pub open spec fn searchable(p: Place, distance: u64, radius: i64) -> bool {
    !p.disabled && p.location is Some && distance <= radius
}

/// Keys `(distance, id, position)` of the searchable places among the first `n`, in store order.
pub open spec fn search_keys(places: Seq<Place>, distances: Seq<u64>, radius: i64, n: nat) -> Seq<
    RankKey,
>
    decreases n,
{
    if n == 0 {
        Seq::empty()
    } else {
        let i = (n - 1) as int;
        search_keys(places, distances, radius, (n - 1) as nat) + if searchable(
            places[i],
            distances[i],
            radius,
        ) {
            seq![(distances[i] as i128, places[i].id, i as usize)]
        } else {
            Seq::empty()
        }
    }
}

/// Every searchable place, nearest first, ties broken by identifier.
pub open spec fn search_order(places: Seq<Place>, distances: Seq<u64>, radius: i64) -> Seq<RankKey> {
    ranked(search_keys(places, distances, radius, places.len()))
}

/// First position of page `page` (numbered from one) of `limit` entries.
pub open spec fn page_start(page: u64, limit: u64) -> int {
    (page - 1) * limit
}

/// The entries of `s` on page `page` of `limit` entries.
pub open spec fn page_window(s: Seq<RankKey>, page: u64, limit: u64) -> Seq<RankKey> {
    let from = page_start(page, limit);
    let to = from + limit;
    if from >= s.len() {
        Seq::empty()
    } else if to >= s.len() {
        s.subrange(from, s.len() as int)
    } else {
        s.subrange(from, to)
    }
}

/// Entries remain after page `page`.
pub open spec fn has_next_page(s: Seq<RankKey>, page: u64, limit: u64) -> bool {
    s.len() > page * limit
}

pub open spec fn summary_of(o: Organization) -> OrganizationSummary {
    OrganizationSummary { id: o.id, name: o.name }
}

/// `r` is the search row for the place at position `k.2`.
pub open spec fn result_matches(
    r: PlaceSearchResult,
    k: RankKey,
    places: Seq<Place>,
    orgs: Seq<Organization>,
    distances: Seq<u64>,
) -> bool {
    &&& 0 <= k.2 < places.len()
    &&& r.place == places[k.2 as int]
    &&& r.distance_meters == distances[k.2 as int]
    &&& r.organization == summary_of(org_of(orgs, places[k.2 as int].organization_id))
}

proof fn lemma_search_keys(places: Seq<Place>, distances: Seq<u64>, radius: i64, n: nat)
    requires
        n <= places.len() <= usize::MAX,
        places.len() == distances.len(),
    ensures
        forall|k: RankKey|
            #[trigger] search_keys(places, distances, radius, n).contains(k) ==> (0 <= k.2 < n && k
                == (distances[k.2 as int] as i128, places[k.2 as int].id, k.2) && searchable(
                places[k.2 as int],
                distances[k.2 as int],
                radius,
            )),
        search_keys(places, distances, radius, n).no_duplicates(),
    decreases n,
{
    if n > 0 {
        let m = (n - 1) as nat;
        lemma_search_keys(places, distances, radius, m);
        let prev = search_keys(places, distances, radius, m);
        let s = search_keys(places, distances, radius, n);
        let i = m as int;
        let tail = if searchable(places[i], distances[i], radius) {
            seq![(distances[i] as i128, places[i].id, i as usize)]
        } else {
            Seq::<RankKey>::empty()
        };
        assert(s == prev + tail);
        assert(forall|j: int| prev.len() <= j < s.len() ==> s[j] == tail[j - prev.len()]);
        assert forall|k: RankKey| #[trigger] s.contains(k) implies (0 <= k.2 < n && k == (
            distances[k.2 as int] as i128,
            places[k.2 as int].id,
            k.2,
        ) && searchable(places[k.2 as int], distances[k.2 as int], radius)) by {
            let j = choose|j: int| 0 <= j < s.len() && s[j] == k;
            if j < prev.len() {
                assert(prev[j] == k);
                assert(prev.contains(k));
            }
        }
        assert forall|i: int, j: int| 0 <= i < s.len() && 0 <= j < s.len() && i != j implies s[i]
            != s[j] by {
            if i < prev.len() && j < prev.len() {
                assert(s[i] == prev[i] && s[j] == prev[j]);
            } else if i >= prev.len() && j >= prev.len() {
                assert(tail.len() <= 1);
            } else if i < prev.len() {
                assert(s[i] == prev[i]);
                assert(prev.contains(prev[i]));
                assert(s[j] == tail[0]);
            } else {
                assert(s[j] == prev[j]);
                assert(prev.contains(prev[j]));
                assert(s[i] == tail[0]);
            }
        }
    }
}

/// A search never returns a disabled place or a place without a location, nor one
/// beyond the radius.
pub proof fn lemma_search_only_enabled_located(
    places: Seq<Place>,
    distances: Seq<u64>,
    radius: i64,
    page: u64,
    limit: u64,
)
    requires
        places.len() == distances.len(),
        places.len() <= usize::MAX,
        page >= 1,
    ensures
        forall|j: int|
            0 <= j < page_window(search_order(places, distances, radius), page, limit).len() ==> {
                let k = #[trigger] page_window(search_order(places, distances, radius), page, limit)[j];
                &&& 0 <= k.2 < places.len()
                &&& !places[k.2 as int].disabled
                &&& places[k.2 as int].location is Some
                &&& distances[k.2 as int] <= radius
            },
{
    let keys = search_keys(places, distances, radius, places.len());
    lemma_search_keys(places, distances, radius, places.len());
    lemma_ranked(keys);
    let s = search_order(places, distances, radius);
    let w = page_window(s, page, limit);
    assert forall|j: int| 0 <= j < w.len() implies ({
        let k = #[trigger] w[j];
        &&& 0 <= k.2 < places.len()
        &&& !places[k.2 as int].disabled
        &&& places[k.2 as int].location is Some
        &&& distances[k.2 as int] <= radius
    }) by {
        let off = page_start(page, limit);
        assert(w[j] == s[off + j]);
        assert(s.contains(s[off + j]));
        assert(keys.contains(w[j]));
    }
}

/// Search results come in non-decreasing distance.
pub proof fn lemma_search_ascending_distance(
    places: Seq<Place>,
    distances: Seq<u64>,
    radius: i64,
    page: u64,
    limit: u64,
)
    requires
        places.len() == distances.len(),
        places.len() <= usize::MAX,
        page >= 1,
    ensures
        forall|i: int, j: int|
            0 <= i < j < page_window(search_order(places, distances, radius), page, limit).len()
                ==> distances[page_window(search_order(places, distances, radius), page, limit)[i].2 as int]
                <= distances[page_window(search_order(places, distances, radius), page, limit)[j].2 as int],
{
    let keys = search_keys(places, distances, radius, places.len());
    lemma_search_keys(places, distances, radius, places.len());
    lemma_ranked(keys);
    let s = search_order(places, distances, radius);
    let w = page_window(s, page, limit);
    assert forall|i: int, j: int| 0 <= i < j < w.len() implies distances[w[i].2 as int]
        <= distances[w[j].2 as int] by {
        let off = page_start(page, limit);
        assert(w[i] == s[off + i] && w[j] == s[off + j]);
        assert(key_le(s[off + i], s[off + j]));
        assert(s.contains(s[off + i]) && s.contains(s[off + j]));
        assert(keys.contains(w[i]) && keys.contains(w[j]));
    }
}

/// Pages `page` and `page + 1` share no entry, together they are the next two
/// pages' worth of the full order, and there is a next page exactly when the
/// order goes on past `page`.
pub proof fn lemma_consecutive_pages(s: Seq<RankKey>, page: u64, limit: u64)
    requires
        s.no_duplicates(),
        page >= 1,
        page < u64::MAX,
        limit >= 1,
    ensures
        forall|i: int, j: int|
            0 <= i < page_window(s, page, limit).len() && 0 <= j < page_window(
                s,
                (page + 1) as u64,
                limit,
            ).len() ==> #[trigger] page_window(s, page, limit)[i] != #[trigger] page_window(s, (page + 1) as u64, limit)[j],
        page_window(s, page, limit) + page_window(s, (page + 1) as u64, limit) == page_window_span(
            s,
            page_start(page, limit),
            page_start(page, limit) + 2 * limit,
        ),
        has_next_page(s, page, limit) <==> page_window(s, (page + 1) as u64, limit).len() > 0,
{
    let a = page_window(s, page, limit);
    let b = page_window(s, (page + 1) as u64, limit);
    let off = page_start(page, limit);
    assert(page_start((page + 1) as u64, limit) == off + limit) by (nonlinear_arith)
        requires
            off == (page - 1) * limit,
            page_start((page + 1) as u64, limit) == ((page + 1) as u64 - 1) * limit,
            page >= 1,
            page < u64::MAX,
    ;
    assert(page * limit == off + limit) by (nonlinear_arith)
        requires
            off == (page - 1) * limit,
    ;
    assert(off >= 0) by (nonlinear_arith)
        requires
            off == (page - 1) * limit,
            page >= 1,
    ;
    assert forall|i: int, j: int| 0 <= i < a.len() && 0 <= j < b.len() implies a[i] != b[j] by {
        assert(a[i] == s[off + i]);
        assert(b[j] == s[off + limit + j]);
    }
    assert(a + b =~= page_window_span(s, off, off + 2 * limit));
}

/// The entries of `s` at positions `from` (inclusive) to `to` (exclusive), cut to its length.
pub open spec fn page_window_span(s: Seq<RankKey>, from: int, to: int) -> Seq<RankKey> {
    if from >= s.len() {
        Seq::empty()
    } else if to >= s.len() {
        s.subrange(from, s.len() as int)
    } else {
        s.subrange(from, to)
    }
}

/// Pages one to `n`, one after another.
pub open spec fn first_pages(s: Seq<RankKey>, n: u64, limit: u64) -> Seq<RankKey>
    decreases n,
{
    if n == 0 {
        Seq::empty()
    } else {
        first_pages(s, (n - 1) as u64, limit) + page_window(s, n, limit)
    }
}

/// Reading pages one to `n` in turn yields the first `n * limit` entries of the order,
/// and so, up to the last page, the whole order.
pub proof fn lemma_pages_cover(s: Seq<RankKey>, n: u64, limit: u64)
    requires
        limit >= 1,
    ensures
        first_pages(s, n, limit) == page_window_span(s, 0, n * limit),
        n * limit >= s.len() ==> first_pages(s, n, limit) == s,
    decreases n,
{
    if n > 0 {
        let m = (n - 1) as u64;
        lemma_pages_cover(s, m, limit);
        assert(page_start(n, limit) == m * limit) by (nonlinear_arith)
            requires
                m == n - 1,
                page_start(n, limit) == (n - 1) * limit,
        ;
        assert(n * limit == m * limit + limit) by (nonlinear_arith)
            requires
                m == n - 1,
        ;
        assert(m * limit >= 0) by (nonlinear_arith)
            requires
                limit >= 1,
        ;
        assert(first_pages(s, n, limit) =~= page_window_span(s, 0, n * limit));
    } else {
        assert(first_pages(s, n, limit) =~= page_window_span(s, 0, 0));
    }
    if n * limit >= s.len() {
        assert(page_window_span(s, 0, n * limit) =~= s);
    }
}

/// Consecutive pages of a search share no place, and together they cover the order.
pub proof fn lemma_search_pagination(
    places: Seq<Place>,
    distances: Seq<u64>,
    radius: i64,
    page: u64,
    limit: u64,
)
    requires
        places.len() == distances.len(),
        places.len() <= usize::MAX,
        page >= 1,
        page < u64::MAX,
        limit >= 1,
    ensures
        ({
            let s = search_order(places, distances, radius);
            &&& forall|i: int, j: int|
                0 <= i < page_window(s, page, limit).len() && 0 <= j < page_window(
                    s,
                    (page + 1) as u64,
                    limit,
                ).len() ==> #[trigger] page_window(s, page, limit)[i] != #[trigger] page_window(
                    s,
                    (page + 1) as u64,
                    limit,
                )[j]
            &&& page_window(s, page, limit) + page_window(s, (page + 1) as u64, limit)
                == page_window_span(s, page_start(page, limit), page_start(page, limit) + 2 * limit)
            &&& has_next_page(s, page, limit) <==> page_window(s, (page + 1) as u64, limit).len() > 0
        }),
{
    let keys = search_keys(places, distances, radius, places.len());
    lemma_search_keys(places, distances, radius, places.len());
    lemma_ranked(keys);
    lemma_consecutive_pages(search_order(places, distances, radius), page, limit);
}

/// The places within `radius_in_meters` of the search center, nearest first, one page
/// of them, each with its owner and its distance. `distances_meters[i]` is the distance
/// from the center to the location of `store.places[i]`.
pub fn search(
    store: &Store,
    distances_meters: &Vec<u64>,
    radius_in_meters: i64,
    pagination: PaginationQuery,
) -> (r: Result<(Pagination, Vec<PlaceSearchResult>), Error>)
    requires
        store.wf(),
        distances_meters.len() == store.places.len(),
    ensures
        radius_in_meters <= 0 || pagination.limit == 0 || pagination.page == 0 ==> r == Err::<
            (Pagination, Vec<PlaceSearchResult>),
            Error,
        >(Error::InvalidArgument),
        radius_in_meters > 0 && pagination.limit > 0 && pagination.page > 0 ==> match r {
            Ok((p, v)) => {
                let order = search_order(store.places@, distances_meters@, radius_in_meters);
                let w = page_window(order, pagination.page, pagination.limit);
                &&& p.page == pagination.page
                &&& p.next_page == if has_next_page(order, pagination.page, pagination.limit) {
                    Some((pagination.page + 1) as u64)
                } else {
                    None::<u64>
                }
                &&& v.len() == w.len()
                &&& forall|j: int|
                    0 <= j < v.len() ==> result_matches(
                        #[trigger] v@[j],
                        w[j],
                        store.places@,
                        store.organizations@,
                        distances_meters@,
                    )
            },
            Err(_) => false,
        },
{
    if radius_in_meters <= 0 || pagination.limit == 0 || pagination.page == 0 {
        return Err(Error::InvalidArgument);
    }
    let ghost places = store.places@;
    let ghost distances = distances_meters@;
    let mut keys: Vec<RankKey> = Vec::new();
    let mut i: usize = 0;
    while i < store.places.len()
        invariant
            i <= store.places.len() == distances_meters.len(),
            places == store.places@,
            distances == distances_meters@,
            keys@ == search_keys(places, distances, radius_in_meters, i as nat),
        decreases store.places.len() - i,
    {
        let p = &store.places[i];
        let d = distances_meters[i];
        if !p.disabled && p.location.is_some() && (d as i128) <= (radius_in_meters as i128) {
            keys.push((d as i128, p.id, i));
        }
        i = i + 1;
    }
    let order = rank(&keys);
    proof {
        lemma_search_keys(places, distances, radius_in_meters, places.len());
        lemma_ranked(keys@);
    }
    let ghost s = order@;
    let total = order.len();
    assert(((pagination.page - 1) as u128) * (pagination.limit as u128) + (pagination.limit as u128)
        <= u64::MAX * u64::MAX + u64::MAX) by (nonlinear_arith)
        requires
            pagination.page >= 1,
    ;
    let offset: u128 = ((pagination.page - 1) as u128) * (pagination.limit as u128);
    let end: u128 = offset + (pagination.limit as u128);
    let from: usize = if offset >= total as u128 {
        total
    } else {
        offset as usize
    };
    let to: usize = if end >= total as u128 {
        total
    } else {
        end as usize
    };
    let ghost w = page_window(s, pagination.page, pagination.limit);
    assert(w =~= s.subrange(from as int, to as int));
    let mut out: Vec<PlaceSearchResult> = Vec::new();
    let mut j: usize = from;
    while j < to
        invariant
            from <= j <= to <= total == s.len(),
            s == order@,
            w == s.subrange(from as int, to as int),
            store.wf(),
            places == store.places@,
            distances == distances_meters@,
            distances_meters.len() == store.places.len(),
            forall|k: RankKey|
                #[trigger] s.contains(k) ==> (0 <= k.2 < places.len() && k == (
                    distances[k.2 as int] as i128,
                    places[k.2 as int].id,
                    k.2,
                )),
            out.len() == j - from,
            forall|m: int|
                0 <= m < out.len() ==> result_matches(
                    #[trigger] out@[m],
                    w[m],
                    store.places@,
                    store.organizations@,
                    distances_meters@,
                ),
        decreases to - j,
    {
        let k = order[j];
        assert(s.contains(s[j as int]));
        let idx = k.2;
        let place = store.places[idx].duplicate();
        assert(has_org(store.organizations@, place.organization_id));
        let organization = match find_organization(&store.organizations, place.organization_id) {
            Some(o) => {
                proof {
                    lemma_org_of(store, o as int);
                }
                OrganizationSummary {
                    id: store.organizations[o].id,
                    name: store.organizations[o].name.clone(),
                }
            },
            None => {
                return Err(Error::NotFound);
            },
        };
        out.push(PlaceSearchResult { place, organization, distance_meters: distances_meters[idx] });
        j = j + 1;
    }
    assert((pagination.page as u128) * (pagination.limit as u128) <= u64::MAX * u64::MAX)
        by (nonlinear_arith);
    let next_page = if (total as u128) > (pagination.page as u128) * (pagination.limit as u128) {
        assert(pagination.page <= pagination.page * pagination.limit) by (nonlinear_arith)
            requires
                pagination.limit >= 1,
        ;
        Some(pagination.page + 1)
    } else {
        None
    };
    Ok((Pagination { page: pagination.page, next_page }, out))
}

} // verus!
