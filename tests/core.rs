use venue_gauge::authorization::{decrypt_basic_header, Credentials};
use venue_gauge::checkin::create_checkin;
use venue_gauge::common::{HealthResponse, Place as PublicPlace};
use venue_gauge::gauge::{gauge_level, gauge_percent, occupancy};
use venue_gauge::lifecycle::{add_organization, get_all_with_organization, insert, set_disabled, update};
use venue_gauge::model::{
    Error, GaugeLevel, Location, Organization, OrganizationSummary, PaginationQuery, PlaceInsert,
    PlaceUpdate,
};
use venue_gauge::search::search;
use venue_gauge::store::{get, get_with_organization, refresh_all_gauges, validate_places_owned, Store};

const ORG_A: u128 = 100;
const ORG_B: u128 = 200;
const HOUR: i64 = 3600;

fn organization(id: u128, name: &str) -> Organization {
    Organization {
        id,
        user_id: id + 1,
        name: name.to_string(),
        confirmed: true,
        disabled: false,
        created_at: 0,
        updated_at: 0,
    }
}

fn new_place(org: u128, name: &str, maximum_gauge: Option<u64>, located: bool) -> PlaceInsert {
    PlaceInsert {
        organization_id: org,
        name: name.to_string(),
        description: None,
        average_duration: 30,
        maximum_gauge,
        address: Some("1 main street".to_string()),
        location: if located {
            Some(Location { latitude_micro: 0, longitude_micro: 0 })
        } else {
            None
        },
        maximum_duration: 60,
    }
}

fn store_with_orgs() -> Store {
    let mut store = Store::new();
    add_organization(&mut store, organization(ORG_A, "Alpha")).unwrap();
    add_organization(&mut store, organization(ORG_B, "Beta")).unwrap();
    store
}

fn query(page: u64, limit: u64) -> PaginationQuery {
    PaginationQuery { page, limit }
}

#[test]
fn occupancy_sums_active_checkins() {
    let mut store = store_with_orgs();
    insert(&mut store, 1, 0, &new_place(ORG_A, "cafe", Some(10), true)).unwrap();
    insert(&mut store, 2, 0, &new_place(ORG_A, "bar", Some(10), true)).unwrap();
    create_checkin(&mut store, 11, 1, 7, None, 1000, 30, 2).unwrap();
    create_checkin(&mut store, 12, 1, 7, Some(5), 1500, 30, 3).unwrap();
    create_checkin(&mut store, 13, 2, 7, None, 1000, 30, 4).unwrap();
    assert_eq!(occupancy(&store.checkins, 1, 1600), 5);
    assert_eq!(occupancy(&store.checkins, 1, 1000), 2);
    // end is exclusive: the first visit ends at 1000 + 1800
    assert_eq!(occupancy(&store.checkins, 1, 2800), 3);
    assert_eq!(occupancy(&store.checkins, 2, 1600), 4);
}

#[test]
fn occupancy_is_zero_outside_all_intervals() {
    let mut store = store_with_orgs();
    insert(&mut store, 1, 0, &new_place(ORG_A, "cafe", Some(10), true)).unwrap();
    create_checkin(&mut store, 11, 1, 7, None, 1000, 30, 2).unwrap();
    create_checkin(&mut store, 12, 1, 7, None, 1200, 30, 1).unwrap();
    assert_eq!(occupancy(&store.checkins, 1, 999), 0);
    assert_eq!(occupancy(&store.checkins, 1, 3000), 0);
    assert_eq!(occupancy(&store.checkins, 1, 10_000), 0);
    assert_eq!(occupancy(&store.checkins, 3, 1100), 0);
}

#[test]
fn checkin_duration_is_capped_by_place_maximum() {
    let mut store = store_with_orgs();
    insert(&mut store, 1, 0, &new_place(ORG_A, "p", None, true)).unwrap();
    let t: i64 = 1_700_000_000;
    create_checkin(&mut store, 11, 1, 7, None, t, 90, 1).unwrap();
    assert_eq!(store.checkins[0].start_timestamp, t);
    assert_eq!(store.checkins[0].end_timestamp, t + 60 * 60);
    assert_eq!(store.checkins[0].duration, 60);
    create_checkin(&mut store, 12, 1, 7, None, t, 45, 1).unwrap();
    assert_eq!(store.checkins[1].end_timestamp, t + 45 * 60);
}

#[test]
fn checkin_errors() {
    let mut store = store_with_orgs();
    insert(&mut store, 1, 0, &new_place(ORG_A, "p", None, true)).unwrap();
    assert_eq!(create_checkin(&mut store, 11, 9, 7, None, 0, 30, 1), Err(Error::NotFound));
    assert_eq!(create_checkin(&mut store, 11, 1, 7, None, 0, 30, 0), Err(Error::InvalidArgument));
    assert_eq!(create_checkin(&mut store, 11, 1, 7, None, 0, 0, 1), Err(Error::InvalidArgument));
    assert_eq!(create_checkin(&mut store, 11, 1, 7, None, i64::MAX - 10, 30, 1), Err(Error::InvalidArgument));
    set_disabled(&mut store, 1, ORG_A, true).unwrap();
    assert_eq!(create_checkin(&mut store, 11, 1, 7, None, 0, 30, 1), Err(Error::NotFound));
    assert!(store.checkins.is_empty());
}

#[test]
fn gauge_percent_rounds_and_clamps() {
    assert_eq!(gauge_percent(0, Some(10)), Some(0));
    assert_eq!(gauge_percent(1, Some(3)), Some(33));
    assert_eq!(gauge_percent(2, Some(3)), Some(67));
    assert_eq!(gauge_percent(1, Some(2)), Some(50));
    assert_eq!(gauge_percent(10, Some(10)), Some(100));
    assert_eq!(gauge_percent(25, Some(10)), Some(100));
    assert_eq!(gauge_percent(u64::MAX, Some(1)), Some(100));
    assert_eq!(gauge_percent(u64::MAX, Some(u64::MAX)), Some(100));
    assert_eq!(gauge_percent(5, None), None);
    assert_eq!(gauge_percent(5, Some(0)), None);
}

#[test]
fn gauge_levels() {
    assert_eq!(gauge_level(0, Some(10)), GaugeLevel::Empty);
    assert_eq!(gauge_level(0, None), GaugeLevel::Empty);
    assert_eq!(gauge_level(3, None), GaugeLevel::Unknown);
    assert_eq!(gauge_level(4, Some(10)), GaugeLevel::Low);
    assert_eq!(gauge_level(5, Some(10)), GaugeLevel::Medium);
    assert_eq!(gauge_level(8, Some(10)), GaugeLevel::High);
    assert_eq!(gauge_level(10, Some(10)), GaugeLevel::Full);
    assert_eq!(gauge_level(12, Some(10)), GaugeLevel::Full);
}

#[test]
fn refresh_writes_gauges_and_is_idempotent() {
    let mut store = store_with_orgs();
    insert(&mut store, 1, 0, &new_place(ORG_A, "cafe", Some(4), true)).unwrap();
    insert(&mut store, 2, 0, &new_place(ORG_A, "bar", None, true)).unwrap();
    insert(&mut store, 3, 0, &new_place(ORG_B, "shop", Some(2), true)).unwrap();
    create_checkin(&mut store, 11, 1, 7, None, 1000, 30, 2).unwrap();
    create_checkin(&mut store, 12, 1, 7, None, 1100, 30, 1).unwrap();
    create_checkin(&mut store, 13, 3, 7, None, 1000, 30, 5).unwrap();
    assert_eq!(refresh_all_gauges(&mut store, 1200), 3);
    let first: Vec<_> = store
        .places
        .iter()
        .map(|p| (p.current_gauge, p.current_gauge_level, p.current_gauge_percent))
        .collect();
    assert_eq!(first[0], (3, GaugeLevel::High, Some(75)));
    assert_eq!(first[1], (0, GaugeLevel::Empty, None));
    assert_eq!(first[2], (5, GaugeLevel::Full, Some(100)));
    assert_eq!(refresh_all_gauges(&mut store, 1200), 3);
    let second: Vec<_> = store
        .places
        .iter()
        .map(|p| (p.current_gauge, p.current_gauge_level, p.current_gauge_percent))
        .collect();
    assert_eq!(first, second);
    for p in store.places.iter() {
        assert_eq!(p.current_gauge, occupancy(&store.checkins, p.id, 1200));
    }
    // later on, everyone has left
    refresh_all_gauges(&mut store, 1000 + HOUR);
    assert_eq!(store.places[0].current_gauge, 0);
    assert_eq!(store.places[0].current_gauge_percent, Some(0));
}

#[test]
fn search_keeps_places_within_radius() {
    let mut store = store_with_orgs();
    insert(&mut store, 1, 0, &new_place(ORG_A, "near", None, true)).unwrap();
    insert(&mut store, 2, 0, &new_place(ORG_A, "far", None, true)).unwrap();
    let (pagination, found) = search(&store, &vec![50, 150], 100, query(1, 10)).unwrap();
    assert_eq!(found.len(), 1);
    assert_eq!(found[0].place.id, 1);
    assert_eq!(found[0].distance_meters, 50);
    assert_eq!(found[0].organization.id, ORG_A);
    assert_eq!(found[0].organization.name, "Alpha");
    assert_eq!(pagination.page, 1);
    assert_eq!(pagination.next_page, None);
}

#[test]
fn search_skips_disabled_and_unlocated_places() {
    let mut store = store_with_orgs();
    insert(&mut store, 1, 0, &new_place(ORG_A, "open", None, true)).unwrap();
    insert(&mut store, 2, 0, &new_place(ORG_A, "closed", None, true)).unwrap();
    insert(&mut store, 3, 0, &new_place(ORG_B, "nowhere", None, false)).unwrap();
    set_disabled(&mut store, 2, ORG_A, true).unwrap();
    let (_, found) = search(&store, &vec![10, 5, 0], 1000, query(1, 10)).unwrap();
    let ids: Vec<u128> = found.iter().map(|r| r.place.id).collect();
    assert_eq!(ids, vec![1]);
}

#[test]
fn search_orders_by_distance_then_id() {
    let mut store = store_with_orgs();
    for id in 1..=5u128 {
        insert(&mut store, id, 0, &new_place(if id % 2 == 0 { ORG_A } else { ORG_B }, "p", None, true)).unwrap();
    }
    let (_, found) = search(&store, &vec![400, 100, 300, 100, 50], 1000, query(1, 10)).unwrap();
    let ids: Vec<u128> = found.iter().map(|r| r.place.id).collect();
    assert_eq!(ids, vec![5, 2, 4, 3, 1]);
    let distances: Vec<u64> = found.iter().map(|r| r.distance_meters).collect();
    assert_eq!(distances, vec![50, 100, 100, 300, 400]);
    assert_eq!(found[0].organization.name, "Beta");
    assert_eq!(found[1].organization.name, "Alpha");
}

#[test]
fn search_pages_are_disjoint_and_cover_all() {
    let mut store = store_with_orgs();
    for id in 1..=5u128 {
        insert(&mut store, id, 0, &new_place(ORG_A, "p", None, true)).unwrap();
    }
    let distances = vec![10, 20, 30, 40, 50];
    let (p1, first) = search(&store, &distances, 1000, query(1, 2)).unwrap();
    let (p2, second) = search(&store, &distances, 1000, query(2, 2)).unwrap();
    let (p3, third) = search(&store, &distances, 1000, query(3, 2)).unwrap();
    let (p4, fourth) = search(&store, &distances, 1000, query(4, 2)).unwrap();
    assert_eq!(p1.next_page, Some(2));
    assert_eq!(p2.next_page, Some(3));
    assert_eq!(p3.next_page, None);
    assert_eq!(p4.next_page, None);
    assert!(fourth.is_empty());
    let mut all: Vec<u128> = Vec::new();
    for page in [&first, &second, &third] {
        for r in page.iter() {
            assert!(!all.contains(&r.place.id));
            all.push(r.place.id);
        }
    }
    assert_eq!(all, vec![1, 2, 3, 4, 5]);
    // exactly full last page: no further page
    let (p, _) = search(&store, &distances, 1000, query(1, 5)).unwrap();
    assert_eq!(p.next_page, None);
}

#[test]
fn search_rejects_bad_arguments() {
    let mut store = store_with_orgs();
    insert(&mut store, 1, 0, &new_place(ORG_A, "p", None, true)).unwrap();
    assert_eq!(search(&store, &vec![1], 0, query(1, 10)).err(), Some(Error::InvalidArgument));
    assert_eq!(search(&store, &vec![1], -5, query(1, 10)).err(), Some(Error::InvalidArgument));
    assert_eq!(search(&store, &vec![1], 10, query(1, 0)).err(), Some(Error::InvalidArgument));
    assert_eq!(search(&store, &vec![1], 10, query(0, 10)).err(), Some(Error::InvalidArgument));
}

#[test]
fn validate_ownership() {
    let mut store = store_with_orgs();
    insert(&mut store, 1, 0, &new_place(ORG_A, "a", None, true)).unwrap();
    insert(&mut store, 2, 0, &new_place(ORG_B, "b", None, true)).unwrap();
    insert(&mut store, 3, 0, &new_place(ORG_A, "c", None, true)).unwrap();
    assert_eq!(validate_places_owned(&store, ORG_A, &vec![1, 2]), Err(Error::NotFound));
    assert_eq!(validate_places_owned(&store, ORG_A, &vec![1, 3]), Ok(()));
    assert_eq!(validate_places_owned(&store, ORG_A, &vec![1, 3, 1]), Ok(()));
    assert_eq!(validate_places_owned(&store, ORG_A, &vec![1, 42]), Err(Error::NotFound));
    assert_eq!(validate_places_owned(&store, ORG_A, &vec![]), Ok(()));
    set_disabled(&mut store, 3, ORG_A, true).unwrap();
    assert_eq!(validate_places_owned(&store, ORG_A, &vec![1, 3]), Err(Error::NotFound));
}

#[test]
fn lifecycle_insert_update_disable() {
    let mut store = store_with_orgs();
    assert_eq!(insert(&mut store, 1, 5, &new_place(999, "x", None, true)), Err(Error::NotFound));
    assert_eq!(insert(&mut store, 1, 5, &new_place(ORG_A, "x", Some(8), true)), Ok(1));
    assert_eq!(insert(&mut store, 1, 5, &new_place(ORG_A, "y", None, true)), Err(Error::InvalidArgument));
    let p = get(&store, 1).unwrap();
    assert_eq!(p.name, "x");
    assert_eq!(p.created_at, 5);
    assert_eq!(p.current_gauge, 0);
    assert_eq!(p.current_gauge_percent, Some(0));
    assert!(!p.disabled);
    let change = PlaceUpdate {
        name: "renamed".to_string(),
        description: Some("d".to_string()),
        average_duration: 20,
        maximum_gauge: None,
        address: None,
        location: None,
        maximum_duration: 90,
    };
    assert_eq!(update(&mut store, 1, ORG_B, 9, &change), Err(Error::NotFound));
    assert_eq!(update(&mut store, 7, ORG_A, 9, &change), Err(Error::NotFound));
    assert_eq!(update(&mut store, 1, ORG_A, 9, &change), Ok(()));
    let (p, o) = get_with_organization(&store, 1).unwrap();
    assert_eq!(p.name, "renamed");
    assert_eq!(p.description, Some("d".to_string()));
    assert_eq!(p.address, None);
    assert_eq!(p.maximum_duration, 90);
    assert_eq!(p.updated_at, 9);
    assert_eq!(p.current_gauge_percent, None);
    assert_eq!(o.name, "Alpha");
    assert_eq!(set_disabled(&mut store, 1, ORG_B, true), Err(Error::NotFound));
    assert_eq!(set_disabled(&mut store, 1, ORG_A, true), Ok(()));
    assert_eq!(get(&store, 1).err(), Some(Error::NotFound));
    assert_eq!(get_with_organization(&store, 1).err(), Some(Error::NotFound));
    assert_eq!(set_disabled(&mut store, 1, ORG_A, true), Err(Error::NotFound));
    assert_eq!(update(&mut store, 1, ORG_A, 10, &change), Err(Error::NotFound));
}

#[test]
fn organization_ids_are_unique() {
    let mut store = store_with_orgs();
    assert_eq!(add_organization(&mut store, organization(ORG_A, "again")), Err(Error::InvalidArgument));
    assert_eq!(store.organizations.len(), 2);
}

#[test]
fn listing_is_newest_first() {
    let mut store = store_with_orgs();
    insert(&mut store, 1, 10, &new_place(ORG_A, "old", None, true)).unwrap();
    insert(&mut store, 2, 30, &new_place(ORG_A, "new", None, true)).unwrap();
    insert(&mut store, 3, 20, &new_place(ORG_B, "other", None, true)).unwrap();
    insert(&mut store, 4, 20, &new_place(ORG_A, "mid", None, true)).unwrap();
    insert(&mut store, 5, 40, &new_place(ORG_A, "gone", None, true)).unwrap();
    set_disabled(&mut store, 5, ORG_A, true).unwrap();
    let listed = get_all_with_organization(&store, ORG_A).unwrap();
    let ids: Vec<u128> = listed.iter().map(|(p, _)| p.id).collect();
    assert_eq!(ids, vec![2, 4, 1]);
    assert!(listed.iter().all(|(_, o)| o.id == ORG_A && o.name == "Alpha"));
    assert!(get_all_with_organization(&store, 999).unwrap().is_empty());
}

#[test]
fn basic_header_is_decoded() {
    // "user:pass"
    let c = decrypt_basic_header("Basic dXNlcjpwYXNz".to_string()).unwrap();
    assert_eq!(c.username, "user");
    assert_eq!(c.password, "pass");
    // "a:b:c": the password stops at the second colon
    let c = decrypt_basic_header("Basic YTpiOmM=".to_string()).unwrap();
    assert_eq!(c.username, "a");
    assert_eq!(c.password, "b");
    // ":" alone gives two empty fields
    let c = decrypt_basic_header("Basic Og==".to_string()).unwrap();
    assert_eq!(c.username, "");
    assert_eq!(c.password, "");
}

#[test]
fn basic_header_rejections() {
    assert!(decrypt_basic_header("Bearer dXNlcjpwYXNz".to_string()).is_none());
    assert!(decrypt_basic_header("Basic ".to_string()).is_none());
    assert!(decrypt_basic_header("Basic".to_string()).is_none());
    // "user", no colon
    assert!(decrypt_basic_header("Basic dXNlcg==".to_string()).is_none());
    // not base64
    assert!(decrypt_basic_header("Basic !!!!".to_string()).is_none());
    // a lone 0xff byte is not UTF-8
    assert!(decrypt_basic_header("Basic /w==".to_string()).is_none());
}

#[test]
fn credentials_from_payload_and_text() {
    let c: Credentials = "dXNlcjpwYXNz".parse().ok().unwrap();
    assert_eq!((c.username.as_str(), c.password.as_str()), ("user", "pass"));
    assert!("dXNlcjpwYXNz".parse::<Credentials>().is_ok());
    assert!("dXNlcg==".parse::<Credentials>().is_err());
    let c = Credentials::from_text("alice:secret").unwrap();
    assert_eq!(c.username, "alice");
    assert_eq!(c.password, "secret");
    assert!(Credentials::from_text("alice").is_none());
    let c = Credentials::from_decoded(b"bob:pw".to_vec()).unwrap();
    assert_eq!(c.username, "bob");
    assert!(Credentials::from_decoded(vec![0xff, b':']).is_none());
}

#[test]
fn public_place_view() {
    let mut store = store_with_orgs();
    insert(&mut store, 1, 0, &new_place(ORG_A, "cafe", None, true)).unwrap();
    let p = get(&store, 1).unwrap();
    let view = PublicPlace::from_stored(&p, &OrganizationSummary { id: ORG_A, name: "Alpha".to_string() });
    assert_eq!(view.id, 1);
    assert_eq!(view.name, "cafe");
    assert_eq!(view.organization.name, "Alpha");
    assert_eq!(view.average_duration, 30);
    assert!(HealthResponse::healthy().healthy);
}

#[test]
fn error_statuses() {
    assert_eq!(Error::NotFound.status_code(), 404);
    assert_eq!(Error::InvalidArgument.status_code(), 400);
    assert_eq!(Error::ResourceUnavailable.status_code(), 503);
    assert_eq!(Error::InvariantViolation.status_code(), 500);
    assert!(Error::ResourceUnavailable.is_retryable());
    assert!(!Error::NotFound.is_retryable());
}
