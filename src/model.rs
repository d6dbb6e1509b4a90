use vstd::prelude::*;

verus! {

/// A geographic coordinate in millionths of a degree.
#[derive(Clone, Copy, Debug, PartialEq, Eq, Structural)]
pub struct Location {
    pub latitude_micro: i64,
    pub longitude_micro: i64,
}

/// Discrete occupancy category of a place relative to its capacity.
#[derive(Clone, Copy, Debug, PartialEq, Eq, Structural)]
pub enum GaugeLevel {
    /// Visitors are present but no capacity is known.
    Unknown,
    Empty,
    Low,
    Medium,
    High,
    Full,
}

/// A venue, owned by exactly one organization.
/// Timestamps are seconds since the Unix epoch, durations are minutes.
#[derive(Debug)]
pub struct Place {
    pub id: u128,
    pub organization_id: u128,
    pub name: String,
    pub description: Option<String>,
    pub average_duration: i64,
    pub disabled: bool,
    pub updated_at: i64,
    pub created_at: i64,
    pub maximum_gauge: Option<u64>,
    pub address: Option<String>,
    pub location: Option<Location>,
    pub maximum_duration: i64,
    pub current_gauge: u64,
    pub current_gauge_level: GaugeLevel,
    pub current_gauge_percent: Option<u64>,
}

/// The fields of a new place.
#[derive(Debug)]
pub struct PlaceInsert {
    pub organization_id: u128,
    pub name: String,
    pub description: Option<String>,
    pub average_duration: i64,
    pub maximum_gauge: Option<u64>,
    pub address: Option<String>,
    pub location: Option<Location>,
    pub maximum_duration: i64,
}

/// The editable fields of a place; every field is written, `None` included.
#[derive(Debug)]
pub struct PlaceUpdate {
    pub name: String,
    pub description: Option<String>,
    pub average_duration: i64,
    pub maximum_gauge: Option<u64>,
    pub address: Option<String>,
    pub location: Option<Location>,
    pub maximum_duration: i64,
}

/// An organization, as stored.
#[derive(Debug)]
pub struct Organization {
    pub id: u128,
    pub user_id: u128,
    pub name: String,
    pub confirmed: bool,
    pub disabled: bool,
    pub created_at: i64,
    pub updated_at: i64,
}

/// One visit interval `[start_timestamp, end_timestamp)` at a place, for `number` people.
#[derive(Debug)]
pub struct Checkin {
    pub id: u128,
    pub place_id: u128,
    pub session_id: u128,
    pub user_id: Option<u128>,
    pub start_timestamp: i64,
    pub end_timestamp: i64,
    pub duration: i64,
    pub number: u32,
    pub potential_infection: bool,
    pub confirmed: bool,
}

/// The public attribution of a place: its organization's id and name.
#[derive(Debug)]
pub struct OrganizationSummary {
    pub id: u128,
    pub name: String,
}

/// A place found by a proximity search, with its owner and its distance in meters.
#[derive(Debug)]
pub struct PlaceSearchResult {
    pub place: Place,
    pub organization: OrganizationSummary,
    pub distance_meters: u64,
}

/// A page request: pages are numbered from one.
#[derive(Clone, Copy, Debug, PartialEq, Eq, Structural)]
pub struct PaginationQuery {
    pub page: u64,
    pub limit: u64,
}

/// The page that was served, and the next one when there is more.
#[derive(Clone, Copy, Debug, PartialEq, Eq, Structural)]
pub struct Pagination {
    pub page: u64,
    pub next_page: Option<u64>,
}

/// Failures of the core operations.
#[derive(Clone, Copy, Debug, PartialEq, Eq, Structural)]
pub enum Error {
    /// The entity is absent, disabled, or not owned by the caller.
    NotFound,
    /// An argument is out of its domain (a non-positive radius or page size, ...).
    InvalidArgument,
    /// The store could not be reached in time; the call may be retried.
    ResourceUnavailable,
    /// A write affected more rows than one.
    InvariantViolation,
}

impl Error {
    /// The HTTP status that the transport layer answers with: 404, 400, 503 and 500.
    pub fn status_code(&self) -> (r: u16)
        ensures
            r == match *self {
                Error::NotFound => 404u16,
                Error::InvalidArgument => 400u16,
                Error::ResourceUnavailable => 503u16,
                Error::InvariantViolation => 500u16,
            },
    {
        match self {
            Error::NotFound => 404,
            Error::InvalidArgument => 400,
            Error::ResourceUnavailable => 503,
            Error::InvariantViolation => 500,
        }
    }

    /// Whether the call may succeed when retried later.
    pub fn is_retryable(&self) -> (r: bool)
        ensures
            r <==> *self == Error::ResourceUnavailable,
    {
        match self {
            Error::ResourceUnavailable => true,
            _ => false,
        }
    }
}

/// A copy of an optional text.
pub fn clone_text(s: &Option<String>) -> (r: Option<String>)
    ensures
        r == *s,
{
    match s {
        Some(t) => Some(t.clone()),
        None => None,
    }
}

impl Place {
    /// A field-by-field copy.
    pub fn duplicate(&self) -> (r: Place)
        ensures
            r == *self,
    {
        Place {
            id: self.id,
            organization_id: self.organization_id,
            name: self.name.clone(),
            description: clone_text(&self.description),
            average_duration: self.average_duration,
            disabled: self.disabled,
            updated_at: self.updated_at,
            created_at: self.created_at,
            maximum_gauge: self.maximum_gauge,
            address: clone_text(&self.address),
            location: self.location,
            maximum_duration: self.maximum_duration,
            current_gauge: self.current_gauge,
            current_gauge_level: self.current_gauge_level,
            current_gauge_percent: self.current_gauge_percent,
        }
    }
}

impl Organization {
    /// A field-by-field copy.
    pub fn duplicate(&self) -> (r: Organization)
        ensures
            r == *self,
    {
        Organization {
            id: self.id,
            user_id: self.user_id,
            name: self.name.clone(),
            confirmed: self.confirmed,
            disabled: self.disabled,
            created_at: self.created_at,
            updated_at: self.updated_at,
        }
    }
}

} // verus!
