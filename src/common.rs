use vstd::prelude::*;

use crate::model::{OrganizationSummary, Place as StoredPlace};

verus! {

/// A caller authenticated as a member of the public.
pub struct PublicUser {
    pub id: u128,
}

/// A caller authenticated as a professional, on behalf of an organization.
pub struct ProfessionalUser {
    pub id: u128,
}

pub struct HealthResponse {
    pub healthy: bool,
}

pub struct ScanQuery {
    pub place_id: u128,
}

/// The public fields of an organization.
pub struct Organization {
    pub id: u128,
    pub name: String,
}

/// The public view of a place.
pub struct Place {
    pub id: u128,
    pub organization: Organization,
    pub name: String,
    pub description: Option<String>,
    /// Average duration in minutes
    pub average_duration: i64,
}

pub struct CheckinForm {
    pub place_id: u128,
    pub email: String,
    pub store_email: bool,
    pub duration: i64,
}

pub struct ValidateDeviceForm {
    pub device_id: u128,
    pub confirmation_token: String,
}

pub struct Credentials {
    pub login: String,
    pub token: String,
}

pub struct Profile {
    pub id: u128,
    pub email: Option<String>,
    pub organization: Option<Organization>,
}

pub struct ProfileForm {
    pub email: Option<String>,
}

pub struct OrganizationForm {
    pub name: String,
}

impl HealthResponse {
    pub fn healthy() -> (r: HealthResponse)
        ensures
            r.healthy,
    {
        HealthResponse { healthy: true }
    }
}

impl Place {
    /// The public view of a stored place owned by `organization`.
    pub fn from_stored(place: &StoredPlace, organization: &OrganizationSummary) -> (r: Place)
        ensures
            r.id == place.id,
            r.organization.id == organization.id,
            r.organization.name == organization.name,
            r.name == place.name,
            r.description == place.description,
            r.average_duration == place.average_duration,
    {
        Place {
            id: place.id,
            organization: Organization { id: organization.id, name: organization.name.clone() },
            name: place.name.clone(),
            description: crate::model::clone_text(&place.description),
            average_duration: place.average_duration,
        }
    }
}

} // verus!
