use vstd::prelude::*;

verus! {

/// Identifiers are opaque strings.
pub type Id = String;

/// A point on the map, in units of 1e-7 degree.
#[derive(Clone, Copy, Debug, PartialEq, Eq, Structural)]
pub struct MapPoint {
    pub lat: i32,
    pub lng: i32,
}

pub const LAT_MAX: i32 = 900_000_000;

pub const LNG_MAX: i32 = 1_800_000_000;

impl MapPoint {
    pub open spec fn is_valid(self) -> bool {
        -LAT_MAX <= self.lat <= LAT_MAX && -LNG_MAX <= self.lng <= LNG_MAX
    }
}

/// A bounding box given by its south-west and north-east corners.
/// Where `south_west.lng > north_east.lng` the box crosses the antimeridian.
#[derive(Clone, Copy, Debug, PartialEq, Eq, Structural)]
pub struct MapBbox {
    pub south_west: MapPoint,
    pub north_east: MapPoint,
}

impl MapBbox {
    pub open spec fn is_valid(self) -> bool {
        self.south_west.is_valid() && self.north_east.is_valid() && self.south_west.lat
            <= self.north_east.lat
    }

    pub open spec fn spec_contains(self, p: MapPoint) -> bool {
        &&& self.south_west.lat <= p.lat <= self.north_east.lat
        &&& if self.south_west.lng <= self.north_east.lng {
            self.south_west.lng <= p.lng <= self.north_east.lng
        } else {
            p.lng >= self.south_west.lng || p.lng <= self.north_east.lng
        }
    }

    pub fn is_valid_bbox(&self) -> (r: bool)
        ensures
            r == self.is_valid(),
    {
        -LAT_MAX <= self.south_west.lat && self.south_west.lat <= LAT_MAX && -LNG_MAX
            <= self.south_west.lng && self.south_west.lng <= LNG_MAX && -LAT_MAX
            <= self.north_east.lat && self.north_east.lat <= LAT_MAX && -LNG_MAX
            <= self.north_east.lng && self.north_east.lng <= LNG_MAX && self.south_west.lat
            <= self.north_east.lat
    }

    pub fn contains_point(&self, p: MapPoint) -> (r: bool)
        ensures
            r == self.spec_contains(p),
    {
        let lat_ok = self.south_west.lat <= p.lat && p.lat <= self.north_east.lat;
        let lng_ok = if self.south_west.lng <= self.north_east.lng {
            self.south_west.lng <= p.lng && p.lng <= self.north_east.lng
        } else {
            p.lng >= self.south_west.lng || p.lng <= self.north_east.lng
        };
        lat_ok && lng_ok
    }
}

#[derive(Clone, Copy, Debug, PartialEq, Eq, Structural)]
pub enum Role {
    Guest,
    User,
    Scout,
    Admin,
}

impl Role {
    pub open spec fn rank(self) -> nat {
        match self {
            Role::Guest => 0,
            Role::User => 1,
            Role::Scout => 2,
            Role::Admin => 3,
        }
    }

    pub fn level(&self) -> (r: u8)
        ensures
            r as nat == self.rank(),
    {
        match self {
            Role::Guest => 0,
            Role::User => 1,
            Role::Scout => 2,
            Role::Admin => 3,
        }
    }
}

#[derive(Clone, Debug, PartialEq, Eq)]
pub struct User {
    pub email: String,
    pub email_confirmed: bool,
    pub password: String,
    pub role: Role,
}

#[derive(Clone, Debug, PartialEq, Eq)]
pub struct Event {
    pub id: Id,
    pub title: String,
    pub description: Option<String>,
    /// Start time in seconds since the Unix epoch.
    pub start: i64,
    pub end: Option<i64>,
    pub tags: Vec<String>,
    pub created_by: Option<String>,
}

/// The moderation policy that one organization holds over one tag label.
#[derive(Clone, Debug, PartialEq, Eq)]
pub struct ModeratedTag {
    pub label: String,
    pub allows_add: bool,
    pub allows_remove: bool,
    pub requires_authorization: bool,
}

#[derive(Clone, Debug, PartialEq, Eq)]
pub struct Organization {
    pub id: Id,
    pub name: String,
    pub api_token: String,
    pub moderated_tags: Vec<ModeratedTag>,
}

#[derive(Clone, Debug, PartialEq, Eq)]
pub struct BboxSubscription {
    pub id: Id,
    pub user_email: String,
    pub bbox: MapBbox,
}

#[derive(Clone, Copy, Debug, PartialEq, Eq, Structural)]
pub enum ReviewStatus {
    Rejected,
    Archived,
    Created,
    Confirmed,
}

#[derive(Clone, Debug, PartialEq, Eq)]
pub struct Place {
    pub id: Id,
    pub title: String,
    pub description: String,
    pub tags: Vec<String>,
}

#[derive(Clone, Copy, Debug, PartialEq, Eq, Structural)]
pub enum RatingContext {
    Diversity,
    Renewable,
    Fairness,
    Humanity,
    Transparency,
    Solidarity,
}

/// A rating value; valid ratings lie between `RATING_VALUE_MIN` and `RATING_VALUE_MAX`.
pub type RatingValue = i8;

pub const RATING_VALUE_MIN: i8 = -1;

pub const RATING_VALUE_MAX: i8 = 2;

#[derive(Clone, Debug, PartialEq, Eq)]
pub struct Rating {
    pub id: Id,
    pub place_id: Id,
    pub created_at: i64,
    pub archived_at: Option<i64>,
    pub title: String,
    pub value: RatingValue,
    pub context: RatingContext,
    pub source: Option<String>,
}

#[derive(Clone, Debug, PartialEq, Eq)]
pub struct Comment {
    pub id: Id,
    pub rating_id: Id,
    pub created_at: i64,
    pub archived_at: Option<i64>,
    pub text: String,
}

#[derive(Clone, Copy, Debug, PartialEq, Eq, Structural)]
pub enum RegistrationType {
    Email,
    Phone,
    Homepage,
}

impl From<i16> for RegistrationType {
    /// `1`, `2` and `3` stand for email, phone and homepage; any other code reads as phone.
    fn from(i: i16) -> (r: RegistrationType) {
        if i == 1 {
            RegistrationType::Email
        } else if i == 3 {
            RegistrationType::Homepage
        } else {
            RegistrationType::Phone
        }
    }
}

impl vstd::std_specs::convert::FromSpecImpl<i16> for RegistrationType {
    open spec fn obeys_from_spec() -> bool {
        true
    }

    open spec fn from_spec(i: i16) -> RegistrationType {
        if i == 1 {
            RegistrationType::Email
        } else if i == 3 {
            RegistrationType::Homepage
        } else {
            RegistrationType::Phone
        }
    }
}

impl From<RegistrationType> for i16 {
    fn from(t: RegistrationType) -> (r: i16) {
        match t {
            RegistrationType::Email => 1,
            RegistrationType::Phone => 2,
            RegistrationType::Homepage => 3,
        }
    }
}

impl vstd::std_specs::convert::FromSpecImpl<RegistrationType> for i16 {
    open spec fn obeys_from_spec() -> bool {
        true
    }

    open spec fn from_spec(t: RegistrationType) -> i16 {
        match t {
            RegistrationType::Email => 1,
            RegistrationType::Phone => 2,
            RegistrationType::Homepage => 3,
        }
    }
}

} // verus!
