//! The operator-chosen location: its persisted form, the loading rules
//! that fall back to a built-in default, and the authentication gate of
//! the location-change request.

use vstd::prelude::*;
use vstd::string::*;

use crate::codec;
use crate::TheState;

verus! {

/// The operator-chosen location. Coordinates are held as signed
/// micro-degrees (one degree is 1_000_000 units); latitude first,
/// longitude second.
pub struct SavedLocation {
    pub name: String,
    pub lat_lgn: (i64, i64),
}

/// The built-in default: London.
pub open spec fn is_default_location(l: SavedLocation) -> bool {
    l.name@ == "London"@ && l.lat_lgn.0 == 51510803i64 && l.lat_lgn.1 == -120703i64
}

impl Default for SavedLocation {
    fn default() -> (r: Self)
        ensures
            is_default_location(r),
    {
        SavedLocation { name: String::from_str("London"), lat_lgn: (51510803, -120703) }
    }
}

impl Clone for SavedLocation {
    fn clone(&self) -> (r: Self)
        ensures
            r == *self,
    {
        SavedLocation { name: self.name.clone(), lat_lgn: self.lat_lgn }
    }
}

/// What a load attempt decided; the caller performs the file writes.
pub enum LoadOutcome {
    /// The file was read and decoded.
    Loaded(SavedLocation),
    /// The file was missing or corrupt: use `location` (the default) and
    /// write `file_body` back to the path; a failed write is only logged.
    UseDefault { location: SavedLocation, file_body: String },
    /// The file exists but could not be read: the only failing case.
    ReadFailed,
}

/// The serialized view of a location, as written to the settings file.
pub open spec fn rendered(l: SavedLocation) -> Seq<char> {
    codec::render_chars(l.name@, l.lat_lgn.0 as int, l.lat_lgn.1 as int)
}

impl SavedLocation {
    /// Serializes a location for the settings file; the caller replaces
    /// the whole file with the returned text.
    pub fn save_location(location: &SavedLocation) -> (r: String)
        ensures
            r@ == rendered(*location),
    {
        codec::render_location(location.name.as_str(), location.lat_lgn.0, location.lat_lgn.1)
    }

    /// Decides what a load of the settings file yields. `file_exists`
    /// says whether the path exists; `contents` holds the file's text
    /// when it could be read, and `None` when the read itself failed.
    /// Loading is total but for that one read failure: a missing or
    /// undecodable file self-heals to the default.
    pub fn load_location(file_exists: bool, contents: Option<String>) -> (r: LoadOutcome)
        ensures
            r is ReadFailed <==> (file_exists && contents is None),
            !file_exists ==> (r matches LoadOutcome::UseDefault { location, file_body }
                && is_default_location(location) && file_body@ == rendered(location)),
            file_exists ==> (contents matches Some(text) ==> match codec::spec_parse_location(
                text@,
            ) {
                Some(t) => r matches LoadOutcome::Loaded(l) && l.name@ == t.0 && l.lat_lgn.0
                    as int == t.1 && l.lat_lgn.1 as int == t.2,
                None => r matches LoadOutcome::UseDefault { location, file_body }
                    && is_default_location(location) && file_body@ == rendered(location),
            }),
    {
        if !file_exists {
            let location = SavedLocation::default();
            let file_body = SavedLocation::save_location(&location);
            return LoadOutcome::UseDefault { location, file_body };
        }
        match contents {
            None => LoadOutcome::ReadFailed,
            Some(text) => {
                match codec::parse_location(text.as_str()) {
                    Some(parts) => LoadOutcome::Loaded(
                        SavedLocation { name: parts.0, lat_lgn: (parts.1, parts.2) },
                    ),
                    None => {
                        let location = SavedLocation::default();
                        let file_body = SavedLocation::save_location(&location);
                        LoadOutcome::UseDefault { location, file_body }
                    },
                }
            },
        }
    }
}

/// Loading what was saved returns the location unchanged: decoding the
/// rendered file form yields exactly the saved name and coordinates, for
/// every name and every pair of coordinates.
pub proof fn lemma_save_load_round_trip(location: SavedLocation)
    ensures
        codec::spec_parse_location(rendered(location)) == Some(
            (location.name@, location.lat_lgn.0 as int, location.lat_lgn.1 as int),
        ),
{
    codec::lemma_render_parse(
        location.name@,
        location.lat_lgn.0 as int,
        location.lat_lgn.1 as int,
    );
}

/// What the location-change request decided; the caller performs the
/// file write and, on success, the in-memory swap.
pub enum SetLocationStep {
    /// The request is not authenticated; no state may change.
    Unauthorized,
    /// Authenticated: replace the settings file with `file_body`, then
    /// apply the swap; on a failed write the swap is skipped.
    Persist { file_body: String },
}

/// The authentication gate of the location-change request: the
/// `Authorization` header value must equal the admin token exactly. A
/// missing or mismatching header changes nothing: this function only
/// reads the state, and the serialized body that a caller needs before
/// it may write the file and swap comes back only on a matching token.
pub fn set_location(state: &TheState, auth_header: Option<&str>, body: &SavedLocation) -> (r:
    SetLocationStep)
    ensures
        r is Unauthorized <==> !(auth_header matches Some(h) && h@ == state.admin_auth_token@),
        r matches SetLocationStep::Persist { file_body } ==> file_body@ == rendered(*body),
{
    match auth_header {
        None => SetLocationStep::Unauthorized,
        Some(h) => {
            let header_value = String::from_str(h);
            if state.admin_auth_token == header_value {
                let file_body = SavedLocation::save_location(body);
                SetLocationStep::Persist { file_body }
            } else {
                SetLocationStep::Unauthorized
            }
        },
    }
}

} // verus!
