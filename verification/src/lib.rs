//! A small service core: a single configured location, a TTL-gated
//! weather cache in front of an upstream forecast API, and persistence
//! of the operator-chosen location to a local file.
//!
//! The core is everything that decides: the settings-file codec and the
//! loading rules, the cache cell's state machine, the authentication
//! gate, and the atomic swap of the active location. The boundary around
//! it performs the file, clock and network work and hands the outcomes
//! back in as plain values.

pub mod codec;
pub mod location;
pub mod pirate_weather;

use vstd::prelude::*;

use crate::location::SavedLocation;
use crate::pirate_weather::Location;

verus! {

/// Time-to-live of a cached weather observation, in milliseconds (one
/// hour).
pub const CACHE_TTL_MS: i64 = 3_600_000;

/// The process-wide state: the two credentials and the active location
/// with its weather cell.
pub struct TheState {
    pub admin_auth_token: String,
    pub priate_weather_token: String,
    pub location: Location,
    pub contributions_last_cache_time_ms: i64,
}

impl TheState {
    pub fn new(priate_weather_token: String, admin_auth_token: String, saved_location: SavedLocation) -> (r:
        Self)
        ensures
            r.priate_weather_token == priate_weather_token,
            r.admin_auth_token == admin_auth_token,
            r.location.name == saved_location.name,
            r.location.lat_lgn == saved_location.lat_lgn,
            r.location.weather is None,
            r.location.last_cache_time_ms == 0,
            r.contributions_last_cache_time_ms == 0,
    {
        TheState {
            priate_weather_token,
            admin_auth_token,
            location: Location::new(saved_location.name, saved_location.lat_lgn),
            contributions_last_cache_time_ms: 0,
        }
    }

    /// Applies an authenticated, persisted location change: the active
    /// location is replaced wholesale and its weather cell starts empty,
    /// so nothing of the previous location's cache carries over.
    pub fn apply_set_location(&mut self, body: SavedLocation)
        ensures
            final(self).location.name == body.name,
            final(self).location.lat_lgn == body.lat_lgn,
            final(self).location.weather is None,
            final(self).location.last_cache_time_ms == 0,
            final(self).admin_auth_token == old(self).admin_auth_token,
            final(self).priate_weather_token == old(self).priate_weather_token,
            final(self).contributions_last_cache_time_ms == old(
                self,
            ).contributions_last_cache_time_ms,
    {
        self.location = Location::new(body.name, body.lat_lgn);
    }
}

} // verus!
