//! The weather cache: one cell per active location, holding the last
//! upstream observation and the time it was observed, served under a
//! one-hour TTL.
//!
//! Upstream numeric readings are 64-bit floating-point values that the
//! core only carries, never computes with: each is held as its IEEE-754
//! bit pattern in a `u64` field, and the boundary converts. Coordinates
//! are micro-degrees, as in the saved location.

use vstd::prelude::*;
use vstd::string::*;

use crate::codec;

verus! {

/// The instantaneous conditions of an upstream observation. Every
/// `u64` field is the bit pattern of an upstream floating-point
/// reading; `time` is a Unix-seconds timestamp.
pub struct Currently {
    pub time: i64,
    pub summary: String,
    pub icon: String,
    pub nearest_storm_distance: u64,
    pub nearest_storm_bearing: u64,
    pub precip_intensity: u64,
    pub precip_probability: u64,
    pub precip_intensity_error: u64,
    pub precip_type: String,
    pub temperature: u64,
    pub apparent_temperature: u64,
    pub dew_point: u64,
    pub humidity: u64,
    pub pressure: u64,
    pub wind_speed: u64,
    pub wind_gust: u64,
    pub wind_bearing: u64,
    pub cloud_cover: u64,
    pub uv_index: u64,
    pub visibility: u64,
    pub ozone: u64,
}

impl Clone for Currently {
    fn clone(&self) -> (r: Self)
        ensures
            r == *self,
    {
        Currently {
            time: self.time,
            summary: self.summary.clone(),
            icon: self.icon.clone(),
            nearest_storm_distance: self.nearest_storm_distance,
            nearest_storm_bearing: self.nearest_storm_bearing,
            precip_intensity: self.precip_intensity,
            precip_probability: self.precip_probability,
            precip_intensity_error: self.precip_intensity_error,
            precip_type: self.precip_type.clone(),
            temperature: self.temperature,
            apparent_temperature: self.apparent_temperature,
            dew_point: self.dew_point,
            humidity: self.humidity,
            pressure: self.pressure,
            wind_speed: self.wind_speed,
            wind_gust: self.wind_gust,
            wind_bearing: self.wind_bearing,
            cloud_cover: self.cloud_cover,
            uv_index: self.uv_index,
            visibility: self.visibility,
            ozone: self.ozone,
        }
    }
}

/// A decoded upstream response. `latitude`, `longitude` and `offset`
/// are bit patterns of upstream floating-point values; `elevation` is
/// an integer.
pub struct Weather {
    pub latitude: u64,
    pub longitude: u64,
    pub timezone: String,
    pub offset: u64,
    pub elevation: i64,
    pub currently: Currently,
}

impl Clone for Weather {
    fn clone(&self) -> (r: Self)
        ensures
            r == *self,
    {
        Weather {
            latitude: self.latitude,
            longitude: self.longitude,
            timezone: self.timezone.clone(),
            offset: self.offset,
            elevation: self.elevation,
            currently: self.currently.clone(),
        }
    }
}

/// The shape of the read endpoint's reply: the active location's name
/// and coordinates joined with the observation's remaining fields.
pub struct LocationResponse {
    pub location: String,
    pub latitude: i64,
    pub longitude: i64,
    pub timezone: String,
    pub offset: u64,
    pub elevation: i64,
    pub currently: Currently,
}

/// The active location and its weather cell. `last_cache_time_ms` is a
/// Unix-milliseconds timestamp; `0` means "never observed".
pub struct Location {
    pub name: String,
    pub lat_lgn: (i64, i64),
    pub weather: Option<Weather>,
    pub last_cache_time_ms: i64,
}

/// A cell is fresh at `now_ms` when its observation is younger than one
/// TTL.
pub open spec fn cache_fresh(last_ms: int, now_ms: int) -> bool {
    last_ms > now_ms - crate::CACHE_TTL_MS as int
}

/// The cell's invariant, "fresh implies observed" in its state form: a
/// nonzero timestamp is only ever written together with an observation,
/// so a cell that has ever served or stored weather holds one. A cell
/// that breaks it (a timestamp without an observation) self-heals on
/// the next read.
pub open spec fn cell_wf(cell: Location) -> bool {
    cell.last_cache_time_ms != 0 ==> cell.weather is Some
}

/// The upstream request for a location: token, then `lat,lng` in decimal
/// degrees, metric-UK units.
pub open spec fn upstream_url_chars(token: Seq<char>, lat: int, lng: int) -> Seq<char> {
    "https://api.pirateweather.net/forecast/"@ + token + "/"@ + codec::coord_chars(lat) + ","@
        + codec::coord_chars(lng) + "?units=uk"@
}

fn upstream_url(token: &str, lat: i64, lng: i64) -> (r: String)
    ensures
        r@ == upstream_url_chars(token@, lat as int, lng as int),
{
    let mut out: String = String::new();
    out.append("https://api.pirateweather.net/forecast/");
    out.append(token);
    out.append("/");
    codec::push_coord(&mut out, lat);
    out.append(",");
    codec::push_coord(&mut out, lng);
    out.append("?units=uk");
    proof {
        assert(out@ =~= upstream_url_chars(token@, lat as int, lng as int));
    }
    out
}

/// What one weather read decided.
pub enum WeatherStep {
    /// A fresh observation, served from the cell without a fetch.
    Cached(Weather),
    /// The cell claimed freshness without holding an observation; it has
    /// been reset so the next read refills, and this read fails with the
    /// opaque error body.
    Internal(String),
    /// Stale or never observed: fetch this URL, then hand the outcome to
    /// `complete_fetch`.
    Fetch(String),
}

/// Relies on chrono's `Utc::now` and `DateTime::timestamp_millis`:
/// milliseconds since the Unix epoch. `Utc::now` does not return on a
/// system clock that is before the epoch, so a value that is returned is
/// never negative.
#[verifier::external_body]
pub fn now_unix_millis() -> (r: i64)
    ensures
        r >= 0,
{
    chrono::Utc::now().timestamp_millis()
}

impl Location {
    pub fn new(name: String, lat_lgn: (i64, i64)) -> (r: Self)
        ensures
            r.name == name,
            r.lat_lgn == lat_lgn,
            r.weather is None,
            r.last_cache_time_ms == 0,
            cell_wf(r),
    {
        Location { name, lat_lgn, weather: None, last_cache_time_ms: 0 }
    }

    /// One weather read at time `now_ms`. A fresh cell that holds an
    /// observation is always served from the cell, without a fetch; a
    /// fresh cell without one self-heals to empty and fails; otherwise
    /// the caller must fetch the returned URL.
    pub fn get_weather(&mut self, now_ms: i64, pirate_weather_token: &str) -> (r: WeatherStep)
        ensures
            cache_fresh(old(self).last_cache_time_ms as int, now_ms as int)
                && old(self).weather is Some ==> *final(self) == *old(self)
                && r == WeatherStep::Cached(old(self).weather->0),
            cache_fresh(old(self).last_cache_time_ms as int, now_ms as int)
                && old(self).weather is None ==> (r matches WeatherStep::Internal(e)
                && e@ == "internal"@) && final(self).last_cache_time_ms == 0
                && final(self).weather is None && final(self).name == old(self).name
                && final(self).lat_lgn == old(self).lat_lgn,
            !cache_fresh(old(self).last_cache_time_ms as int, now_ms as int)
                ==> *final(self) == *old(self) && (r matches WeatherStep::Fetch(u)
                && u@ == upstream_url_chars(pirate_weather_token@, old(self).lat_lgn.0 as int, old(self).lat_lgn.1 as int)),
            cell_wf(*old(self)) ==> cell_wf(*final(self)),
    {
        let fresh: bool = (self.last_cache_time_ms as i128) > (now_ms as i128) - (
        crate::CACHE_TTL_MS as i128);
        if fresh {
            match &self.weather {
                Some(w) => WeatherStep::Cached(w.clone()),
                None => {
                    self.last_cache_time_ms = 0;
                    WeatherStep::Internal(String::from_str("internal"))
                },
            }
        } else {
            WeatherStep::Fetch(upstream_url(pirate_weather_token, self.lat_lgn.0, self.lat_lgn.1))
        }
    }

    /// Records a fetched observation, stamped `now_ms` (a time captured
    /// after the fetch completed, no earlier than the fetch itself).
    pub fn store_observation(&mut self, now_ms: i64, observation: Weather)
        ensures
            final(self).weather == Some(observation),
            final(self).last_cache_time_ms == now_ms,
            final(self).name == old(self).name,
            final(self).lat_lgn == old(self).lat_lgn,
            cell_wf(*final(self)),
    {
        self.last_cache_time_ms = now_ms;
        self.weather = Some(observation);
    }

    /// Finishes a `Fetch` step with the fetch's outcome: `None` stands
    /// for any transport, body or decode failure, and every failure
    /// collapses to the opaque `"internal"` error with the cell left as
    /// it was. A decoded observation is stored under the clock read that
    /// follows the fetch, and returned.
    pub fn complete_fetch(&mut self, fetched: Option<Weather>) -> (r: Result<Weather, String>)
        ensures
            match fetched {
                Some(w) => (r matches Ok(rw) && rw == w) && final(self).weather == Some(w)
                    && final(self).last_cache_time_ms >= 0 && final(self).name == old(self).name
                    && final(self).lat_lgn == old(self).lat_lgn,
                None => (r matches Err(e) && e@ == "internal"@) && *final(self) == *old(self),
            },
            cell_wf(*old(self)) ==> cell_wf(*final(self)),
    {
        match fetched {
            Some(w) => {
                let now_ms: i64 = now_unix_millis();
                self.store_observation(now_ms, w.clone());
                Ok(w)
            },
            None => Err(String::from_str("internal")),
        }
    }
}

/// Builds the read endpoint's reply from the active location and an
/// observation: the location contributes its name and coordinates, the
/// observation everything else.
pub fn get_location(location: &Location, weather: Weather) -> (r: LocationResponse)
    ensures
        r.location == location.name,
        r.latitude == location.lat_lgn.0,
        r.longitude == location.lat_lgn.1,
        r.timezone == weather.timezone,
        r.offset == weather.offset,
        r.elevation == weather.elevation,
        r.currently == weather.currently,
{
    LocationResponse {
        location: location.name.clone(),
        latitude: location.lat_lgn.0,
        longitude: location.lat_lgn.1,
        timezone: weather.timezone,
        offset: weather.offset,
        elevation: weather.elevation,
        currently: weather.currently,
    }
}

impl From<crate::location::SavedLocation> for Location {
    /// A saved location becomes an active location with an empty cell.
    fn from(v: crate::location::SavedLocation) -> (r: Location) {
        Location::new(v.name, v.lat_lgn)
    }
}

impl vstd::std_specs::convert::FromSpecImpl<crate::location::SavedLocation> for Location {
    open spec fn obeys_from_spec() -> bool {
        true
    }

    open spec fn from_spec(v: crate::location::SavedLocation) -> Location {
        Location { name: v.name, lat_lgn: v.lat_lgn, weather: None, last_cache_time_ms: 0 }
    }
}

/// A swap leaves the cell empty, and an empty cell is never fresh once
/// the clock stands at least one TTL past the epoch: the weather read
/// that follows a location change goes upstream, however fresh the
/// replaced cell was. (Within the first hour after the epoch an empty
/// cell reads as fresh-but-empty and self-heals instead of fetching.)
pub proof fn lemma_swap_purges_cache(cell: Location, now_ms: i64)
    requires
        cell.last_cache_time_ms == 0,
        cell.weather is None,
        now_ms >= crate::CACHE_TTL_MS,
    ensures
        !cache_fresh(cell.last_cache_time_ms as int, now_ms as int),
{
}

} // verus!
