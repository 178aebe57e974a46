use location_service::location::{
    set_location, LoadOutcome, SavedLocation, SetLocationStep,
};
use location_service::pirate_weather::{
    get_location, Currently, Location, Weather, WeatherStep,
};
use location_service::TheState;
use location_service::CACHE_TTL_MS;

const DEFAULT_JSON: &str = "{\"name\":\"London\",\"latLng\":[51.510803,-0.120703]}";

// A plausible clock value well past one TTL after the epoch.
const T0: i64 = 1_700_000_000_000;

fn sample_currently() -> Currently {
    Currently {
        time: 1_700_000_000,
        summary: "Clear".to_string(),
        icon: "clear-day".to_string(),
        nearest_storm_distance: (12.5f64).to_bits(),
        nearest_storm_bearing: (90.0f64).to_bits(),
        precip_intensity: 0,
        precip_probability: 0,
        precip_intensity_error: 0,
        precip_type: "rain".to_string(),
        temperature: (13.5f64).to_bits(),
        apparent_temperature: (12.9f64).to_bits(),
        dew_point: (7.0f64).to_bits(),
        humidity: (0.8f64).to_bits(),
        pressure: (1013.2f64).to_bits(),
        wind_speed: (4.1f64).to_bits(),
        wind_gust: (8.2f64).to_bits(),
        wind_bearing: (250.0f64).to_bits(),
        cloud_cover: (0.1f64).to_bits(),
        uv_index: (2.0f64).to_bits(),
        visibility: (16.0f64).to_bits(),
        ozone: (300.0f64).to_bits(),
    }
}

fn sample_weather() -> Weather {
    Weather {
        latitude: (51.510803f64).to_bits(),
        longitude: (-0.120703f64).to_bits(),
        timezone: "Europe/London".to_string(),
        offset: (0.0f64).to_bits(),
        elevation: 11,
        currently: sample_currently(),
    }
}

fn london() -> SavedLocation {
    SavedLocation {
        name: "London".to_string(),
        lat_lgn: (51_510_803, -120_703),
    }
}

fn paris() -> SavedLocation {
    SavedLocation {
        name: "Paris".to_string(),
        lat_lgn: (48_856_600, 2_352_200),
    }
}

#[test]
fn save_renders_default_exactly() {
    let body = SavedLocation::save_location(&london());
    assert_eq!(body, DEFAULT_JSON);
}

#[test]
fn cold_start_writes_default() {
    // The settings path does not exist: the default comes back and its
    // exact serialized form is handed out to be written.
    match SavedLocation::load_location(false, None) {
        LoadOutcome::UseDefault {
            location,
            file_body,
        } => {
            assert_eq!(location.name, "London");
            assert_eq!(location.lat_lgn, (51_510_803, -120_703));
            assert_eq!(file_body, DEFAULT_JSON);
        }
        _ => panic!("expected the default"),
    }
}

#[test]
fn corrupt_file_self_heals() {
    match SavedLocation::load_location(true, Some("not-json".to_string())) {
        LoadOutcome::UseDefault {
            location,
            file_body,
        } => {
            assert_eq!(location.name, "London");
            assert_eq!(location.lat_lgn, (51_510_803, -120_703));
            assert_eq!(file_body, DEFAULT_JSON);
        }
        _ => panic!("expected self-healing to the default"),
    }
}

#[test]
fn unreadable_file_is_the_only_failure() {
    assert!(matches!(
        SavedLocation::load_location(true, None),
        LoadOutcome::ReadFailed
    ));
    assert!(!matches!(
        SavedLocation::load_location(false, None),
        LoadOutcome::ReadFailed
    ));
    assert!(!matches!(
        SavedLocation::load_location(true, Some(String::new())),
        LoadOutcome::ReadFailed
    ));
}

#[test]
fn load_parses_saved_file() {
    match SavedLocation::load_location(true, Some(DEFAULT_JSON.to_string())) {
        LoadOutcome::Loaded(l) => {
            assert_eq!(l.name, "London");
            assert_eq!(l.lat_lgn, (51_510_803, -120_703));
        }
        _ => panic!("expected a parsed location"),
    }
}

#[test]
fn save_load_round_trip_plain() {
    let l = paris();
    let body = SavedLocation::save_location(&l);
    assert_eq!(body, "{\"name\":\"Paris\",\"latLng\":[48.8566,2.3522]}");
    match SavedLocation::load_location(true, Some(body)) {
        LoadOutcome::Loaded(back) => {
            assert_eq!(back.name, l.name);
            assert_eq!(back.lat_lgn, l.lat_lgn);
        }
        _ => panic!("round trip lost the location"),
    }
}

#[test]
fn save_load_round_trip_escapes_and_integral_coords() {
    let l = SavedLocation {
        name: "Par\"is\\North \u{2603}".to_string(),
        lat_lgn: (48_000_000, -2_000_000),
    };
    let body = SavedLocation::save_location(&l);
    match SavedLocation::load_location(true, Some(body)) {
        LoadOutcome::Loaded(back) => {
            assert_eq!(back.name, l.name);
            assert_eq!(back.lat_lgn, l.lat_lgn);
        }
        _ => panic!("round trip lost the location"),
    }
}

#[test]
fn save_load_round_trip_extremes() {
    for m in [0i64, 1, -1, 999_999, -999_999, i64::MAX, i64::MIN] {
        let l = SavedLocation {
            name: String::new(),
            lat_lgn: (m, m),
        };
        let body = SavedLocation::save_location(&l);
        match SavedLocation::load_location(true, Some(body)) {
            LoadOutcome::Loaded(back) => {
                assert_eq!(back.name, l.name);
                assert_eq!(back.lat_lgn, l.lat_lgn);
            }
            _ => panic!("round trip lost the location"),
        }
    }
}

#[test]
fn undecodable_documents_heal_to_default() {
    // More than six fractional digits, trailing text, and a truncated
    // document are all treated as corrupt.
    for text in [
        "{\"name\":\"x\",\"latLng\":[1.2345678,0]}",
        "{\"name\":\"x\",\"latLng\":[1.5,0]} ",
        "{\"name\":\"x\",\"latLng\":[1.5,",
        "{\"name\":\"x\",\"latLng\":[1.5,0]",
        "{\"name\":\"x\"}",
    ] {
        match SavedLocation::load_location(true, Some(text.to_string())) {
            LoadOutcome::UseDefault { location, .. } => assert_eq!(location.name, "London"),
            _ => panic!("expected self-healing for {text}"),
        }
    }
}

#[test]
fn rendered_form_is_json_for_serde() {
    let body = SavedLocation::save_location(&london());
    let v: serde_json::Value = serde_json::from_str(&body).expect("valid JSON");
    assert_eq!(v.get("name").unwrap().as_str(), Some("London"));
    let arr = v.get("latLng").unwrap().as_array().unwrap();
    assert!((arr[0].as_f64().unwrap() - 51.510803).abs() < 1e-9);
    assert!((arr[1].as_f64().unwrap() - -0.120703).abs() < 1e-9);
}

#[test]
fn cache_hit_within_ttl() {
    let mut cell = Location::new("London".to_string(), (51_510_803, -120_703));
    cell.store_observation(T0, sample_weather());
    match cell.get_weather(T0 + 1_000, "tok") {
        WeatherStep::Cached(w) => assert_eq!(w.timezone, "Europe/London"),
        _ => panic!("expected the cached observation"),
    }
    match cell.get_weather(T0 + CACHE_TTL_MS - 1, "tok") {
        WeatherStep::Cached(_) => {}
        _ => panic!("still within the TTL"),
    }
}

#[test]
fn cache_expires_after_ttl() {
    let mut cell = Location::new("London".to_string(), (51_510_803, -120_703));
    match cell.get_weather(T0, "tok") {
        WeatherStep::Fetch(url) => assert_eq!(
            url,
            "https://api.pirateweather.net/forecast/tok/51.510803,-0.120703?units=uk"
        ),
        _ => panic!("an empty cell must fetch"),
    }
    cell.store_observation(T0, sample_weather());
    match cell.get_weather(T0 + CACHE_TTL_MS + 1, "tok") {
        WeatherStep::Fetch(_) => {}
        _ => panic!("expected a second fetch after expiry"),
    }
}

#[test]
fn broken_cell_self_heals() {
    let mut cell = Location {
        name: "London".to_string(),
        lat_lgn: (51_510_803, -120_703),
        weather: None,
        last_cache_time_ms: T0,
    };
    match cell.get_weather(T0, "tok") {
        WeatherStep::Internal(e) => assert_eq!(e, "internal"),
        _ => panic!("a fresh-but-empty cell must fail this one read"),
    }
    assert_eq!(cell.last_cache_time_ms, 0);
    match cell.get_weather(T0, "tok") {
        WeatherStep::Fetch(_) => {}
        _ => panic!("the healed cell must refill"),
    }
}

#[test]
fn empty_cell_reads_as_fresh_within_first_hour_of_epoch() {
    // The freshness test `observedAtMs > now - TTL` holds for an empty
    // cell while the clock is under one TTL past the epoch, so such a
    // read takes the fresh-but-empty path and fails instead of fetching.
    let mut cell = Location::new("London".to_string(), (51_510_803, -120_703));
    match cell.get_weather(CACHE_TTL_MS - 1, "tok") {
        WeatherStep::Internal(e) => assert_eq!(e, "internal"),
        _ => panic!("expected the fresh-but-empty failure"),
    }
    match cell.get_weather(CACHE_TTL_MS, "tok") {
        WeatherStep::Fetch(_) => {}
        _ => panic!("one TTL past the epoch an empty cell fetches"),
    }
}

#[test]
fn complete_fetch_failure_is_internal() {
    let mut cell = Location::new("London".to_string(), (51_510_803, -120_703));
    match cell.complete_fetch(None) {
        Err(e) => assert_eq!(e, "internal"),
        Ok(_) => panic!("a failed fetch cannot produce weather"),
    }
    assert!(cell.weather.is_none());
    assert_eq!(cell.last_cache_time_ms, 0);
}

#[test]
fn complete_fetch_stores_observation() {
    let mut cell = Location::new("London".to_string(), (51_510_803, -120_703));
    let w = cell.complete_fetch(Some(sample_weather())).expect("stored");
    assert_eq!(w.timezone, "Europe/London");
    assert!(cell.weather.is_some());
    assert!(cell.last_cache_time_ms > 0);
}

#[test]
fn url_renders_negative_and_trimmed_coordinates() {
    let mut cell = Location::new("X".to_string(), (-120_703, 2_000_000));
    match cell.get_weather(0x7fff_ffff_ffff_ffff, "k") {
        WeatherStep::Fetch(url) => assert_eq!(
            url,
            "https://api.pirateweather.net/forecast/k/-0.120703,2?units=uk"
        ),
        _ => panic!("expected a fetch"),
    }
}

#[test]
fn unauthenticated_post_changes_nothing() {
    let state = TheState::new("w".to_string(), "secret".to_string(), london());
    assert!(matches!(
        set_location(&state, None, &paris()),
        SetLocationStep::Unauthorized
    ));
    assert!(matches!(
        set_location(&state, Some("wrong"), &paris()),
        SetLocationStep::Unauthorized
    ));
    // No bearer scheme: the header must equal the token exactly.
    assert!(matches!(
        set_location(&state, Some("Bearer secret"), &paris()),
        SetLocationStep::Unauthorized
    ));
    assert_eq!(state.location.name, "London");
}

#[test]
fn authenticated_post_persists_and_purges() {
    let mut state = TheState::new("w".to_string(), "secret".to_string(), london());
    state.location.store_observation(T0, sample_weather());
    let file_body = match set_location(&state, Some("secret"), &paris()) {
        SetLocationStep::Persist { file_body } => file_body,
        SetLocationStep::Unauthorized => panic!("the token matches"),
    };
    assert_eq!(file_body, "{\"name\":\"Paris\",\"latLng\":[48.8566,2.3522]}");
    state.apply_set_location(paris());
    assert_eq!(state.location.name, "Paris");
    assert!(state.location.weather.is_none());
    assert_eq!(state.location.last_cache_time_ms, 0);
    // The very next read goes upstream, for the new coordinates.
    match state.location.get_weather(T0 + 1, "w") {
        WeatherStep::Fetch(url) => assert_eq!(
            url,
            "https://api.pirateweather.net/forecast/w/48.8566,2.3522?units=uk"
        ),
        _ => panic!("the swap must purge the cache"),
    }
}

#[test]
fn state_new_starts_empty() {
    let state = TheState::new("w".to_string(), "a".to_string(), paris());
    assert_eq!(state.priate_weather_token, "w");
    assert_eq!(state.admin_auth_token, "a");
    assert_eq!(state.location.name, "Paris");
    assert_eq!(state.location.lat_lgn, (48_856_600, 2_352_200));
    assert!(state.location.weather.is_none());
    assert_eq!(state.location.last_cache_time_ms, 0);
    assert_eq!(state.contributions_last_cache_time_ms, 0);
}

#[test]
fn response_composes_location_and_weather() {
    let cell = Location::new("London".to_string(), (51_510_803, -120_703));
    let r = get_location(&cell, sample_weather());
    assert_eq!(r.location, "London");
    assert_eq!(r.latitude, 51_510_803);
    assert_eq!(r.longitude, -120_703);
    assert_eq!(r.timezone, "Europe/London");
    assert_eq!(f64::from_bits(r.offset), 0.0);
    assert_eq!(r.elevation, 11);
    assert_eq!(f64::from_bits(r.currently.temperature), 13.5);
}
