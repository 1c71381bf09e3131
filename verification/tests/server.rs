use geoip_lookup::metrics::MetricsData;
use geoip_lookup::model::{City, CityLocation, Location, LookupEntry};
use geoip_lookup::server::{metrics, AppContext, Error, GeoAnswer};

fn found(latitude: f64, longitude: f64) -> GeoAnswer {
    GeoAnswer::Found(City {
        location: Some(CityLocation {
            latitude: Some(latitude.to_string()),
            longitude: Some(longitude.to_string()),
        }),
    })
}

fn entry(ip: &str, latitude: &str, longitude: &str) -> LookupEntry {
    LookupEntry {
        ip_str: ip.to_string(),
        loc: Location { longitude: longitude.to_string(), latitude: latitude.to_string() },
    }
}

fn listed(context: &AppContext) -> Vec<LookupEntry> {
    context.snapshot().looked_up
}

#[test]
fn new_context_is_empty() {
    let context = AppContext::new(Some("geoip"));
    assert_eq!(context.namespace, Some("geoip".to_string()));
    assert_eq!(context.looked_up.len(), 0);
    assert!(listed(&context).is_empty());
    let context = AppContext::new(None);
    assert_eq!(context.namespace, None);
    assert_eq!(context.looked_up.len(), 0);
}

#[test]
fn resolved_lookup_is_returned_and_cached() {
    let mut context = AppContext::new(Some("geoip"));
    let result = context.lookup_ip("8.8.8.8", found(37.751, -97.822));
    assert_eq!(result, Ok(entry("8.8.8.8", "37.751", "-97.822")));
    assert_eq!(context.looked_up.len(), 1);
    assert_eq!(context.looked_up.get("8.8.8.8"), Some(&entry("8.8.8.8", "37.751", "-97.822")));
    assert_eq!(listed(&context), vec![entry("8.8.8.8", "37.751", "-97.822")]);
    assert_eq!(context.namespace, Some("geoip".to_string()));
}

#[test]
fn resolved_lookup_shows_in_the_metrics() {
    let mut context = AppContext::new(Some("geoip"));
    context.lookup_ip("8.8.8.8", found(37.751, -97.822)).unwrap();
    let text = metrics(&context);
    assert!(text
        .lines()
        .any(|line| line
            == "geoip_looked_up{ip=\"8.8.8.8\",latitude=\"37.751\",longitude=\"-97.822\"} 1"));
    assert_eq!(
        text,
        "# HELP geoip_looked_up looked up IP address\n\
         # TYPE geoip_looked_up gauge\n\
         geoip_looked_up{ip=\"8.8.8.8\",latitude=\"37.751\",longitude=\"-97.822\"} 1\n"
    );
}

#[test]
fn text_that_is_no_address_is_refused() {
    let mut context = AppContext::new(Some("geoip"));
    let result = context.lookup_ip("not-an-ip", GeoAnswer::NotAnAddress);
    assert_eq!(result, Err(Error::InvalidAddress("not-an-ip".to_string())));
    assert_eq!(context.looked_up.len(), 0);
    assert!(listed(&context).is_empty());
    assert_eq!(context.looked_up.get("not-an-ip"), None);
    assert_eq!(metrics(&context), "");
}

#[test]
fn refused_text_leaves_a_filled_cache_unchanged() {
    let mut context = AppContext::new(None);
    context.lookup_ip("8.8.8.8", found(37.751, -97.822)).unwrap();
    context.lookup_ip("1.1.1.1", found(-33.494, 143.2104)).unwrap();
    let before = listed(&context);
    let text_before = metrics(&context);
    let result = context.lookup_ip("8.8.8.8.8", GeoAnswer::NotAnAddress);
    assert_eq!(result, Err(Error::InvalidAddress("8.8.8.8.8".to_string())));
    assert_eq!(listed(&context), before);
    assert_eq!(metrics(&context), text_before);
    let result = context.lookup_ip("8.8.8.8", GeoAnswer::NotAnAddress);
    assert_eq!(result, Err(Error::InvalidAddress("8.8.8.8".to_string())));
    assert_eq!(listed(&context), before);
}

#[test]
fn backend_failure_is_passed_on_and_records_nothing() {
    let mut context = AppContext::new(None);
    let result =
        context.lookup_ip("8.8.8.8", GeoAnswer::Failed("database is corrupt".to_string()));
    assert_eq!(result, Err(Error::BackendLookupFailed("database is corrupt".to_string())));
    assert_eq!(context.looked_up.len(), 0);
}

#[test]
fn record_without_location_is_unavailable() {
    let mut context = AppContext::new(None);
    let result = context.lookup_ip("10.0.0.1", GeoAnswer::Found(City { location: None }));
    assert_eq!(result, Err(Error::LocationUnavailable("10.0.0.1".to_string())));
    assert_eq!(context.looked_up.len(), 0);
}

#[test]
fn record_with_one_coordinate_is_unavailable() {
    let mut context = AppContext::new(None);
    let answer = GeoAnswer::Found(City {
        location: Some(CityLocation { latitude: Some("37.751".to_string()), longitude: None }),
    });
    let result = context.lookup_ip("10.0.0.1", answer);
    assert_eq!(result, Err(Error::LocationUnavailable("10.0.0.1".to_string())));
    assert!(listed(&context).is_empty());
}

#[test]
fn failed_lookup_keeps_the_earlier_entry() {
    let mut context = AppContext::new(None);
    context.lookup_ip("8.8.8.8", found(37.751, -97.822)).unwrap();
    let result = context.lookup_ip("8.8.8.8", GeoAnswer::Failed("timeout".to_string()));
    assert_eq!(result, Err(Error::BackendLookupFailed("timeout".to_string())));
    let result = context.lookup_ip("8.8.8.8", GeoAnswer::Found(City { location: None }));
    assert_eq!(result, Err(Error::LocationUnavailable("8.8.8.8".to_string())));
    assert_eq!(listed(&context), vec![entry("8.8.8.8", "37.751", "-97.822")]);
}

#[test]
fn same_lookup_twice_leaves_one_entry() {
    let mut context = AppContext::new(None);
    let first = context.lookup_ip("8.8.8.8", found(37.751, -97.822)).unwrap();
    let second = context.lookup_ip("8.8.8.8", found(37.751, -97.822)).unwrap();
    assert_eq!(first, second);
    assert_eq!(context.looked_up.len(), 1);
    assert_eq!(listed(&context), vec![second]);
}

#[test]
fn later_answer_replaces_the_earlier_one() {
    let mut context = AppContext::new(None);
    context.lookup_ip("1.1.1.1", found(1.0, 2.0)).unwrap();
    context.lookup_ip("8.8.8.8", found(37.751, -97.822)).unwrap();
    let second = context.lookup_ip("8.8.8.8", found(40.5, -74.25)).unwrap();
    assert_eq!(second, entry("8.8.8.8", "40.5", "-74.25"));
    assert_eq!(context.looked_up.len(), 2);
    assert_eq!(context.looked_up.get("8.8.8.8"), Some(&entry("8.8.8.8", "40.5", "-74.25")));
    assert_eq!(
        listed(&context),
        vec![entry("1.1.1.1", "1", "2"), entry("8.8.8.8", "40.5", "-74.25")]
    );
    let text = metrics(&context);
    assert!(!text.contains("37.751"));
    assert!(text.contains("latitude=\"40.5\""));
}

#[test]
fn keys_are_the_texts_as_written() {
    let mut context = AppContext::new(None);
    context.lookup_ip("8.8.8.8", found(37.751, -97.822)).unwrap();
    context.lookup_ip("::ffff:8.8.8.8", found(37.751, -97.822)).unwrap();
    context.lookup_ip("::ffff:808:808", found(37.751, -97.822)).unwrap();
    assert_eq!(context.looked_up.len(), 3);
    assert_eq!(
        listed(&context),
        vec![
            entry("8.8.8.8", "37.751", "-97.822"),
            entry("::ffff:8.8.8.8", "37.751", "-97.822"),
            entry("::ffff:808:808", "37.751", "-97.822"),
        ]
    );
}

#[test]
fn snapshot_is_in_key_order_whatever_the_order_of_lookups() {
    let ips = ["8.8.8.8", "1.1.1.1", "192.168.0.1", "10.0.0.1", "1.1.1.10", "2001:db8::1"];
    let mut forward = AppContext::new(None);
    for ip in ips {
        forward.lookup_ip(ip, found(1.5, -2.5)).unwrap();
    }
    let mut backward = AppContext::new(None);
    for ip in ips.iter().rev() {
        backward.lookup_ip(ip, found(1.5, -2.5)).unwrap();
    }
    let mut sorted: Vec<&str> = ips.to_vec();
    sorted.sort();
    let keys: Vec<String> = listed(&forward).into_iter().map(|e| e.ip_str).collect();
    assert_eq!(keys, sorted);
    assert_eq!(
        keys,
        vec!["1.1.1.1", "1.1.1.10", "10.0.0.1", "192.168.0.1", "2001:db8::1", "8.8.8.8"]
    );
    assert_eq!(listed(&forward), listed(&backward));
    assert_eq!(metrics(&forward), metrics(&backward));
}

#[test]
fn distinct_lookups_are_all_recorded() {
    let mut context = AppContext::new(None);
    let mut expected = Vec::new();
    for i in 0..200u32 {
        let ip = format!("10.{}.{}.{}", (i * 7) % 256, (i * 13) % 256, i);
        let latitude = f64::from(i) / 4.0;
        let longitude = -f64::from(i) / 8.0;
        let got = context.lookup_ip(&ip, found(latitude, longitude)).unwrap();
        let want = entry(&ip, &latitude.to_string(), &longitude.to_string());
        assert_eq!(got, want);
        expected.push(want);
    }
    assert_eq!(context.looked_up.len(), 200);
    let listing = listed(&context);
    assert_eq!(listing.len(), 200);
    for want in &expected {
        assert_eq!(context.looked_up.get(&want.ip_str), Some(want));
        assert_eq!(listing.iter().filter(|e| e.ip_str == want.ip_str).count(), 1);
    }
    for pair in listing.windows(2) {
        assert!(pair[0].ip_str < pair[1].ip_str);
    }
}

#[test]
fn lookups_through_a_shared_lock_are_all_recorded() {
    let shared = std::sync::Arc::new(std::sync::Mutex::new(AppContext::new(Some("geoip"))));
    let handles: Vec<_> = (0..16u32).map(|_| shared.clone()).collect();
    for (i, handle) in handles.iter().enumerate().rev() {
        let i = i as u32;
        let ip = format!("10.0.0.{}", i);
        let mut context = handle.lock().unwrap();
        let got = context.lookup_ip(&ip, found(f64::from(i), -f64::from(i))).unwrap();
        assert_eq!(got.ip_str, ip);
    }
    let context = shared.lock().unwrap();
    assert_eq!(context.looked_up.len(), 16);
    let listing = listed(&context);
    assert_eq!(listing.len(), 16);
    for i in 0..16u32 {
        let ip = format!("10.0.0.{}", i);
        let want = entry(&ip, &f64::from(i).to_string(), &(-f64::from(i)).to_string());
        assert_eq!(context.looked_up.get(&ip), Some(&want));
    }
}

#[test]
fn get_finds_only_what_was_recorded() {
    let mut context = AppContext::new(None);
    for ip in ["1.1.1.1", "8.8.8.8", "9.9.9.9"] {
        context.lookup_ip(ip, found(1.0, 1.0)).unwrap();
    }
    assert!(context.looked_up.get("1.1.1.1").is_some());
    assert!(context.looked_up.get("8.8.8.8").is_some());
    assert!(context.looked_up.get("9.9.9.9").is_some());
    assert_eq!(context.looked_up.get("0.0.0.0"), None);
    assert_eq!(context.looked_up.get("8.8.8.9"), None);
    assert_eq!(context.looked_up.get("9.9.9.99"), None);
    assert_eq!(context.looked_up.get(""), None);
}

#[test]
fn snapshot_is_a_copy() {
    let mut context = AppContext::new(None);
    context.lookup_ip("8.8.8.8", found(37.751, -97.822)).unwrap();
    let data: MetricsData = context.snapshot();
    context.lookup_ip("1.1.1.1", found(1.0, 2.0)).unwrap();
    assert_eq!(data.looked_up, vec![entry("8.8.8.8", "37.751", "-97.822")]);
    assert_eq!(listed(&context).len(), 2);
}

#[test]
fn metrics_twice_give_the_same_text() {
    let mut context = AppContext::new(Some("geoip"));
    for (i, ip) in ["8.8.8.8", "1.1.1.1", "::1"].iter().enumerate() {
        context.lookup_ip(ip, found(i as f64 + 0.25, -(i as f64))).unwrap();
    }
    let first = metrics(&context);
    let second = metrics(&context);
    assert_eq!(first.as_bytes(), second.as_bytes());
    assert_eq!(first, context.snapshot().project(Some("geoip")));
}

#[test]
fn metrics_without_namespace_have_bare_names() {
    let mut context = AppContext::new(None);
    context.lookup_ip("8.8.8.8", found(37.751, -97.822)).unwrap();
    assert_eq!(
        metrics(&context),
        "# HELP looked_up looked up IP address\n\
         # TYPE looked_up gauge\n\
         looked_up{ip=\"8.8.8.8\",latitude=\"37.751\",longitude=\"-97.822\"} 1\n"
    );
}

#[test]
fn messages_name_the_kind_and_the_cause() {
    assert_eq!(
        Error::InvalidAddress("not-an-ip".to_string()).message(),
        "invalid IP address: not-an-ip"
    );
    assert_eq!(
        Error::LocationUnavailable("10.0.0.1".to_string()).message(),
        "no location known for 10.0.0.1"
    );
    assert_eq!(
        Error::BackendLookupFailed("database is corrupt".to_string()).message(),
        "geolocation lookup failed: database is corrupt"
    );
}

#[test]
fn error_clone_is_equal() {
    for error in [
        Error::InvalidAddress("x".to_string()),
        Error::LocationUnavailable("10.0.0.1".to_string()),
        Error::BackendLookupFailed("why".to_string()),
    ] {
        assert_eq!(error.clone(), error);
    }
}
