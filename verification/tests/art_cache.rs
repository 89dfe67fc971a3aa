use waywallen::art_cache::{
    finish_download, oldest_download, oldest_first, resolve_art, ArtFailures, ArtResolve, ART_FAILURE_TTL_MS,
    MAX_ART_DOWNLOADS, MAX_ART_FAILURES,
};
use waywallen::mpris::art_key;

fn in_flight_of(entries: &[(&str, u64)]) -> Vec<(String, u64)> {
    entries.iter().map(|(key, id)| (key.to_string(), *id)).collect()
}

#[test]
fn cache_cancels_oldest_download_before_starting_latest() {
    let mut failures = ArtFailures::new();
    let first = "https://example.invalid/first.png";
    let second = "https://example.invalid/second.png";
    let third = "https://example.invalid/third.png";
    let mut in_flight: Vec<(String, u64)> = Vec::new();
    let mut next_id: u64 = 0;

    for uri in [first, second] {
        let key = art_key(uri);
        let decision = resolve_art(uri, &key, false, true, &in_flight, &mut failures, 0);
        assert_eq!(decision, ArtResolve::Download { cancel_oldest: false });
        in_flight.push((key, next_id));
        next_id += 1;
    }
    assert_eq!(in_flight.len(), MAX_ART_DOWNLOADS);
    let first_request_id = in_flight[0].1;

    // A download that is already running is not started twice.
    assert_eq!(
        resolve_art(first, &art_key(first), false, false, &in_flight, &mut failures, 0),
        ArtResolve::NoArtworkYet
    );
    assert_eq!(
        resolve_art(first, &art_key(first), false, true, &in_flight, &mut failures, 0),
        ArtResolve::NoArtworkYet
    );

    let third_key = art_key(third);
    let decision = resolve_art(third, &third_key, false, true, &in_flight, &mut failures, 0);
    assert_eq!(decision, ArtResolve::Download { cancel_oldest: true });
    let oldest = oldest_download(&in_flight).unwrap();
    assert_eq!(in_flight[oldest].0, art_key(first));
    in_flight.remove(oldest);
    in_flight.push((third_key.clone(), next_id));
    next_id += 1;
    assert_eq!(in_flight.len(), MAX_ART_DOWNLOADS);
    assert!(!in_flight.iter().any(|(k, _)| *k == art_key(first)));
    assert!(in_flight.iter().any(|(k, _)| *k == art_key(second)));
    assert!(in_flight.iter().any(|(k, _)| *k == third_key));

    let decision = resolve_art(first, &art_key(first), false, true, &in_flight, &mut failures, 0);
    assert_eq!(decision, ArtResolve::Download { cancel_oldest: true });
    let oldest = oldest_download(&in_flight).unwrap();
    assert_eq!(in_flight[oldest].0, art_key(second));
    in_flight.remove(oldest);
    in_flight.push((art_key(first), next_id));
    let restarted_request_id = next_id;
    assert_ne!(restarted_request_id, first_request_id);

    // The report of the cancelled first download is stale.
    assert!(!finish_download(&mut in_flight, art_key(first), first_request_id, false, &mut failures, 0));
    assert!(in_flight.iter().any(|(k, _)| *k == art_key(first)));
    assert_eq!(failures.retry_at(&art_key(first)), None);
}

#[test]
fn cache_expires_bounded_failure_entries_on_demand() {
    let mut failures = ArtFailures::new();
    let uri = "https://example.invalid/cover.png";
    let key = art_key(uri);
    let start: u64 = 5_000;
    failures.remember_failure(key.clone(), start);

    let in_flight: Vec<(String, u64)> = Vec::new();
    assert_eq!(
        resolve_art(uri, &key, false, true, &in_flight, &mut failures, start),
        ArtResolve::NoArtworkYet
    );
    assert_eq!(failures.retry_at(&key), Some(start + ART_FAILURE_TTL_MS));

    assert_eq!(
        resolve_art(uri, &key, false, true, &in_flight, &mut failures, start + ART_FAILURE_TTL_MS),
        ArtResolve::Download { cancel_oldest: false }
    );
    assert_eq!(failures.retry_at(&key), None);

    for index in 0..(MAX_ART_FAILURES + 16) {
        failures.remember_failure(format!("failure-{index}"), start);
    }
    assert_eq!(failures.len(), MAX_ART_FAILURES);
}

#[test]
fn failure_retry_waits_for_the_time_to_live() {
    let mut failures = ArtFailures::new();
    failures.remember_failure("k".to_string(), 1_000);
    assert_eq!(failures.retry_at("k"), Some(31_000));
    assert!(!failures.retry_ready("k", 30_999));
    assert_eq!(failures.retry_at("k"), Some(31_000));
    assert!(failures.retry_ready("k", 31_000));
    assert_eq!(failures.retry_at("k"), None);
    assert!(failures.retry_ready("unknown", 0));
}

#[test]
fn failure_time_saturates() {
    let mut failures = ArtFailures::new();
    failures.remember_failure("late".to_string(), u64::MAX - 5);
    assert_eq!(failures.retry_at("late"), Some(u64::MAX));
}

#[test]
fn full_failure_table_drops_the_earliest_retry() {
    let mut failures = ArtFailures::new();
    for index in 0..MAX_ART_FAILURES {
        failures.remember_failure(format!("f{index}"), 1_000 + index as u64);
    }
    assert_eq!(failures.len(), MAX_ART_FAILURES);
    // Refreshing a known key pushes nothing out.
    failures.remember_failure("f5".to_string(), 9_000);
    assert_eq!(failures.len(), MAX_ART_FAILURES);
    assert_eq!(failures.retry_at("f0"), Some(31_000));
    failures.remember_failure("new".to_string(), 9_000);
    assert_eq!(failures.len(), MAX_ART_FAILURES);
    assert_eq!(failures.retry_at("f0"), None);
    assert_eq!(failures.retry_at("f1"), Some(31_001));
    assert_eq!(failures.retry_at("new"), Some(39_000));
    failures.forget("new");
    assert_eq!(failures.retry_at("new"), None);
    assert_eq!(failures.len(), MAX_ART_FAILURES - 1);
}

#[test]
fn resolve_passes_local_art_through_and_rejects_uncacheable() {
    let mut failures = ArtFailures::new();
    let none: Vec<(String, u64)> = Vec::new();
    assert_eq!(resolve_art("", "k", false, true, &none, &mut failures, 0), ArtResolve::Passthrough);
    assert_eq!(resolve_art("/tmp/cover.png", "k", true, true, &none, &mut failures, 0), ArtResolve::Passthrough);
    assert_eq!(
        resolve_art("http://example.invalid/cover.png", "k", true, true, &none, &mut failures, 0),
        ArtResolve::Uncacheable
    );
    assert_eq!(
        resolve_art("data:text/plain;base64,aGVsbG8=", "k", false, true, &none, &mut failures, 0),
        ArtResolve::Uncacheable
    );
}

#[test]
fn resolve_serves_cached_art_and_forgets_its_failure() {
    let mut failures = ArtFailures::new();
    let none: Vec<(String, u64)> = Vec::new();
    let uri = "https://example.invalid/cover.png";
    failures.remember_failure("key".to_string(), 0);
    assert_eq!(resolve_art(uri, "key", true, false, &none, &mut failures, 0), ArtResolve::Cached);
    assert_eq!(failures.retry_at("key"), None);
}

#[test]
fn resolve_materializes_data_images_unless_waiting_out_a_failure() {
    let mut failures = ArtFailures::new();
    let none: Vec<(String, u64)> = Vec::new();
    let uri = "data:image/png;base64,aGVsbG8=";
    assert_eq!(resolve_art(uri, "d", false, false, &none, &mut failures, 0), ArtResolve::MaterializeData);
    failures.remember_failure("d".to_string(), 100);
    assert_eq!(resolve_art(uri, "d", false, false, &none, &mut failures, 200), ArtResolve::NoArtworkYet);
    assert_eq!(
        resolve_art(uri, "d", false, false, &none, &mut failures, 100 + ART_FAILURE_TTL_MS),
        ArtResolve::MaterializeData
    );
}

#[test]
fn finishing_downloads_records_the_outcome() {
    let mut failures = ArtFailures::new();
    let mut in_flight = in_flight_of(&[("a", 1), ("b", 2)]);
    assert!(!finish_download(&mut in_flight, "a".to_string(), 7, true, &mut failures, 0));
    assert_eq!(in_flight.len(), 2);
    assert!(!finish_download(&mut in_flight, "c".to_string(), 1, true, &mut failures, 0));
    assert!(finish_download(&mut in_flight, "a".to_string(), 1, false, &mut failures, 10));
    assert_eq!(in_flight, in_flight_of(&[("b", 2)]));
    assert_eq!(failures.retry_at("a"), Some(10 + ART_FAILURE_TTL_MS));
    failures.remember_failure("b".to_string(), 0);
    assert!(finish_download(&mut in_flight, "b".to_string(), 2, true, &mut failures, 10));
    assert!(in_flight.is_empty());
    assert_eq!(failures.retry_at("b"), None);
    assert_eq!(failures.retry_at("a"), Some(10 + ART_FAILURE_TTL_MS));
}

#[test]
fn oldest_download_has_the_least_request_id() {
    assert_eq!(oldest_download(&[]), None);
    let in_flight = in_flight_of(&[("x", 9), ("y", 4), ("z", 6)]);
    assert_eq!(oldest_download(&in_flight), Some(1));
}

#[test]
fn eviction_order_is_oldest_first_and_stable() {
    assert_eq!(oldest_first(&[]), Vec::<usize>::new());
    assert_eq!(oldest_first(&[5, 3, 5, 1]), vec![3, 1, 0, 2]);
    assert_eq!(oldest_first(&[2, 2, 2]), vec![0, 1, 2]);
}
