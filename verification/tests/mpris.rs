use waywallen::mpris::{
    art_uri_cacheable, is_cacheable_art_uri, advance_art_history, art_key, art_url_summary, choose_snapshot, decode_data_image, hex_val,
    is_data_image_uri, is_data_uri, is_mpris_name, normalize_art_url, normalize_metadata_art_url,
    percent_decode, percent_decode_bytes, playback_state_from_status, playback_state_label,
    snapshot_debug, truncate_log_text, updated_subscribers, ArtError, MprisSnapshot,
    LOG_TEXT_MAX_CHARS, MAX_DATA_URI_BYTES, STATE_PAUSED, STATE_PLAYING, STATE_STOPPED,
};

#[test]
fn normalizes_local_file_art_url() {
    assert_eq!(
        normalize_art_url("file:///home/me/Cover%20Art.png"),
        "/home/me/Cover Art.png"
    );
    assert_eq!(
        normalize_art_url("file://localhost/tmp/a%23b.jpg"),
        "/tmp/a#b.jpg"
    );
    assert_eq!(
        normalize_art_url("file://remote/tmp/a.jpg"),
        "file://remote/tmp/a.jpg"
    );
}

#[test]
fn preserves_bounded_data_images_for_cache_materialization() {
    let data_image = "data:image/png;base64,aGVsbG8=";
    assert_eq!(normalize_metadata_art_url(data_image), data_image);
    assert_eq!(
        normalize_metadata_art_url("file:///tmp/Cover%20Art.png"),
        "/tmp/Cover Art.png"
    );
    assert!(normalize_metadata_art_url("data:text/plain;base64,aGVsbG8=").is_empty());

    let oversized = format!("data:image/png;base64,{}", "A".repeat(MAX_DATA_URI_BYTES));
    assert!(normalize_metadata_art_url(&oversized).is_empty());
}

#[test]
fn maps_playback_status() {
    assert_eq!(playback_state_from_status("Stopped"), STATE_STOPPED);
    assert_eq!(playback_state_from_status("Playing"), STATE_PLAYING);
    assert_eq!(playback_state_from_status("Paused"), STATE_PAUSED);
    assert_eq!(playback_state_from_status("Other"), STATE_STOPPED);
}

#[test]
fn chooses_playing_player_first() {
    // Players in bus-name order, as a `BTreeMap` would list them.
    let players = vec![
        (
            "org.mpris.MediaPlayer2.paused".to_string(),
            MprisSnapshot {
                state: STATE_PAUSED,
                title: "Paused".to_string(),
                ..MprisSnapshot::default()
            },
        ),
        (
            "org.mpris.MediaPlayer2.playing".to_string(),
            MprisSnapshot {
                state: STATE_PLAYING,
                title: "Playing".to_string(),
                ..MprisSnapshot::default()
            },
        ),
    ];
    assert_eq!(choose_snapshot(&players).title, "Playing");
}

#[test]
fn selects_new_and_resubscribed_renderers_in_stable_order() {
    let previous = vec![
        ("keep".to_string(), 2),
        ("removed".to_string(), 1),
        ("revised".to_string(), 3),
    ];
    let current = vec![
        ("added".to_string(), 1),
        ("keep".to_string(), 2),
        ("revised".to_string(), 4),
    ];

    assert_eq!(
        updated_subscribers(&previous, &current),
        vec!["added".to_string(), "revised".to_string()]
    );
    assert!(updated_subscribers(&current, &current).is_empty());
    assert!(updated_subscribers(&current, &[]).is_empty());
}

#[test]
fn snapshot_debug_bounds_text_and_hides_art_payloads() {
    let long_title = "猫".repeat(LOG_TEXT_MAX_CHARS + 10);
    let payload = "A".repeat(256);
    let art_url = format!("data:image/jpeg;base64,{payload}");
    let snapshot = MprisSnapshot {
        state: STATE_PLAYING,
        title: long_title,
        artist: "Artist".to_string(),
        art_url: art_url.clone(),
        previous_art_url: "/tmp/cover.jpg".to_string(),
        ..MprisSnapshot::default()
    };

    let summary = snapshot_debug(&snapshot);
    assert!(!summary.contains(&payload));
    assert!(summary.contains(&format!("data({} bytes)", art_url.len())));
    assert!(summary.contains("file(14 bytes)"));
    assert_eq!(
        truncate_log_text(&snapshot.title).chars().count(),
        LOG_TEXT_MAX_CHARS + 1
    );
    assert!(truncate_log_text(&snapshot.title).ends_with('…'));
}

#[test]
fn decodes_data_images() {
    assert_eq!(
        decode_data_image("data:image/png;base64,aGVsbG8=").unwrap(),
        b"hello"
    );
    assert_eq!(
        decode_data_image("data:image/png,hello%20world").unwrap(),
        b"hello world"
    );
    assert!(decode_data_image("data:text/plain;base64,aGVsbG8=").is_err());
    assert!(decode_data_image("data:image/svg+xml,%3Csvg%2F%3E").is_err());
    assert_eq!(
        decode_data_image("DATA:Image/PNG;charset=x;BASE64,aGVsbG8="),
        Ok(b"hello".to_vec())
    );
    assert_eq!(decode_data_image("data:image/png;base64,***"), Err(ArtError::InvalidBase64));
    assert_eq!(decode_data_image("data:image/png,%zz"), Err(ArtError::InvalidPercentEncoding));
    assert_eq!(decode_data_image("data:image/png,"), Err(ArtError::DecodedSizeOutOfRange));
    assert_eq!(decode_data_image("data:image/png"), Err(ArtError::InvalidDataUri));
    assert_eq!(decode_data_image("http://x/y.png"), Err(ArtError::InvalidDataUri));
    assert_eq!(decode_data_image("data:image/svg+xml;base64,aGVsbG8="), Err(ArtError::UnsupportedMediaType));
}

#[test]
fn percent_decoding_and_hex_digits() {
    assert_eq!(percent_decode("a%41b"), Some("aAb".to_string()));
    assert_eq!(percent_decode("%ff"), None);
    assert_eq!(percent_decode("100%"), None);
    assert_eq!(percent_decode("%4"), None);
    assert_eq!(percent_decode_bytes("%ff%00"), Some(vec![0xff, 0x00]));
    assert_eq!(hex_val(b'F'), Some(15));
    assert_eq!(hex_val(b'g'), None);
}

#[test]
fn names_labels_and_summaries() {
    assert!(is_mpris_name("org.mpris.MediaPlayer2.vlc"));
    assert!(!is_mpris_name("org.mpris.MediaPlayer2."));
    assert!(!is_mpris_name("org.other.vlc"));
    assert_eq!(playback_state_label(STATE_PAUSED), "Paused");
    assert_eq!(playback_state_label(9), "Stopped");
    assert_eq!(art_url_summary(""), "none");
    assert_eq!(art_url_summary("https://a/b"), "url(11 bytes)");
    assert_eq!(art_url_summary("cover.png"), "value(9 bytes)");
    assert!(is_data_image_uri("Data:IMAGE/png,x"));
    assert!(!is_data_image_uri("data:text/plain,x"));
    assert!(is_data_uri("DATA:x"));
    assert_eq!(truncate_log_text("short"), "short");
}

#[test]
fn art_key_is_hex_sha256() {
    assert_eq!(
        art_key("abc"),
        "ba7816bf8f01cfea414140de5dae2223b00361a396177a9cb410ff61f20015ad"
    );
    assert_eq!(art_key("").len(), 64);
}

#[test]
fn art_history_keeps_previous_url() {
    let mut last = String::new();
    let mut previous = String::new();
    advance_art_history("/a.png", &mut last, &mut previous);
    assert_eq!((last.as_str(), previous.as_str()), ("/a.png", ""));
    advance_art_history("/b.png", &mut last, &mut previous);
    assert_eq!((last.as_str(), previous.as_str()), ("/b.png", "/a.png"));
    advance_art_history("/b.png", &mut last, &mut previous);
    assert_eq!((last.as_str(), previous.as_str()), ("/b.png", "/a.png"));
    advance_art_history("", &mut last, &mut previous);
    assert_eq!((last.as_str(), previous.as_str()), ("", "/b.png"));
}

#[test]
fn chooses_media_then_first_then_default() {
    let quiet = MprisSnapshot::default();
    let with_title = MprisSnapshot { title: "t".into(), ..MprisSnapshot::default() };
    let players = vec![("a".to_string(), quiet.clone()), ("b".to_string(), with_title.clone())];
    assert_eq!(choose_snapshot(&players), with_title);
    let players = vec![("a".to_string(), MprisSnapshot { state: STATE_PAUSED, ..quiet.clone() })];
    assert_eq!(choose_snapshot(&players).state, STATE_PAUSED);
    assert_eq!(choose_snapshot(&[]), MprisSnapshot::default());
}

#[test]
fn decodes_base64_and_percent_encoded_data_images() {
    assert_eq!(
        decode_data_image("data:image/png;base64,aGVsbG8=").unwrap(),
        b"hello"
    );
    assert_eq!(
        decode_data_image("data:image/png,hello%20world").unwrap(),
        b"hello world"
    );
    assert!(decode_data_image("data:text/plain;base64,aGVsbG8=").is_err());
    assert!(decode_data_image("data:image/svg+xml,%3Csvg%2F%3E").is_err());
    assert!(is_cacheable_art_uri("HTTPS://example.invalid/cover.png"));
    assert!(!is_cacheable_art_uri("http://example.invalid/cover.png"));
    assert!(!is_cacheable_art_uri("ftp://example.invalid/cover.png"));
}

#[test]
fn cacheable_artwork_is_data_images_or_https() {
    assert!(is_cacheable_art_uri("data:image/png;base64,aGVsbG8="));
    assert!(!is_cacheable_art_uri("file:///tmp/cover.png"));
    assert!(!is_cacheable_art_uri("not a url"));
    assert!(art_uri_cacheable("x", Some("https")));
    assert!(!art_uri_cacheable("x", Some("http")));
    assert!(!art_uri_cacheable("x", None));
    assert!(art_uri_cacheable("Data:Image/png,x", None));
}
