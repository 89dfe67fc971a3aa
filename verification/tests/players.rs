use waywallen::art_cache::{ArtFailures, ART_FAILURE_TTL_MS};
use waywallen::mpris::{art_key, MprisSnapshot, STATE_PAUSED, STATE_PLAYING};
use waywallen::players::{handle_player_msg, snapshots_equal, PlayerMsg, PlayerTable};

fn snapshot(state: u32, title: &str) -> MprisSnapshot {
    MprisSnapshot { state, title: title.to_string(), ..MprisSnapshot::default() }
}

fn names(table: &PlayerTable) -> Vec<String> {
    table.players().iter().map(|(name, _)| name.clone()).collect()
}

#[test]
fn players_stay_in_name_order() {
    let mut table = PlayerTable::new();
    table.upsert("org.mpris.MediaPlayer2.vlc".to_string(), snapshot(STATE_PAUSED, "a"));
    table.upsert("org.mpris.MediaPlayer2.firefox".to_string(), snapshot(STATE_PAUSED, "b"));
    table.upsert("org.mpris.MediaPlayer2.mpv".to_string(), snapshot(STATE_PAUSED, "c"));
    table.upsert("org.mpris.MediaPlayer2.firefox".to_string(), snapshot(STATE_PLAYING, "d"));
    assert_eq!(
        names(&table),
        vec![
            "org.mpris.MediaPlayer2.firefox".to_string(),
            "org.mpris.MediaPlayer2.mpv".to_string(),
            "org.mpris.MediaPlayer2.vlc".to_string(),
        ]
    );
    assert_eq!(table.players()[0].1.title, "d");
    assert!(table.remove("org.mpris.MediaPlayer2.mpv"));
    assert!(!table.remove("org.mpris.MediaPlayer2.mpv"));
    assert_eq!(table.players().len(), 2);
}

#[test]
fn messages_publish_only_changed_snapshots() {
    let mut table = PlayerTable::new();
    let mut current = MprisSnapshot::default();
    let mut in_flight: Vec<(String, u64)> = Vec::new();
    let mut failures = ArtFailures::new();

    let playing = snapshot(STATE_PLAYING, "song");
    let msg = PlayerMsg::Snapshot { name: "org.mpris.MediaPlayer2.b".to_string(), snapshot: playing.clone() };
    assert!(handle_player_msg(&mut table, &mut current, msg, &mut in_flight, &mut failures, 0, true));
    assert!(snapshots_equal(&current, &playing));

    // The same snapshot again publishes nothing.
    let msg = PlayerMsg::Snapshot { name: "org.mpris.MediaPlayer2.b".to_string(), snapshot: playing.clone() };
    assert!(!handle_player_msg(&mut table, &mut current, msg, &mut in_flight, &mut failures, 0, true));

    // A paused player does not displace the playing one.
    let msg = PlayerMsg::Snapshot {
        name: "org.mpris.MediaPlayer2.a".to_string(),
        snapshot: snapshot(STATE_PAUSED, "other"),
    };
    assert!(!handle_player_msg(&mut table, &mut current, msg, &mut in_flight, &mut failures, 0, true));
    assert_eq!(current.title, "song");

    // When the playing player goes away, the other one is published.
    let msg = PlayerMsg::Gone("org.mpris.MediaPlayer2.b".to_string());
    assert!(handle_player_msg(&mut table, &mut current, msg, &mut in_flight, &mut failures, 0, true));
    assert_eq!(current.title, "other");

    let msg = PlayerMsg::Gone("org.mpris.MediaPlayer2.a".to_string());
    assert!(handle_player_msg(&mut table, &mut current, msg, &mut in_flight, &mut failures, 0, true));
    assert!(snapshots_equal(&current, &MprisSnapshot::default()));
}

#[test]
fn finished_artwork_refreshes_subscribers() {
    let art = "https://example.invalid/cover.png";
    let key = art_key(art);
    let mut table = PlayerTable::new();
    let mut current = MprisSnapshot { art_url: art.to_string(), ..snapshot(STATE_PLAYING, "song") };
    table.upsert("org.mpris.MediaPlayer2.a".to_string(), current.clone());
    let mut failures = ArtFailures::new();
    let mut in_flight: Vec<(String, u64)> = vec![(key.clone(), 4), ("other".to_string(), 5)];

    // A stale report changes nothing.
    let msg = PlayerMsg::ArtReady { key: key.clone(), request_id: 3, success: true };
    assert!(!handle_player_msg(&mut table, &mut current, msg, &mut in_flight, &mut failures, 0, true));
    assert_eq!(in_flight.len(), 2);

    // A failed download of the current artwork is remembered but not re-sent.
    let msg = PlayerMsg::ArtReady { key: key.clone(), request_id: 4, success: false };
    assert!(!handle_player_msg(&mut table, &mut current, msg, &mut in_flight, &mut failures, 100, true));
    assert_eq!(in_flight, vec![("other".to_string(), 5)]);
    assert_eq!(failures.retry_at(&key), Some(100 + ART_FAILURE_TTL_MS));

    // A failure of other artwork is re-sent, but only to subscribers.
    let msg = PlayerMsg::ArtReady { key: "other".to_string(), request_id: 5, success: false };
    assert!(!handle_player_msg(&mut table, &mut current, msg, &mut in_flight, &mut failures, 100, false));

    // A success is re-sent.
    in_flight.push((key.clone(), 6));
    let msg = PlayerMsg::ArtReady { key: key.clone(), request_id: 6, success: true };
    assert!(handle_player_msg(&mut table, &mut current, msg, &mut in_flight, &mut failures, 200, true));
    assert_eq!(failures.retry_at(&key), None);
}
