use waywallen::audio_slot::AudioSlot;

#[test]
fn latest_audio_replaces_and_wakes_once() {
    let mut slot: AudioSlot<&str> = AudioSlot::new();
    assert!(slot.replace_audio(1, "a"));
    assert!(!slot.replace_audio(1, "b"));
    assert_eq!(slot.take_for_send(Some(1)), Some("b"));
    assert_eq!(slot.take_for_send(Some(1)), None);
    assert!(slot.replace_audio(2, "c"));
}

#[test]
fn stale_or_committed_audio_is_not_sent() {
    let mut slot: AudioSlot<u32> = AudioSlot::new();
    slot.replace_audio(3, 30);
    assert_eq!(slot.take_for_send(Some(4)), None);
    slot.replace_audio(4, 40);
    slot.committed();
    assert_eq!(slot.take_for_send(Some(4)), None);
    slot.replace_audio(5, 50);
    assert_eq!(slot.take_for_send(None), None);
}

#[test]
fn failed_wake_allows_a_new_one() {
    let mut slot: AudioSlot<u8> = AudioSlot::new();
    assert!(slot.replace_audio(1, 1));
    slot.wake_failed();
    assert!(slot.replace_audio(1, 2));
}
