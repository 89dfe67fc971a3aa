use waywallen::subscriptions::{
    EventKinds, EventSubscriptionStatus, RendererEventKind, RendererProcessOwnershipSnapshot,
    RendererSubscriptionRegistry, RendererSubscriptionSnapshot, SubscriptionLimits,
};

fn limits() -> SubscriptionLimits {
    SubscriptionLimits { max_subscriptions: 8, max_kind_bytes: 16, max_total_bytes: 64 }
}

fn kinds(names: &[&str]) -> Vec<String> {
    names.iter().map(|s| s.to_string()).collect()
}

#[test]
fn event_kind_names_round_trip() {
    for kind in [RendererEventKind::Pointer, RendererEventKind::Mpris, RendererEventKind::Audio] {
        assert_eq!(RendererEventKind::parse(kind.as_str()), Some(kind));
    }
    assert_eq!(RendererEventKind::parse("video"), None);
    assert_eq!(RendererEventKind::Mpris.as_str(), "mpris");
}

#[test]
fn prepare_and_commit_follow_revisions() {
    let mut reg = RendererSubscriptionRegistry::new(limits());
    let unknown = reg.prepare("r1", 1, &kinds(&["mpris"]));
    assert_eq!(unknown.status, EventSubscriptionStatus::Invalid);
    assert_eq!(unknown.reason, "renderer is not registered");
    assert!(unknown.kinds.is_empty());

    reg.register("r1".to_string());
    let zero = reg.prepare("r1", 0, &kinds(&["mpris"]));
    assert_eq!(zero.status, EventSubscriptionStatus::Invalid);
    assert_eq!(zero.reason, "revision must start at 1");

    let applied = reg.prepare("r1", 1, &kinds(&["audio", "mpris", "audio"]));
    assert_eq!(applied.status, EventSubscriptionStatus::Applied);
    assert_eq!(applied.kinds, ["mpris", "audio"]);
    assert_eq!(applied.reason, "");
    let sub = applied.commit.expect("commit");
    assert_eq!(sub.revision, 1);
    reg.commit("r1".to_string(), sub);

    let snap = reg.snapshot();
    assert_eq!(snap.wire_revision_for("r1", RendererEventKind::Mpris), Some(1));
    assert_eq!(snap.wire_revision_for("r1", RendererEventKind::Pointer), None);
    assert_eq!(snap.membership_generation_for("r1", RendererEventKind::Mpris), Some(1));
    assert_eq!(snap.membership_generation_for("r1", RendererEventKind::Audio), Some(2));

    let replay = reg.prepare("r1", 1, &kinds(&["mpris", "audio"]));
    assert_eq!(replay.status, EventSubscriptionStatus::Applied);
    assert!(replay.commit.is_none());
    assert_eq!(replay.kinds, ["mpris", "audio"]);

    let conflict = reg.prepare("r1", 1, &kinds(&["pointer"]));
    assert_eq!(conflict.status, EventSubscriptionStatus::RevisionConflict);
    assert_eq!(conflict.reason, "revision already names a different event set");

    let next = reg.prepare("r1", 3, &kinds(&["pointer", "mpris"]));
    reg.commit("r1".to_string(), next.commit.unwrap());
    let stale = reg.prepare("r1", 2, &kinds(&[]));
    assert_eq!(stale.status, EventSubscriptionStatus::StaleRevision);
    assert_eq!(stale.reason, "current revision is 3");
    assert_eq!(stale.kinds, ["pointer", "mpris"]);

    let snap = reg.snapshot();
    // Mpris stayed subscribed: its generation is unchanged; pointer joined and audio left.
    assert_eq!(snap.membership_generation_for("r1", RendererEventKind::Mpris), Some(1));
    assert_eq!(snap.membership_generation_for("r1", RendererEventKind::Pointer), Some(3));
    assert_eq!(snap.membership_generation_for("r1", RendererEventKind::Audio), None);
    assert_eq!(snap.wire_revision_for("r1", RendererEventKind::Pointer), Some(3));
}

#[test]
fn prepare_reports_limits_and_unknown_kinds() {
    let mut reg = RendererSubscriptionRegistry::new(limits());
    reg.register("r".to_string());
    let many = reg.prepare("r", 1, &kinds(&["mpris"; 9]));
    assert_eq!(many.status, EventSubscriptionStatus::LimitExceeded);
    assert_eq!(many.reason, "at most 8 event kinds are allowed");
    let long = reg.prepare("r", 1, &kinds(&["a-very-long-event-kind"]));
    assert_eq!(long.status, EventSubscriptionStatus::LimitExceeded);
    assert_eq!(
        long.reason,
        "event kind names are limited to 16 bytes each and 64 bytes total"
    );
    let bad = reg.prepare("r", 1, &kinds(&["mpris", "vid\"eo"]));
    assert_eq!(bad.status, EventSubscriptionStatus::Invalid);
    assert_eq!(bad.reason, "unknown event kind \"vid\\\"eo\"");
    assert!(bad.commit.is_none());
}

#[test]
fn snapshot_lists_subscribers_in_id_order() {
    let mut reg = RendererSubscriptionRegistry::new(limits());
    for id in ["c", "a", "b"] {
        reg.register(id.to_string());
    }
    for (id, rev, names) in [("c", 5, vec!["mpris"]), ("a", 2, vec!["mpris", "pointer"]), ("b", 1, vec!["audio"])] {
        let apply = reg.prepare(id, rev, &kinds(&names));
        reg.commit(id.to_string(), apply.commit.unwrap());
    }
    let snap = reg.snapshot();
    assert_eq!(
        snap.subscribers_with_wire_revision(RendererEventKind::Mpris),
        vec![("a".to_string(), 2), ("c".to_string(), 5)]
    );
    let gens = snap.subscribers_with_membership_generation(RendererEventKind::Mpris);
    assert_eq!(gens.iter().map(|(id, _)| id.as_str()).collect::<Vec<_>>(), ["a", "c"]);
    reg.remove("a");
    let snap = reg.snapshot();
    assert_eq!(
        snap.subscribers_with_wire_revision(RendererEventKind::Mpris),
        vec![("c".to_string(), 5)]
    );
    reg.register("c".to_string());
    assert_eq!(reg.snapshot().wire_revision_for("c", RendererEventKind::Mpris), None);
    assert!(RendererSubscriptionSnapshot::empty()
        .subscribers_with_wire_revision(RendererEventKind::Audio)
        .is_empty());
}

#[test]
fn ownership_snapshot_knows_its_groups() {
    let snap = RendererProcessOwnershipSnapshot::from_process_groups(vec![10, 42, 10]);
    assert!(snap.owns_process_group(42));
    assert!(!snap.owns_process_group(7));
    assert!(!RendererProcessOwnershipSnapshot::empty().owns_process_group(42));
    let mut set = EventKinds::empty();
    set.insert(RendererEventKind::Audio);
    assert!(set.contains(RendererEventKind::Audio));
    assert_eq!(set.names(), ["audio"]);
}
