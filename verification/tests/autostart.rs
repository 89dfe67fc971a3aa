use waywallen::autostart::{autostart_portal_result, ensure_flatpak, gamemode_active, AutostartError};

#[test]
fn autostart_needs_flatpak() {
    assert!(ensure_flatpak(Some("org.waywallen.waywallen")).is_ok());
    for id in [None, Some("")] {
        assert_eq!(
            ensure_flatpak(id),
            Err(AutostartError::FailedPrecondition(
                "autostart is only available inside Flatpak".into()
            ))
        );
    }
}

#[test]
fn portal_answer_decides_the_persisted_state() {
    assert_eq!(autostart_portal_result(true, Ok(true)), Ok(true));
    assert_eq!(autostart_portal_result(false, Ok(false)), Ok(false));
    assert_eq!(
        autostart_portal_result(true, Ok(false)),
        Err(AutostartError::PortalCallFailed(
            "RequestBackground returned autostart=false for requested autostart=true".into()
        ))
    );
    let cancelled = AutostartError::PortalCallFailed("cancelled".into());
    assert_eq!(autostart_portal_result(true, Err(cancelled.clone())), Err(cancelled));
}

#[test]
fn gamemode_is_active_with_clients() {
    assert!(gamemode_active(1));
    assert!(!gamemode_active(0));
    assert!(!gamemode_active(-1));
}
