use waywallen::auto_replay::{AutoAction, AutoRules, AutoScope, Contribution};
use waywallen::geometry::{Align, FillMode, Location, Rotation};
use waywallen::settings_resolve::{
    reconcile_plugin_table, resolved_auto_replay, resolved_last_wallpaper, resolved_layout,
    DisplayLayoutPrefs, LayoutDefaults, SchemaKey,
};

fn defaults() -> LayoutDefaults {
    LayoutDefaults {
        fillmode: FillMode::Stretched,
        align: Align::TopLeft,
        location: None,
        rotation: Rotation::Normal,
    }
}

#[test]
fn display_preferences_override_field_by_field() {
    let global = resolved_layout(defaults(), None);
    assert_eq!(global.fillmode, FillMode::Stretched);
    assert_eq!(global.location, Location::from_align(Align::TopLeft));
    let prefs = DisplayLayoutPrefs {
        fillmode: None,
        location: None,
        align: Some(Align::BottomRight),
        rotation: Some(Rotation::Cw90),
    };
    let resolved = resolved_layout(defaults(), Some(prefs));
    assert_eq!(resolved.fillmode, FillMode::Stretched);
    assert_eq!(resolved.location, Location::from_align(Align::BottomRight));
    assert_eq!(resolved.rotation, Rotation::Cw90);
    let explicit = Location::new(10, 90);
    let with_location = DisplayLayoutPrefs { location: Some(explicit), ..prefs };
    assert_eq!(resolved_layout(defaults(), Some(with_location)).location, explicit);
    let global_location = LayoutDefaults { location: Some(explicit), ..defaults() };
    assert_eq!(resolved_layout(global_location, None).location, explicit);
}

#[test]
fn last_wallpaper_prefers_the_display() {
    assert_eq!(resolved_last_wallpaper(Some("a".into()), Some("b".into())), Some("a".to_string()));
    assert_eq!(resolved_last_wallpaper(None, Some("b".into())), Some("b".to_string()));
    assert_eq!(resolved_last_wallpaper(None, None), None);
}

fn key(name: &str, default: &str, ok: bool) -> SchemaKey {
    SchemaKey { key: name.into(), default: default.into(), stored_value_ok: ok }
}

fn sorted(mut table: Vec<(String, String)>) -> Vec<(String, String)> {
    table.sort();
    table
}

#[test]
fn reconcile_drops_unknown_keys_and_resets_bad_values() {
    let mut table = vec![
        ("fps".to_string(), "300".to_string()),
        ("volume".to_string(), "40".to_string()),
        ("gone".to_string(), "x".to_string()),
    ];
    let schema = [key("fps", "60", false), key("volume", "100", true), key("muted", "false", false)];
    assert!(reconcile_plugin_table(&mut table, &schema));
    assert_eq!(
        sorted(table.clone()),
        vec![
            ("fps".to_string(), "60".to_string()),
            ("muted".to_string(), "false".to_string()),
            ("volume".to_string(), "40".to_string()),
        ]
    );
    assert!(!reconcile_plugin_table(&mut table, &[key("fps", "60", true), key("volume", "100", true), key("muted", "false", true)]));
    let mut at_default = vec![("fps".to_string(), "60".to_string())];
    assert!(!reconcile_plugin_table(&mut at_default, &[key("fps", "60", false)]));
}

fn rules(delay: u32) -> AutoRules {
    let none = Contribution { action: AutoAction::NoAction, scope: AutoScope::CurrentDisplay };
    AutoRules {
        any_window: none,
        focused: none,
        maximized: none,
        fullscreen: Contribution { action: AutoAction::Pause, scope: AutoScope::CurrentDisplay },
        session_locked: none,
        session_inactive: none,
        resume_delay_ms: delay,
    }
}

#[test]
fn auto_replay_rules_fall_back_from_display_to_global_to_defaults() {
    assert_eq!(resolved_auto_replay(Some(rules(1)), Some(rules(2)), rules(3)), rules(1));
    assert_eq!(resolved_auto_replay(None, Some(rules(2)), rules(3)), rules(2));
    assert_eq!(resolved_auto_replay(None, None, rules(3)), rules(3));
}
