use waywallen::display_registry::{
    build_default_registry, builtin_display_defs, default_priority, resolve_bin, DisplayDef,
    DisplayRegistry, SpawnMode, LAYER_SHELL_BIN,
};

fn builtins() -> DisplayRegistry {
    DisplayRegistry::with_builtins(LAYER_SHELL_BIN.to_string())
}

fn def(name: &str, priority: i32) -> DisplayDef {
    DisplayDef {
        name: name.to_string(),
        bin: String::new(),
        de: Vec::new(),
        priority,
        requires: Vec::new(),
        extra_args: Vec::new(),
        spawn: SpawnMode::Daemon,
    }
}

#[test]
fn builtins_are_registered_by_name() {
    let registry = builtins();

    assert_eq!(
        registry.find("kde-plasma").map(|def| def.spawn),
        Some(SpawnMode::External)
    );
    assert_eq!(
        registry.find("layer-shell").map(|def| def.spawn),
        Some(SpawnMode::Daemon)
    );
    assert_eq!(
        registry.find("gnome-shell").map(|def| def.spawn),
        Some(SpawnMode::External)
    );
}

#[test]
fn later_registration_overrides_builtin_by_name() {
    let mut registry = builtins();
    let replacement = DisplayDef {
        name: "layer-shell".to_string(),
        bin: "/custom/layer-shell".to_string(),
        de: vec!["kde".to_string()],
        priority: 200,
        requires: Vec::new(),
        extra_args: vec!["--custom".to_string()],
        spawn: SpawnMode::Daemon,
    };

    registry.register(replacement);

    let resolved = registry.find("layer-shell").expect("replacement");
    assert_eq!(resolved.bin, "/custom/layer-shell");
    assert_eq!(resolved.de, ["kde"]);
    assert_eq!(resolved.extra_args, ["--custom"]);
}

#[test]
fn builtins_are_ordered_by_priority_then_registration() {
    let registry = builtins();
    let names: Vec<&str> = registry.all().iter().map(|d| d.name.as_str()).collect();
    assert_eq!(names, ["kde-plasma", "gnome-shell", "layer-shell"]);
    assert_eq!(registry.all()[2].bin, LAYER_SHELL_BIN);
}

#[test]
fn register_keeps_one_entry_per_name_and_stable_order() {
    let mut registry = DisplayRegistry::new();
    registry.register(def("a", 10));
    registry.register(def("b", 20));
    registry.register(def("c", 10));
    registry.register(def("d", 20));
    let names: Vec<&str> = registry.all().iter().map(|d| d.name.as_str()).collect();
    assert_eq!(names, ["b", "d", "a", "c"]);
    registry.register(def("a", 5));
    let names: Vec<&str> = registry.all().iter().map(|d| d.name.as_str()).collect();
    assert_eq!(names, ["b", "d", "c", "a"]);
    assert_eq!(registry.find("a").map(|d| d.priority), Some(5));
    assert!(registry.find("zzz").is_none());
}

#[test]
fn default_registry_applies_scanned_manifests_in_order() {
    let mut custom = def("kde-plasma", 1);
    custom.spawn = SpawnMode::Daemon;
    let registry = build_default_registry("/usr/bin/ls".to_string(), vec![custom, def("extra", 100)]);
    let names: Vec<&str> = registry.all().iter().map(|d| d.name.as_str()).collect();
    assert_eq!(names, ["gnome-shell", "extra", "layer-shell", "kde-plasma"]);
    assert_eq!(registry.find("layer-shell").unwrap().bin, "/usr/bin/ls");
}

#[test]
fn builtin_defs_and_defaults() {
    let defs = builtin_display_defs("x".to_string());
    assert_eq!(defs.len(), 3);
    assert_eq!(defs[2].requires, ["wlr-layer-shell", "linux-dmabuf-v4"]);
    assert_eq!(defs[2].de, ["hyprland", "sway", "niri", "river", "cosmic"]);
    assert_eq!(default_priority(), 100);
    assert_eq!(SpawnMode::default(), SpawnMode::Daemon);
}

#[test]
fn relative_bin_resolves_against_manifest_dir() {
    assert_eq!(resolve_bin("bin/x", Some("/etc/displays")), "/etc/displays/bin/x");
    assert_eq!(resolve_bin("bin/x", Some("/etc/displays/")), "/etc/displays/bin/x");
    assert_eq!(resolve_bin("/abs/x", Some("/etc")), "/abs/x");
    assert_eq!(resolve_bin("", Some("/etc")), "");
    assert_eq!(resolve_bin("x", None), "x");
}
