use waywallen::settings_flush::{temp_file_name, DirtyFlag};

#[test]
fn failed_flush_keeps_settings_dirty() {
    let mut flag = DirtyFlag::new(false);
    assert!(!flag.begin_flush());
    flag.mark_changed();
    assert!(flag.begin_flush());
    assert!(!flag.begin_flush());
    flag.mark_changed();
    assert!(flag.begin_flush());
    flag.flush_failed();
    assert!(flag.begin_flush());
}

#[test]
fn seeded_defaults_are_written_first() {
    let mut flag = DirtyFlag::new(true);
    assert!(flag.begin_flush());
}

#[test]
fn settings_are_written_through_a_temporary_file() {
    assert_eq!(temp_file_name("settings.toml"), "settings.toml.tmp");
}
