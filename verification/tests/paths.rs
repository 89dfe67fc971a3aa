use waywallen::paths::{
    data_dir, default_config_path, default_db_path, join, plugin_state_dir, remote_content_dir,
    sanitize_path_segment,
};

#[test]
fn join_follows_pathbuf_rules() {
    assert_eq!(join("/a", "b/c"), "/a/b/c");
    assert_eq!(join("/a/", "b"), "/a/b");
    assert_eq!(join("", "b"), "b");
    assert_eq!(join("/a", "/etc"), "/etc");
}

#[test]
fn config_and_database_paths_prefer_xdg_then_home() {
    assert_eq!(
        default_config_path(Some("/xdg"), Some("/home/u")),
        "/xdg/waywallen/config.toml"
    );
    assert_eq!(
        default_config_path(None, Some("/home/u")),
        "/home/u/.config/waywallen/config.toml"
    );
    assert_eq!(default_config_path(None, None), "waywallen.toml");
    assert_eq!(default_db_path(Some("/d"), None), "/d/waywallen/waywallen-v2.db");
    assert_eq!(
        default_db_path(None, Some("/home/u/")),
        "/home/u/.local/share/waywallen/waywallen-v2.db"
    );
    assert_eq!(default_db_path(None, None), "waywallen-v2.db");
}

#[test]
fn data_dir_is_the_database_parent() {
    for (xdg, home) in [(Some("/d"), None), (None, Some("/home/u")), (Some(""), None), (None, None)] {
        let db = std::path::PathBuf::from(default_db_path(xdg, home));
        let parent = db.parent().map(std::path::PathBuf::from).unwrap();
        assert_eq!(std::path::PathBuf::from(data_dir(xdg, home)), parent);
    }
    assert_eq!(plugin_state_dir(None, Some("/home/u")), "/home/u/.local/share/waywallen/plugin-state");
    assert_eq!(plugin_state_dir(None, None), "plugin-state");
}

#[test]
fn path_segments_are_sanitized() {
    assert_eq!(sanitize_path_segment("wallhaven.cc"), "wallhaven.cc");
    assert_eq!(sanitize_path_segment("a/b c:é"), "a_b_c__");
    assert_eq!(sanitize_path_segment(""), "default");
    assert_eq!(sanitize_path_segment(".."), "..");
    assert_eq!(
        remote_content_dir(Some("/d"), None, "steam/workshop"),
        "/d/waywallen/remote/steam_workshop"
    );
}
