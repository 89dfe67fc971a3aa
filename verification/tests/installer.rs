use waywallen::installer::{
    check_entry_version, inspect_user_plugin, plugin_info_from_manifest, sort_strings,
    user_plugin_manifest_path, validate_plugin_dir_name, PluginFileError, PluginManifestFields,
};

fn manifest(entry: Option<&str>, entry_version: Option<u32>) -> PluginManifestFields {
    PluginManifestFields {
        id: "demo".into(),
        name: "Demo".into(),
        version: "1.0".into(),
        update: None,
        entry: entry.map(String::from),
        entry_version,
        renderer_names: vec!["video".into(), "image".into(), "scene".into()],
    }
}

#[test]
fn plugin_ids_must_be_single_plain_directory_names() {
    assert!(validate_plugin_dir_name("demo.plugin").is_ok());
    assert_eq!(
        validate_plugin_dir_name(""),
        Err(PluginFileError::InstallFailed("plugin id is empty".into()))
    );
    for id in ["a/b", "..", ".", "a\\b", "/abs"] {
        assert_eq!(
            validate_plugin_dir_name(id),
            Err(PluginFileError::InstallFailed(format!("unsafe plugin id '{id}'")))
        );
    }
}

#[test]
fn source_entries_need_a_supported_entry_version() {
    assert!(check_entry_version(false, None).is_ok());
    assert!(check_entry_version(true, Some(4)).is_ok());
    assert!(check_entry_version(true, Some(3)).is_ok());
    assert_eq!(
        check_entry_version(true, Some(2)),
        Err("entry_version 2 is unsupported; supported versions are [3, 4]".to_string())
    );
    assert_eq!(
        check_entry_version(true, None),
        Err("plugin.entry requires plugin.entry_version".to_string())
    );
    assert_eq!(
        check_entry_version(true, Some(1)),
        Err("entry_version 1 is unsupported; supported versions are [3, 4]".to_string())
    );
}

#[test]
fn manifest_info_lists_renderers_sorted() {
    let info = plugin_info_from_manifest(manifest(Some("main.lua"), Some(4))).unwrap();
    assert_eq!(info.id, "demo");
    assert!(info.has_source);
    assert_eq!(info.renderers, vec!["image", "scene", "video"]);
    let info = plugin_info_from_manifest(manifest(None, None)).unwrap();
    assert!(!info.has_source);
    assert!(plugin_info_from_manifest(manifest(Some("main.lua"), Some(9))).is_err());
}

#[test]
fn strings_sort_by_code_point() {
    let sorted = sort_strings(vec!["b".into(), "B".into(), "a".into(), "ab".into(), "a".into()]);
    assert_eq!(sorted, vec!["B", "a", "a", "ab", "b"]);
}

#[test]
fn installed_plugin_manifest_lookup() {
    assert_eq!(
        user_plugin_manifest_path("demo", Some("/home/u/.local/share/waywallen/plugins")),
        Ok(Some("/home/u/.local/share/waywallen/plugins/demo/plugin.toml".to_string()))
    );
    assert_eq!(user_plugin_manifest_path("demo", None), Ok(None));
    assert!(user_plugin_manifest_path("../x", Some("/p")).is_err());

    assert!(matches!(inspect_user_plugin("demo", None, None), Ok(None)));
    assert!(matches!(inspect_user_plugin("demo", Some("/p"), None), Ok(None)));
    assert!(matches!(
        inspect_user_plugin("demo", Some("/p"), Some(Err("parse plugin.toml: bad".into()))),
        Err(PluginFileError::InstallFailed(m)) if m == "parse plugin.toml: bad"
    ));
    let found = inspect_user_plugin("demo", Some("/p"), Some(Ok(manifest(None, None)))).unwrap().unwrap();
    assert_eq!(found.name, "Demo");
    assert!(inspect_user_plugin("a/b", Some("/p"), None).is_err());
}
