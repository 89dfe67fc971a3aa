use waywallen::source_types::{
    plugin_import_candidates, supports_entry_version, validate_source_setting, SourceSetting,
};

fn setting(ty: &str, choices: &[&str]) -> SourceSetting {
    SourceSetting {
        key: "quality".to_string(),
        ty: ty.to_string(),
        default: String::new(),
        label: String::new(),
        description: String::new(),
        group: String::new(),
        order: 0,
        choices: choices.iter().map(|c| c.to_string()).collect(),
    }
}

#[test]
fn entry_versions() {
    assert!(!supports_entry_version(2));
    assert!(supports_entry_version(3));
    assert!(supports_entry_version(4));
    assert!(!supports_entry_version(1));
    assert!(!supports_entry_version(5));
}

#[test]
fn setting_values_are_canonical() {
    assert_eq!(validate_source_setting(&setting("u32", &[]), "+007", None), Ok("7".to_string()));
    assert_eq!(
        validate_source_setting(&setting("u32", &[]), "-1", None),
        Err("quality expects u32, got '-1'".to_string())
    );
    assert_eq!(validate_source_setting(&setting("i32", &[]), "-0042", None), Ok("-42".to_string()));
    assert_eq!(validate_source_setting(&setting("i32", &[]), "-2147483648", None), Ok("-2147483648".to_string()));
    assert!(validate_source_setting(&setting("i32", &[]), "2147483648", None).is_err());
    assert_eq!(validate_source_setting(&setting("bool", &[]), "true", None), Ok("true".to_string()));
    assert!(validate_source_setting(&setting("bool", &[]), "yes", None).is_err());
    assert_eq!(
        validate_source_setting(&setting("f32", &[]), "1.50", Some("1.5".to_string())),
        Ok("1.5".to_string())
    );
    assert_eq!(
        validate_source_setting(&setting("color", &[]), "red", None),
        Err("quality.type 'color' is unsupported".to_string())
    );
}

#[test]
fn setting_choices_are_enforced() {
    let s = setting("string", &["low", "high"]);
    assert_eq!(validate_source_setting(&s, "high", None), Ok("high".to_string()));
    assert_eq!(
        validate_source_setting(&s, "mid", None),
        Err("quality value 'mid' is not one of [low, high]".to_string())
    );
    let n = setting("u32", &["1", "2"]);
    assert_eq!(validate_source_setting(&n, "02", None), Ok("2".to_string()));
}

#[test]
fn lua_imports_resolve_inside_the_plugin() {
    assert_eq!(
        plugin_import_candidates("/p", "lib.util"),
        Ok(("/p/lib/util.lua".to_string(), "/p/lib/util/init.lua".to_string()))
    );
    assert_eq!(
        plugin_import_candidates("/p/", "json"),
        Ok(("/p/json.lua".to_string(), "/p/json/init.lua".to_string()))
    );
    for bad in ["", ".a", "a.", "a..b", "a/b", "a\\b"] {
        assert_eq!(
            plugin_import_candidates("/p", bad),
            Err(format!("invalid import module name: {bad}"))
        );
    }
}
