use waywallen::i18n::{
    is_canonical_locale_tag, safe_relative_path, prepare_plugin_translation_documents, LocalizedText,
    LocalizedTextDef, PluginMessage, PluginTranslationDocument, PluginTranslationSnapshot,
    MAX_TRANSLATION_SNAPSHOT_BYTES,
};

fn document(plugin_id: &str, locale: &str, po: &[u8]) -> PluginTranslationDocument {
    PluginTranslationDocument {
        plugin_id: plugin_id.to_string(),
        locale: locale.to_string(),
        po: po.to_vec(),
    }
}

#[test]
fn translation_snapshot_is_sorted_without_rewriting_po_bytes() {
    let documents = prepare_plugin_translation_documents(vec![
        document("org.test.second", "zh-CN", b"second"),
        document("org.test.first", "zh-CN", b"first-zh"),
        document("org.test.first", "ru", b"first-ru"),
    ])
    .unwrap();
    assert_eq!(documents[0], document("org.test.first", "ru", b"first-ru"));
    assert_eq!(
        documents[1],
        document("org.test.first", "zh-CN", b"first-zh")
    );
    assert_eq!(
        documents[2],
        document("org.test.second", "zh-CN", b"second")
    );
}

#[test]
fn translation_snapshot_keeps_equal_keys_in_order() {
    let documents = prepare_plugin_translation_documents(vec![
        document("b", "ru", b"1"),
        document("a", "ru", b"2"),
        document("b", "ru", b"3"),
        document("a", "de", b"4"),
    ])
    .unwrap();
    let pos: Vec<&[u8]> = documents.iter().map(|d| d.po.as_slice()).collect();
    assert_eq!(pos, [b"4".as_slice(), b"2", b"1", b"3"]);
}

#[test]
fn translation_snapshot_rejects_oversized_total() {
    let half = MAX_TRANSLATION_SNAPSHOT_BYTES / 2;
    let err = prepare_plugin_translation_documents(vec![
        PluginTranslationDocument { plugin_id: "a".into(), locale: "ru".into(), po: vec![0; half] },
        PluginTranslationDocument { plugin_id: "b".into(), locale: "ru".into(), po: vec![0; half + 1] },
    ])
    .unwrap_err();
    assert_eq!(
        err,
        "plugin translation snapshot is 16777217 bytes, limit is 16777216"
    );
    let ok = prepare_plugin_translation_documents(vec![PluginTranslationDocument {
        plugin_id: "a".into(),
        locale: "ru".into(),
        po: vec![0; MAX_TRANSLATION_SNAPSHOT_BYTES],
    }]);
    assert!(ok.is_ok());
}

#[test]
fn localized_text_accessors() {
    let raw = LocalizedText::raw("Hello".to_string());
    assert!(!raw.is_translated());
    assert_eq!(raw.text(), "Hello");
    assert!(raw.message().is_none());

    let msg = LocalizedText::translated("org.test".to_string(), "greeting".to_string());
    assert!(msg.is_translated());
    assert_eq!(msg.text(), "greeting");
    assert_eq!(
        msg.message(),
        Some(&PluginMessage { plugin_id: "org.test".into(), msgid: "greeting".into() })
    );
    assert_eq!(LocalizedText::default(), LocalizedText::Raw(String::new()));

    let def = LocalizedTextDef { msgid: "title".into() };
    assert!(def.is_valid());
    assert_eq!(
        def.resolve("org.p"),
        LocalizedText::translated("org.p".to_string(), "title".to_string())
    );
    assert!(!LocalizedTextDef { msgid: String::new() }.is_valid());
    let snapshot = PluginTranslationSnapshot::default();
    assert_eq!(snapshot.generation, 0);
    assert!(snapshot.documents.is_empty());
}

#[test]
fn canonical_locale_tags() {
    for good in ["ru", "zh-CN", "zh-Hans", "zh-Hans-CN", "es-419", "de-1996", "sr-Latn-RS"] {
        assert!(is_canonical_locale_tag(good), "{good}");
    }
    for bad in ["", "r", "RU", "zh-cn", "zh_CN", "zh-", "-CN", "toolonglang", "zh-C", "zh-12", "zh-abcdefghi", "ру"] {
        assert!(!is_canonical_locale_tag(bad), "{bad}");
    }
}

#[test]
fn translation_paths_must_stay_inside_the_plugin() {
    for ok in ["i18n/de.po", "de.po", "a/./b.po", "a//b.po", "a/b/", ""] {
        assert!(safe_relative_path(ok), "{ok}");
    }
    for bad in ["/etc/passwd", "../x.po", "a/../b.po", "./a.po", ".", "..", "a/.."] {
        assert!(!safe_relative_path(bad), "{bad}");
    }
}
