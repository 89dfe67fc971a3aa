use waywallen::reported_state::{
    apply_renderer_state_patch, key_is_valid, validate_runtime_tags, value_is_valid,
    RendererReportedState, RendererRuntimeTag, RuntimeTagLimits, RENDERER_STATE_FIELD_CLEAR_COLOR,
    RENDERER_STATE_FIELD_RUNTIME_TAGS,
};

const LIMITS: RuntimeTagLimits = RuntimeTagLimits {
    max_tags: 3,
    max_key_bytes: 8,
    max_value_bytes: 6,
};

fn tags(pairs: &[(&str, &str)]) -> Vec<(String, String)> {
    pairs.iter().map(|(k, v)| (k.to_string(), v.to_string())).collect()
}

fn state() -> RendererReportedState {
    RendererReportedState {
        clear_rgba: [0.0f32, 0.0, 0.0, 1.0].map(f32::to_bits),
        runtime_tags: Vec::new(),
    }
}

#[test]
fn runtime_tag_keys_and_values_are_checked() {
    assert!(key_is_valid("scene.id", 8));
    assert!(key_is_valid("a-1_b", 8));
    assert!(!key_is_valid("Scene", 8));
    assert!(!key_is_valid("1scene", 8));
    assert!(!key_is_valid("", 8));
    assert!(!key_is_valid("toolongkey", 8));
    assert!(!key_is_valid("é", 8));
    assert!(value_is_valid("héllo", 6));
    assert!(!value_is_valid("héllo!", 6));
    assert!(!value_is_valid("", 6));
    assert!(!value_is_valid("a\u{7}", 6));
    assert!(!value_is_valid("a\u{85}", 6));
}

#[test]
fn runtime_tags_report_the_first_problem() {
    let ok = validate_runtime_tags(&tags(&[("a", "1"), ("b", "2")]), LIMITS).unwrap();
    assert_eq!(
        ok,
        vec![
            RendererRuntimeTag { key: "a".into(), value: "1".into() },
            RendererRuntimeTag { key: "b".into(), value: "2".into() },
        ]
    );
    assert_eq!(
        validate_runtime_tags(&tags(&[("a", "1"), ("b", "2"), ("c", "3"), ("d", "4")]), LIMITS),
        Err("runtime_tags contains 4 entries; maximum is 3".to_string())
    );
    assert_eq!(
        validate_runtime_tags(&tags(&[("a", "1"), ("B\"", "2")]), LIMITS),
        Err("runtime_tags[1] has invalid key \"B\\\"\"".to_string())
    );
    assert_eq!(
        validate_runtime_tags(&tags(&[("a", "")]), LIMITS),
        Err("runtime_tags[0] has an invalid value for key \"a\"".to_string())
    );
    assert_eq!(
        validate_runtime_tags(&tags(&[("a", "1"), ("a", "2")]), LIMITS),
        Err("runtime_tags contains duplicate key \"a\"".to_string())
    );
}

#[test]
fn state_patches_apply_whole_or_not_at_all() {
    let mut current = state();
    let red = [1.0f32, 0.0, 0.0, 1.0].map(f32::to_bits);
    assert_eq!(
        apply_renderer_state_patch(&mut current, 0, Ok(red), &[], LIMITS),
        Err("fields is empty".to_string())
    );
    assert_eq!(
        apply_renderer_state_patch(&mut current, 0x10 | 1, Ok(red), &[], LIMITS),
        Err("fields contains unknown bits 0x10".to_string())
    );
    assert_eq!(
        apply_renderer_state_patch(
            &mut current,
            RENDERER_STATE_FIELD_CLEAR_COLOR | RENDERER_STATE_FIELD_RUNTIME_TAGS,
            Ok(red),
            &tags(&[("a", "1"), ("a", "2")]),
            LIMITS,
        ),
        Err("runtime_tags contains duplicate key \"a\"".to_string())
    );
    assert_eq!(current, state());
    assert_eq!(
        apply_renderer_state_patch(
            &mut current,
            RENDERER_STATE_FIELD_CLEAR_COLOR,
            Err("clear_color contains a non-finite value".into()),
            &[],
            LIMITS,
        ),
        Err("clear_color contains a non-finite value".to_string())
    );
    assert_eq!(
        apply_renderer_state_patch(&mut current, RENDERER_STATE_FIELD_CLEAR_COLOR, Ok(red), &[], LIMITS),
        Ok(RENDERER_STATE_FIELD_CLEAR_COLOR)
    );
    assert_eq!(current.clear_rgba, red);
    assert_eq!(
        apply_renderer_state_patch(
            &mut current,
            RENDERER_STATE_FIELD_CLEAR_COLOR | RENDERER_STATE_FIELD_RUNTIME_TAGS,
            Ok(red),
            &tags(&[("scene", "x")]),
            LIMITS,
        ),
        Ok(RENDERER_STATE_FIELD_RUNTIME_TAGS)
    );
    assert_eq!(
        apply_renderer_state_patch(
            &mut current,
            RENDERER_STATE_FIELD_RUNTIME_TAGS,
            Err("ignored".into()),
            &tags(&[("scene", "x")]),
            LIMITS,
        ),
        Ok(0)
    );
    assert_eq!(current.runtime_tags.len(), 1);
}
