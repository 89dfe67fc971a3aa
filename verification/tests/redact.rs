use waywallen::redact::redact_secrets;

#[test]
fn header_values_are_redacted_to_the_end_of_line() {
    assert_eq!(
        redact_secrets("GET /\r\nAuthorization: Bearer abc\r\nCookie: a=b; c=d\nHost: x"),
        "GET /\r\nAuthorization: [REDACTED]\r\nCookie: [REDACTED]\nHost: x"
    );
    assert_eq!(redact_secrets("cookie: tail"), "cookie: [REDACTED]");
}

#[test]
fn token_values_are_redacted_to_a_delimiter() {
    assert_eq!(
        redact_secrets("https://x/?access_token=abc&refresh_token=def ok"),
        "https://x/?access_token=[REDACTED]&refresh_token=[REDACTED] ok"
    );
    assert_eq!(
        redact_secrets(r#"{"access_token": "abc","refresh_token":"x"}"#),
        r#"{"access_token": "[REDACTED]","refresh_token":"[REDACTED]"}"#
    );
    assert_eq!(redact_secrets("cookie=1,authorization=2]"), "cookie=[REDACTED],authorization=[REDACTED]]");
}

#[test]
fn messages_without_secrets_are_unchanged() {
    assert_eq!(redact_secrets("plain message é"), "plain message é");
    assert_eq!(redact_secrets(""), "");
    assert_eq!(redact_secrets("access_token="), "access_token=[REDACTED]");
}
