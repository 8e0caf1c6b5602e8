use orix::client::{body_prefix, is_retryable_packument_error, packument_retry_delay, packument_retry_step, ErrorCause, RegistryError, RetryStep};

#[test]
fn body_prefix_escapes_control_characters() {
    assert_eq!(body_prefix(b"hello\nworld"), "hello\\nworld");
}

#[test]
fn body_prefix_truncates_long_bodies() {
    let body = vec![b'a'; 250];
    let prefix = body_prefix(&body);
    assert_eq!(prefix.len(), 203);
    assert!(prefix.ends_with("..."));
    assert_eq!(body_prefix("é\u{7}".as_bytes()), "\\u{e9}\\u{7}");
}

#[test]
fn retry_delay_doubles_up_to_two_seconds() {
    assert_eq!(packument_retry_delay(0), 250);
    assert_eq!(packument_retry_delay(1), 500);
    assert_eq!(packument_retry_delay(2), 1000);
    assert_eq!(packument_retry_delay(7), 2000);
    assert_eq!(packument_retry_step(0, true), RetryStep::RetryAfter(250));
    assert_eq!(packument_retry_step(5, true), RetryStep::Exhausted);
    assert_eq!(packument_retry_step(1, false), RetryStep::Fail);
}

#[test]
fn retryable_errors_are_body_reads_network_and_server_failures() {
    let cause = |message: &str, registry: Option<RegistryError>| ErrorCause {
        message: message.to_string(),
        transport: None,
        registry,
    };
    assert!(is_retryable_packument_error(&vec![cause("failed to read response body", None)]));
    assert!(is_retryable_packument_error(&vec![cause("x", Some(RegistryError::Http(503, String::new())))]));
    assert!(is_retryable_packument_error(&vec![cause("x", Some(RegistryError::Http(429, String::new())))]));
    assert!(!is_retryable_packument_error(&vec![cause("x", Some(RegistryError::Http(404, String::new())))]));
    assert!(!is_retryable_packument_error(&vec![cause("plain", None)]));
    assert!(is_retryable_packument_error(&vec![
        cause("plain", None),
        cause("y", Some(RegistryError::Network("reset".to_string()))),
    ]));
}

#[test]
fn exhausted_fetches_name_the_attempts() {
    assert_eq!(orix::client::PACKUMENT_MAX_RETRIES, 6);
    assert_eq!(
        orix::client::exhausted_message("http://127.0.0.1:1/demo"),
        "failed to fetch packument from http://127.0.0.1:1/demo after 6 attempts"
    );
}
