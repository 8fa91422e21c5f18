use wrapperd::config::{
    env_or, env_u16, listen_address, DEFAULT_DECRYPT_HOST, DEFAULT_DECRYPT_PORT, DEFAULT_HTTP_HOST,
    DEFAULT_HTTP_PORT,
};
use wrapperd::error::{worker_io_error, IoError, IoErrorKind, WorkerError};

#[test]
fn defaults() {
    assert_eq!(listen_address(DEFAULT_HTTP_HOST, DEFAULT_HTTP_PORT), "0.0.0.0:80");
    assert_eq!(listen_address(DEFAULT_DECRYPT_HOST, DEFAULT_DECRYPT_PORT), "0.0.0.0:10020");
}

#[test]
fn text_settings_fall_back_when_unset_or_empty() {
    assert_eq!(env_or(None, "0.0.0.0"), "0.0.0.0");
    assert_eq!(env_or(Some(String::new()), "0.0.0.0"), "0.0.0.0");
    assert_eq!(env_or(Some("127.0.0.1".to_string()), "0.0.0.0"), "127.0.0.1");
}

#[test]
fn numeric_settings_fall_back_unless_they_name_a_port() {
    let port = |v: &str| env_u16(Some(v.to_string()), 80);
    assert_eq!(env_u16(None, 80), 80);
    assert_eq!(port(""), 80);
    assert_eq!(port("0"), 80);
    assert_eq!(port("65536"), 80);
    assert_eq!(port("-1"), 80);
    assert_eq!(port(" 8080"), 80);
    assert_eq!(port("80a"), 80);
    assert_eq!(port("+"), 80);
    assert_eq!(port("8080"), 8080);
    assert_eq!(port("+8080"), 8080);
    assert_eq!(port("0008080"), 8080);
    assert_eq!(port("65535"), 65535);
    assert_eq!(port("1"), 1);
}

#[test]
fn worker_failures_become_plain_errors() {
    let e = worker_io_error(WorkerError { message: "gone".to_string() });
    assert_eq!(e.kind, IoErrorKind::Other);
    assert_eq!(e.message, "gone");
    let e = IoError::new(IoErrorKind::InvalidInput, "no");
    assert_eq!(e.kind, IoErrorKind::InvalidInput);
    assert_eq!(e.message, "no");
}
