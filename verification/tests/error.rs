use marcel_ssh::{AppError, JsonValue};

#[test]
fn every_variant_has_its_kind_tag() {
    assert_eq!(AppError::Ssh("x".into()).kind(), "Ssh");
    assert_eq!(AppError::Sftp { message: "m".into(), code: 2 }.kind(), "Sftp");
    assert_eq!(AppError::Config("x".into()).kind(), "Config");
    assert_eq!(
        AppError::HostKeyMismatch {
            host: "h".into(),
            port: 22,
            stored_algorithm: "a".into(),
            stored_fingerprint: "f".into(),
            presented_algorithm: "b".into(),
            presented_fingerprint: "g".into(),
        }
        .kind(),
        "HostKeyMismatch"
    );
    assert_eq!(AppError::Cancelled("x".into()).kind(), "Cancelled");
    assert_eq!(AppError::Network("x".into()).kind(), "Network");
}

fn data_u64(e: &AppError, key: &str) -> Option<u64> {
    match e.data()?.get(key) {
        Some(JsonValue::Number(n)) => *n,
        _ => None,
    }
}

fn data_str(e: &AppError, key: &str) -> Option<String> {
    match e.data()?.get(key) {
        Some(JsonValue::Str(s)) => Some(s.clone()),
        _ => None,
    }
}

#[test]
fn ssh_serializes_correctly() {
    let e = AppError::Ssh("connection refused".into());
    assert_eq!(e.kind(), "Ssh");
    assert!(e.message().contains("connection refused"));
}

#[test]
fn sftp_serializes_with_code() {
    let e = AppError::Sftp { message: "no such file".into(), code: 2 };
    assert_eq!(e.kind(), "Sftp");
    assert_eq!(data_u64(&e, "code"), Some(2));
}

#[test]
fn sftp_serializes_without_code_on_old_variants() {
    let e = AppError::Llm("timeout".into());
    assert_eq!(e.kind(), "Llm");
    assert!(e.data().is_none());
}

#[test]
fn host_key_mismatch_serializes_full_data() {
    let e = AppError::HostKeyMismatch {
        host: "example.com".into(),
        port: 22,
        stored_algorithm: "ssh-ed25519".into(),
        stored_fingerprint: "SHA256:abc".into(),
        presented_algorithm: "ssh-ed25519".into(),
        presented_fingerprint: "SHA256:def".into(),
    };
    assert_eq!(e.kind(), "HostKeyMismatch");
    assert!(e.data().is_some(), "HostKeyMismatch must have data");
    assert_eq!(data_str(&e, "host").as_deref(), Some("example.com"));
    assert_eq!(data_u64(&e, "port"), Some(22));
    assert_eq!(data_str(&e, "storedAlgorithm").as_deref(), Some("ssh-ed25519"));
    assert_eq!(data_str(&e, "presentedFingerprint").as_deref(), Some("SHA256:def"));
    assert_eq!(
        e.message(),
        "Host key mismatch for example.com:22 (stored ssh-ed25519 SHA256:abc, presented ssh-ed25519 SHA256:def)"
    );
}

#[test]
fn display_output_is_meaningful() {
    let err = AppError::Ssh("refused".into());
    assert!(err.message().contains("refused"));

    let err = AppError::Sftp { message: "no file".into(), code: 2 };
    let s = err.message();
    assert!(s.contains("no file"));
    assert!(s.contains("2"));
    assert_eq!(s, "SFTP error (code 2): no file");
}

#[test]
fn every_variant_has_a_message() {
    assert_eq!(AppError::Other("plain".into()).message(), "plain");
    assert_eq!(AppError::Network("down".into()).message(), "Network error: down");
    assert_eq!(AppError::Config("bad".into()).message(), "Config error: bad");
    assert_eq!(AppError::Update("x".into()).message(), "Update error: x");
    assert_eq!(
        AppError::HostKeyVerification("x".into()).message(),
        "Host key verification failed: x"
    );
    assert!(AppError::Agent("x".into()).data().is_none());
}
