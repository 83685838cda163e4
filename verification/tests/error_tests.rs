use memobuild::error::{is_retryable, MemoBuildError};
use memobuild::events::TraceEvent;

#[test]
fn test_cas_error_display() {
    let err = MemoBuildError::CASIntegrityFailure {
        expected: "abc123def456".to_string(),
        actual: "xyz789uvw012".to_string(),
        data_size: 1024,
    };
    let msg = err.message();
    assert!(msg.contains("abc123de"));
    assert!(msg.contains("xyz789uv"));
    assert!(msg.contains("1024"));
}

#[test]
fn test_retryable_detection() {
    let network_err = MemoBuildError::NetworkError {
        message: "timeout".to_string(),
        retryable: true,
        attempt: 1,
    };
    assert!(is_retryable(&network_err));

    let integrity_err = MemoBuildError::CASIntegrityFailure {
        expected: "abc".to_string(),
        actual: "def".to_string(),
        data_size: 100,
    };
    assert!(!is_retryable(&integrity_err));
}

#[test]
fn test_cas_integrity_check() {
    let expected_hash = "abc123def456abc123def456abc123de".to_string();
    let actual_hash = "xyz789uvw012xyz789uvw012xyz789uv".to_string();
    let data_size = 2048;
    let err = MemoBuildError::CASIntegrityFailure {
        expected: expected_hash.clone(),
        actual: actual_hash.clone(),
        data_size,
    };
    let msg = err.message();
    assert!(msg.contains("integrity failure"));
    assert!(msg.contains("2048"));
    assert!(!is_retryable(&err));
}

#[test]
fn test_network_error_retryable() {
    let network_err = MemoBuildError::NetworkError {
        message: "connection timeout".to_string(),
        retryable: true,
        attempt: 1,
    };
    assert!(is_retryable(&network_err));

    let non_retryable = MemoBuildError::NetworkError {
        message: "connection refused".to_string(),
        retryable: false,
        attempt: 1,
    };
    assert!(!is_retryable(&non_retryable));
}

#[test]
fn test_storage_error_display() {
    let err = MemoBuildError::StorageError {
        operation: "write".to_string(),
        reason: "disk full".to_string(),
    };
    let msg = err.message();
    assert!(msg.contains("write"));
    assert!(msg.contains("disk full"));
}

#[test]
fn test_cache_coherency_error_display() {
    let err = MemoBuildError::CacheCoherencyError {
        hash: "abc123".to_string(),
        reason: "conflicting updates".to_string(),
    };
    let msg = err.message();
    assert!(msg.contains("abc123"));
    assert!(msg.contains("conflicting"));
}

#[test]
fn test_sync_error_recovered_state() {
    let recovered_err = MemoBuildError::SyncError {
        message: "partial sync".to_string(),
        recovered: true,
    };
    let msg = recovered_err.message();
    assert!(msg.contains("recovered"));

    let unrecovered_err = MemoBuildError::SyncError {
        message: "complete failure".to_string(),
        recovered: false,
    };
    let msg = unrecovered_err.message();
    assert!(!msg.contains("recovered"));
}

#[test]
fn test_trace_event_display() {
    let event = TraceEvent::BuildStarted { dockerfile: "Dockerfile".to_string() };
    let display = event.message();
    assert!(display.contains("Build started"));
}

#[test]
fn test_cache_hit_event_formatting() {
    let event = TraceEvent::CacheHit { hash: "abc123def456".to_string(), duration_ms: 42 };
    let display = event.message();
    assert!(display.contains("Cache hit"));
    assert!(display.contains("abc123de"));
    assert!(display.contains("42ms"));
}

#[test]
fn test_network_error_message_format() {
    let err = MemoBuildError::NetworkError {
        message: "timeout".to_string(),
        retryable: true,
        attempt: 3,
    };
    assert_eq!(err.message(), "Network error (attempt 3, retryable: true): timeout");
}

#[test]
fn test_constraint_violation_message() {
    let err = MemoBuildError::ConstraintViolation { reason: "quota exceeded".to_string() };
    assert_eq!(err.message(), "Constraint violation: quota exceeded");
}
