use subsforge::api::{CreateJobRequest, HealthResponse, ListParams};
use subsforge::error::SubsForgeError;
use subsforge::text::{decimal_string, signed_decimal};

#[test]
fn health_verdict() {
    let h = HealthResponse::from_checks(true, true, true);
    assert_eq!(h.status, "healthy");
    assert!(h.whisper && h.translator && h.database);
    let h = HealthResponse::from_checks(true, false, true);
    assert_eq!(h.status, "degraded");
    assert!(!h.translator);
    assert_eq!(HealthResponse::from_checks(false, true, true).status, "degraded");
    assert_eq!(HealthResponse::from_checks(true, true, false).status, "degraded");
}

#[test]
fn list_limit_defaults_to_fifty() {
    assert_eq!(ListParams { status: None, limit: None }.effective_limit(), 50);
    assert_eq!(ListParams { status: Some("failed".into()), limit: Some(5) }.effective_limit(), 5);
}

#[test]
fn manual_job_title() {
    let r = CreateJobRequest { media_path: "/m/a.mkv".into(), title: None };
    assert_eq!(r.job_title(), "Manual job");
    let r = CreateJobRequest { media_path: "/m/a.mkv".into(), title: Some("A".into()) };
    assert_eq!(r.job_title(), "A");
}

#[test]
fn error_messages() {
    let cases = [
        (SubsForgeError::Ffmpeg("x".into()), "ffmpeg failed: x"),
        (SubsForgeError::Whisper("x".into()), "whisper failed: x"),
        (SubsForgeError::Translation("x".into()), "translation failed: x"),
        (SubsForgeError::SrtParse("x".into()), "SRT parse error: x"),
        (SubsForgeError::FileNotFound("/a".into()), "file not found: /a"),
        (SubsForgeError::PathMapping("/r".into()), "path mapping failed: remote path /r has no matching local mount"),
        (SubsForgeError::Database("x".into()), "database error: x"),
        (SubsForgeError::Http("x".into()), "HTTP error: x"),
        (SubsForgeError::Io("x".into()), "IO error: x"),
    ];
    for (e, m) in cases {
        assert_eq!(e.message(), m);
    }
}

#[test]
fn decimal_notation() {
    assert_eq!(decimal_string(0), "0");
    assert_eq!(decimal_string(18446744073709551615), "18446744073709551615");
    assert_eq!(signed_decimal(-42), "-42");
    assert_eq!(signed_decimal(i64::MIN), "-9223372036854775808");
    assert_eq!(signed_decimal(2024), "2024");
}
