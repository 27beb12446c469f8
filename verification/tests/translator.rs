use subsforge::config::TranslatorConfig;
use subsforge::error::SubsForgeError;
use subsforge::pipeline::translator::{
    health_url, to_nllb_code, translate_request, translate_url, TranslateAction, TranslateEvent,
    TranslateRetry,
};

fn delay(a: &TranslateAction) -> u64 {
    match a {
        TranslateAction::Send { delay_seconds } => *delay_seconds,
        TranslateAction::Finish(_) => panic!("finished"),
    }
}

fn failure(a: TranslateAction) -> String {
    match a {
        TranslateAction::Finish(Err(SubsForgeError::Translation(m))) => m,
        _ => panic!("expected a translation failure"),
    }
}

#[test]
fn nllb_codes() {
    assert_eq!(to_nllb_code("en"), "eng_Latn");
    assert_eq!(to_nllb_code("fr"), "fra_Latn");
    assert_eq!(to_nllb_code("ja"), "jpn_Jpan");
    assert_eq!(to_nllb_code("zh"), "zho_Hans");
    assert_eq!(to_nllb_code("no"), "nob_Latn");
    assert_eq!(to_nllb_code("xx"), "xx");
}

#[test]
fn nllb_code_passes_nllb_codes_through() {
    for c in ["en", "fr", "ko", "ru", "ar", "sv", "fra_Latn", "ukr_Cyrl", ""] {
        assert_eq!(to_nllb_code(to_nllb_code(c)), to_nllb_code(c));
    }
}

#[test]
fn request_and_urls() {
    let texts = vec!["Hello".to_string(), "Bye".to_string()];
    let r = translate_request(&texts, "en", "de");
    assert_eq!(r.text, texts);
    assert_eq!(r.source_lang, "eng_Latn");
    assert_eq!(r.target_lang, "deu_Latn");
    let c = TranslatorConfig { endpoint: "http://nllb:8000".to_string(), timeout_seconds: 5, max_retries: 1 };
    assert_eq!(translate_url(&c), "http://nllb:8000/translate");
    assert_eq!(health_url(&c), "http://nllb:8000/health");
}

#[test]
fn retry_succeeds_on_first_attempt() {
    let (mut st, first) = TranslateRetry::start(3, 2);
    assert_eq!(delay(&first), 0);
    match st.step(TranslateEvent::Translated(vec!["a".into(), "b".into()])) {
        TranslateAction::Finish(Ok(v)) => assert_eq!(v, vec!["a".to_string(), "b".to_string()]),
        _ => panic!("expected the translations"),
    }
}

#[test]
fn retry_backs_off_then_gives_up_with_last_failure() {
    let (mut st, first) = TranslateRetry::start(3, 2);
    assert_eq!(delay(&first), 0);
    let a = st.step(TranslateEvent::RequestFailed("connection refused".into()));
    assert_eq!(delay(&a), 2);
    let a = st.step(TranslateEvent::HttpStatus("503 Service Unavailable".into()));
    assert_eq!(delay(&a), 4);
    assert_eq!(st.last_error, Some("HTTP 503 Service Unavailable".to_string()));
    let a = st.step(TranslateEvent::Translated(vec!["only".into()]));
    assert_eq!(failure(a), "translation count mismatch: sent 2, got 1");
    assert_eq!(st.attempt, 3);
}

#[test]
fn retry_recovers_after_failure() {
    let (mut st, _) = TranslateRetry::start(2, 1);
    let a = st.step(TranslateEvent::HttpStatus("500 Internal Server Error".into()));
    assert_eq!(delay(&a), 2);
    match st.step(TranslateEvent::Translated(vec!["ok".into()])) {
        TranslateAction::Finish(Ok(v)) => assert_eq!(v, vec!["ok".to_string()]),
        _ => panic!("expected the translations"),
    }
}

#[test]
fn unreadable_body_fails_at_once() {
    let (mut st, _) = TranslateRetry::start(5, 1);
    let a = st.step(TranslateEvent::InvalidBody("expected value at line 1".into()));
    assert_eq!(failure(a), "invalid response: expected value at line 1");
}

#[test]
fn no_attempt_allowed() {
    let (_, a) = TranslateRetry::start(0, 4);
    assert_eq!(failure(a), "unknown error");
}

#[test]
fn single_attempt_failure_is_reported() {
    let (mut st, _) = TranslateRetry::start(1, 1);
    let a = st.step(TranslateEvent::RequestFailed("timeout".into()));
    assert_eq!(failure(a), "timeout");
}

#[test]
fn failures_are_recognised() {
    let (st, _) = TranslateRetry::start(3, 2);
    assert!(st.fails(&TranslateEvent::RequestFailed("x".into())));
    assert!(st.fails(&TranslateEvent::HttpStatus("404 Not Found".into())));
    assert!(st.fails(&TranslateEvent::Translated(vec!["a".into()])));
    assert!(!st.fails(&TranslateEvent::Translated(vec!["a".into(), "b".into()])));
    assert!(!st.fails(&TranslateEvent::InvalidBody("x".into())));
}

#[test]
fn many_retries_allowed_while_waits_fit() {
    let (mut st, _) = TranslateRetry::start(100, 1);
    for k in 1..=63u32 {
        let a = st.step(TranslateEvent::RequestFailed("down".into()));
        assert_eq!(delay(&a), 1u64 << k);
    }
    match st.step(TranslateEvent::Translated(vec!["ok".into()])) {
        TranslateAction::Finish(Ok(v)) => assert_eq!(v, vec!["ok".to_string()]),
        _ => panic!("expected the translations"),
    }
}
