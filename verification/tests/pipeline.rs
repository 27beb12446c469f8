use subsforge::error::SubsForgeError;
use subsforge::models::Translation;
use subsforge::pipeline::whisper::WhisperResult;
use subsforge::pipeline::{JobAction, JobEvent, JobPhase, JobRun};

const SAMPLE_SRT: &str = "1\n00:00:01,000 --> 00:00:04,000\nHello world\n\n2\n00:00:05,000 --> 00:00:08,000\nHow are you?\n";

fn opt(o: &Option<String>) -> String {
    match o {
        Some(s) => s.clone(),
        None => "-".to_string(),
    }
}

fn describe(a: &JobAction) -> String {
    match a {
        JobAction::SetJobStatus { status, failure_reason } => format!("job {status} {}", opt(failure_reason)),
        JobAction::ExtractAudio => "extract".to_string(),
        JobAction::Transcribe => "transcribe".to_string(),
        JobAction::SetJobLanguage(l) => format!("language {l}"),
        JobAction::WriteFile { path, content } => format!("write {path} {content:?}"),
        JobAction::LoadTranslations => "load".to_string(),
        JobAction::SetTranslationStatus { id, status, srt_path, failure_reason } => {
            format!("translation {id} {status} {} {}", opt(srt_path), opt(failure_reason))
        }
        JobAction::Translate { texts, source_lang, target_lang } => {
            format!("translate {source_lang}->{target_lang} {}", texts.join("|"))
        }
        JobAction::Fail(e) => format!("fail {}", e.message()),
        JobAction::Succeed => "succeed".to_string(),
    }
}

fn run(r: &mut JobRun, e: JobEvent) -> Vec<String> {
    r.step(e).iter().map(describe).collect()
}

fn translation(id: i64, lang: &str, status: &str) -> Translation {
    Translation {
        id,
        job_id: 1,
        target_language: lang.to_string(),
        srt_path: None,
        status: status.to_string(),
        failure_reason: None,
        created_at: "now".to_string(),
        updated_at: "now".to_string(),
    }
}

fn transcribed(r: &mut JobRun, content: &str, lang: Option<&str>) -> Vec<String> {
    run(
        r,
        JobEvent::Transcribed(Ok(WhisperResult {
            srt_content: content.to_string(),
            detected_language: lang.map(|l| l.to_string()),
        })),
    )
}

#[test]
fn job_runs_to_completion() {
    let mut r = JobRun::new("/media/Movie.mkv", "auto", true);
    assert_eq!(run(&mut r, JobEvent::Begin), vec!["job extracting -", "extract"]);
    assert_eq!(run(&mut r, JobEvent::AudioExtracted(Ok(()))), vec!["job transcribing -", "transcribe"]);
    assert_eq!(
        transcribed(&mut r, SAMPLE_SRT, Some("en")),
        vec![
            "language en".to_string(),
            format!("write /media/Movie.en.srt {SAMPLE_SRT:?}"),
            "job translating -".to_string(),
            "load".to_string(),
        ]
    );
    assert!(r.phase == JobPhase::AwaitingTranslations);
    let ts = vec![translation(1, "en", "pending"), translation(2, "fr", "pending")];
    assert_eq!(
        run(&mut r, JobEvent::Translations(ts)),
        vec![
            format!("write /media/Movie.en.srt {SAMPLE_SRT:?}"),
            "translation 1 completed /media/Movie.en.srt -".to_string(),
            "translation 2 in_progress - -".to_string(),
            "translate en->fr Hello world|How are you?".to_string(),
        ]
    );
    assert!(r.phase == JobPhase::Translating);
    let fr = "1\n00:00:01,000 --> 00:00:04,000\nBonjour le monde\n\n2\n00:00:05,000 --> 00:00:08,000\nComment allez-vous ?\n";
    assert_eq!(
        run(&mut r, JobEvent::Translated(Ok(vec!["Bonjour le monde".into(), "Comment allez-vous ?".into()]))),
        vec![
            format!("write /media/Movie.fr.srt {fr:?}"),
            "translation 2 completed /media/Movie.fr.srt -".to_string(),
            "load".to_string(),
        ]
    );
    assert!(r.phase == JobPhase::Finalizing);
    let done = vec![translation(1, "en", "completed"), translation(2, "fr", "completed")];
    assert_eq!(run(&mut r, JobEvent::Translations(done)), vec!["job completed -", "succeed"]);
    assert!(r.phase == JobPhase::Done);
}

#[test]
fn extraction_failure_fails_the_job() {
    let mut r = JobRun::new("/media/a.mkv", "en", false);
    run(&mut r, JobEvent::Begin);
    assert_eq!(
        run(&mut r, JobEvent::AudioExtracted(Err(SubsForgeError::Ffmpeg("bad input".into())))),
        vec!["job failed ffmpeg failed: bad input", "fail ffmpeg failed: bad input"]
    );
    assert!(r.phase == JobPhase::Done);
}

#[test]
fn transcription_failure_fails_the_job() {
    let mut r = JobRun::new("/media/a.mkv", "en", false);
    run(&mut r, JobEvent::Begin);
    run(&mut r, JobEvent::AudioExtracted(Ok(())));
    assert_eq!(
        run(&mut r, JobEvent::Transcribed(Err(SubsForgeError::Whisper("crash".into())))),
        vec!["job failed whisper failed: crash", "fail whisper failed: crash"]
    );
}

#[test]
fn unparsable_transcript_fails_the_job() {
    let mut r = JobRun::new("/media/a.mkv", "de", true);
    run(&mut r, JobEvent::Begin);
    run(&mut r, JobEvent::AudioExtracted(Ok(())));
    assert_eq!(
        transcribed(&mut r, "\n", None),
        vec![
            "language de",
            "job failed SRT parse error: no subtitle entries found",
            "fail SRT parse error: no subtitle entries found",
        ]
    );
    assert!(r.phase == JobPhase::Done);
}

#[test]
fn failed_translations_fail_the_job() {
    let mut r = JobRun::new("/tv/S01E01.mkv", "ja", false);
    run(&mut r, JobEvent::Begin);
    run(&mut r, JobEvent::AudioExtracted(Ok(())));
    assert_eq!(transcribed(&mut r, SAMPLE_SRT, None), vec!["language ja", "job translating -", "load"]);
    let ts = vec![translation(5, "fr", "pending"), translation(6, "de", "pending")];
    assert_eq!(
        run(&mut r, JobEvent::Translations(ts)),
        vec!["translation 5 in_progress - -", "translate ja->fr Hello world|How are you?"]
    );
    assert_eq!(
        run(&mut r, JobEvent::Translated(Ok(vec!["un".into()]))),
        vec![
            "translation 5 failed - SRT parse error: entry count mismatch: 2 entries, 1 translations",
            "translation 6 in_progress - -",
            "translate ja->de Hello world|How are you?",
        ]
    );
    assert_eq!(
        run(&mut r, JobEvent::Translated(Err(SubsForgeError::Translation("HTTP 500".into())))),
        vec!["translation 6 failed - translation failed: HTTP 500", "load"]
    );
    let after = vec![translation(5, "fr", "failed"), translation(6, "de", "failed")];
    assert_eq!(
        run(&mut r, JobEvent::Translations(after)),
        vec!["job failed one or more translations failed", "succeed"]
    );
}

#[test]
fn unfinished_translations_leave_the_job_status() {
    let mut r = JobRun::new("/tv/x.mkv", "en", false);
    run(&mut r, JobEvent::Begin);
    run(&mut r, JobEvent::AudioExtracted(Ok(())));
    transcribed(&mut r, SAMPLE_SRT, Some("en"));
    assert_eq!(run(&mut r, JobEvent::Translations(vec![])), vec!["load"]);
    let mixed = vec![translation(1, "fr", "completed"), translation(2, "de", "in_progress")];
    assert_eq!(run(&mut r, JobEvent::Translations(mixed)), vec!["succeed"]);
}
