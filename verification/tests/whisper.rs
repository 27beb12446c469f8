use subsforge::config::{FfmpegConfig, WhisperConfig};
use subsforge::error::SubsForgeError;
use subsforge::pipeline::ffmpeg::{extraction_result, ffmpeg_args};
use subsforge::pipeline::srt::parse;
use subsforge::pipeline::whisper::{
    parse_detected_language, stdout_to_srt, subtitle_count, transcription_result, whisper_args,
    whisper_srt_path,
};

fn whisper_config(language: &str) -> WhisperConfig {
    WhisperConfig {
        binary: "whisper-cli".to_string(),
        model: "/m/ggml.bin".to_string(),
        language: language.to_string(),
        extra_args: vec!["-t".to_string(), "4".to_string()],
    }
}

#[test]
fn stdout_lines_become_srt() {
    let out = "[00:00:00.000 --> 00:00:02.500]   Hello there\n[00:00:02.500 --> 00:00:04.000]  \nnoise\n  [00:00:04.000 --> 00:00:05.000] Bye  \n";
    assert_eq!(
        stdout_to_srt(out),
        "1\n00:00:00,000 --> 00:00:02,500\nHello there\n\n2\n00:00:04,000 --> 00:00:05,000\nBye\n"
    );
}

#[test]
fn stdout_without_entries() {
    assert_eq!(stdout_to_srt(""), "\n");
    assert_eq!(stdout_to_srt("[no closing bracket\n"), "\n");
}

#[test]
fn detected_language_formats() {
    assert_eq!(
        parse_detected_language("init\nwhisper_full: auto-detected language: en (p = 0.97)\n"),
        Some("en".to_string())
    );
    assert_eq!(
        parse_detected_language("main: processing, lang = fr, task = transcribe\n"),
        Some("fr".to_string())
    );
    assert_eq!(parse_detected_language("lang = , task\nnothing here"), None);
    assert_eq!(parse_detected_language("auto-detected language: \nlang = de"), Some("de".to_string()));
}

#[test]
fn whisper_arguments() {
    assert_eq!(
        whisper_args(&whisper_config("auto"), "/tmp/a.wav"),
        vec!["-m", "/m/ggml.bin", "-f", "/tmp/a.wav", "--output-srt", "-t", "4"]
    );
    assert_eq!(
        whisper_args(&whisper_config("fr"), "/tmp/a.wav"),
        vec!["-m", "/m/ggml.bin", "-f", "/tmp/a.wav", "--output-srt", "-l", "fr", "-t", "4"]
    );
}

#[test]
fn whisper_writes_beside_audio() {
    assert_eq!(whisper_srt_path("/tmp/abc.wav"), "/tmp/abc.wav.srt");
}

#[test]
fn transcription_outcomes() {
    match transcription_result(false, None, "", "model not found") {
        Err(SubsForgeError::Whisper(m)) => assert_eq!(m, "model not found"),
        _ => panic!("expected a whisper error"),
    }
    let w = transcription_result(true, Some("1\na --> b\nx\n".to_string()), "ignored", "lang = es, x")
        .unwrap();
    assert_eq!(w.srt_content, "1\na --> b\nx\n");
    assert_eq!(w.detected_language, Some("es".to_string()));
    let w = transcription_result(true, None, "[0.0 --> 1.0] hi", "").unwrap();
    assert_eq!(w.srt_content, "1\n0,0 --> 1,0\nhi\n");
    assert_eq!(w.detected_language, None);
}

#[test]
fn ffmpeg_arguments() {
    let first = FfmpegConfig { binary: "ffmpeg".to_string(), audio_track: 0 };
    assert_eq!(
        ffmpeg_args(&first, "/in.mkv", "/out.wav"),
        vec![
            "-i", "/in.mkv", "-vn", "-ar", "16000", "-ac", "1", "-c:a", "pcm_s16le", "-y",
            "-loglevel", "error", "/out.wav"
        ]
    );
    let second = FfmpegConfig { binary: "ffmpeg".to_string(), audio_track: 12 };
    assert_eq!(
        ffmpeg_args(&second, "/in.mkv", "/out.wav"),
        vec![
            "-i", "/in.mkv", "-vn", "-ar", "16000", "-ac", "1", "-c:a", "pcm_s16le", "-map",
            "0:a:12", "-y", "-loglevel", "error", "/out.wav"
        ]
    );
}

#[test]
fn ffmpeg_outcomes() {
    assert!(extraction_result(true, "").is_ok());
    match extraction_result(false, "no such file") {
        Err(e) => assert_eq!(e.message(), "ffmpeg failed: no such file"),
        Ok(()) => panic!("accepted"),
    }
}

#[test]
fn converted_output_parses_back() {
    let out = "[00:00:00.000 --> 00:00:01.000]  One\n\n[00:00:01.000 --> 00:00:02.000] Two\r\n";
    let entries = parse(&stdout_to_srt(out)).unwrap();
    assert_eq!(entries.len(), 2);
    assert_eq!(entries[0].sequence, 1);
    assert_eq!(entries[0].timestamp, "00:00:00,000 --> 00:00:01,000");
    assert_eq!(entries[0].text, "One");
    assert_eq!(entries[1].sequence, 2);
    assert_eq!(entries[1].timestamp, "00:00:01,000 --> 00:00:02,000");
    assert_eq!(entries[1].text, "Two");
}

#[test]
fn subtitle_count_of_console_output() {
    assert_eq!(subtitle_count("[0 --> 1] a\n[1 --> 2]   \nplain\n[2 --> 3] b"), 2);
    assert_eq!(subtitle_count(""), 0);
}
