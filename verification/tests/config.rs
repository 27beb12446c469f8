use subsforge::config::{
    database_directory, default_auto, default_host, default_lookback, default_port,
    default_retries, default_timeout, default_true, expand_tilde, replace_tilde_with, ArrConfig,
    Config, DatabaseConfig, FfmpegConfig, GeneralConfig, PathMapping, ServerConfig,
    TranslatorConfig, WhisperConfig,
};
use subsforge::error::SubsForgeError;

fn config_with(mappings: Vec<(&str, &str)>) -> Config {
    Config {
        general: GeneralConfig {
            poll_interval_minutes: 15,
            target_languages: vec!["fr".to_string()],
            save_original_srt: true,
        },
        server: ServerConfig { host: "0.0.0.0".to_string(), port: 8385 },
        whisper: WhisperConfig {
            binary: "~/bin/whisper-cli".to_string(),
            model: "~/models/ggml.bin".to_string(),
            language: "auto".to_string(),
            extra_args: vec![],
        },
        ffmpeg: FfmpegConfig { binary: "/usr/bin/ffmpeg".to_string(), audio_track: 0 },
        translator: TranslatorConfig {
            endpoint: "http://localhost:8000".to_string(),
            timeout_seconds: 300,
            max_retries: 3,
        },
        sonarr: None,
        radarr: Some(ArrConfig {
            url: "http://radarr:7878".to_string(),
            api_key: "key".to_string(),
            lookback_days: 7,
        }),
        path_mappings: mappings
            .into_iter()
            .map(|(r, l)| PathMapping { remote_prefix: r.to_string(), local_prefix: l.to_string() })
            .collect(),
        database: DatabaseConfig { url: "sqlite:~/subsforge/db.sqlite?mode=rwc".to_string() },
    }
}

#[test]
fn defaults() {
    assert!(default_true());
    assert_eq!(default_host(), "0.0.0.0");
    assert_eq!(default_port(), 8385);
    assert_eq!(default_auto(), "auto");
    assert_eq!(default_timeout(), 300);
    assert_eq!(default_retries(), 3);
    assert_eq!(default_lookback(), 7);
}

#[test]
fn map_path_first_matching_mapping_wins() {
    let c = config_with(vec![("/data/media", "/mnt/media"), ("/data", "/mnt/data")]);
    assert_eq!(c.map_path("/data/media/Movies/x.mkv").unwrap(), "/mnt/media/Movies/x.mkv");
    assert_eq!(c.map_path("/data/other/y.mkv").unwrap(), "/mnt/data/other/y.mkv");
}

#[test]
fn map_path_strips_leading_slashes() {
    let c = config_with(vec![("/remote/", "/local")]);
    assert_eq!(c.map_path("/remote///tv/a.mkv").unwrap(), "/local/tv/a.mkv");
}

#[test]
fn map_path_matches_text_prefix() {
    let c = config_with(vec![("/data/media", "/mnt/media")]);
    assert_eq!(c.map_path("/data/mediafile.mkv").unwrap(), "/mnt/media/file.mkv");
}

#[test]
fn map_path_without_mapping_fails() {
    let c = config_with(vec![("/data", "/mnt/data")]);
    match c.map_path("/elsewhere/z.mkv") {
        Err(e) => {
            assert!(matches!(&e, SubsForgeError::PathMapping(p) if p == "/elsewhere/z.mkv"));
            assert_eq!(
                e.message(),
                "path mapping failed: remote path /elsewhere/z.mkv has no matching local mount"
            );
        }
        Ok(p) => panic!("mapped to {p}"),
    }
    let none = config_with(vec![]);
    assert!(none.map_path("/data/x").is_err());
}

#[test]
fn expand_tilde_moves_under_home() {
    assert_eq!(expand_tilde("~/models/x.bin", "/home/u"), "/home/u/models/x.bin");
    assert_eq!(expand_tilde("/opt/x.bin", "/home/u"), "/opt/x.bin");
    assert_eq!(expand_tilde("~user/x", "/home/u"), "~user/x");
}

#[test]
fn replace_tilde_everywhere() {
    assert_eq!(replace_tilde_with("sqlite:~/a~b", "/h"), "sqlite:/h/a/hb");
    assert_eq!(replace_tilde_with("plain", "/h"), "plain");
}

#[test]
fn expand_home_on_config() {
    let mut c = config_with(vec![]);
    c.expand_home("/home/u");
    assert_eq!(c.whisper.binary, "/home/u/bin/whisper-cli");
    assert_eq!(c.whisper.model, "/home/u/models/ggml.bin");
    assert_eq!(c.ffmpeg.binary, "/usr/bin/ffmpeg");
    assert_eq!(c.database.url, "sqlite:/home/u/subsforge/db.sqlite?mode=rwc");
    assert_eq!(c.whisper.language, "auto");
}

#[test]
fn listen_address_and_interval() {
    let c = config_with(vec![]);
    assert_eq!(c.server.listen_address(), "0.0.0.0:8385");
    assert_eq!(c.general.poll_interval_seconds(), 900);
}

#[test]
fn database_directory_of_urls() {
    assert_eq!(
        database_directory("sqlite:/var/lib/subsforge/db.sqlite?mode=rwc"),
        Some("/var/lib/subsforge".to_string())
    );
    assert_eq!(database_directory("sqlite:data/jobs.db"), Some("data".to_string()));
    assert_eq!(database_directory("postgres://host/db"), None);
}
