use subsforge::config::{
    ArrConfig, Config, DatabaseConfig, FfmpegConfig, GeneralConfig, PathMapping, ServerConfig,
    TranslatorConfig, WhisperConfig,
};
use subsforge::models::Job;
use subsforge::watcher::radarr::{movie_items, Movie, MovieFile};
use subsforge::watcher::sonarr::{episode_items, series_title, EpisodeFile, MediaItem, Series};
use subsforge::watcher::{api_url, PollAction, PollEvent, PollPhase, PollRun};

fn config() -> Config {
    Config {
        general: GeneralConfig {
            poll_interval_minutes: 1,
            target_languages: vec!["fr".to_string(), "de".to_string()],
            save_original_srt: true,
        },
        server: ServerConfig { host: "127.0.0.1".to_string(), port: 1 },
        whisper: WhisperConfig {
            binary: "w".to_string(),
            model: "m".to_string(),
            language: "auto".to_string(),
            extra_args: vec![],
        },
        ffmpeg: FfmpegConfig { binary: "ffmpeg".to_string(), audio_track: 0 },
        translator: TranslatorConfig { endpoint: "e".to_string(), timeout_seconds: 1, max_retries: 1 },
        sonarr: None,
        radarr: None,
        path_mappings: vec![PathMapping { remote_prefix: "/data".to_string(), local_prefix: "/mnt".to_string() }],
        database: DatabaseConfig { url: "sqlite:x.db".to_string() },
    }
}

fn item(path: &str, title: &str, id: i64) -> MediaItem {
    MediaItem { path: path.to_string(), title: title.to_string(), source_id: id }
}

fn job(status: &str) -> Job {
    Job {
        id: 7,
        media_path: "/data/a.mkv".to_string(),
        source: "sonarr".to_string(),
        source_id: Some(1),
        title: None,
        status: status.to_string(),
        detected_language: None,
        failure_reason: None,
        created_at: "now".to_string(),
        updated_at: "now".to_string(),
    }
}

fn describe(a: &PollAction) -> String {
    match a {
        PollAction::CreateJob { media_path, source, source_id, title, target_languages } => format!(
            "create {media_path} {source} {:?} {:?} {}",
            source_id,
            title,
            target_languages.join(",")
        ),
        PollAction::LoadJob(id) => format!("load {id}"),
        PollAction::FailJob { job_id, reason } => format!("fail {job_id} {reason}"),
        PollAction::CheckFile(p) => format!("check {p}"),
        PollAction::Process { job_id, local_path } => format!("process {job_id} {local_path}"),
        PollAction::Finish => "finish".to_string(),
    }
}

fn step(r: &mut PollRun, c: &Config, e: PollEvent) -> Vec<String> {
    r.step(c, e).iter().map(describe).collect()
}

#[test]
fn episode_files_become_items() {
    let files = vec![
        EpisodeFile { id: 10, path: Some("/tv/Show/S01E02.mkv".into()), season_number: Some(1) },
        EpisodeFile { id: 11, path: None, season_number: Some(1) },
        EpisodeFile { id: 12, path: Some("/tv/Show/Special.mkv".into()), season_number: None },
        EpisodeFile { id: 13, path: Some("/tv/Show/S12E01.mkv".into()), season_number: Some(12) },
        EpisodeFile { id: 14, path: Some("/tv/Show/odd.mkv".into()), season_number: Some(-1) },
    ];
    let items = episode_items("Show", &files);
    let got: Vec<(String, String, i64)> =
        items.into_iter().map(|i| (i.path, i.title, i.source_id)).collect();
    assert_eq!(
        got,
        vec![
            ("/tv/Show/S01E02.mkv".to_string(), "Show S01 - S01E02".to_string(), 10),
            ("/tv/Show/Special.mkv".to_string(), "Show S00 - Special".to_string(), 12),
            ("/tv/Show/S12E01.mkv".to_string(), "Show S12 - S12E01".to_string(), 13),
            ("/tv/Show/odd.mkv".to_string(), "Show S-1 - odd".to_string(), 14),
        ]
    );
}

#[test]
fn series_titles() {
    assert_eq!(series_title(&Series { id: 1, title: Some("Lost".into()) }), "Lost");
    assert_eq!(series_title(&Series { id: 2, title: None }), "Unknown");
}

#[test]
fn movies_with_files_become_items() {
    let movies = vec![
        Movie { id: 1, title: Some("Movie".into()), year: Some(2024), has_file: Some(true), movie_file: Some(MovieFile { path: Some("/m/Movie.mkv".into()) }) },
        Movie { id: 2, title: Some("Gone".into()), year: None, has_file: Some(false), movie_file: Some(MovieFile { path: Some("/m/Gone.mkv".into()) }) },
        Movie { id: 3, title: None, year: Some(1999), has_file: Some(true), movie_file: Some(MovieFile { path: Some("/m/x.mkv".into()) }) },
        Movie { id: 4, title: Some("NoYear".into()), year: None, has_file: Some(true), movie_file: Some(MovieFile { path: Some("/m/n.mkv".into()) }) },
        Movie { id: 5, title: Some("Unknown file".into()), year: None, has_file: None, movie_file: Some(MovieFile { path: Some("/m/u.mkv".into()) }) },
        Movie { id: 6, title: Some("No file".into()), year: None, has_file: Some(true), movie_file: None },
        Movie { id: 7, title: Some("No path".into()), year: None, has_file: Some(true), movie_file: Some(MovieFile { path: None }) },
    ];
    let got: Vec<(String, String, i64)> =
        movie_items(&movies).into_iter().map(|i| (i.path, i.title, i.source_id)).collect();
    assert_eq!(
        got,
        vec![
            ("/m/Movie.mkv".to_string(), "Movie (2024)".to_string(), 1),
            ("/m/x.mkv".to_string(), "Unknown".to_string(), 3),
            ("/m/n.mkv".to_string(), "NoYear".to_string(), 4),
        ]
    );
}

#[test]
fn api_urls() {
    let c = ArrConfig { url: "http://sonarr:8989".to_string(), api_key: "k".to_string(), lookback_days: 7 };
    assert_eq!(api_url(&c, "series"), "http://sonarr:8989/api/v3/series");
    assert_eq!(api_url(&c, "episodefile"), "http://sonarr:8989/api/v3/episodefile");
}

#[test]
fn poll_cycle_over_items() {
    let c = config();
    let sonarr = vec![item("/data/tv/a.mkv", "Show S01 - a", 11), item("/other/b.mkv", "Show S01 - b", 12)];
    let radarr = vec![item("/data/m/c.mkv", "C (2020)", 3), item("/data/m/d.mkv", "D", 4)];
    let (mut r, first) = PollRun::new(&c, Some(sonarr), Some(radarr));
    assert_eq!(describe(&first), "create /data/tv/a.mkv sonarr Some(11) Some(\"Show S01 - a\") fr,de");
    assert_eq!(step(&mut r, &c, PollEvent::JobCreated(7)), vec!["load 7"]);
    assert_eq!(step(&mut r, &c, PollEvent::JobLoaded(Some(job("pending")))), vec!["check /mnt/tv/a.mkv"]);
    assert_eq!(step(&mut r, &c, PollEvent::FileChecked(true)), vec!["process 7 /mnt/tv/a.mkv"]);
    assert!(r.phase == PollPhase::Processing);
    assert_eq!(
        step(&mut r, &c, PollEvent::Processed),
        vec!["create /other/b.mkv sonarr Some(12) Some(\"Show S01 - b\") fr,de"]
    );
    assert_eq!(step(&mut r, &c, PollEvent::JobCreated(8)), vec!["load 8"]);
    assert_eq!(
        step(&mut r, &c, PollEvent::JobLoaded(None)),
        vec![
            "fail 8 path mapping failed: remote path /other/b.mkv has no matching local mount",
            "create /data/m/c.mkv radarr Some(3) Some(\"C (2020)\") fr,de",
        ]
    );
    assert_eq!(step(&mut r, &c, PollEvent::JobCreated(9)), vec!["load 9"]);
    assert_eq!(
        step(&mut r, &c, PollEvent::JobLoaded(Some(job("completed")))),
        vec!["create /data/m/d.mkv radarr Some(4) Some(\"D\") fr,de"]
    );
    assert_eq!(step(&mut r, &c, PollEvent::JobCreated(10)), vec!["load 10"]);
    assert_eq!(step(&mut r, &c, PollEvent::JobLoaded(Some(job("pending")))), vec!["check /mnt/m/d.mkv"]);
    assert_eq!(
        step(&mut r, &c, PollEvent::FileChecked(false)),
        vec!["fail 10 file not found: /mnt/m/d.mkv", "finish"]
    );
    assert!(r.phase == PollPhase::Done);
}

#[test]
fn poll_cycle_without_items() {
    let c = config();
    let (r, first) = PollRun::new(&c, None, Some(vec![]));
    assert_eq!(describe(&first), "finish");
    assert!(r.phase == PollPhase::Done);
}
