//! Records of the job database and the statistics computed over it.
use vstd::prelude::*;

verus! {

/// A media file to produce subtitles for, and where its processing stands.
#[derive(Debug, Clone)]
pub struct Job {
    pub id: i64,
    pub media_path: String,
    pub source: String,
    pub source_id: Option<i64>,
    pub title: Option<String>,
    pub status: String,
    pub detected_language: Option<String>,
    pub failure_reason: Option<String>,
    pub created_at: String,
    pub updated_at: String,
}

/// One target language of a job, and where its subtitle stands.
#[derive(Debug, Clone)]
pub struct Translation {
    pub id: i64,
    pub job_id: i64,
    pub target_language: String,
    pub srt_path: Option<String>,
    pub status: String,
    pub failure_reason: Option<String>,
    pub created_at: String,
    pub updated_at: String,
}

/// A job with all its translations.
#[derive(Debug, Clone)]
pub struct JobWithTranslations {
    pub job: Job,
    pub translations: Vec<Translation>,
}

/// Counts of jobs by status.
#[derive(Debug, Clone)]
pub struct Stats {
    pub total: i64,
    pub pending: i64,
    pub completed: i64,
    pub failed: i64,
    pub in_progress: i64,
}

} // verus!
