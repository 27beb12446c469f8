//! What the HTTP API answers with, apart from the transport: the health
//! verdict, the defaults of job listing and job creation.
use vstd::prelude::*;

verus! {

/// The service's health, from its three checks.
pub struct HealthResponse {
    pub status: &'static str,
    pub whisper: bool,
    pub translator: bool,
    pub database: bool,
}

/// The service is healthy when the whisper files, the translator and the
/// database are all available, and degraded otherwise.
pub open spec fn health_status(whisper: bool, translator: bool, database: bool) -> Seq<char> {
    if database && translator && whisper {
        "healthy"@
    } else {
        "degraded"@
    }
}

impl HealthResponse {
    /// The answer to a health request, from whether the whisper binary and
    /// model exist, whether the translator answered, and whether the database did.
    pub fn from_checks(whisper: bool, translator: bool, database: bool) -> (r: HealthResponse)
        ensures
            r.status@ == health_status(whisper, translator, database),
            r.whisper == whisper,
            r.translator == translator,
            r.database == database,
    {
        let status = if database && translator && whisper {
            "healthy"
        } else {
            "degraded"
        };
        HealthResponse { status, whisper, translator, database }
    }
}

/// Which jobs to list: those of a status, at most `limit` of them.
pub struct ListParams {
    pub status: Option<String>,
    pub limit: Option<i64>,
}

impl ListParams {
    /// The most jobs to list: the limit asked for, else 50.
    pub fn effective_limit(&self) -> (r: i64)
        ensures
            r == match self.limit {
                Some(l) => l,
                None => 50,
            },
    {
        match self.limit {
            Some(l) => l,
            None => 50,
        }
    }
}

/// A request to process a media file.
pub struct CreateJobRequest {
    pub media_path: String,
    pub title: Option<String>,
}

impl CreateJobRequest {
    /// The title the job is recorded with: the one given, else `Manual job`.
    pub fn job_title(&self) -> (r: String)
        ensures
            r@ == match self.title {
                Some(t) => t@,
                None => "Manual job"@,
            },
    {
        match &self.title {
            Some(t) => t.clone(),
            None => String::from_str("Manual job"),
        }
    }
}

} // verus!
