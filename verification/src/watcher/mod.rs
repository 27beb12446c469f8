//! Watching Sonarr and Radarr: every media file of their libraries becomes a
//! job, and each job still pending is processed when its file is found
//! locally. The decisions of a polling cycle are a state machine; whoever runs
//! it performs the actions and reports what came back.
use vstd::prelude::*;

pub mod radarr;
pub mod sonarr;

use crate::config::{mapped_from, mappings_view, ArrConfig, Config};
use crate::error::{message_of, ErrorView, SubsForgeError};
use crate::models::Job;
use crate::pipeline::copy_strings;
use crate::text::{str_eq, string_views};
use self::sonarr::{items_view, ItemView, MediaItem};

verus! {

/// The address of a resource of the Sonarr or Radarr API: `{url}/api/v3/{resource}`.
pub fn api_url(config: &ArrConfig, resource: &str) -> (r: String)
    ensures
        r@ == config.url@ + "/api/v3/"@ + resource@,
{
    let mut r = config.url.clone();
    r.append("/api/v3/");
    r.append(resource);
    r
}

/// A media item and the service (`sonarr` or `radarr`) that offered it.
pub struct SourcedItem {
    pub source: String,
    pub item: MediaItem,
}

pub open spec fn sourced_view(v: Seq<SourcedItem>) -> Seq<(Seq<char>, ItemView)> {
    v.map_values(|s: SourcedItem| (s.source@, s.item@))
}

pub open spec fn tagged(source: Seq<char>, items: Seq<ItemView>) -> Seq<(Seq<char>, ItemView)> {
    items.map_values(|i: ItemView| (source, i))
}

pub open spec fn or_none(items: Option<Vec<MediaItem>>) -> Seq<ItemView> {
    match items {
        Some(v) => items_view(v@),
        None => Seq::empty(),
    }
}

/// The items of a cycle: Sonarr's, then Radarr's.
pub open spec fn gathered(
    sonarr: Option<Vec<MediaItem>>,
    radarr: Option<Vec<MediaItem>>,
) -> Seq<(Seq<char>, ItemView)> {
    tagged("sonarr"@, or_none(sonarr)) + tagged("radarr"@, or_none(radarr))
}

/// A step of a polling cycle for its runner to perform, in order.
pub enum PollAction {
    /// Record a job for the media file (or find the one recorded), with a
    /// translation for each target language; report `JobCreated`.
    CreateJob {
        media_path: String,
        source: String,
        source_id: Option<i64>,
        title: Option<String>,
        target_languages: Vec<String>,
    },
    /// Read the job; report `JobLoaded`.
    LoadJob(i64),
    /// Mark the job failed, for this reason.
    FailJob { job_id: i64, reason: String },
    /// Look whether the file exists; report `FileChecked`.
    CheckFile(String),
    /// Run the pipeline for the job on this local file; report `Processed`.
    Process { job_id: i64, local_path: String },
    /// The cycle is over.
    Finish,
}

/// A step as a mathematical value.
pub enum PollActionView {
    CreateJob(Seq<char>, Seq<char>, Option<i64>, Option<Seq<char>>, Seq<Seq<char>>),
    LoadJob(i64),
    FailJob(i64, Seq<char>),
    CheckFile(Seq<char>),
    Process(i64, Seq<char>),
    Finish,
}

impl View for PollAction {
    type V = PollActionView;

    open spec fn view(&self) -> PollActionView {
        match self {
            PollAction::CreateJob { media_path, source, source_id, title, target_languages } =>
                PollActionView::CreateJob(
                media_path@,
                source@,
                *source_id,
                match title {
                    Some(t) => Some(t@),
                    None => None,
                },
                string_views(target_languages@),
            ),
            PollAction::LoadJob(id) => PollActionView::LoadJob(*id),
            PollAction::FailJob { job_id, reason } => PollActionView::FailJob(*job_id, reason@),
            PollAction::CheckFile(p) => PollActionView::CheckFile(p@),
            PollAction::Process { job_id, local_path } => PollActionView::Process(
                *job_id,
                local_path@,
            ),
            PollAction::Finish => PollActionView::Finish,
        }
    }
}

pub open spec fn poll_actions_view(v: Seq<PollAction>) -> Seq<PollActionView> {
    v.map_values(|a: PollAction| a@)
}

/// What the runner reports after performing an action.
pub enum PollEvent {
    JobCreated(i64),
    JobLoaded(Option<Job>),
    FileChecked(bool),
    Processed,
}

/// Where a cycle stands.
#[derive(PartialEq, Eq, Structural)]
pub enum PollPhase {
    Creating,
    Loading,
    Checking,
    Processing,
    Done,
}

/// A polling cycle over the items that Sonarr and Radarr offered.
pub struct PollRun {
    pub phase: PollPhase,
    pub items: Vec<SourcedItem>,
    pub next: usize,
    pub job_id: i64,
    pub local_path: String,
}

/// The step that begins the item at index `i`: record its job, with the
/// item's path, source, id and title and the languages `langs`; when no item
/// is left, the end of the cycle.
pub open spec fn begin_item(items: Seq<(Seq<char>, ItemView)>, i: int, langs: Seq<Seq<char>>) -> PollActionView {
    if 0 <= i < items.len() {
        PollActionView::CreateJob(
            items[i].1.path,
            items[i].0,
            Some(items[i].1.source_id),
            Some(items[i].1.title),
            langs,
        )
    } else {
        PollActionView::Finish
    }
}

/// The phase in which a cycle waits once it has begun the item at index `i`.
pub open spec fn phase_at(i: int, n: int) -> PollPhase {
    if i < n {
        PollPhase::Creating
    } else {
        PollPhase::Done
    }
}

/// Which event each phase waits for.
pub open spec fn poll_accepts(phase: PollPhase, event: PollEvent) -> bool {
    match (phase, event) {
        (PollPhase::Creating, PollEvent::JobCreated(_)) => true,
        (PollPhase::Loading, PollEvent::JobLoaded(_)) => true,
        (PollPhase::Checking, PollEvent::FileChecked(_)) => true,
        (PollPhase::Processing, PollEvent::Processed) => true,
        _ => false,
    }
}

/// A job that was already taken up: one whose status is no longer `pending`.
pub open spec fn taken_up(job: Option<Job>) -> bool {
    match job {
        Some(j) => j.status@ != "pending"@,
        None => false,
    }
}

fn gather_into(out: &mut Vec<SourcedItem>, source: &str, items: &Option<Vec<MediaItem>>)
    ensures
        sourced_view(final(out)@) == sourced_view(old(out)@) + tagged(source@, or_none(*items)),
{
    let ghost start = sourced_view(out@);
    match items {
        Some(v) => {
            let ghost iv = items_view(v@);
            for k in 0..v.len()
                invariant
                    iv == items_view(v@),
                    sourced_view(out@) == start + tagged(source@, iv.take(k as int)),
            {
                let ghost before = sourced_view(out@);
                let m = &v[k];
                let item = MediaItem {
                    path: m.path.clone(),
                    title: m.title.clone(),
                    source_id: m.source_id,
                };
                out.push(SourcedItem { source: String::from_str(source), item });
                assert(iv[k as int] == m@);
                assert(sourced_view(out@) =~= before.push((source@, iv[k as int])));
                assert(tagged(source@, iv.take(k + 1)) =~= tagged(source@, iv.take(k as int)).push(
                    (source@, iv[k as int]),
                ));
            }
            assert(iv.take(v@.len() as int) =~= iv);
        },
        None => {
            assert(sourced_view(out@) =~= start + tagged(source@, Seq::<ItemView>::empty()));
        },
    }
}

impl PollRun {
    /// What holds between the fields of a cycle under way.
    pub open spec fn wf(&self) -> bool {
        self.phase != PollPhase::Done ==> self.next < self.items@.len()
    }

    fn begin(&self, config: &Config) -> (r: PollAction)
        requires
            self.next <= self.items@.len(),
        ensures
            r@ == begin_item(
                sourced_view(self.items@),
                self.next as int,
                string_views(config.general.target_languages@),
            ),
    {
        if self.next < self.items.len() {
            let s = &self.items[self.next];
            PollAction::CreateJob {
                media_path: s.item.path.clone(),
                source: s.source.clone(),
                source_id: Some(s.item.source_id),
                title: Some(s.item.title.clone()),
                target_languages: copy_strings(&config.general.target_languages),
            }
        } else {
            PollAction::Finish
        }
    }

    /// A cycle over the items that Sonarr offered, then those that Radarr
    /// offered (`None` for a service that is not configured or could not be
    /// read), with its first step.
    pub fn new(
        config: &Config,
        sonarr: Option<Vec<MediaItem>>,
        radarr: Option<Vec<MediaItem>>,
    ) -> (r: (PollRun, PollAction))
        ensures
            sourced_view(r.0.items@) == gathered(sonarr, radarr),
            r.0.next == 0,
            r.0.phase == phase_at(0, r.0.items@.len() as int),
            r.1@ == begin_item(
                gathered(sonarr, radarr),
                0,
                string_views(config.general.target_languages@),
            ),
            r.0.wf(),
    {
        let ghost g = gathered(sonarr, radarr);
        let mut items: Vec<SourcedItem> = Vec::new();
        assert(sourced_view(items@) =~= Seq::<(Seq<char>, ItemView)>::empty());
        gather_into(&mut items, "sonarr", &sonarr);
        gather_into(&mut items, "radarr", &radarr);
        assert(sourced_view(items@) =~= g);
        let phase = if items.len() > 0 {
            PollPhase::Creating
        } else {
            PollPhase::Done
        };
        let run = PollRun { phase, items, next: 0, job_id: 0, local_path: String::new() };
        let first = run.begin(config);
        (run, first)
    }

    /// Decides what the runner does next, given what came back:
    /// - a job recorded: read it back;
    /// - the job read: a job already taken up is left alone and the next item
    ///   begun; otherwise its path is mapped to a local one, and the file
    ///   looked for there; a path no mapping covers fails the job with the
    ///   mapping error's message, and the next item is begun;
    /// - the file looked for: a missing file fails the job with the message
    ///   of a file-not-found error; a present one is processed;
    /// - the item processed, whatever the outcome: the next item is begun.
    pub fn step(&mut self, config: &Config, event: PollEvent) -> (r: Vec<PollAction>)
        requires
            old(self).wf(),
            poll_accepts(old(self).phase, event),
        ensures
            final(self).wf(),
            final(self).items == old(self).items,
            ({
                let items = sourced_view(old(self).items@);
                let n = items.len() as int;
                let i = old(self).next as int;
                let path = items[i].1.path;
                let langs = string_views(config.general.target_languages@);
                let ms = mappings_view(config.path_mappings@);
                let next_item = seq![begin_item(items, i + 1, langs)];
                let moved_on = final(self).next == i + 1 && final(self).phase == phase_at(i + 1, n);
                &&& event matches PollEvent::JobCreated(id) ==> {
                    &&& poll_actions_view(r@) == seq![PollActionView::LoadJob(id)]
                    &&& final(self).phase == PollPhase::Loading
                    &&& final(self).next == i
                    &&& final(self).job_id == id
                }
                &&& event matches PollEvent::JobLoaded(Some(j)) ==> j.status@ != "pending"@ ==> (
                poll_actions_view(r@) == next_item && moved_on)
                &&& event matches PollEvent::JobLoaded(Some(j)) ==> j.status@ == "pending"@ ==> (
                poll_actions_view(r@).len() >= 1 && (poll_actions_view(r@)[0] is CheckFile
                    || poll_actions_view(r@)[0] is FailJob))
                &&& event matches PollEvent::JobLoaded(None) ==> (poll_actions_view(r@).len() >= 1
                    && (poll_actions_view(r@)[0] is CheckFile || poll_actions_view(r@)[0] is FailJob))
                &&& event matches PollEvent::JobLoaded(job) ==> {
                    if taken_up(job) {
                        poll_actions_view(r@) == next_item && moved_on
                    } else {
                        match mapped_from(ms, path, 0) {
                            Some(p) => {
                                &&& poll_actions_view(r@) == seq![PollActionView::CheckFile(p)]
                                &&& final(self).phase == PollPhase::Checking
                                &&& final(self).next == i
                                &&& final(self).job_id == old(self).job_id
                                &&& final(self).local_path@ == p
                            },
                            None => {
                                &&& poll_actions_view(r@) == seq![
                                    PollActionView::FailJob(
                                        old(self).job_id,
                                        message_of(ErrorView::PathMapping(path)),
                                    ),
                                ] + next_item
                                &&& moved_on
                            },
                        }
                    }
                }
                &&& event matches PollEvent::FileChecked(found) ==> if found {
                    &&& poll_actions_view(r@) == seq![
                        PollActionView::Process(old(self).job_id, old(self).local_path@),
                    ]
                    &&& final(self).phase == PollPhase::Processing
                    &&& final(self).next == i
                } else {
                    &&& poll_actions_view(r@) == seq![
                        PollActionView::FailJob(
                            old(self).job_id,
                            message_of(ErrorView::FileNotFound(old(self).local_path@)),
                        ),
                    ] + next_item
                    &&& moved_on
                }
                &&& event matches PollEvent::Processed ==> poll_actions_view(r@) == next_item
                    && moved_on
            }),
    {
        let ghost items = sourced_view(self.items@);
        let ghost langs = string_views(config.general.target_languages@);
        let i = self.next;
        assert(i < self.items.len());
        let mut out: Vec<PollAction> = Vec::new();
        match event {
            PollEvent::JobCreated(id) => {
                self.job_id = id;
                self.phase = PollPhase::Loading;
                out.push(PollAction::LoadJob(id));
                assert(poll_actions_view(out@) =~= seq![PollActionView::LoadJob(id)]);
                return out;
            },
            PollEvent::JobLoaded(job) => {
                let skip = match &job {
                    Some(j) => !str_eq(j.status.as_str(), "pending"),
                    None => false,
                };
                if !skip {
                    let path = &self.items[i].item.path;
                    assert(path@ == items[i as int].1.path);
                    match config.map_path(path.as_str()) {
                        Ok(local) => {
                            out.push(PollAction::CheckFile(local.clone()));
                            self.local_path = local;
                            self.phase = PollPhase::Checking;
                            assert(poll_actions_view(out@) =~= seq![
                                PollActionView::CheckFile(self.local_path@),
                            ]);
                            return out;
                        },
                        Err(e) => {
                            out.push(PollAction::FailJob { job_id: self.job_id, reason: e.message() });
                        },
                    }
                }
            },
            PollEvent::FileChecked(found) => {
                if found {
                    out.push(
                        PollAction::Process {
                            job_id: self.job_id,
                            local_path: self.local_path.clone(),
                        },
                    );
                    self.phase = PollPhase::Processing;
                    assert(poll_actions_view(out@) =~= seq![
                        PollActionView::Process(self.job_id, self.local_path@),
                    ]);
                    return out;
                } else {
                    let e = SubsForgeError::FileNotFound(self.local_path.clone());
                    out.push(PollAction::FailJob { job_id: self.job_id, reason: e.message() });
                }
            },
            PollEvent::Processed => {},
        }
        let ghost before = poll_actions_view(out@);
        self.next = i + 1;
        self.phase = if self.next < self.items.len() {
            PollPhase::Creating
        } else {
            PollPhase::Done
        };
        let a = self.begin(config);
        out.push(a);
        assert(poll_actions_view(out@) =~= before + seq![begin_item(items, i + 1, langs)]);
        out
    }
}

} // verus!
