//! The processing of one media file: extract audio, transcribe, translate to
//! each target language, write the SRT files. The decisions are a state
//! machine; whoever runs it performs the actions and reports what came back.
use vstd::prelude::*;

pub mod ffmpeg;
pub mod srt;
pub mod translator;
pub mod whisper;

use crate::error::{error_message, ErrorView, SubsForgeError};
use crate::models::Translation;
use crate::naming::{srt_path, srt_path_spec};
use crate::text::{dec, str_eq, string_views};
use self::srt::{
    entries_view, extract_texts, parse, parse_spec, replace_texts, replaced, serialize,
    serialize_spec, texts_of, EntryView, SubtitleEntry,
};
use self::whisper::WhisperResult;

verus! {

/// A step of the pipeline for its runner to perform, in order.
pub enum JobAction {
    /// Record the job's status (and why it failed).
    SetJobStatus { status: String, failure_reason: Option<String> },
    /// Extract the media's audio; report `AudioExtracted`.
    ExtractAudio,
    /// Transcribe the extracted audio; report `Transcribed`.
    Transcribe,
    /// Record the job's source language.
    SetJobLanguage(String),
    /// Write `content` to the file at `path`.
    WriteFile { path: String, content: String },
    /// Read the job's translations; report `Translations`.
    LoadTranslations,
    /// Record a translation's status, subtitle path and failure reason.
    SetTranslationStatus {
        id: i64,
        status: String,
        srt_path: Option<String>,
        failure_reason: Option<String>,
    },
    /// Translate `texts`; report `Translated`.
    Translate { texts: Vec<String>, source_lang: String, target_lang: String },
    /// Stop: the job failed with this error.
    Fail(SubsForgeError),
    /// Stop: the job ran to its end.
    Succeed,
}

/// A step as a mathematical value.
pub enum ActionView {
    SetJobStatus(Seq<char>, Option<Seq<char>>),
    ExtractAudio,
    Transcribe,
    SetJobLanguage(Seq<char>),
    WriteFile(Seq<char>, Seq<char>),
    LoadTranslations,
    SetTranslationStatus(i64, Seq<char>, Option<Seq<char>>, Option<Seq<char>>),
    Translate(Seq<Seq<char>>, Seq<char>, Seq<char>),
    Fail(ErrorView),
    Succeed,
}

pub open spec fn opt_str(o: Option<String>) -> Option<Seq<char>> {
    match o {
        Some(s) => Some(s@),
        None => None,
    }
}

impl View for JobAction {
    type V = ActionView;

    open spec fn view(&self) -> ActionView {
        match self {
            JobAction::SetJobStatus { status, failure_reason } => ActionView::SetJobStatus(
                status@,
                opt_str(*failure_reason),
            ),
            JobAction::ExtractAudio => ActionView::ExtractAudio,
            JobAction::Transcribe => ActionView::Transcribe,
            JobAction::SetJobLanguage(l) => ActionView::SetJobLanguage(l@),
            JobAction::WriteFile { path, content } => ActionView::WriteFile(path@, content@),
            JobAction::LoadTranslations => ActionView::LoadTranslations,
            JobAction::SetTranslationStatus { id, status, srt_path, failure_reason } =>
                ActionView::SetTranslationStatus(
                *id,
                status@,
                opt_str(*srt_path),
                opt_str(*failure_reason),
            ),
            JobAction::Translate { texts, source_lang, target_lang } => ActionView::Translate(
                string_views(texts@),
                source_lang@,
                target_lang@,
            ),
            JobAction::Fail(e) => ActionView::Fail(e@),
            JobAction::Succeed => ActionView::Succeed,
        }
    }
}

pub open spec fn actions_view(v: Seq<JobAction>) -> Seq<ActionView> {
    v.map_values(|a: JobAction| a@)
}

/// What the runner reports after performing an action.
pub enum JobEvent {
    /// The run begins.
    Begin,
    /// How audio extraction ended.
    AudioExtracted(Result<(), SubsForgeError>),
    /// How transcription ended.
    Transcribed(Result<WhisperResult, SubsForgeError>),
    /// The job's translations, as stored.
    Translations(Vec<Translation>),
    /// How the translation of the current target language ended.
    Translated(Result<Vec<String>, SubsForgeError>),
}

/// Where a run stands.
#[derive(PartialEq, Eq, Structural)]
pub enum JobPhase {
    Start,
    Extracting,
    Transcribing,
    AwaitingTranslations,
    Translating,
    Finalizing,
    Done,
}

/// A run of the pipeline over one media file.
pub struct JobRun {
    pub phase: JobPhase,
    pub media_path: String,
    pub default_language: String,
    pub save_original_srt: bool,
    pub language: String,
    pub srt_content: String,
    pub entries: Vec<SubtitleEntry>,
    pub texts: Vec<String>,
    pub queue: Vec<Translation>,
    pub next: usize,
    /// The statuses the run has recorded for the job so far, in order.
    pub status_log: Ghost<Seq<Seq<char>>>,
    /// The status the run last recorded for each queued translation before `next`.
    pub outcomes: Ghost<Seq<Seq<char>>>,
    /// Every translation status the run has recorded, as (translation id, status), in order.
    pub row_log: Ghost<Seq<(i64, Seq<char>)>>,
}

/// A translation by id and target language.
pub open spec fn queue_view(q: Seq<Translation>) -> Seq<(i64, Seq<char>)> {
    q.map_values(|t: Translation| (t.id, t.target_language@))
}

pub open spec fn set_job(status: Seq<char>, reason: Option<Seq<char>>) -> ActionView {
    ActionView::SetJobStatus(status, reason)
}

pub open spec fn set_translation(
    id: i64,
    status: Seq<char>,
    path: Option<Seq<char>>,
    reason: Option<Seq<char>>,
) -> ActionView {
    ActionView::SetTranslationStatus(id, status, path, reason)
}

/// The actions that work through the translations from index `i` on: a
/// translation into the source language gets the transcript's SRT copied; the
/// first other one is marked in progress and sent for translation; when none
/// is left, the translations are read back.
pub open spec fn advance_actions(
    q: Seq<(i64, Seq<char>)>,
    i: int,
    lang: Seq<char>,
    media: Seq<char>,
    content: Seq<char>,
    texts: Seq<Seq<char>>,
) -> Seq<ActionView>
    decreases q.len() - i,
{
    if i < 0 || i >= q.len() {
        seq![ActionView::LoadTranslations]
    } else if q[i].1 == lang {
        let p = srt_path_spec(media, q[i].1);
        seq![
            ActionView::WriteFile(p, content),
            set_translation(q[i].0, "completed"@, Some(p), None),
        ] + advance_actions(q, i + 1, lang, media, content, texts)
    } else {
        seq![
            set_translation(q[i].0, "in_progress"@, None, None),
            ActionView::Translate(texts, lang, q[i].1),
        ]
    }
}

/// Index of the translation the work stops at: the first, from `i` on, whose
/// target is not the source language, or `q.len()`.
pub open spec fn advance_stop(q: Seq<(i64, Seq<char>)>, i: int, lang: Seq<char>) -> int
    decreases q.len() - i,
{
    if i < 0 || i >= q.len() {
        q.len() as int
    } else if q[i].1 == lang {
        advance_stop(q, i + 1, lang)
    } else {
        i
    }
}

proof fn lemma_advance_stop(q: Seq<(i64, Seq<char>)>, i: int, lang: Seq<char>)
    requires
        0 <= i <= q.len(),
    ensures
        i <= advance_stop(q, i, lang) <= q.len(),
        advance_stop(q, i, lang) < q.len() ==> q[advance_stop(q, i, lang)].1 != lang,
    decreases q.len() - i,
{
    if i < q.len() && q[i].1 == lang {
        lemma_advance_stop(q, i + 1, lang);
    }
}

/// The actions after the translation `(id, target)` came back as `result`:
/// translated texts of the right count are put into the entries, written as
/// the target language's SRT and the translation completed; otherwise the
/// translation failed with the error's message.
pub open spec fn outcome_actions(
    entries: Seq<EntryView>,
    result: Result<Seq<Seq<char>>, ErrorView>,
    err_text: Seq<char>,
    id: i64,
    target: Seq<char>,
    media: Seq<char>,
) -> Seq<ActionView> {
    match result {
        Ok(tt) => if tt.len() == entries.len() {
            let p = srt_path_spec(media, target);
            seq![
                ActionView::WriteFile(p, serialize_spec(replaced(entries, tt))),
                set_translation(id, "completed"@, Some(p), None),
            ]
        } else {
            seq![set_translation(id, "failed"@, None, Some(err_text))]
        },
        Err(_) => seq![set_translation(id, "failed"@, None, Some(err_text))],
    }
}

/// The job's final status from its translations' statuses: completed when
/// all are completed; failed when some failed; otherwise left as it is.
pub open spec fn final_status(statuses: Seq<Seq<char>>) -> Option<(Seq<char>, Option<Seq<char>>)> {
    if forall|i: int| 0 <= i < statuses.len() ==> #[trigger] statuses[i] == "completed"@ {
        Some(("completed"@, None))
    } else if exists|i: int| 0 <= i < statuses.len() && #[trigger] statuses[i] == "failed"@ {
        Some(("failed"@, Some("one or more translations failed"@)))
    } else {
        None
    }
}

pub open spec fn statuses_of(ts: Seq<Translation>) -> Seq<Seq<char>> {
    ts.map_values(|t: Translation| t.status@)
}

pub open spec fn final_actions(ts: Seq<Translation>) -> Seq<ActionView> {
    match final_status(statuses_of(ts)) {
        Some((s, r)) => seq![set_job(s, r), ActionView::Succeed],
        None => seq![ActionView::Succeed],
    }
}

/// The language of the transcript: the detected one, else the configured one.
pub open spec fn chosen_language(w: WhisperResult, default_language: Seq<char>) -> Seq<char> {
    match w.detected_language {
        Some(l) => l@,
        None => default_language,
    }
}

/// The actions after a successful transcription `w`: the language is
/// recorded; an unparsable transcript fails the job; otherwise the transcript's
/// SRT is saved if so configured, and translation begins.
pub open spec fn transcribed_actions(
    w: WhisperResult,
    default_language: Seq<char>,
    media: Seq<char>,
    save_original_srt: bool,
) -> Seq<ActionView> {
    let lang = chosen_language(w, default_language);
    seq![ActionView::SetJobLanguage(lang)] + match parse_spec(w.srt_content@) {
        Err(m) => seq![
            set_job("failed"@, Some("SRT parse error: "@ + m)),
            ActionView::Fail(ErrorView::SrtParse(m)),
        ],
        Ok(_) => (if save_original_srt {
            seq![ActionView::WriteFile(srt_path_spec(media, lang), w.srt_content@)]
        } else {
            Seq::empty()
        }) + seq![set_job("translating"@, None), ActionView::LoadTranslations],
    }
}

/// Which event each phase waits for.
pub open spec fn accepts(phase: JobPhase, event: JobEvent) -> bool {
    match (phase, event) {
        (JobPhase::Start, JobEvent::Begin) => true,
        (JobPhase::Extracting, JobEvent::AudioExtracted(_)) => true,
        (JobPhase::Transcribing, JobEvent::Transcribed(_)) => true,
        (JobPhase::AwaitingTranslations, JobEvent::Translations(_)) => true,
        (JobPhase::Translating, JobEvent::Translated(_)) => true,
        (JobPhase::Finalizing, JobEvent::Translations(_)) => true,
        _ => false,
    }
}

pub open spec fn translated_view(r: Result<Vec<String>, SubsForgeError>) -> Result<
    Seq<Seq<char>>,
    ErrorView,
> {
    match r {
        Ok(v) => Ok(string_views(v@)),
        Err(e) => Err(e@),
    }
}

/// Why a translation result could not be used, as recorded on the translation.
pub open spec fn translated_error_text(entry_count: nat, r: Result<Vec<String>, SubsForgeError>) -> Seq<
    char,
> {
    match r {
        Ok(v) => "SRT parse error: "@ + ("entry count mismatch: "@ + dec(entry_count)
            + " entries, "@ + dec(v@.len() as nat) + " translations"@),
        Err(e) => error_message(e),
    }
}

pub(crate) fn copy_strings(v: &Vec<String>) -> (r: Vec<String>)
    ensures
        string_views(r@) == string_views(v@),
{
    let mut out: Vec<String> = Vec::new();
    for i in 0..v.len()
        invariant
            string_views(out@) == string_views(v@.take(i as int)),
    {
        let ghost before = string_views(out@);
        out.push(v[i].clone());
        assert(string_views(out@) =~= before.push(v@[i as int]@));
        assert(string_views(v@.take(i + 1)) =~= string_views(v@.take(i as int)).push(v@[i as int]@));
    }
    assert(v@.take(v@.len() as int) =~= v@);
    out
}

fn failed_with(e: SubsForgeError) -> (r: Vec<JobAction>)
    ensures
        actions_view(r@) == seq![set_job("failed"@, Some(error_message(e))), ActionView::Fail(e@)],
{
    let msg = e.message();
    let mut v: Vec<JobAction> = Vec::new();
    v.push(JobAction::SetJobStatus { status: String::from_str("failed"), failure_reason: Some(msg) });
    v.push(JobAction::Fail(e));
    assert(actions_view(v@) =~= seq![
        set_job("failed"@, Some(error_message(e))),
        ActionView::Fail(e@),
    ]);
    v
}

fn job_status(status: &str) -> (r: JobAction)
    ensures
        r@ == set_job(status@, None),
{
    JobAction::SetJobStatus { status: String::from_str(status), failure_reason: None }
}

/// The statuses that `a` records for the job.
pub open spec fn written(a: ActionView) -> Seq<Seq<char>> {
    match a {
        ActionView::SetJobStatus(s, _) => seq![s],
        _ => Seq::empty(),
    }
}

/// The statuses that the actions `acts` record for the job, in order.
pub open spec fn status_writes(acts: Seq<ActionView>) -> Seq<Seq<char>>
    decreases acts.len(),
{
    if acts.len() == 0 {
        Seq::empty()
    } else {
        status_writes(acts.drop_last()) + written(acts.last())
    }
}

/// The statuses a run in `phase` has recorded: one per stage it has entered;
/// a finished run has recorded a failure of extraction or transcription, or
/// `translating` followed by the final status, if any.
pub open spec fn log_fits(phase: JobPhase, log: Seq<Seq<char>>) -> bool {
    let e = "extracting"@;
    let t = "transcribing"@;
    let tr = "translating"@;
    match phase {
        JobPhase::Start => log == Seq::<Seq<char>>::empty(),
        JobPhase::Extracting => log == seq![e],
        JobPhase::Transcribing => log == seq![e, t],
        JobPhase::AwaitingTranslations | JobPhase::Translating | JobPhase::Finalizing => log == seq![
            e,
            t,
            tr,
        ],
        JobPhase::Done => {
            ||| log == seq![e, "failed"@]
            ||| log == seq![e, t, "failed"@]
            ||| log == seq![e, t, tr]
            ||| log == seq![e, t, tr, "completed"@]
            ||| log == seq![e, t, tr, "failed"@]
        },
    }
}

/// The order of a job's statuses: `extracting`, `transcribing`, `translating`,
/// then `completed` or `failed`, where extraction or transcription may instead
/// be followed by `failed`; any beginning of such a sequence.
pub open spec fn status_order(log: Seq<Seq<char>>) -> bool {
    let e = "extracting"@;
    let t = "transcribing"@;
    let tr = "translating"@;
    ||| log == Seq::<Seq<char>>::empty()
    ||| log == seq![e]
    ||| log == seq![e, t]
    ||| log == seq![e, t, tr]
    ||| log == seq![e, t, tr, "completed"@]
    ||| log == seq![e, t, tr, "failed"@]
    ||| log == seq![e, "failed"@]
    ||| log == seq![e, t, "failed"@]
}

/// The statuses a run records for its job follow `status_order`, at every
/// step of the run: they go `extracting`, `transcribing`, `translating`, then
/// `completed` or `failed`, and a failed extraction or transcription records
/// `failed` at once.
pub proof fn lemma_status_order(run: JobRun)
    requires
        run.wf(),
    ensures
        status_order(run.status_log@),
{
}

proof fn lemma_status_writes_concat(a: Seq<ActionView>, b: Seq<ActionView>)
    ensures
        status_writes(a + b) == status_writes(a) + status_writes(b),
    decreases b.len(),
{
    if b.len() == 0 {
        assert(a + b =~= a);
        assert(status_writes(a) + status_writes(b) =~= status_writes(a));
    } else {
        lemma_status_writes_concat(a, b.drop_last());
        assert((a + b).drop_last() =~= a + b.drop_last());
        assert((a + b).last() == b.last());
        assert(status_writes(a + b) =~= status_writes(a) + status_writes(b));
    }
}

proof fn lemma_status_writes_one(x: ActionView)
    ensures
        status_writes(seq![x]) == written(x),
{
    assert(seq![x].drop_last() =~= Seq::<ActionView>::empty());
    assert(seq![x].last() == x);
    assert(status_writes(Seq::<ActionView>::empty()) == Seq::<Seq<char>>::empty());
    assert(Seq::<Seq<char>>::empty() + written(x) =~= written(x));
}

proof fn lemma_status_writes_two(x: ActionView, y: ActionView)
    ensures
        status_writes(seq![x, y]) == written(x) + written(y),
{
    assert(seq![x, y] =~= seq![x] + seq![y]);
    lemma_status_writes_concat(seq![x], seq![y]);
    lemma_status_writes_one(x);
    lemma_status_writes_one(y);
}

/// Working through the translations records no job status.
proof fn lemma_advance_writes_nothing(
    q: Seq<(i64, Seq<char>)>,
    i: int,
    lang: Seq<char>,
    media: Seq<char>,
    content: Seq<char>,
    texts: Seq<Seq<char>>,
)
    ensures
        status_writes(advance_actions(q, i, lang, media, content, texts)) == Seq::<Seq<char>>::empty(),
    decreases q.len() - i,
{
    if i < 0 || i >= q.len() {
        lemma_status_writes_one(ActionView::LoadTranslations);
    } else if q[i].1 == lang {
        let p = srt_path_spec(media, q[i].1);
        let first = seq![
            ActionView::WriteFile(p, content),
            set_translation(q[i].0, "completed"@, Some(p), None),
        ];
        lemma_advance_writes_nothing(q, i + 1, lang, media, content, texts);
        lemma_status_writes_two(first[0], first[1]);
        assert(first =~= seq![first[0], first[1]]);
        lemma_status_writes_concat(first, advance_actions(q, i + 1, lang, media, content, texts));
        assert(status_writes(first) =~= Seq::<Seq<char>>::empty());
    } else {
        lemma_status_writes_two(
            set_translation(q[i].0, "in_progress"@, None, None),
            ActionView::Translate(texts, lang, q[i].1),
        );
        assert(written(set_translation(q[i].0, "in_progress"@, None, None)) + written(
            ActionView::Translate(texts, lang, q[i].1),
        ) =~= Seq::<Seq<char>>::empty());
    }
}

/// Recording a translation's outcome records no job status.
proof fn lemma_outcome_writes_nothing(
    entries: Seq<EntryView>,
    result: Result<Seq<Seq<char>>, ErrorView>,
    err_text: Seq<char>,
    id: i64,
    target: Seq<char>,
    media: Seq<char>,
)
    ensures
        status_writes(outcome_actions(entries, result, err_text, id, target, media))
            == Seq::<Seq<char>>::empty(),
{
    let acts = outcome_actions(entries, result, err_text, id, target, media);
    if acts.len() == 2 {
        assert(acts =~= seq![acts[0], acts[1]]);
        lemma_status_writes_two(acts[0], acts[1]);
        assert(written(acts[0]) + written(acts[1]) =~= Seq::<Seq<char>>::empty());
    } else {
        assert(acts =~= seq![acts[0]]);
        lemma_status_writes_one(acts[0]);
    }
}

/// Finishing a job records its final status, if it has one.
proof fn lemma_final_writes(ts: Seq<Translation>)
    ensures
        status_writes(final_actions(ts)) == match final_status(statuses_of(ts)) {
            Some((s, _)) => seq![s],
            None => Seq::<Seq<char>>::empty(),
        },
{
    match final_status(statuses_of(ts)) {
        Some((s, r)) => {
            lemma_status_writes_two(set_job(s, r), ActionView::Succeed);
            assert(seq![s] + Seq::<Seq<char>>::empty() =~= seq![s]);
        },
        None => lemma_status_writes_one(ActionView::Succeed),
    }
}

/// What a successful transcription records: `failed` for an unparsable
/// transcript, `translating` otherwise.
proof fn lemma_transcribed_writes(
    w: WhisperResult,
    default_language: Seq<char>,
    media: Seq<char>,
    save: bool,
)
    ensures
        status_writes(transcribed_actions(w, default_language, media, save)) == if parse_spec(
            w.srt_content@,
        ) is Err {
            seq!["failed"@]
        } else {
            seq!["translating"@]
        },
{
    let lang = chosen_language(w, default_language);
    let head = seq![ActionView::SetJobLanguage(lang)];
    lemma_status_writes_one(head[0]);
    assert(head =~= seq![head[0]]);
    match parse_spec(w.srt_content@) {
        Err(m) => {
            let rest = seq![
                set_job("failed"@, Some("SRT parse error: "@ + m)),
                ActionView::Fail(ErrorView::SrtParse(m)),
            ];
            lemma_status_writes_two(rest[0], rest[1]);
            assert(rest =~= seq![rest[0], rest[1]]);
            lemma_status_writes_concat(head, rest);
            assert(status_writes(head + rest) =~= seq!["failed"@]);
        },
        Ok(_) => {
            let save_part = if save {
                seq![ActionView::WriteFile(srt_path_spec(media, lang), w.srt_content@)]
            } else {
                Seq::empty()
            };
            let tail = seq![set_job("translating"@, None), ActionView::LoadTranslations];
            if save {
                assert(save_part =~= seq![save_part[0]]);
                lemma_status_writes_one(save_part[0]);
            }
            assert(status_writes(save_part) =~= Seq::<Seq<char>>::empty());
            lemma_status_writes_two(tail[0], tail[1]);
            assert(tail =~= seq![tail[0], tail[1]]);
            lemma_status_writes_concat(save_part, tail);
            lemma_status_writes_concat(head, save_part + tail);
            assert(head + (save_part + tail) =~= head + save_part + tail);
            assert(status_writes(head + save_part + tail) =~= seq!["translating"@]);
        },
    }
}

/// The translation status that `a` records, as (translation id, status).
pub open spec fn row_written(a: ActionView) -> Seq<(i64, Seq<char>)> {
    match a {
        ActionView::SetTranslationStatus(id, s, _, _) => seq![(id, s)],
        _ => Seq::empty(),
    }
}

/// The translation statuses that the actions `acts` record, in order.
pub open spec fn row_writes(acts: Seq<ActionView>) -> Seq<(i64, Seq<char>)>
    decreases acts.len(),
{
    if acts.len() == 0 {
        Seq::empty()
    } else {
        row_writes(acts.drop_last()) + row_written(acts.last())
    }
}

/// A final status of a translation.
pub open spec fn settled(s: Seq<char>) -> bool {
    s == "completed"@ || s == "failed"@
}

pub open spec fn all_settled(o: Seq<Seq<char>>) -> bool {
    forall|k: int| 0 <= k < o.len() ==> settled(#[trigger] o[k])
}

/// The translation statuses recorded for the first `k` queued translations,
/// the translation at index `j` having ended as `o[j]`: a translation into the
/// source language is completed at once; any other is first put in progress,
/// then given its outcome.
pub open spec fn recorded_rows(
    q: Seq<(i64, Seq<char>)>,
    o: Seq<Seq<char>>,
    lang: Seq<char>,
    k: int,
) -> Seq<(i64, Seq<char>)>
    decreases k,
{
    if k <= 0 {
        Seq::empty()
    } else {
        recorded_rows(q, o, lang, k - 1) + if q[k - 1].1 == lang {
            seq![(q[k - 1].0, "completed"@)]
        } else {
            seq![(q[k - 1].0, "in_progress"@), (q[k - 1].0, o[k - 1])]
        }
    }
}

/// `n` times `completed`.
pub open spec fn completions(n: int) -> Seq<Seq<char>> {
    Seq::new(n as nat, |_k: int| "completed"@)
}

/// The status a translation is given when its result comes back as `result`:
/// completed for translations of the right count, failed otherwise.
pub open spec fn outcome_status(entries: Seq<EntryView>, result: Result<Seq<Seq<char>>, ErrorView>) -> Seq<
    char,
> {
    match result {
        Ok(tt) => if tt.len() == entries.len() {
            "completed"@
        } else {
            "failed"@
        },
        Err(_) => "failed"@,
    }
}

/// When a run reaches its finalizing step, its own actions have recorded every
/// queued translation, in queue order, and each ended completed or failed. If
/// the translations read back then hold those outcomes (nothing else changed
/// them), the job ends completed exactly when all of them are completed, and
/// failed, with `one or more translations failed`, otherwise.
pub proof fn lemma_final_status_follows_rows(run: JobRun, ts: Seq<Translation>)
    requires
        run.wf(),
        run.phase == JobPhase::Finalizing,
        statuses_of(ts) == run.outcomes@,
    ensures
        run.outcomes@.len() == run.queue@.len(),
        all_settled(run.outcomes@),
        run.row_log@ == recorded_rows(
            queue_view(run.queue@),
            run.outcomes@,
            run.language@,
            run.queue@.len() as int,
        ),
        final_status(statuses_of(ts)) == if forall|k: int|
            0 <= k < run.outcomes@.len() ==> #[trigger] run.outcomes@[k] == "completed"@ {
            Some(("completed"@, None::<Seq<char>>))
        } else {
            Some(("failed"@, Some("one or more translations failed"@)))
        },
{
    let o = run.outcomes@;
    reveal_strlit("completed");
    reveal_strlit("failed");
    if !(forall|k: int| 0 <= k < o.len() ==> #[trigger] o[k] == "completed"@) {
        let w = choose|k: int| !(0 <= k < o.len() ==> #[trigger] o[k] == "completed"@);
        assert(settled(o[w]));
        assert(statuses_of(ts)[w] == "failed"@);
    }
}

proof fn lemma_row_writes_concat(a: Seq<ActionView>, b: Seq<ActionView>)
    ensures
        row_writes(a + b) == row_writes(a) + row_writes(b),
    decreases b.len(),
{
    if b.len() == 0 {
        assert(a + b =~= a);
        assert(row_writes(a) + row_writes(b) =~= row_writes(a));
    } else {
        lemma_row_writes_concat(a, b.drop_last());
        assert((a + b).drop_last() =~= a + b.drop_last());
        assert((a + b).last() == b.last());
        assert(row_writes(a + b) =~= row_writes(a) + row_writes(b));
    }
}

proof fn lemma_row_writes_one(x: ActionView)
    ensures
        row_writes(seq![x]) == row_written(x),
{
    assert(seq![x].drop_last() =~= Seq::<ActionView>::empty());
    assert(seq![x].last() == x);
    assert(row_writes(Seq::<ActionView>::empty()) == Seq::<(i64, Seq<char>)>::empty());
    assert(Seq::<(i64, Seq<char>)>::empty() + row_written(x) =~= row_written(x));
}

proof fn lemma_row_writes_two(x: ActionView, y: ActionView)
    ensures
        row_writes(seq![x, y]) == row_written(x) + row_written(y),
{
    assert(seq![x, y] =~= seq![x] + seq![y]);
    lemma_row_writes_concat(seq![x], seq![y]);
    lemma_row_writes_one(x);
    lemma_row_writes_one(y);
}

proof fn lemma_recorded_agree(
    q: Seq<(i64, Seq<char>)>,
    o1: Seq<Seq<char>>,
    o2: Seq<Seq<char>>,
    lang: Seq<char>,
    k: int,
)
    requires
        forall|j: int| 0 <= j < k ==> o1[j] == o2[j],
    ensures
        recorded_rows(q, o1, lang, k) == recorded_rows(q, o2, lang, k),
    decreases k,
{
    if k > 0 {
        lemma_recorded_agree(q, o1, o2, lang, k - 1);
    }
}

/// A transcription records no translation status.
proof fn lemma_transcribed_no_rows(
    w: WhisperResult,
    default_language: Seq<char>,
    media: Seq<char>,
    save: bool,
)
    ensures
        row_writes(transcribed_actions(w, default_language, media, save)) == Seq::<
            (i64, Seq<char>),
        >::empty(),
{
    let lang = chosen_language(w, default_language);
    let head = seq![ActionView::SetJobLanguage(lang)];
    lemma_row_writes_one(head[0]);
    assert(head =~= seq![head[0]]);
    match parse_spec(w.srt_content@) {
        Err(m) => {
            let rest = seq![
                set_job("failed"@, Some("SRT parse error: "@ + m)),
                ActionView::Fail(ErrorView::SrtParse(m)),
            ];
            lemma_row_writes_two(rest[0], rest[1]);
            assert(rest =~= seq![rest[0], rest[1]]);
            lemma_row_writes_concat(head, rest);
            assert(row_writes(head + rest) =~= Seq::<(i64, Seq<char>)>::empty());
        },
        Ok(_) => {
            let save_part = if save {
                seq![ActionView::WriteFile(srt_path_spec(media, lang), w.srt_content@)]
            } else {
                Seq::empty()
            };
            let tail = seq![set_job("translating"@, None), ActionView::LoadTranslations];
            if save {
                assert(save_part =~= seq![save_part[0]]);
                lemma_row_writes_one(save_part[0]);
            }
            assert(row_writes(save_part) =~= Seq::<(i64, Seq<char>)>::empty());
            lemma_row_writes_two(tail[0], tail[1]);
            assert(tail =~= seq![tail[0], tail[1]]);
            lemma_row_writes_concat(save_part, tail);
            lemma_row_writes_concat(head, save_part + tail);
            assert(head + (save_part + tail) =~= head + save_part + tail);
            assert(row_writes(head + save_part + tail) =~= Seq::<(i64, Seq<char>)>::empty());
        },
    }
}

/// Recording a translation's outcome records its id with `outcome_status`.
proof fn lemma_outcome_rows(
    entries: Seq<EntryView>,
    result: Result<Seq<Seq<char>>, ErrorView>,
    err_text: Seq<char>,
    id: i64,
    target: Seq<char>,
    media: Seq<char>,
)
    ensures
        row_writes(outcome_actions(entries, result, err_text, id, target, media)) == seq![
            (id, outcome_status(entries, result)),
        ],
{
    let acts = outcome_actions(entries, result, err_text, id, target, media);
    if acts.len() == 2 {
        assert(acts =~= seq![acts[0], acts[1]]);
        lemma_row_writes_two(acts[0], acts[1]);
        assert(row_written(acts[0]) + row_written(acts[1]) =~= seq![
            (id, outcome_status(entries, result)),
        ]);
    } else {
        assert(acts =~= seq![acts[0]]);
        lemma_row_writes_one(acts[0]);
    }
}

/// Working through the translations from index `i` records each translation
/// into the source language as completed, then puts the first other one in
/// progress, if any.
proof fn lemma_advance_rows(
    q: Seq<(i64, Seq<char>)>,
    i: int,
    lang: Seq<char>,
    media: Seq<char>,
    content: Seq<char>,
    texts: Seq<Seq<char>>,
    o: Seq<Seq<char>>,
)
    requires
        0 <= i <= q.len(),
        o.len() == i,
    ensures
        ({
            let stop = advance_stop(q, i, lang);
            &&& recorded_rows(q, o, lang, i) + row_writes(
                advance_actions(q, i, lang, media, content, texts),
            ) == recorded_rows(q, o + completions(stop - i), lang, stop) + if stop < q.len() {
                seq![(q[stop].0, "in_progress"@)]
            } else {
                Seq::<(i64, Seq<char>)>::empty()
            }
        }),
    decreases q.len() - i,
{
    let stop = advance_stop(q, i, lang);
    lemma_advance_stop(q, i, lang);
    if i >= q.len() {
        lemma_row_writes_one(ActionView::LoadTranslations);
        assert(o + completions(0) =~= o);
        assert(recorded_rows(q, o, lang, i) + Seq::<(i64, Seq<char>)>::empty() =~= recorded_rows(
            q,
            o,
            lang,
            i,
        ));
    } else if q[i].1 == lang {
        let p = srt_path_spec(media, q[i].1);
        let first = seq![
            ActionView::WriteFile(p, content),
            set_translation(q[i].0, "completed"@, Some(p), None),
        ];
        let rest = advance_actions(q, i + 1, lang, media, content, texts);
        assert(first =~= seq![first[0], first[1]]);
        lemma_row_writes_two(first[0], first[1]);
        lemma_row_writes_concat(first, rest);
        let o1 = o.push("completed"@);
        lemma_advance_rows(q, i + 1, lang, media, content, texts, o1);
        lemma_recorded_agree(q, o, o1, lang, i);
        assert(recorded_rows(q, o1, lang, i + 1) == recorded_rows(q, o1, lang, i) + seq![
            (q[i].0, "completed"@),
        ]);
        assert(o1 + completions(stop - (i + 1)) =~= o + completions(stop - i));
        assert(row_writes(first) =~= seq![(q[i].0, "completed"@)]);
        assert(recorded_rows(q, o, lang, i) + (row_writes(first) + row_writes(rest))
            =~= recorded_rows(q, o1, lang, i + 1) + row_writes(rest));
    } else {
        lemma_row_writes_two(
            set_translation(q[i].0, "in_progress"@, None, None),
            ActionView::Translate(texts, lang, q[i].1),
        );
        assert(o + completions(0) =~= o);
        assert(row_written(set_translation(q[i].0, "in_progress"@, None, None)) + row_written(
            ActionView::Translate(texts, lang, q[i].1),
        ) =~= seq![(q[i].0, "in_progress"@)]);
    }
}

impl JobRun {
    /// What holds of a run: its fields are consistent, and the statuses it
    /// has recorded are those its phase has gone through.
    pub open spec fn wf(&self) -> bool {
        self.consistent() && log_fits(self.phase, self.status_log@) && self.rows_fit()
    }

    /// The translation statuses a run has recorded: none before the
    /// translations are read; while translating, those of the translations
    /// before `next`, each completed or failed, then `in_progress` for the
    /// current one; when finalizing, those of every queued translation.
    pub open spec fn rows_fit(&self) -> bool {
        let q = queue_view(self.queue@);
        let o = self.outcomes@;
        let n = self.next as int;
        match self.phase {
            JobPhase::Translating => {
                &&& o.len() == n
                &&& all_settled(o)
                &&& self.row_log@ == recorded_rows(q, o, self.language@, n) + seq![
                    (q[n].0, "in_progress"@),
                ]
            },
            JobPhase::Finalizing => {
                &&& n == q.len()
                &&& o.len() == n
                &&& all_settled(o)
                &&& self.row_log@ == recorded_rows(q, o, self.language@, n)
            },
            JobPhase::Done => true,
            _ => o.len() == 0 && self.row_log@.len() == 0,
        }
    }

    /// What holds between the fields once the transcript has been parsed.
    pub open spec fn consistent(&self) -> bool {
        &&& string_views(self.texts@) == texts_of(entries_view(self.entries@))
        &&& self.next <= self.queue@.len()
        &&& self.phase == JobPhase::Translating ==> self.next < self.queue@.len()
            && self.queue@[self.next as int].target_language@ != self.language@
    }

    /// What a run has learnt and where it stands in the translations are those of `other`.
    pub open spec fn keeps_progress(&self, other: &JobRun) -> bool {
        &&& self.language == other.language
        &&& self.srt_content == other.srt_content
        &&& self.entries == other.entries
        &&& self.texts == other.texts
        &&& self.queue == other.queue
        &&& self.next == other.next
    }

    pub open spec fn same_setup(&self, other: &JobRun) -> bool {
        &&& self.media_path@ == other.media_path@
        &&& self.default_language@ == other.default_language@
        &&& self.save_original_srt == other.save_original_srt
    }

    /// A run for the media file at `media_path`: the configured language stands
    /// in for an undetected one, and the transcript's SRT is saved if so configured.
    pub fn new(media_path: &str, default_language: &str, save_original_srt: bool) -> (r: JobRun)
        ensures
            r.phase == JobPhase::Start,
            r.media_path@ == media_path@,
            r.default_language@ == default_language@,
            r.save_original_srt == save_original_srt,
            r.status_log@ == Seq::<Seq<char>>::empty(),
            r.row_log@ == Seq::<(i64, Seq<char>)>::empty(),
            r.wf(),
    {
        let r = JobRun {
            phase: JobPhase::Start,
            media_path: String::from_str(media_path),
            default_language: String::from_str(default_language),
            save_original_srt,
            language: String::new(),
            srt_content: String::new(),
            entries: Vec::new(),
            texts: Vec::new(),
            queue: Vec::new(),
            next: 0,
            status_log: Ghost(Seq::empty()),
            outcomes: Ghost(Seq::empty()),
            row_log: Ghost(Seq::empty()),
        };
        assert(string_views(r.texts@) =~= texts_of(entries_view(r.entries@)));
        r
    }

    /// Works through the translations from `next` on (see `advance_actions`).
    fn advance(&mut self) -> (r: Vec<JobAction>)
        requires
            old(self).next <= old(self).queue@.len(),
            string_views(old(self).texts@) == texts_of(entries_view(old(self).entries@)),
        ensures
            final(self).status_log == old(self).status_log,
            final(self).outcomes == old(self).outcomes,
            final(self).row_log == old(self).row_log,
            actions_view(r@) == advance_actions(
                queue_view(old(self).queue@),
                old(self).next as int,
                old(self).language@,
                old(self).media_path@,
                old(self).srt_content@,
                string_views(old(self).texts@),
            ),
            final(self).next == advance_stop(
                queue_view(old(self).queue@),
                old(self).next as int,
                old(self).language@,
            ),
            final(self).phase == if final(self).next < old(self).queue@.len() {
                JobPhase::Translating
            } else {
                JobPhase::Finalizing
            },
            final(self).same_setup(old(self)),
            final(self).language == old(self).language,
            final(self).srt_content == old(self).srt_content,
            final(self).entries == old(self).entries,
            final(self).texts == old(self).texts,
            final(self).queue == old(self).queue,
            final(self).consistent(),
    {
        let ghost q = queue_view(self.queue@);
        let ghost start = self.next as int;
        let ghost lang = self.language@;
        let ghost media = self.media_path@;
        let ghost content = self.srt_content@;
        let ghost texts = string_views(self.texts@);
        let mut out: Vec<JobAction> = Vec::new();
        proof {
            lemma_advance_stop(q, start, lang);
        }
        while self.next < self.queue.len()
            invariant
                start == old(self).next,
                start <= self.next <= self.queue@.len(),
                q == queue_view(self.queue@),
                lang == self.language@,
                media == self.media_path@,
                content == self.srt_content@,
                texts == string_views(self.texts@),
                texts == texts_of(entries_view(self.entries@)),
                self.same_setup(old(self)),
                self.language == old(self).language,
                self.srt_content == old(self).srt_content,
                self.entries == old(self).entries,
                self.texts == old(self).texts,
                self.queue == old(self).queue,
                self.status_log == old(self).status_log,
                self.outcomes == old(self).outcomes,
                self.row_log == old(self).row_log,
                actions_view(out@) + advance_actions(q, self.next as int, lang, media, content, texts)
                    == advance_actions(q, start, lang, media, content, texts),
                advance_stop(q, self.next as int, lang) == advance_stop(q, start, lang),
            decreases self.queue@.len() - self.next,
        {
            let i = self.next;
            let id = self.queue[i].id;
            assert(q[i as int] == (id, self.queue@[i as int].target_language@));
            let ghost before = actions_view(out@);
            if str_eq(self.queue[i].target_language.as_str(), self.language.as_str()) {
                let path = srt_path(self.media_path.as_str(), self.queue[i].target_language.as_str());
                out.push(JobAction::WriteFile { path: path.clone(), content: self.srt_content.clone() });
                out.push(
                    JobAction::SetTranslationStatus {
                        id,
                        status: String::from_str("completed"),
                        srt_path: Some(path),
                        failure_reason: None,
                    },
                );
                assert(actions_view(out@) =~= before + seq![
                    ActionView::WriteFile(srt_path_spec(media, q[i as int].1), content),
                    set_translation(id, "completed"@, Some(srt_path_spec(media, q[i as int].1)), None),
                ]);
                self.next = i + 1;
            } else {
                out.push(
                    JobAction::SetTranslationStatus {
                        id,
                        status: String::from_str("in_progress"),
                        srt_path: None,
                        failure_reason: None,
                    },
                );
                out.push(
                    JobAction::Translate {
                        texts: copy_strings(&self.texts),
                        source_lang: self.language.clone(),
                        target_lang: self.queue[i].target_language.clone(),
                    },
                );
                assert(actions_view(out@) =~= before + advance_actions(
                    q,
                    i as int,
                    lang,
                    media,
                    content,
                    texts,
                ));
                self.phase = JobPhase::Translating;
                assert(advance_stop(q, i as int, lang) == i);
                assert(actions_view(out@) == advance_actions(q, start, lang, media, content, texts));
                assert(self.next == advance_stop(q, start, lang));
                return out;
            }
        }
        let ghost before = actions_view(out@);
        out.push(JobAction::LoadTranslations);
        assert(actions_view(out@) =~= before + advance_actions(
            q,
            self.next as int,
            lang,
            media,
            content,
            texts,
        ));
        self.phase = JobPhase::Finalizing;
        out
    }
}

impl JobRun {
    fn finalize(ts: &Vec<Translation>) -> (r: Vec<JobAction>)
        ensures
            actions_view(r@) == final_actions(ts@),
    {
        let ghost st = statuses_of(ts@);
        let mut all_done = true;
        let mut any_failed = false;
        for i in 0..ts.len()
            invariant
                st == statuses_of(ts@),
                all_done == (forall|k: int| 0 <= k < i ==> #[trigger] st[k] == "completed"@),
                any_failed == (exists|k: int| 0 <= k < i && #[trigger] st[k] == "failed"@),
        {
            assert(st[i as int] == ts@[i as int].status@);
            let done = str_eq(ts[i].status.as_str(), "completed");
            let failed = str_eq(ts[i].status.as_str(), "failed");
            proof {
                if !failed && any_failed {
                    let w = choose|k: int| 0 <= k < i && #[trigger] st[k] == "failed"@;
                    assert(0 <= w < i + 1 && st[w] == "failed"@);
                }
                if failed {
                    assert(0 <= i < i + 1 && st[i as int] == "failed"@);
                }
                if !done {
                    assert(!(st[i as int] == "completed"@));
                }
            }
            all_done = all_done && done;
            any_failed = any_failed || failed;
        }
        let mut out: Vec<JobAction> = Vec::new();
        if all_done {
            out.push(job_status("completed"));
        } else if any_failed {
            out.push(
                JobAction::SetJobStatus {
                    status: String::from_str("failed"),
                    failure_reason: Some(String::from_str("one or more translations failed")),
                },
            );
        }
        out.push(JobAction::Succeed);
        assert(actions_view(out@) =~= final_actions(ts@));
        out
    }

    /// Decides what the runner does next, given what came back from the
    /// previous actions:
    /// - at the start: mark the job extracting, extract the audio;
    /// - audio extracted: mark it transcribing, transcribe; extraction failed:
    ///   mark it failed with the error's message, and stop with the error;
    /// - transcribed: see `transcribed_actions`; transcription failed: as for extraction;
    /// - translations read: work through them (see `advance_actions`);
    /// - a translation came back: see `outcome_actions`, then carry on with the
    ///   following translations;
    /// - translations read back at the end: the job's final status (see `final_actions`).
    ///
    /// The job statuses recorded are appended to `status_log`, which keeps the
    /// order of `status_order` (see `lemma_status_order`); the translation
    /// statuses recorded are appended to `row_log`, which by the finalizing
    /// step holds a completed or failed outcome for every queued translation
    /// (see `lemma_final_status_follows_rows`).
    pub fn step(&mut self, event: JobEvent) -> (r: Vec<JobAction>)
        requires
            old(self).wf(),
            accepts(old(self).phase, event),
        ensures
            final(self).same_setup(old(self)),
            final(self).wf(),
            final(self).status_log@ == old(self).status_log@ + status_writes(actions_view(r@)),
            final(self).row_log@ == old(self).row_log@ + row_writes(actions_view(r@)),
            old(self).phase == JobPhase::Start ==> (actions_view(r@) == seq![
                set_job("extracting"@, None),
                ActionView::ExtractAudio,
            ] && final(self).phase == JobPhase::Extracting),
            event matches JobEvent::AudioExtracted(Ok(_)) ==> (actions_view(r@) == seq![
                set_job("transcribing"@, None),
                ActionView::Transcribe,
            ] && final(self).phase == JobPhase::Transcribing),
            event matches JobEvent::AudioExtracted(Err(e)) ==> (actions_view(r@) == seq![
                set_job("failed"@, Some(error_message(e))),
                ActionView::Fail(e@),
            ] && final(self).phase == JobPhase::Done),
            event matches JobEvent::Transcribed(Err(e)) ==> (actions_view(r@) == seq![
                set_job("failed"@, Some(error_message(e))),
                ActionView::Fail(e@),
            ] && final(self).phase == JobPhase::Done),
            event matches JobEvent::Transcribed(Ok(w)) ==> {
                &&& actions_view(r@) == transcribed_actions(
                    w,
                    old(self).default_language@,
                    old(self).media_path@,
                    old(self).save_original_srt,
                )
                &&& parse_spec(w.srt_content@) is Err ==> final(self).phase == JobPhase::Done
                &&& parse_spec(w.srt_content@) matches Ok(es) ==> {
                    &&& final(self).phase == JobPhase::AwaitingTranslations
                    &&& entries_view(final(self).entries@) == es
                    &&& final(self).language@ == chosen_language(w, old(self).default_language@)
                    &&& final(self).srt_content@ == w.srt_content@
                }
            },
            event matches JobEvent::Translations(ts) ==> old(self).phase == JobPhase::AwaitingTranslations ==> {
                &&& queue_view(final(self).queue@) == queue_view(ts@)
                &&& actions_view(r@) == advance_actions(
                    queue_view(ts@),
                    0,
                    old(self).language@,
                    old(self).media_path@,
                    old(self).srt_content@,
                    texts_of(entries_view(old(self).entries@)),
                )
                &&& final(self).next == advance_stop(queue_view(ts@), 0, old(self).language@)
                &&& final(self).phase == if final(self).next < ts@.len() {
                    JobPhase::Translating
                } else {
                    JobPhase::Finalizing
                }
                &&& final(self).language == old(self).language
                &&& final(self).srt_content == old(self).srt_content
                &&& final(self).entries == old(self).entries
            },
            event matches JobEvent::Translated(res) ==> {
                let q = queue_view(old(self).queue@);
                let i = old(self).next as int;
                &&& actions_view(r@) == outcome_actions(
                    entries_view(old(self).entries@),
                    translated_view(res),
                    translated_error_text(old(self).entries@.len(), res),
                    q[i].0,
                    q[i].1,
                    old(self).media_path@,
                ) + advance_actions(
                    q,
                    i + 1,
                    old(self).language@,
                    old(self).media_path@,
                    old(self).srt_content@,
                    texts_of(entries_view(old(self).entries@)),
                )
                &&& final(self).next == advance_stop(q, i + 1, old(self).language@)
                &&& final(self).phase == if final(self).next < q.len() {
                    JobPhase::Translating
                } else {
                    JobPhase::Finalizing
                }
                &&& final(self).queue == old(self).queue
                &&& final(self).language == old(self).language
                &&& final(self).srt_content == old(self).srt_content
                &&& final(self).entries == old(self).entries
            },
            event matches JobEvent::Translations(ts) ==> old(self).phase == JobPhase::Finalizing ==> (
            actions_view(r@) == final_actions(ts@) && final(self).phase == JobPhase::Done),
            (event is Begin || event is AudioExtracted || event matches JobEvent::Transcribed(Err(_))
                || old(self).phase == JobPhase::Finalizing) ==> final(self).keeps_progress(old(self)),
    {
        let ghost old_log = self.status_log@;
        let ghost old_o = self.outcomes@;
        let ghost old_rows = self.row_log@;
        let ghost old_phase = self.phase;
        let ghost ev = event;
        let ghost q = queue_view(self.queue@);
        let ghost i = self.next as int;
        let ghost lang = self.language@;
        let ghost media = self.media_path@;
        let ghost content = self.srt_content@;
        let ghost es = entries_view(self.entries@);
        let ghost n = self.entries@.len();
        let ghost dl = self.default_language@;
        let ghost save = self.save_original_srt;
        let r = match event {
            JobEvent::Begin => {
                self.phase = JobPhase::Extracting;
                let mut out: Vec<JobAction> = Vec::new();
                out.push(job_status("extracting"));
                out.push(JobAction::ExtractAudio);
                assert(actions_view(out@) =~= seq![
                    set_job("extracting"@, None),
                    ActionView::ExtractAudio,
                ]);
                out
            },
            JobEvent::AudioExtracted(Ok(())) => {
                self.phase = JobPhase::Transcribing;
                let mut out: Vec<JobAction> = Vec::new();
                out.push(job_status("transcribing"));
                out.push(JobAction::Transcribe);
                assert(actions_view(out@) =~= seq![
                    set_job("transcribing"@, None),
                    ActionView::Transcribe,
                ]);
                out
            },
            JobEvent::AudioExtracted(Err(e)) => {
                self.phase = JobPhase::Done;
                failed_with(e)
            },
            JobEvent::Transcribed(Err(e)) => {
                self.phase = JobPhase::Done;
                failed_with(e)
            },
            JobEvent::Transcribed(Ok(w)) => self.on_transcribed(w),
            JobEvent::Translations(ts) => {
                if self.phase == JobPhase::Finalizing {
                    self.phase = JobPhase::Done;
                    JobRun::finalize(&ts)
                } else {
                    self.queue = ts;
                    self.next = 0;
                    self.advance()
                }
            },
            JobEvent::Translated(res) => self.on_translated(res),
        };
        proof {
            match ev {
                JobEvent::Begin => {
                    lemma_status_writes_two(set_job("extracting"@, None), ActionView::ExtractAudio);
                    lemma_row_writes_two(set_job("extracting"@, None), ActionView::ExtractAudio);
                    assert(old_log + status_writes(actions_view(r@)) =~= seq!["extracting"@]);
                },
                JobEvent::AudioExtracted(Ok(_)) => {
                    lemma_status_writes_two(set_job("transcribing"@, None), ActionView::Transcribe);
                    lemma_row_writes_two(set_job("transcribing"@, None), ActionView::Transcribe);
                    assert(old_log + status_writes(actions_view(r@)) =~= seq!["extracting"@, "transcribing"@]);
                },
                JobEvent::AudioExtracted(Err(e)) => {
                    lemma_status_writes_two(
                        set_job("failed"@, Some(error_message(e))),
                        ActionView::Fail(e@),
                    );
                    lemma_row_writes_two(
                        set_job("failed"@, Some(error_message(e))),
                        ActionView::Fail(e@),
                    );
                    assert(old_log + status_writes(actions_view(r@)) =~= seq!["extracting"@, "failed"@]);
                },
                JobEvent::Transcribed(Err(e)) => {
                    lemma_status_writes_two(
                        set_job("failed"@, Some(error_message(e))),
                        ActionView::Fail(e@),
                    );
                    lemma_row_writes_two(
                        set_job("failed"@, Some(error_message(e))),
                        ActionView::Fail(e@),
                    );
                    assert(old_log + status_writes(actions_view(r@)) =~= seq!["extracting"@, "transcribing"@, "failed"@]);
                },
                JobEvent::Transcribed(Ok(w)) => {
                    lemma_transcribed_writes(w, dl, media, save);
                    lemma_transcribed_no_rows(w, dl, media, save);
                    if parse_spec(w.srt_content@) is Err {
                        assert(old_log + status_writes(actions_view(r@)) =~= seq!["extracting"@, "transcribing"@, "failed"@]);
                    } else {
                        assert(old_log + status_writes(actions_view(r@)) =~= seq!["extracting"@, "transcribing"@, "translating"@]);
                    }
                },
                JobEvent::Translations(ts) => {
                    if old_phase == JobPhase::Finalizing {
                        lemma_final_writes(ts@);
                        match final_status(statuses_of(ts@)) {
                            Some((st, _)) => {
                                assert(st == "completed"@ || st == "failed"@);
                                assert(old_log + status_writes(actions_view(r@)) =~= seq![
                                    "extracting"@,
                                    "transcribing"@,
                                    "translating"@,
                                    st,
                                ]);
                            },
                            None => {
                                assert(old_log + status_writes(actions_view(r@)) =~= old_log);
                            },
                        }
                    } else {
                        lemma_advance_writes_nothing(
                            queue_view(ts@),
                            0,
                            lang,
                            media,
                            content,
                            texts_of(es),
                        );
                        assert(old_log + status_writes(actions_view(r@)) =~= old_log);
                        let q2 = queue_view(ts@);
                        let stop = advance_stop(q2, 0, lang);
                        lemma_advance_stop(q2, 0, lang);
                        lemma_advance_rows(
                            q2,
                            0,
                            lang,
                            media,
                            content,
                            texts_of(es),
                            Seq::<Seq<char>>::empty(),
                        );
                        assert(Seq::<Seq<char>>::empty() + completions(stop - 0) =~= completions(
                            stop,
                        ));
                        assert(recorded_rows(q2, Seq::<Seq<char>>::empty(), lang, 0)
                            == Seq::<(i64, Seq<char>)>::empty());
                        assert(old_rows + row_writes(actions_view(r@)) =~= recorded_rows(
                            q2,
                            completions(stop),
                            lang,
                            stop,
                        ) + if stop < q2.len() {
                            seq![(q2[stop].0, "in_progress"@)]
                        } else {
                            Seq::<(i64, Seq<char>)>::empty()
                        });
                        assert(all_settled(completions(stop)));
                    }
                },
                JobEvent::Translated(res) => {
                    let o = outcome_actions(
                        es,
                        translated_view(res),
                        translated_error_text(n, res),
                        q[i].0,
                        q[i].1,
                        media,
                    );
                    let a = advance_actions(q, i + 1, lang, media, content, texts_of(es));
                    lemma_outcome_writes_nothing(
                        es,
                        translated_view(res),
                        translated_error_text(n, res),
                        q[i].0,
                        q[i].1,
                        media,
                    );
                    lemma_advance_writes_nothing(q, i + 1, lang, media, content, texts_of(es));
                    lemma_status_writes_concat(o, a);
                    let st = outcome_status(es, translated_view(res));
                    let o1 = old_o.push(st);
                    let stop = advance_stop(q, i + 1, lang);
                    lemma_advance_stop(q, i + 1, lang);
                    lemma_outcome_rows(
                        es,
                        translated_view(res),
                        translated_error_text(n, res),
                        q[i].0,
                        q[i].1,
                        media,
                    );
                    lemma_row_writes_concat(o, a);
                    lemma_recorded_agree(q, old_o, o1, lang, i);
                    lemma_advance_rows(q, i + 1, lang, media, content, texts_of(es), o1);
                    assert(q[i].1 != lang);
                    assert(recorded_rows(q, o1, lang, i + 1) == recorded_rows(q, o1, lang, i) + seq![
                        (q[i].0, "in_progress"@),
                        (q[i].0, st),
                    ]);
                    assert(old_rows + row_writes(actions_view(r@)) =~= recorded_rows(q, o1, lang, i + 1)
                        + row_writes(a));
                    assert(all_settled(o1 + completions(stop - (i + 1))));
                    assert(old_log + status_writes(actions_view(r@)) =~= old_log);
                },
            }
        }
        self.status_log = Ghost(old_log + status_writes(actions_view(r@)));
        let ghost new_o: Seq<Seq<char>> = match ev {
            JobEvent::Translations(ts) => if old_phase == JobPhase::Finalizing {
                old_o
            } else {
                completions(advance_stop(queue_view(ts@), 0, lang))
            },
            JobEvent::Translated(res) => old_o.push(outcome_status(es, translated_view(res)))
                + completions(advance_stop(q, i + 1, lang) - (i + 1)),
            _ => old_o,
        };
        self.outcomes = Ghost(new_o);
        self.row_log = Ghost(old_rows + row_writes(actions_view(r@)));
        r
    }
}

impl JobRun {
    fn on_transcribed(&mut self, w: WhisperResult) -> (r: Vec<JobAction>)
        requires
            old(self).consistent(),
        ensures
            final(self).status_log == old(self).status_log,
            final(self).outcomes == old(self).outcomes,
            final(self).row_log == old(self).row_log,
            final(self).same_setup(old(self)),
            final(self).consistent(),
            actions_view(r@) == transcribed_actions(
                w,
                old(self).default_language@,
                old(self).media_path@,
                old(self).save_original_srt,
            ),
            parse_spec(w.srt_content@) is Err ==> final(self).phase == JobPhase::Done,
            parse_spec(w.srt_content@) matches Ok(es) ==> {
                &&& final(self).phase == JobPhase::AwaitingTranslations
                &&& entries_view(final(self).entries@) == es
                &&& final(self).language@ == chosen_language(w, old(self).default_language@)
                &&& final(self).srt_content@ == w.srt_content@
            },
    {
        let ghost wv = w;
        let lang = match w.detected_language {
            Some(l) => l,
            None => self.default_language.clone(),
        };
        let mut out: Vec<JobAction> = Vec::new();
        out.push(JobAction::SetJobLanguage(lang.clone()));
        match parse(w.srt_content.as_str()) {
            Err(e) => {
                let mut f = failed_with(e);
                out.append(&mut f);
                self.phase = JobPhase::Done;
                assert(actions_view(out@) =~= transcribed_actions(
                    wv,
                    self.default_language@,
                    self.media_path@,
                    self.save_original_srt,
                ));
                out
            },
            Ok(entries) => {
                if self.save_original_srt {
                    let path = srt_path(self.media_path.as_str(), lang.as_str());
                    out.push(JobAction::WriteFile { path, content: w.srt_content.clone() });
                }
                out.push(job_status("translating"));
                out.push(JobAction::LoadTranslations);
                assert(actions_view(out@) =~= transcribed_actions(
                    wv,
                    self.default_language@,
                    self.media_path@,
                    self.save_original_srt,
                ));
                self.texts = extract_texts(entries.as_slice());
                self.entries = entries;
                self.language = lang;
                self.srt_content = w.srt_content;
                self.phase = JobPhase::AwaitingTranslations;
                out
            },
        }
    }

    fn on_translated(&mut self, res: Result<Vec<String>, SubsForgeError>) -> (r: Vec<JobAction>)
        requires
            old(self).consistent(),
            old(self).phase == JobPhase::Translating,
        ensures
            final(self).status_log == old(self).status_log,
            final(self).outcomes == old(self).outcomes,
            final(self).row_log == old(self).row_log,
            final(self).same_setup(old(self)),
            final(self).consistent(),
            ({
                let q = queue_view(old(self).queue@);
                let i = old(self).next as int;
                &&& actions_view(r@) == outcome_actions(
                    entries_view(old(self).entries@),
                    translated_view(res),
                    translated_error_text(old(self).entries@.len(), res),
                    q[i].0,
                    q[i].1,
                    old(self).media_path@,
                ) + advance_actions(
                    q,
                    i + 1,
                    old(self).language@,
                    old(self).media_path@,
                    old(self).srt_content@,
                    texts_of(entries_view(old(self).entries@)),
                )
                &&& final(self).next == advance_stop(q, i + 1, old(self).language@)
                &&& final(self).phase == if final(self).next < q.len() {
                    JobPhase::Translating
                } else {
                    JobPhase::Finalizing
                }
                &&& final(self).queue == old(self).queue
                &&& final(self).language == old(self).language
                &&& final(self).srt_content == old(self).srt_content
                &&& final(self).entries == old(self).entries
            }),
    {
        let ghost resv = res;
        assert(self.phase == JobPhase::Translating);
        let i = self.next;
        assert(i < self.queue.len());
        let id = self.queue[i].id;
        let mut out: Vec<JobAction> = Vec::new();
        match res {
            Ok(tt) => {
                match replace_texts(self.entries.as_slice(), tt.as_slice()) {
                    Ok(te) => {
                        let content = serialize(te.as_slice());
                        let path = srt_path(
                            self.media_path.as_str(),
                            self.queue[i].target_language.as_str(),
                        );
                        out.push(JobAction::WriteFile { path: path.clone(), content });
                        out.push(
                            JobAction::SetTranslationStatus {
                                id,
                                status: String::from_str("completed"),
                                srt_path: Some(path),
                                failure_reason: None,
                            },
                        );
                        assert(string_views(tt@).len() == tt@.len());
                        assert(translated_view(resv) == Ok::<Seq<Seq<char>>, ErrorView>(string_views(tt@)));
                    },
                    Err(e) => {
                        out.push(
                            JobAction::SetTranslationStatus {
                                id,
                                status: String::from_str("failed"),
                                srt_path: None,
                                failure_reason: Some(e.message()),
                            },
                        );
                        assert(string_views(tt@).len() == tt@.len());
                        assert(entries_view(self.entries@).len() == self.entries@.len());
                        assert(translated_error_text(self.entries@.len(), resv) == error_message(e));
                    },
                }
            },
            Err(e) => {
                out.push(
                    JobAction::SetTranslationStatus {
                        id,
                        status: String::from_str("failed"),
                        srt_path: None,
                        failure_reason: Some(e.message()),
                    },
                );
            },
        }
        let ghost q = queue_view(self.queue@);
        assert(q[i as int] == (id, self.queue@[i as int].target_language@));
        assert(actions_view(out@) =~= outcome_actions(
            entries_view(self.entries@),
            translated_view(resv),
            translated_error_text(self.entries@.len(), resv),
            q[i as int].0,
            q[i as int].1,
            self.media_path@,
        ));
        self.next = i + 1;
        let mut more = self.advance();
        out.append(&mut more);
        out
    }
}

} // verus!
