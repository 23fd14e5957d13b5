//! The plain rows of the smaller tables: agents and their sessions,
//! datasets and concepts, documents, downloads, jobs, personas, runtimes,
//! chat sessions, training runs and voice identities.

use vstd::prelude::*;

use crate::states::{AgentSessionState, DatasetMode, DownloadState, EventLevel, JobState, PersonaMode, Preset};

verus! {

/// An agent profile.
#[derive(Debug, Clone)]
pub struct Agent {
    pub id: String,
    pub name: String,
    pub adapter: String,
    pub model_id: Option<String>,
    pub workspace_path: String,
    pub allowed_paths: Vec<String>,
    pub toolset: Option<Vec<String>>,
    pub created_at: String,
}

/// What a caller supplies to create an agent.
#[derive(Debug, Clone)]
pub struct NewAgent {
    pub name: String,
    pub adapter: String,
    pub model_id: Option<String>,
    pub workspace_path: String,
    pub allowed_paths: Vec<String>,
    pub toolset: Option<Vec<String>>,
}

/// One run of an agent.
#[derive(Debug, Clone)]
pub struct AgentSession {
    pub id: String,
    pub agent_id: String,
    pub adapter_session_id: Option<String>,
    pub state: AgentSessionState,
    pub error_text: Option<String>,
    pub checkpoint_path: Option<String>,
    pub started_at: String,
    pub ended_at: Option<String>,
}

/// A named concept of a dataset, with its trigger token.
#[derive(Debug, Clone, PartialEq)]
pub struct DatasetConcept {
    pub id: String,
    pub dataset_id: String,
    pub name: String,
    pub token: String,
    pub description: String,
    pub created_at: String,
}

/// What a caller supplies to add a concept.
#[derive(Debug, Clone)]
pub struct NewConcept {
    pub dataset_id: String,
    pub name: String,
    pub token: String,
    pub description: String,
}

/// A dataset.
#[derive(Debug, Clone, PartialEq)]
pub struct Dataset {
    pub id: String,
    pub name: String,
    pub mode: DatasetMode,
    pub source_root: String,
    pub trigger_word: String,
    pub prep_job_id: Option<String>,
    pub export_dir: Option<String>,
    pub created_at: String,
}

/// What a caller supplies to create a dataset.
#[derive(Debug, Clone)]
pub struct NewDataset {
    pub name: String,
    pub mode: DatasetMode,
    pub source_root: String,
    pub prep_job_id: Option<String>,
}

/// A document attached to a chat session.
#[derive(Debug, Clone)]
pub struct Document {
    pub id: String,
    pub session_id: String,
    pub name: String,
    pub source_path: String,
    pub format: String,
    pub created_at: String,
}

/// One chunk of a document's text.
#[derive(Debug, Clone, PartialEq)]
pub struct DocumentChunk {
    pub id: String,
    pub document_id: String,
    pub chunk_index: i64,
    pub text: String,
}

/// What a caller supplies to attach a document.
#[derive(Debug)]
pub struct NewDocument {
    pub session_id: String,
    pub name: String,
    pub source_path: String,
    pub format: String,
}

/// A download as stored.
#[derive(Debug, Clone)]
pub struct Download {
    pub id: String,
    pub url: String,
    pub filename: String,
    pub dest_path: String,
    pub model_type: Option<String>,
    pub sha256: Option<String>,
    pub size_bytes: Option<i64>,
    pub bytes_done: i64,
    pub retries: i64,
    pub state: DownloadState,
    pub error_text: Option<String>,
    pub model_id: Option<String>,
    pub created_at: String,
    pub updated_at: String,
    pub roles: Vec<String>,
    pub origin: Option<String>,
    pub base_family: Option<String>,
    pub family_source: Option<String>,
}

/// What a caller supplies to queue a download row.
#[derive(Debug, Clone, Default)]
pub struct NewDownload {
    pub url: String,
    pub filename: String,
    pub model_type: Option<String>,
    pub sha256: Option<String>,
    pub size_bytes: Option<u64>,
    pub roles: Vec<String>,
    pub origin: Option<String>,
    pub base_family: Option<String>,
    pub family_source: Option<String>,
}

/// Extra columns to update alongside a job's state change.
#[derive(Debug, Default)]
pub struct JobPatch {
    pub error_text: Option<String>,
    pub output_path: Option<String>,
    pub set_started_at: bool,
    pub set_finished_at: bool,
}

/// One line of a job's event log.
#[derive(Debug, Clone)]
pub struct JobEvent {
    pub ts: String,
    pub level: EventLevel,
    pub message: String,
}

/// Which jobs a listing returns.
#[derive(Debug, Default, Clone)]
pub struct JobFilter {
    /// Restrict to these states (empty = any).
    pub states: Vec<JobState>,
    pub limit: Option<u32>,
}

/// A stored persona.
#[derive(Debug, Clone, PartialEq, Eq)]
pub struct Persona {
    pub id: String,
    pub name: String,
    /// One emoji, as text.
    pub icon: String,
    /// Passed to the model verbatim.
    pub system_prompt: String,
    pub created_at: String,
    pub updated_at: String,
}

/// A managed runtime install.
#[derive(Debug, Clone, PartialEq, Eq)]
pub struct RuntimeRecord {
    pub id: String,
    pub kind: String,
    pub version: Option<String>,
    pub install_path: Option<String>,
    pub state: String,
    pub last_health: Option<String>,
    pub last_error: Option<String>,
}

/// A named job grouping for chat, image or video.
#[derive(Debug, Clone)]
pub struct Session {
    pub id: String,
    /// `"chat"` | `"image"` | `"video"`.
    pub capability: String,
    pub name: String,
    pub created_at: String,
    /// `None` = active; `Some` = archived.
    pub archived_at: Option<String>,
    /// How this chat picks its persona.
    pub persona_mode: PersonaMode,
    /// Only meaningful with [`PersonaMode::Persona`].
    pub persona_id: Option<String>,
}

/// What a caller supplies to create a training run.
#[derive(Debug, Clone)]
pub struct NewTrainingRun {
    pub name: String,
    pub profile_family: String,
    pub target_model_id: Option<String>,
    pub dataset_id: Option<String>,
    pub data_kind: DatasetMode,
    pub trigger_word: String,
    pub preset: Preset,
    pub hyperparams_json: String,
    pub sample_prompts_json: String,
    pub work_dir: String,
}

/// A saved voice: a reference clip and its transcript.
#[derive(Debug, Clone)]
pub struct VoiceIdentity {
    pub id: String,
    pub name: String,
    pub reference_audio_path: String,
    pub reference_transcript: String,
    pub created_at: String,
}

/// What a caller supplies to queue a download.
#[derive(Debug, Clone)]
pub struct EnqueueRequest {
    pub url: String,
    pub filename: String,
    /// The model type to import as; `None` → inferred.
    pub model_type: Option<String>,
    /// Expected SHA-256; `None` → no hash check.
    pub sha256: Option<String>,
    pub size_bytes: Option<u64>,
}

/// Whether start-up recovery fails a job in state `s`: one left mid-flight
/// (`scheduled`, `preparing`, `running` or `post`) by a previous process.
pub open spec fn failed_at_start(s: JobState) -> bool {
    s == JobState::Scheduled || s == JobState::Preparing || s == JobState::Running || s == JobState::Post
}

/// What start-up recovery does to a job in state `s`: a mid-flight job is
/// failed with this error text; any other is left alone (`None`).
pub fn job_recovery(s: JobState) -> (r: Option<&'static str>)
    ensures
        match r {
            Some(t) => failed_at_start(s) && t@ == "interrupted by a previous shutdown"@,
            None => !failed_at_start(s),
        },
{
    match s {
        JobState::Scheduled | JobState::Preparing | JobState::Running | JobState::Post => {
            Some("interrupted by a previous shutdown")
        },
        _ => None,
    }
}

} // verus!
