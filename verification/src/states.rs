//! The lifecycle enums the database stores as text: agent sessions,
//! datasets, downloads, job events, personas, training runs and their
//! presets — each with its stored name, the parse back, and (for the
//! training run) the transition rules.

use vstd::prelude::*;

use crate::error::CoreError;
use crate::text::{debug_quoted, debug_string, str_eq};

verus! {

/// The state an agent session is in.
#[derive(Debug, Clone, Copy, PartialEq, Eq)]
pub enum AgentSessionState {
    Starting,
    Idle,
    Working,
    AwaitingApproval,
    Stopped,
    Failed,
}

pub open spec fn agent_state_name(s: AgentSessionState) -> Seq<char> {
    match s {
        AgentSessionState::Starting => "starting"@,
        AgentSessionState::Idle => "idle"@,
        AgentSessionState::Working => "working"@,
        AgentSessionState::AwaitingApproval => "awaiting_approval"@,
        AgentSessionState::Stopped => "stopped"@,
        AgentSessionState::Failed => "failed"@,
    }
}

pub open spec fn agent_state_of(s: Seq<char>) -> Option<AgentSessionState> {
    if s == "starting"@ {
        Some(AgentSessionState::Starting)
    } else if s == "idle"@ {
        Some(AgentSessionState::Idle)
    } else if s == "working"@ {
        Some(AgentSessionState::Working)
    } else if s == "awaiting_approval"@ {
        Some(AgentSessionState::AwaitingApproval)
    } else if s == "stopped"@ {
        Some(AgentSessionState::Stopped)
    } else if s == "failed"@ {
        Some(AgentSessionState::Failed)
    } else {
        None
    }
}

impl AgentSessionState {
    pub fn as_str(self) -> (r: &'static str)
        ensures
            r@ == agent_state_name(self),
    {
        match self {
            AgentSessionState::Starting => "starting",
            AgentSessionState::Idle => "idle",
            AgentSessionState::Working => "working",
            AgentSessionState::AwaitingApproval => "awaiting_approval",
            AgentSessionState::Stopped => "stopped",
            AgentSessionState::Failed => "failed",
        }
    }

    /// The state a stored name stands for; an unknown name is a bad row.
    pub fn parse(s: &str) -> (r: Result<AgentSessionState, CoreError>)
        ensures
            agent_state_of(s@) matches Some(st) ==> r == Ok::<AgentSessionState, CoreError>(st),
            agent_state_of(s@) is None ==> (r matches Err(e) && e.db_message() == Some(
                "bad agent session state "@ + debug_quoted(s@),
            )),
    {
        if str_eq(s, "starting") {
            Ok(AgentSessionState::Starting)
        } else if str_eq(s, "idle") {
            Ok(AgentSessionState::Idle)
        } else if str_eq(s, "working") {
            Ok(AgentSessionState::Working)
        } else if str_eq(s, "awaiting_approval") {
            Ok(AgentSessionState::AwaitingApproval)
        } else if str_eq(s, "stopped") {
            Ok(AgentSessionState::Stopped)
        } else if str_eq(s, "failed") {
            Ok(AgentSessionState::Failed)
        } else {
            let mut m = String::from_str("bad agent session state ");
            m.append(debug_string(s).as_str());
            Err(CoreError::Db(m))
        }
    }

    /// Whether the session has finished (no more turns).
    pub fn is_terminal(self) -> (r: bool)
        ensures
            r == (self == AgentSessionState::Stopped || self == AgentSessionState::Failed),
    {
        match self {
            AgentSessionState::Stopped | AgentSessionState::Failed => true,
            _ => false,
        }
    }
}

/// How a dataset is cut: single frames or short clips.
#[derive(Debug, Clone, Copy, PartialEq, Eq)]
pub enum DatasetMode {
    Frames,
    Clips,
}

pub open spec fn dataset_mode_name(m: DatasetMode) -> Seq<char> {
    match m {
        DatasetMode::Frames => "frames"@,
        DatasetMode::Clips => "clips"@,
    }
}

pub open spec fn dataset_mode_of(s: Seq<char>) -> Option<DatasetMode> {
    if s == "frames"@ {
        Some(DatasetMode::Frames)
    } else if s == "clips"@ {
        Some(DatasetMode::Clips)
    } else {
        None
    }
}

impl DatasetMode {
    pub fn as_str(self) -> (r: &'static str)
        ensures
            r@ == dataset_mode_name(self),
    {
        match self {
            DatasetMode::Frames => "frames",
            DatasetMode::Clips => "clips",
        }
    }

    pub fn parse(s: &str) -> (r: Option<DatasetMode>)
        ensures
            r == dataset_mode_of(s@),
    {
        if str_eq(s, "frames") {
            Some(DatasetMode::Frames)
        } else if str_eq(s, "clips") {
            Some(DatasetMode::Clips)
        } else {
            None
        }
    }
}

/// Where a download is in its lifecycle.
#[derive(Debug, Clone, Copy, PartialEq, Eq)]
pub enum DownloadState {
    /// Waiting for the worker's single slot.
    Queued,
    /// Transferring.
    Running,
    /// The user paused it; `resume` puts it back to `Queued`.
    Paused,
    /// Fully transferred, hashing before the import.
    Verifying,
    /// Imported into the store.
    Done,
    /// Gave up, or the user cancelled.
    Failed,
}

pub open spec fn download_state_name(s: DownloadState) -> Seq<char> {
    match s {
        DownloadState::Queued => "queued"@,
        DownloadState::Running => "running"@,
        DownloadState::Paused => "paused"@,
        DownloadState::Verifying => "verifying"@,
        DownloadState::Done => "done"@,
        DownloadState::Failed => "failed"@,
    }
}

pub open spec fn download_state_of(s: Seq<char>) -> Option<DownloadState> {
    if s == "queued"@ {
        Some(DownloadState::Queued)
    } else if s == "running"@ {
        Some(DownloadState::Running)
    } else if s == "paused"@ {
        Some(DownloadState::Paused)
    } else if s == "verifying"@ {
        Some(DownloadState::Verifying)
    } else if s == "done"@ {
        Some(DownloadState::Done)
    } else if s == "failed"@ {
        Some(DownloadState::Failed)
    } else {
        None
    }
}

impl DownloadState {
    pub fn as_str(self) -> (r: &'static str)
        ensures
            r@ == download_state_name(self),
    {
        match self {
            DownloadState::Queued => "queued",
            DownloadState::Running => "running",
            DownloadState::Paused => "paused",
            DownloadState::Verifying => "verifying",
            DownloadState::Done => "done",
            DownloadState::Failed => "failed",
        }
    }

    /// The state a stored name stands for; an unknown name is a bad row.
    pub fn parse(s: &str) -> (r: Result<DownloadState, CoreError>)
        ensures
            download_state_of(s@) matches Some(st) ==> r == Ok::<DownloadState, CoreError>(st),
            download_state_of(s@) is None ==> (r matches Err(e) && e.db_message() == Some(
                "bad download state "@ + debug_quoted(s@),
            )),
    {
        if str_eq(s, "queued") {
            Ok(DownloadState::Queued)
        } else if str_eq(s, "running") {
            Ok(DownloadState::Running)
        } else if str_eq(s, "paused") {
            Ok(DownloadState::Paused)
        } else if str_eq(s, "verifying") {
            Ok(DownloadState::Verifying)
        } else if str_eq(s, "done") {
            Ok(DownloadState::Done)
        } else if str_eq(s, "failed") {
            Ok(DownloadState::Failed)
        } else {
            let mut m = String::from_str("bad download state ");
            m.append(debug_string(s).as_str());
            Err(CoreError::Db(m))
        }
    }

    pub fn is_terminal(self) -> (r: bool)
        ensures
            r == (self == DownloadState::Done || self == DownloadState::Failed),
    {
        match self {
            DownloadState::Done | DownloadState::Failed => true,
            _ => false,
        }
    }
}

/// Severity of a job event.
#[derive(Debug, Clone, Copy, PartialEq, Eq)]
pub enum EventLevel {
    Info,
    Warn,
    Error,
}

pub open spec fn event_level_name(l: EventLevel) -> Seq<char> {
    match l {
        EventLevel::Info => "info"@,
        EventLevel::Warn => "warn"@,
        EventLevel::Error => "error"@,
    }
}

impl EventLevel {
    pub fn as_str(self) -> (r: &'static str)
        ensures
            r@ == event_level_name(self),
    {
        match self {
            EventLevel::Info => "info",
            EventLevel::Warn => "warn",
            EventLevel::Error => "error",
        }
    }
}

/// How one chat session picks its persona.
#[derive(Debug, Clone, Copy, PartialEq, Eq)]
pub enum PersonaMode {
    /// Use whichever persona is active globally (the default).
    Inherit,
    /// Explicitly no persona for this chat.
    NoPersona,
    /// Use this session's own persona.
    Persona,
}

pub open spec fn persona_mode_name(m: PersonaMode) -> Seq<char> {
    match m {
        PersonaMode::Inherit => "inherit"@,
        PersonaMode::NoPersona => "none"@,
        PersonaMode::Persona => "persona"@,
    }
}

/// Lenient read: anything unrecognised is `Inherit`.
pub open spec fn persona_mode_of(s: Seq<char>) -> PersonaMode {
    if s == "none"@ {
        PersonaMode::NoPersona
    } else if s == "persona"@ {
        PersonaMode::Persona
    } else {
        PersonaMode::Inherit
    }
}

impl Default for PersonaMode {
    fn default() -> (r: Self)
        ensures
            r == PersonaMode::Inherit,
    {
        PersonaMode::Inherit
    }
}

impl PersonaMode {
    pub fn as_str(self) -> (r: &'static str)
        ensures
            r@ == persona_mode_name(self),
    {
        match self {
            PersonaMode::Inherit => "inherit",
            PersonaMode::NoPersona => "none",
            PersonaMode::Persona => "persona",
        }
    }

    /// Lenient on purpose: an unrecognised stored value reads back as
    /// `Inherit`, so one odd row never breaks loading a session.
    pub fn from_db(value: &str) -> (r: PersonaMode)
        ensures
            r == persona_mode_of(value@),
    {
        if str_eq(value, "none") {
            PersonaMode::NoPersona
        } else if str_eq(value, "persona") {
            PersonaMode::Persona
        } else {
            PersonaMode::Inherit
        }
    }
}

/// The training-run lifecycle: `preparing → running → paused | interrupted
/// → resuming → running → finishing → completed | failed | cancelled`.
#[derive(Debug, Clone, Copy, PartialEq, Eq)]
pub enum RunState {
    Preparing,
    Running,
    Paused,
    Interrupted,
    Resuming,
    Finishing,
    Completed,
    Failed,
    Cancelled,
}

pub open spec fn run_state_name(s: RunState) -> Seq<char> {
    match s {
        RunState::Preparing => "preparing"@,
        RunState::Running => "running"@,
        RunState::Paused => "paused"@,
        RunState::Interrupted => "interrupted"@,
        RunState::Resuming => "resuming"@,
        RunState::Finishing => "finishing"@,
        RunState::Completed => "completed"@,
        RunState::Failed => "failed"@,
        RunState::Cancelled => "cancelled"@,
    }
}

pub open spec fn run_state_of(s: Seq<char>) -> Option<RunState> {
    if s == "preparing"@ {
        Some(RunState::Preparing)
    } else if s == "running"@ {
        Some(RunState::Running)
    } else if s == "paused"@ {
        Some(RunState::Paused)
    } else if s == "interrupted"@ {
        Some(RunState::Interrupted)
    } else if s == "resuming"@ {
        Some(RunState::Resuming)
    } else if s == "finishing"@ {
        Some(RunState::Finishing)
    } else if s == "completed"@ {
        Some(RunState::Completed)
    } else if s == "failed"@ {
        Some(RunState::Failed)
    } else if s == "cancelled"@ {
        Some(RunState::Cancelled)
    } else {
        None
    }
}

pub open spec fn run_terminal(s: RunState) -> bool {
    s == RunState::Completed || s == RunState::Failed || s == RunState::Cancelled
}

/// The legal training-run transitions.
pub open spec fn run_step(from: RunState, to: RunState) -> bool {
    match (from, to) {
        (RunState::Preparing, RunState::Running) => true,
        (RunState::Preparing, RunState::Failed) => true,
        (RunState::Preparing, RunState::Cancelled) => true,
        (RunState::Running, RunState::Paused) => true,
        (RunState::Running, RunState::Interrupted) => true,
        (RunState::Running, RunState::Finishing) => true,
        (RunState::Running, RunState::Failed) => true,
        (RunState::Running, RunState::Cancelled) => true,
        (RunState::Paused, RunState::Resuming) => true,
        (RunState::Paused, RunState::Cancelled) => true,
        (RunState::Interrupted, RunState::Resuming) => true,
        (RunState::Interrupted, RunState::Cancelled) => true,
        (RunState::Resuming, RunState::Running) => true,
        (RunState::Resuming, RunState::Failed) => true,
        (RunState::Resuming, RunState::Cancelled) => true,
        (RunState::Finishing, RunState::Completed) => true,
        (RunState::Finishing, RunState::Failed) => true,
        _ => false,
    }
}

pub open spec fn transition_error(from: RunState, to: RunState) -> Seq<char> {
    "training run: cannot go from "@ + run_state_name(from) + " to "@ + run_state_name(to)
}

impl RunState {
    /// Every state, in lifecycle order.
    pub fn all() -> (r: Vec<RunState>)
        ensures
            r@ == seq![
                RunState::Preparing,
                RunState::Running,
                RunState::Paused,
                RunState::Interrupted,
                RunState::Resuming,
                RunState::Finishing,
                RunState::Completed,
                RunState::Failed,
                RunState::Cancelled,
            ],
    {
        let mut v = Vec::new();
        v.push(RunState::Preparing);
        v.push(RunState::Running);
        v.push(RunState::Paused);
        v.push(RunState::Interrupted);
        v.push(RunState::Resuming);
        v.push(RunState::Finishing);
        v.push(RunState::Completed);
        v.push(RunState::Failed);
        v.push(RunState::Cancelled);
        assert(v@ =~= seq![
            RunState::Preparing,
            RunState::Running,
            RunState::Paused,
            RunState::Interrupted,
            RunState::Resuming,
            RunState::Finishing,
            RunState::Completed,
            RunState::Failed,
            RunState::Cancelled,
        ]);
        v
    }

    pub fn as_str(self) -> (r: &'static str)
        ensures
            r@ == run_state_name(self),
    {
        match self {
            RunState::Preparing => "preparing",
            RunState::Running => "running",
            RunState::Paused => "paused",
            RunState::Interrupted => "interrupted",
            RunState::Resuming => "resuming",
            RunState::Finishing => "finishing",
            RunState::Completed => "completed",
            RunState::Failed => "failed",
            RunState::Cancelled => "cancelled",
        }
    }

    pub fn parse(s: &str) -> (r: Option<RunState>)
        ensures
            r == run_state_of(s@),
    {
        if str_eq(s, "preparing") {
            Some(RunState::Preparing)
        } else if str_eq(s, "running") {
            Some(RunState::Running)
        } else if str_eq(s, "paused") {
            Some(RunState::Paused)
        } else if str_eq(s, "interrupted") {
            Some(RunState::Interrupted)
        } else if str_eq(s, "resuming") {
            Some(RunState::Resuming)
        } else if str_eq(s, "finishing") {
            Some(RunState::Finishing)
        } else if str_eq(s, "completed") {
            Some(RunState::Completed)
        } else if str_eq(s, "failed") {
            Some(RunState::Failed)
        } else if str_eq(s, "cancelled") {
            Some(RunState::Cancelled)
        } else {
            None
        }
    }

    /// Terminal states never transition again.
    pub fn is_terminal(self) -> (r: bool)
        ensures
            r == run_terminal(self),
    {
        match self {
            RunState::Completed | RunState::Failed | RunState::Cancelled => true,
            _ => false,
        }
    }

    /// Whether `self -> next` is a legal transition.
    pub fn can_transition_to(self, next: RunState) -> (r: bool)
        ensures
            r == run_step(self, next),
    {
        match (self, next) {
            (RunState::Preparing, RunState::Running) => true,
            (RunState::Preparing, RunState::Failed) => true,
            (RunState::Preparing, RunState::Cancelled) => true,
            (RunState::Running, RunState::Paused) => true,
            (RunState::Running, RunState::Interrupted) => true,
            (RunState::Running, RunState::Finishing) => true,
            (RunState::Running, RunState::Failed) => true,
            (RunState::Running, RunState::Cancelled) => true,
            (RunState::Paused, RunState::Resuming) => true,
            (RunState::Paused, RunState::Cancelled) => true,
            (RunState::Interrupted, RunState::Resuming) => true,
            (RunState::Interrupted, RunState::Cancelled) => true,
            (RunState::Resuming, RunState::Running) => true,
            (RunState::Resuming, RunState::Failed) => true,
            (RunState::Resuming, RunState::Cancelled) => true,
            (RunState::Finishing, RunState::Completed) => true,
            (RunState::Finishing, RunState::Failed) => true,
            _ => false,
        }
    }

    /// Validate a transition; the error names both states.
    pub fn ensure_transition(self, next: RunState) -> (r: Result<(), CoreError>)
        ensures
            r is Ok <==> run_step(self, next),
            r matches Err(e) ==> e.config_message() == Some(transition_error(self, next)),
    {
        if self.can_transition_to(next) {
            Ok(())
        } else {
            let mut m = String::from_str("training run: cannot go from ");
            m.append(self.as_str());
            m.append(" to ");
            m.append(next.as_str());
            Err(CoreError::Config(m))
        }
    }
}

/// Speed/quality trade-off applied on top of a training profile.
#[derive(Debug, Clone, Copy, PartialEq, Eq)]
pub enum Preset {
    Fast,
    Balanced,
    Thorough,
}

pub open spec fn preset_name(p: Preset) -> Seq<char> {
    match p {
        Preset::Fast => "fast"@,
        Preset::Balanced => "balanced"@,
        Preset::Thorough => "thorough"@,
    }
}

pub open spec fn preset_of(s: Seq<char>) -> Option<Preset> {
    if s == "fast"@ {
        Some(Preset::Fast)
    } else if s == "balanced"@ {
        Some(Preset::Balanced)
    } else if s == "thorough"@ {
        Some(Preset::Thorough)
    } else {
        None
    }
}

impl Preset {
    pub fn as_str(self) -> (r: &'static str)
        ensures
            r@ == preset_name(self),
    {
        match self {
            Preset::Fast => "fast",
            Preset::Balanced => "balanced",
            Preset::Thorough => "thorough",
        }
    }

    pub fn parse(s: &str) -> (r: Option<Preset>)
        ensures
            r == preset_of(s@),
    {
        if str_eq(s, "fast") {
            Some(Preset::Fast)
        } else if str_eq(s, "balanced") {
            Some(Preset::Balanced)
        } else if str_eq(s, "thorough") {
            Some(Preset::Thorough)
        } else {
            None
        }
    }
}

/// What recording a model's base family did.
#[derive(Debug, Clone, Copy, PartialEq, Eq)]
pub enum SetFamily {
    Written,
    /// The row carries the user's own choice and the new value is not one —
    /// nothing was changed.
    KeptUserChoice,
}

} // verus!

verus! {

/// Every training-run state reads back from its stored name.
pub proof fn law_run_state_round_trip(s: RunState)
    ensures
        run_state_of(run_state_name(s)) == Some(s),
{
    reveal_strlit("preparing");
    assert("preparing"@.len() == 9 && "preparing"@[0] == 'p' && "preparing"@[1] == 'r');
    reveal_strlit("running");
    assert("running"@.len() == 7 && "running"@[0] == 'r' && "running"@[1] == 'u');
    reveal_strlit("paused");
    assert("paused"@.len() == 6 && "paused"@[0] == 'p' && "paused"@[1] == 'a');
    reveal_strlit("interrupted");
    assert("interrupted"@.len() == 11 && "interrupted"@[0] == 'i' && "interrupted"@[1] == 'n');
    reveal_strlit("resuming");
    assert("resuming"@.len() == 8 && "resuming"@[0] == 'r' && "resuming"@[1] == 'e');
    reveal_strlit("finishing");
    assert("finishing"@.len() == 9 && "finishing"@[0] == 'f' && "finishing"@[1] == 'i');
    reveal_strlit("completed");
    assert("completed"@.len() == 9 && "completed"@[0] == 'c' && "completed"@[1] == 'o');
    reveal_strlit("failed");
    assert("failed"@.len() == 6 && "failed"@[0] == 'f' && "failed"@[1] == 'a');
    reveal_strlit("cancelled");
    assert("cancelled"@.len() == 9 && "cancelled"@[0] == 'c' && "cancelled"@[1] == 'a');
}

/// A terminal training run never moves again, no run ever returns to
/// `preparing`, and every run that has not finished can still end: it has a
/// legal step into a terminal state.
pub proof fn law_run_lifecycle(from: RunState, to: RunState)
    ensures
        run_terminal(from) ==> !run_step(from, to),
        !run_step(from, RunState::Preparing),
        !run_terminal(from) ==> (run_step(from, RunState::Cancelled) || run_step(
            from,
            RunState::Failed,
        )),
{
}

/// Every download state reads back from its stored name.
pub proof fn law_download_state_round_trip(s: DownloadState)
    ensures
        download_state_of(download_state_name(s)) == Some(s),
{
    reveal_strlit("queued");
    assert("queued"@.len() == 6 && "queued"@[0] == 'q' && "queued"@[1] == 'u');
    reveal_strlit("running");
    assert("running"@.len() == 7 && "running"@[0] == 'r' && "running"@[1] == 'u');
    reveal_strlit("paused");
    assert("paused"@.len() == 6 && "paused"@[0] == 'p' && "paused"@[1] == 'a');
    reveal_strlit("verifying");
    assert("verifying"@.len() == 9 && "verifying"@[0] == 'v' && "verifying"@[1] == 'e');
    reveal_strlit("done");
    assert("done"@.len() == 4 && "done"@[0] == 'd' && "done"@[1] == 'o');
    reveal_strlit("failed");
    assert("failed"@.len() == 6 && "failed"@[0] == 'f' && "failed"@[1] == 'a');
}

/// Every agent-session state reads back from its stored name.
pub proof fn law_agent_state_round_trip(s: AgentSessionState)
    ensures
        agent_state_of(agent_state_name(s)) == Some(s),
{
    reveal_strlit("starting");
    assert("starting"@.len() == 8 && "starting"@[0] == 's' && "starting"@[1] == 't');
    reveal_strlit("idle");
    assert("idle"@.len() == 4 && "idle"@[0] == 'i' && "idle"@[1] == 'd');
    reveal_strlit("working");
    assert("working"@.len() == 7 && "working"@[0] == 'w' && "working"@[1] == 'o');
    reveal_strlit("awaiting_approval");
    assert("awaiting_approval"@.len() == 17 && "awaiting_approval"@[0] == 'a' && "awaiting_approval"@[1] == 'w');
    reveal_strlit("stopped");
    assert("stopped"@.len() == 7 && "stopped"@[0] == 's' && "stopped"@[1] == 't');
    reveal_strlit("failed");
    assert("failed"@.len() == 6 && "failed"@[0] == 'f' && "failed"@[1] == 'a');
}

/// Dataset modes and presets read back from their stored names.
pub proof fn law_mode_and_preset_round_trip(m: DatasetMode, p: Preset)
    ensures
        dataset_mode_of(dataset_mode_name(m)) == Some(m),
        preset_of(preset_name(p)) == Some(p),
{
    reveal_strlit("frames");
    assert("frames"@.len() == 6 && "frames"@[0] == 'f' && "frames"@[1] == 'r');
    reveal_strlit("clips");
    assert("clips"@.len() == 5 && "clips"@[0] == 'c' && "clips"@[1] == 'l');
    reveal_strlit("fast");
    assert("fast"@.len() == 4 && "fast"@[0] == 'f' && "fast"@[1] == 'a');
    reveal_strlit("balanced");
    assert("balanced"@.len() == 8 && "balanced"@[0] == 'b' && "balanced"@[1] == 'a');
    reveal_strlit("thorough");
    assert("thorough"@.len() == 8 && "thorough"@[0] == 't' && "thorough"@[1] == 'h');
}

/// Every persona mode reads back from its stored name.
pub proof fn law_persona_mode_round_trip(m: PersonaMode)
    ensures
        persona_mode_of(persona_mode_name(m)) == m,
{
    reveal_strlit("inherit");
    assert("inherit"@.len() == 7 && "inherit"@[0] == 'i' && "inherit"@[1] == 'n');
    reveal_strlit("none");
    assert("none"@.len() == 4 && "none"@[0] == 'n' && "none"@[1] == 'o');
    reveal_strlit("persona");
    assert("persona"@.len() == 7 && "persona"@[0] == 'p' && "persona"@[1] == 'e');
}


/// Where a job is in its lifecycle.
#[derive(Debug, Clone, Copy, PartialEq, Eq)]
pub enum JobState {
    Queued,
    Scheduled,
    Preparing,
    Running,
    Post,
    Completed,
    Failed,
    Cancelled,
}

pub open spec fn job_state_name(s: JobState) -> Seq<char> {
    match s {
        JobState::Queued => "queued"@,
        JobState::Scheduled => "scheduled"@,
        JobState::Preparing => "preparing"@,
        JobState::Running => "running"@,
        JobState::Post => "post"@,
        JobState::Completed => "completed"@,
        JobState::Failed => "failed"@,
        JobState::Cancelled => "cancelled"@,
    }
}

impl JobState {
    pub fn as_str(self) -> (r: &'static str)
        ensures
            r@ == job_state_name(self),
    {
        match self {
            JobState::Queued => "queued",
            JobState::Scheduled => "scheduled",
            JobState::Preparing => "preparing",
            JobState::Running => "running",
            JobState::Post => "post",
            JobState::Completed => "completed",
            JobState::Failed => "failed",
            JobState::Cancelled => "cancelled",
        }
    }

    /// Whether the job has finished, one way or another.
    pub fn is_terminal(self) -> (r: bool)
        ensures
            r == (self is Completed || self is Failed || self is Cancelled),
    {
        match self {
            JobState::Completed | JobState::Failed | JobState::Cancelled => true,
            _ => false,
        }
    }
}

} // verus!
