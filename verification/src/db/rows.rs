//! Stored rows as the database hands them over, and what they become: each
//! state column parsed, each list column split or decoded from JSON. A
//! column that does not parse makes the row a bad row.

use vstd::prelude::*;

use crate::db::downloads::{role_list, split_roles};
use crate::db::models::Model;
use crate::db::records::{Agent, AgentSession, Download};
use crate::db::stories::Character;
use crate::error::CoreError;
use crate::states::{agent_state_of, download_state_of, AgentSessionState, DownloadState};
use crate::text::{debug_quoted, views};

verus! {

/// What `serde_json` makes of a text read as a JSON array of strings: the
/// strings, or the parse error's message.
pub uninterp spec fn json_string_list(text: Seq<char>) -> Result<Seq<Seq<char>>, Seq<char>>;

/// What `serde_json` writes for a list of strings: the JSON array, or the
/// error's message.
pub uninterp spec fn json_of_strings(items: Seq<Seq<char>>) -> Result<Seq<char>, Seq<char>>;

/// `serde_json::from_str::<Vec<String>>`, its error by its `Display`.
/// Claims only that the outcome is a function of the text alone, named
/// [`json_string_list`].
#[verifier::external_body]
fn parse_string_list(text: &str) -> (r: Result<Vec<String>, String>)
    ensures
        match r {
            Ok(v) => json_string_list(text@) == Ok::<Seq<Seq<char>>, Seq<char>>(views(v@)),
            Err(m) => json_string_list(text@) == Err::<Seq<Seq<char>>, Seq<char>>(m@),
        },
{
    serde_json::from_str::<Vec<String>>(text).map_err(|e| e.to_string())
}

/// `serde_json::to_string` of a list of strings, its error by its
/// `Display`. Claims that the outcome is a function of the strings alone,
/// named [`json_of_strings`]; that it succeeds (it fails only for a value
/// whose own serialisation fails or for a map with non-string keys); and
/// that `serde_json::from_str` reads the text back as the same strings.
#[verifier::external_body]
fn encode_string_list(items: &[String]) -> (r: Result<String, String>)
    ensures
        match r {
            Ok(s) => json_of_strings(views(items@)) == Ok::<Seq<char>, Seq<char>>(s@) && json_string_list(s@)
                == Ok::<Seq<Seq<char>>, Seq<char>>(views(items@)),
            Err(m) => json_of_strings(views(items@)) == Err::<Seq<char>, Seq<char>>(m@),
        },
        r matches Ok(_),
{
    serde_json::to_string(items).map_err(|e| e.to_string())
}

/// What a decoded list column becomes: its strings, or a bad-row error,
/// its message `prefix` and the decoder's.
pub fn decoded_list(parsed: Result<Vec<String>, String>, prefix: &str) -> (r: Result<Vec<String>, CoreError>)
    ensures
        match parsed {
            Ok(v) => r == Ok::<Vec<String>, CoreError>(v),
            Err(m) => r matches Err(e) && e.db_message() == Some(prefix@ + m@),
        },
{
    match parsed {
        Ok(v) => Ok(v),
        Err(m) => {
            let mut msg = String::from_str(prefix);
            msg.append(m.as_str());
            Err(CoreError::Db(msg))
        },
    }
}

/// A character's inventory as stored (a JSON array of strings).
pub fn parse_inventory(text: &str) -> (r: Result<Vec<String>, CoreError>)
    ensures
        match json_string_list(text@) {
            Ok(v) => r matches Ok(items) && views(items@) == v,
            Err(m) => r matches Err(e) && e.db_message() == Some("bad inventory json: "@ + m),
        },
{
    decoded_list(parse_string_list(text), "bad inventory json: ")
}

/// A character's inventory as a JSON column; the column reads back as the
/// same items.
pub fn encode_inventory(items: &[String]) -> (r: Result<String, CoreError>)
    ensures
        match json_of_strings(views(items@)) {
            Ok(s) => r matches Ok(t) && t@ == s,
            Err(m) => r matches Err(e) && e.db_message() == Some("serialize inventory: "@ + m),
        },
        r matches Ok(t) && json_string_list(t@) == Ok::<Seq<Seq<char>>, Seq<char>>(views(items@)),
{
    match encode_string_list(items) {
        Ok(s) => Ok(s),
        Err(m) => {
            let mut msg = String::from_str("serialize inventory: ");
            msg.append(m.as_str());
            Err(CoreError::Db(msg))
        },
    }
}

/// A download row as stored: the state by name, the roles as one column.
#[derive(Debug, Clone)]
pub struct DownloadRow {
    pub id: String,
    pub url: String,
    pub filename: String,
    pub dest_path: String,
    pub model_type: Option<String>,
    pub sha256: Option<String>,
    pub size_bytes: Option<i64>,
    pub bytes_done: i64,
    pub retries: i64,
    pub state: String,
    pub error_text: Option<String>,
    pub model_id: Option<String>,
    pub created_at: String,
    pub updated_at: String,
    pub roles: String,
    pub origin: Option<String>,
    pub base_family: Option<String>,
    pub family_source: Option<String>,
}

/// The download a row holds: every column as stored but the state, parsed,
/// and the roles, split.
pub open spec fn download_of(r: DownloadRow, d: Download, state: DownloadState) -> bool {
    &&& d.state == state
    &&& views(d.roles@) == role_list(r.roles@)
    &&& d.id == r.id && d.url == r.url && d.filename == r.filename && d.dest_path == r.dest_path
    &&& d.model_type == r.model_type && d.sha256 == r.sha256 && d.size_bytes == r.size_bytes
    &&& d.bytes_done == r.bytes_done && d.retries == r.retries && d.error_text == r.error_text
    &&& d.model_id == r.model_id && d.created_at == r.created_at && d.updated_at == r.updated_at
    &&& d.origin == r.origin && d.base_family == r.base_family && d.family_source == r.family_source
}

/// The download a stored row holds; a state no download has is a bad row.
pub fn download_from_row(r: DownloadRow) -> (res: Result<Download, CoreError>)
    ensures
        match download_state_of(r.state@) {
            Some(st) => res matches Ok(d) && download_of(r, d, st),
            None => res matches Err(e) && e.db_message() == Some("bad download state "@ + debug_quoted(r.state@)),
        },
{
    let state = match DownloadState::parse(r.state.as_str()) {
        Ok(s) => s,
        Err(e) => return Err(e),
    };
    let roles = split_roles(r.roles.as_str());
    Ok(Download {
        state,
        id: r.id,
        url: r.url,
        filename: r.filename,
        dest_path: r.dest_path,
        model_type: r.model_type,
        sha256: r.sha256,
        size_bytes: r.size_bytes,
        bytes_done: r.bytes_done,
        retries: r.retries,
        error_text: r.error_text,
        model_id: r.model_id,
        created_at: r.created_at,
        updated_at: r.updated_at,
        roles,
        origin: r.origin,
        base_family: r.base_family,
        family_source: r.family_source,
    })
}

/// An agent session row as stored: the state by name.
#[derive(Debug, Clone)]
pub struct SessionRow {
    pub id: String,
    pub agent_id: String,
    pub adapter_session_id: Option<String>,
    pub state: String,
    pub error_text: Option<String>,
    pub checkpoint_path: Option<String>,
    pub started_at: String,
    pub ended_at: Option<String>,
}

/// The agent session a stored row holds; an unknown state is a bad row.
pub fn session_from_row(r: SessionRow) -> (res: Result<AgentSession, CoreError>)
    ensures
        match agent_state_of(r.state@) {
            Some(st) => res matches Ok(s) && s.state == st && s.id == r.id && s.agent_id == r.agent_id
                && s.adapter_session_id == r.adapter_session_id && s.error_text == r.error_text
                && s.checkpoint_path == r.checkpoint_path && s.started_at == r.started_at && s.ended_at
                == r.ended_at,
            None => res matches Err(e) && e.db_message() == Some(
                "bad agent session state "@ + debug_quoted(r.state@),
            ),
        },
{
    let state = match AgentSessionState::parse(r.state.as_str()) {
        Ok(s) => s,
        Err(e) => return Err(e),
    };
    Ok(AgentSession {
        id: r.id,
        agent_id: r.agent_id,
        adapter_session_id: r.adapter_session_id,
        state,
        error_text: r.error_text,
        checkpoint_path: r.checkpoint_path,
        started_at: r.started_at,
        ended_at: r.ended_at,
    })
}

/// An agent row as stored: the allowed paths and the toolset as JSON.
#[derive(Debug, Clone)]
pub struct AgentRow {
    pub id: String,
    pub name: String,
    pub adapter: String,
    pub model_id: Option<String>,
    pub workspace_path: String,
    pub allowed_paths_json: String,
    pub toolset_json: Option<String>,
    pub created_at: String,
}

/// What a row's toolset column decodes to: none without a column, else
/// the decoded list or its error's message.
pub open spec fn toolset_of(column: Option<String>) -> Result<Option<Seq<Seq<char>>>, Seq<char>> {
    match column {
        None => Ok(None),
        Some(j) => match json_string_list(j@) {
            Ok(v) => Ok(Some(v)),
            Err(m) => Err(m),
        },
    }
}

/// The agent a stored row holds; a list column that is not a JSON array
/// of strings makes it a bad row (the allowed paths first).
pub fn agent_from_row(r: AgentRow) -> (res: Result<Agent, CoreError>)
    ensures
        match json_string_list(r.allowed_paths_json@) {
            Err(m) => res matches Err(e) && e.db_message() == Some("bad allowed_paths_json: "@ + m),
            Ok(paths) => match toolset_of(r.toolset_json) {
                Err(m) => res matches Err(e) && e.db_message() == Some("bad toolset_json: "@ + m),
                Ok(tools) => res matches Ok(a) && views(a.allowed_paths@) == paths && match a.toolset {
                    Some(t) => tools == Some(views(t@)),
                    None => tools is None,
                } && a.id == r.id && a.name == r.name && a.adapter == r.adapter && a.model_id == r.model_id
                    && a.workspace_path == r.workspace_path && a.created_at == r.created_at,
            },
        },
{
    let allowed_paths = match decoded_list(parse_string_list(r.allowed_paths_json.as_str()), "bad allowed_paths_json: ") {
        Ok(v) => v,
        Err(e) => return Err(e),
    };
    let toolset = match &r.toolset_json {
        Some(j) => match decoded_list(parse_string_list(j.as_str()), "bad toolset_json: ") {
            Ok(v) => Some(v),
            Err(e) => return Err(e),
        },
        None => None,
    };
    Ok(Agent {
        id: r.id,
        name: r.name,
        adapter: r.adapter,
        model_id: r.model_id,
        workspace_path: r.workspace_path,
        allowed_paths,
        toolset,
        created_at: r.created_at,
    })
}

/// A character row as stored: the inventory as JSON.
#[derive(Debug, Clone)]
pub struct CharacterRow {
    pub id: String,
    pub story_id: String,
    pub name: String,
    pub traits: String,
    pub backstory: String,
    pub alignment: String,
    pub portrait_job_id: Option<String>,
    pub inventory: String,
    pub created_at: String,
}

/// The character a stored row holds; an inventory that is not a JSON array
/// of strings makes it a bad row.
pub fn character_from_row(r: CharacterRow) -> (res: Result<Character, CoreError>)
    ensures
        match json_string_list(r.inventory@) {
            Err(m) => res matches Err(e) && e.db_message() == Some("bad inventory json: "@ + m),
            Ok(items) => res matches Ok(c) && views(c.inventory@) == items && c.id == r.id && c.story_id
                == r.story_id && c.name == r.name && c.traits == r.traits && c.backstory == r.backstory
                && c.alignment == r.alignment && c.portrait_job_id == r.portrait_job_id && c.created_at
                == r.created_at,
        },
{
    let inventory = match parse_inventory(r.inventory.as_str()) {
        Ok(v) => v,
        Err(e) => return Err(e),
    };
    Ok(Character {
        id: r.id,
        story_id: r.story_id,
        name: r.name,
        traits: r.traits,
        backstory: r.backstory,
        alignment: r.alignment,
        portrait_job_id: r.portrait_job_id,
        inventory,
        created_at: r.created_at,
    })
}

/// A model row as stored, before its roles and runtime links are attached.
#[derive(Debug, Clone)]
pub struct ModelRow {
    pub id: String,
    pub publisher: Option<String>,
    pub name: String,
    pub family: Option<String>,
    pub format: String,
    pub quant: Option<String>,
    pub arch: Option<String>,
    pub param_count: Option<i64>,
    pub file_path: String,
    pub sha256: Option<String>,
    pub size_bytes: i64,
    pub ctx_max: Option<i64>,
    pub vram_estimate_mb: Option<i64>,
    pub ram_estimate_mb: Option<i64>,
    pub source: String,
    pub source_revision: Option<String>,
    pub imported_at: String,
    pub last_used_at: Option<String>,
    pub use_count: i64,
    pub n_layers: Option<i64>,
    pub n_embd: Option<i64>,
    pub n_heads: Option<i64>,
    pub n_kv_heads: Option<i64>,
}

/// The model a stored row holds, with the roles and runtime links read
/// beside it.
pub fn model_from_row(r: ModelRow, roles: Vec<String>, runtimes: Vec<String>) -> (m: Model)
    ensures
        m.roles == roles,
        m.runtimes == runtimes,
        m.id == r.id && m.publisher == r.publisher && m.name == r.name && m.family == r.family,
        m.format == r.format && m.quant == r.quant && m.arch == r.arch && m.param_count == r.param_count,
        m.file_path == r.file_path && m.sha256 == r.sha256 && m.size_bytes == r.size_bytes,
        m.ctx_max == r.ctx_max && m.vram_estimate_mb == r.vram_estimate_mb && m.ram_estimate_mb == r.ram_estimate_mb,
        m.source == r.source && m.source_revision == r.source_revision && m.imported_at == r.imported_at,
        m.last_used_at == r.last_used_at && m.use_count == r.use_count,
        m.n_layers == r.n_layers && m.n_embd == r.n_embd && m.n_heads == r.n_heads && m.n_kv_heads == r.n_kv_heads,
{
    Model {
        id: r.id,
        publisher: r.publisher,
        name: r.name,
        family: r.family,
        format: r.format,
        quant: r.quant,
        arch: r.arch,
        param_count: r.param_count,
        file_path: r.file_path,
        sha256: r.sha256,
        size_bytes: r.size_bytes,
        ctx_max: r.ctx_max,
        vram_estimate_mb: r.vram_estimate_mb,
        ram_estimate_mb: r.ram_estimate_mb,
        source: r.source,
        source_revision: r.source_revision,
        imported_at: r.imported_at,
        last_used_at: r.last_used_at,
        use_count: r.use_count,
        n_layers: r.n_layers,
        n_embd: r.n_embd,
        n_heads: r.n_heads,
        n_kv_heads: r.n_kv_heads,
        roles,
        runtimes,
    }
}

} // verus!
