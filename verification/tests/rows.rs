use aiwm_core::db::rows::{
    agent_from_row, character_from_row, download_from_row, encode_inventory, model_from_row,
    parse_inventory, session_from_row, AgentRow, CharacterRow, DownloadRow, ModelRow, SessionRow,
};
use aiwm_core::error::CoreError;
use aiwm_core::states::{AgentSessionState, DownloadState};

fn download_row(state: &str, roles: &str) -> DownloadRow {
    DownloadRow {
        id: "d1".into(),
        url: "https://example.org/m.gguf".into(),
        filename: "m.gguf".into(),
        dest_path: "E:\\models\\m.gguf".into(),
        model_type: Some("llm".into()),
        sha256: None,
        size_bytes: Some(10),
        bytes_done: 4,
        retries: 1,
        state: state.into(),
        error_text: None,
        model_id: None,
        created_at: "t0".into(),
        updated_at: "t1".into(),
        roles: roles.into(),
        origin: None,
        base_family: None,
        family_source: None,
    }
}

fn db_message(e: CoreError) -> String {
    match e {
        CoreError::Db(m) => m,
        other => panic!("{other:?}"),
    }
}

#[test]
fn an_inventory_round_trips_through_its_json_column() {
    let items = vec!["sword".to_string(), "rope \"long\"".to_string()];
    let column = encode_inventory(&items).unwrap();
    assert_eq!(column, "[\"sword\",\"rope \\\"long\\\"\"]");
    assert_eq!(parse_inventory(&column).unwrap(), items);
    assert_eq!(parse_inventory("[]").unwrap(), Vec::<String>::new());
}

#[test]
fn an_inventory_that_is_not_a_string_array_is_a_bad_row() {
    let m = db_message(parse_inventory("{\"a\": 1}").unwrap_err());
    assert!(m.starts_with("bad inventory json: "), "{m}");
    assert!(m.len() > "bad inventory json: ".len());
    assert!(parse_inventory("[1]").is_err());
}

#[test]
fn a_download_row_parses_its_state_and_splits_its_roles() {
    let d = download_from_row(download_row("paused", "chat, coding,,")).unwrap();
    assert_eq!(d.state, DownloadState::Paused);
    assert_eq!(d.roles, ["chat", "coding"]);
    assert_eq!(d.id, "d1");
    assert_eq!(d.bytes_done, 4);
    assert_eq!(d.size_bytes, Some(10));
    let m = db_message(download_from_row(download_row("stuck", "")).unwrap_err());
    assert_eq!(m, "bad download state \"stuck\"");
}

#[test]
fn a_session_row_parses_its_state() {
    let row = |state: &str| SessionRow {
        id: "s1".into(),
        agent_id: "a1".into(),
        adapter_session_id: None,
        state: state.into(),
        error_text: None,
        checkpoint_path: Some("c".into()),
        started_at: "t".into(),
        ended_at: None,
    };
    let s = session_from_row(row("idle")).unwrap();
    assert_eq!(s.state, AgentSessionState::Idle);
    assert_eq!(s.checkpoint_path.as_deref(), Some("c"));
    let m = db_message(session_from_row(row("asleep")).unwrap_err());
    assert_eq!(m, "bad agent session state \"asleep\"");
}

#[test]
fn an_agent_row_decodes_its_list_columns() {
    let row = |paths: &str, tools: Option<&str>| AgentRow {
        id: "a1".into(),
        name: "coder".into(),
        adapter: "opencode".into(),
        model_id: None,
        workspace_path: "E:\\work".into(),
        allowed_paths_json: paths.into(),
        toolset_json: tools.map(String::from),
        created_at: "t".into(),
    };
    let a = agent_from_row(row("[\"E:\\\\docs\"]", None)).unwrap();
    assert_eq!(a.allowed_paths, ["E:\\docs"]);
    assert_eq!(a.toolset, None);
    let a = agent_from_row(row("[]", Some("[\"read\",\"edit\"]"))).unwrap();
    assert_eq!(a.toolset, Some(vec!["read".to_string(), "edit".to_string()]));
    let m = db_message(agent_from_row(row("nope", Some("[]"))).unwrap_err());
    assert!(m.starts_with("bad allowed_paths_json: "), "{m}");
    let m = db_message(agent_from_row(row("[]", Some("nope"))).unwrap_err());
    assert!(m.starts_with("bad toolset_json: "), "{m}");
}

#[test]
fn a_character_row_decodes_its_inventory() {
    let row = |inventory: &str| CharacterRow {
        id: "c1".into(),
        story_id: "st".into(),
        name: "Ann".into(),
        traits: "brave".into(),
        backstory: String::new(),
        alignment: "good".into(),
        portrait_job_id: None,
        inventory: inventory.into(),
        created_at: "t".into(),
    };
    let c = character_from_row(row("[\"lamp\"]")).unwrap();
    assert_eq!(c.inventory, ["lamp"]);
    assert_eq!(c.name, "Ann");
    assert!(character_from_row(row("lamp")).is_err());
}

#[test]
fn a_model_row_carries_its_roles_and_runtime_links() {
    let row = ModelRow {
        id: "m1".into(),
        publisher: None,
        name: "qwen".into(),
        family: Some("qwen2".into()),
        format: "gguf".into(),
        quant: Some("Q4_K_M".into()),
        arch: None,
        param_count: Some(7),
        file_path: "E:\\models\\q.gguf".into(),
        sha256: None,
        size_bytes: 42,
        ctx_max: Some(8192),
        vram_estimate_mb: None,
        ram_estimate_mb: None,
        source: "manual".into(),
        source_revision: None,
        imported_at: "t".into(),
        last_used_at: None,
        use_count: 3,
        n_layers: Some(28),
        n_embd: None,
        n_heads: None,
        n_kv_heads: None,
    };
    let m = model_from_row(row, vec!["chat".into()], vec!["llama".into()]);
    assert_eq!(m.roles, ["chat"]);
    assert_eq!(m.runtimes, ["llama"]);
    assert_eq!((m.size_bytes, m.use_count, m.n_layers), (42, 3, Some(28)));
    assert_eq!(m.family.as_deref(), Some("qwen2"));
}
