use aiwm_core::db::downloads::{download_columns, join_with, new_download_row, recovered_state};
use aiwm_core::db::models::{check_model_name, clean_roles, Model};
use aiwm_core::db::records::{job_recovery, NewDownload};
use aiwm_core::db::stories::{auto_log_text, dedup, newly_added, required_name};
use aiwm_core::error::CoreError;
use aiwm_core::states::{DownloadState, JobState};

fn model() -> Model {
    Model {
        id: "m".into(),
        publisher: None,
        name: "m".into(),
        family: None,
        format: "gguf".into(),
        quant: None,
        arch: None,
        param_count: Some(7_000_000_000),
        file_path: "E:\\m.gguf".into(),
        sha256: None,
        size_bytes: 4_000,
        ctx_max: Some(32_768),
        vram_estimate_mb: None,
        ram_estimate_mb: None,
        source: "manual".into(),
        source_revision: None,
        imported_at: "2026-01-01T00:00:00Z".into(),
        last_used_at: None,
        use_count: 0,
        n_layers: Some(28),
        n_embd: Some(3584),
        n_heads: Some(28),
        n_kv_heads: Some(4),
        roles: vec![],
        runtimes: vec![],
    }
}

#[test]
fn vram_dims_carry_what_fits_and_drop_what_does_not() {
    let d = model().vram_dims();
    assert_eq!(d.size_bytes, 4_000);
    assert_eq!(d.ctx_max, Some(32_768));
    assert_eq!(d.param_count, Some(7_000_000_000));
    assert_eq!((d.n_layers, d.n_embd, d.n_heads, d.n_kv_heads), (Some(28), Some(3584), Some(28), Some(4)));

    let mut odd = model();
    odd.size_bytes = -1;
    odd.ctx_max = Some(-5);
    odd.n_layers = Some(i64::from(u32::MAX) + 1);
    odd.param_count = Some(-1);
    let d = odd.vram_dims();
    assert_eq!(d.size_bytes, 0);
    assert_eq!(d.ctx_max, None);
    assert_eq!(d.n_layers, None);
    assert_eq!(d.param_count, None);
}

#[test]
fn roles_are_trimmed_sorted_and_kept_once() {
    let raw: Vec<String> = ["coding", " chat ", "", "chat", "  ", "agent"]
        .iter()
        .map(|s| s.to_string())
        .collect();
    assert_eq!(clean_roles(&raw), ["agent", "chat", "coding"]);
    assert!(clean_roles(&vec![]).is_empty());
}

#[test]
fn names_are_required_and_trimmed() {
    assert_eq!(required_name("story", "  Dune ").unwrap(), "Dune");
    match required_name("character", " \t ") {
        Err(CoreError::Config(m)) => assert_eq!(m, "character name must not be empty"),
        other => panic!("{other:?}"),
    }
}

#[test]
fn the_scene_log_line_prefers_the_redline() {
    assert_eq!(auto_log_text("  met the king ", "long story"), "Appeared in a scene: met the king");
    assert_eq!(auto_log_text(" ", "  "), "Appeared in a scene.");
    assert_eq!(auto_log_text("", " a quiet walk "), "Appeared in a scene: a quiet walk");
    let long: String = "x".repeat(150);
    let got = auto_log_text("", &long);
    assert_eq!(got, format!("Appeared in a scene: {}\u{2026}", "x".repeat(140)));
    let exact: String = "é".repeat(140);
    assert_eq!(auto_log_text("", &exact), format!("Appeared in a scene: {exact}"));
}

#[test]
fn participants_count_once_in_first_seen_order() {
    let ids: Vec<String> = ["b", "a", "b", "c", "a"].iter().map(|s| s.to_string()).collect();
    assert_eq!(dedup(&ids), ["b", "a", "c"]);
}

#[test]
fn job_states_name_themselves_and_know_when_they_are_done() {
    assert_eq!(JobState::Preparing.as_str(), "preparing");
    assert!(JobState::Cancelled.is_terminal());
    assert!(JobState::Completed.is_terminal());
    assert!(!JobState::Post.is_terminal());
}

#[test]
fn a_model_needs_a_name_that_is_not_blank() {
    assert_eq!(check_model_name("qwen-14b"), Ok(()));
    assert_eq!(check_model_name(" q "), Ok(()));
    for blank in ["", "   ", "\t\n"] {
        assert_eq!(
            check_model_name(blank),
            Err(CoreError::Db("model name must not be empty".into()))
        );
    }
}

#[test]
fn a_new_download_row_is_trimmed_and_its_hash_lowercased() {
    let new = NewDownload {
        url: "  https://example.com/m.gguf ".into(),
        filename: " m.gguf\n".into(),
        sha256: Some("ABCdef01".into()),
        size_bytes: Some(42),
        roles: vec!["chat".into(), "coding".into()],
        ..NewDownload::default()
    };
    let c = download_columns(&new).unwrap();
    assert_eq!(c.url, "https://example.com/m.gguf");
    assert_eq!(c.filename, "m.gguf");
    assert_eq!(c.sha256.as_deref(), Some("abcdef01"));
    assert_eq!(c.size_bytes, Some(42));
    assert_eq!(c.roles, "chat,coding");
    let huge = NewDownload { size_bytes: Some(u64::MAX), sha256: None, ..new.clone() };
    let c = download_columns(&huge).unwrap();
    assert_eq!((c.size_bytes, c.sha256), (None, None));
    for (url, filename) in [("", "m.gguf"), ("u", "  "), (" ", "")] {
        let bad = NewDownload { url: url.into(), filename: filename.into(), ..NewDownload::default() };
        assert_eq!(
            download_columns(&bad).unwrap_err(),
            CoreError::Db("download needs a url and a filename".into())
        );
    }
}

#[test]
fn recover_interrupted_requeues_running_and_verifying_only() {
    assert_eq!(recovered_state(DownloadState::Running), DownloadState::Queued);
    assert_eq!(recovered_state(DownloadState::Verifying), DownloadState::Queued);
    assert_eq!(recovered_state(DownloadState::Paused), DownloadState::Paused);
    for s in [DownloadState::Queued, DownloadState::Done, DownloadState::Failed] {
        assert_eq!(recovered_state(s), s);
    }
}

#[test]
fn recover_interrupted_fails_mid_flight_jobs_only() {
    for s in [JobState::Scheduled, JobState::Preparing, JobState::Running, JobState::Post] {
        assert_eq!(job_recovery(s), Some("interrupted by a previous shutdown"));
    }
    for s in [JobState::Queued, JobState::Completed, JobState::Failed, JobState::Cancelled] {
        assert_eq!(job_recovery(s), None);
    }
}

#[test]
fn only_participants_new_to_the_scene_are_logged() {
    let v = |xs: &[&str]| xs.iter().map(|x| x.to_string()).collect::<Vec<String>>();
    let before = v(&["a", "b"]);
    assert_eq!(newly_added(&before, &v(&["b", "c", "a", "c", "d"])), ["c", "d"]);
    assert!(newly_added(&before, &v(&["a"])).is_empty());
    assert_eq!(newly_added(&[], &v(&["x", "x"])), ["x"]);
}

#[test]
fn a_new_download_row_is_staged_under_its_id_and_queued() {
    assert_eq!(join_with("/tmp/dl", "id1", '/'), "/tmp/dl/id1");
    assert_eq!(join_with("/tmp/dl/", "id1", '/'), "/tmp/dl/id1");
    assert_eq!(join_with("E:\\dl", "id1", '\\'), "E:\\dl\\id1");
    assert_eq!(join_with("", "m.gguf", '/'), "m.gguf");
    assert_eq!(join_with("/tmp/dl", "/abs", '/'), "/abs");
    let new = NewDownload {
        url: "https://example.test/model.gguf".into(),
        filename: "model.gguf".into(),
        ..NewDownload::default()
    };
    let row = new_download_row(&new, "id1", "/tmp/dl").unwrap();
    assert_eq!(row.state, DownloadState::Queued);
    let sep = std::path::MAIN_SEPARATOR;
    assert_eq!(row.dest_path, format!("/tmp/dl{sep}id1{sep}model.gguf"));
    assert_eq!(row.columns.filename, "model.gguf");
    let blank = NewDownload { url: " ".into(), ..new.clone() };
    assert_eq!(
        new_download_row(&blank, "id1", "/tmp/dl").unwrap_err(),
        CoreError::Db("download needs a url and a filename".into())
    );
}
