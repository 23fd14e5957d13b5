use aiwm_core::cleanup::caches::{
    comfyui_leftover_files, date_of, file_stem, old_log_candidates, staging_verdict, ScannedFile,
    StagingVerdict,
};
use aiwm_core::cleanup::apply_steps::{backups_step, cache_step, logs_step, CacheStep, FlatStep};
use aiwm_core::cleanup::caches_scan::{
    caches_groups, CachesInput, FolderTotals, ScratchWalks, StagingDir,
};
use aiwm_core::cleanup::datasets::UnclaimedFolders;
use aiwm_core::cleanup::outputs::{RetentionPolicy, DAY_NANOS};
use aiwm_core::cleanup::report::{build, MediaInput, ScanInput};
use aiwm_core::cleanup::scan::{AppFolders, ScanContext};
use aiwm_core::states::DownloadState;

const NOW: i128 = 1_780_272_000 * 1_000_000_000;
const HOUR: i128 = 3_600 * 1_000_000_000;

fn folders(root: &str) -> AppFolders {
    let at = |sub: &str| format!("{root}\\{sub}");
    AppFolders {
        root: root.into(),
        outputs: at("outputs"),
        datasets: at("datasets"),
        training: at("training"),
        runtimes: at("runtimes"),
        cache: at("cache"),
        downloads: at(".downloads"),
        comfyui_data: at("comfyui"),
        voice_identities: at("voices"),
        logs: at("logs"),
        exports: at("exports"),
        pending_import: at("pending"),
    }
}

fn ctx() -> ScanContext {
    ScanContext {
        paths: folders("E:\\aiwm"),
        store: "E:\\models".into(),
        policy: RetentionPolicy::default(),
    }
}

fn file(path: &str, bytes: u64, age: i128) -> ScannedFile {
    ScannedFile { path: path.into(), bytes, modified_nanos: Some(NOW - age) }
}

fn empty_input() -> CachesInput {
    CachesInput {
        cache: FolderTotals { files: 0, bytes: 0 },
        staging: vec![],
        downloads: vec![],
        comfyui: ScratchWalks { input: vec![], temp: vec![], output: vec![] },
        active_jobs: vec![],
        pending: FolderTotals { files: 0, bytes: 0 },
        logs: vec![],
        backups: vec![],
        now_nanos: NOW,
    }
}

#[test]
fn file_stem_drops_the_last_extension_only() {
    assert_eq!(file_stem("job1.png"), "job1");
    assert_eq!(file_stem("a.b.png"), "a.b");
    assert_eq!(file_stem("noext"), "noext");
    assert_eq!(file_stem(".bashrc"), ".bashrc");
    assert_eq!(file_stem(".."), "..");
    assert_eq!(file_stem(""), "");
}

#[test]
fn comfyui_leftovers_skip_fresh_files_and_active_jobs_inputs() {
    let files = vec![
        file("E:\\aiwm\\comfyui\\input\\old.png", 300, 2 * HOUR),
        file("E:\\aiwm\\comfyui\\input\\fresh.png", 300, 60 * 1_000_000_000),
        file("E:\\aiwm\\comfyui\\input\\job-7.png", 300, 2 * HOUR),
        ScannedFile { path: "E:\\aiwm\\comfyui\\input\\undated.png".into(), bytes: 1, modified_nanos: None },
    ];
    let left = comfyui_leftover_files(&files, &["job-7".to_string()], NOW);
    assert_eq!(left.len(), 1);
    assert_eq!(left[0].path, "E:\\aiwm\\comfyui\\input\\old.png");
    // Exactly an hour old is old enough.
    let edge = vec![file("E:\\aiwm\\comfyui\\temp\\p.png", 1, HOUR)];
    assert_eq!(comfyui_leftover_files(&edge, &[], NOW).len(), 1);
}

#[test]
fn a_staging_folder_an_unfinished_download_owns_is_protected() {
    let downloads = vec![
        ("done-id".to_string(), "old.safetensors".to_string(), DownloadState::Done),
        ("busy-id".to_string(), "w.safetensors".to_string(), DownloadState::Running),
    ];
    match staging_verdict(&ctx(), "E:\\aiwm\\.downloads\\busy-id", &downloads) {
        StagingVerdict::Busy(n) => {
            assert_eq!(n.what, "Download staging of w.safetensors");
            assert_eq!(n.reason, "the download is running");
        }
        other => panic!("{other:?}"),
    }
    match staging_verdict(&ctx(), "E:\\aiwm\\.downloads\\done-id", &downloads) {
        StagingVerdict::Offer { id, label } => {
            assert_eq!(id, "download-staging:done-id");
            assert_eq!(label, "Download staging done-id");
        }
        other => panic!("{other:?}"),
    }
}

#[test]
fn a_staging_folder_holding_an_app_folder_is_refused() {
    let mut c = ctx();
    c.paths.logs = "E:\\aiwm\\.downloads\\odd\\logs".into();
    match staging_verdict(&c, "E:\\aiwm\\.downloads\\odd", &[]) {
        StagingVerdict::Refused(n) => {
            assert_eq!(n.what, "Download staging E:\\aiwm\\.downloads\\odd");
            assert_eq!(n.reason, "is or holds the logs folder E:\\aiwm\\.downloads\\odd\\logs");
        }
        other => panic!("{other:?}"),
    }
}

#[test]
fn caches_list_cache_stale_staging_comfyui_leftovers_and_pending_import() {
    let mut input = empty_input();
    input.cache = FolderTotals { files: 1, bytes: 1_000 };
    input.staging = vec![
        StagingDir { path: "E:\\aiwm\\.downloads\\active-id".into(), totals: FolderTotals { files: 1, bytes: 7 } },
        StagingDir { path: "E:\\aiwm\\.downloads\\stale-id".into(), totals: FolderTotals { files: 1, bytes: 2_000 } },
    ];
    input.downloads =
        vec![("active-id".to_string(), "w.safetensors".to_string(), DownloadState::Running)];
    input.comfyui.input = vec![
        file("E:\\aiwm\\comfyui\\input\\old.png", 300, 2 * HOUR),
        file("E:\\aiwm\\comfyui\\input\\fresh.png", 300, 60 * 1_000_000_000),
        file("E:\\aiwm\\comfyui\\input\\run-1.png", 300, 2 * HOUR),
    ];
    input.comfyui.temp = vec![file("E:\\aiwm\\comfyui\\temp\\preview.png", 400, 2 * HOUR)];
    input.active_jobs = vec!["run-1".into()];
    input.pending = FolderTotals { files: 1, bytes: 5_000 };

    let (groups, notes) = caches_groups(&ctx(), &input);
    let g = &groups[0];
    assert_eq!(g.key, "caches");
    let ids: Vec<&str> = g.entries.iter().map(|e| e.id.as_str()).collect();
    assert_eq!(
        ids,
        ["cache", "download-staging:stale-id", "comfyui:input", "comfyui:temp", "pending-import"]
    );
    assert_eq!((g.entries[0].files, g.entries[0].bytes), (1, 1_000));
    assert_eq!(g.entries[0].detail, ["E:\\aiwm\\cache"]);
    assert_eq!(g.entries[1].bytes, 2_000);
    assert_eq!((g.entries[2].files, g.entries[2].bytes), (1, 300));
    assert_eq!(g.entries[2].label, "ComfyUI input leftovers");
    assert_eq!(g.entries[2].detail, ["old.png"]);
    assert_eq!(g.entries[3].files, 1);
    assert_eq!(g.entries[4].bytes, 5_000);
    assert_eq!(g.total_bytes, 1_000 + 2_000 + 300 + 400 + 5_000);
    assert_eq!(g.total_files, 5);
    assert_eq!(notes.len(), 1);
    assert_eq!(notes[0].what, "Download staging of w.safetensors");
    assert_eq!(notes[0].reason, "the download is running");
    assert_eq!(groups[1].key, "old_logs");
    assert!(groups[1].entries.is_empty());
    assert_eq!(groups[2].key, "db_backups");
    assert!(groups[2].entries.is_empty());
}

#[test]
fn an_empty_cache_folder_offers_nothing() {
    let (groups, notes) = caches_groups(&ctx(), &empty_input());
    assert!(groups[0].entries.is_empty());
    assert!(notes.is_empty());
    assert_eq!(groups[0].total_bytes, 0);
}

#[test]
fn old_logs_list_files_older_than_30_days_but_never_the_newest() {
    let mut input = empty_input();
    input.logs = vec![
        file("E:\\aiwm\\logs\\aiwm.log", 100, 0),
        file("E:\\aiwm\\logs\\aiwm.log.2026-01-01", 100, 60 * DAY_NANOS),
        file("E:\\aiwm\\logs\\aiwm.log.2026-02-01", 100, 45 * DAY_NANOS),
        file("E:\\aiwm\\logs\\aiwm.log.2026-03-01", 100, 10 * DAY_NANOS),
    ];
    let (groups, _) = caches_groups(&ctx(), &input);
    let g = &groups[1];
    assert_eq!(g.entries.len(), 1);
    assert_eq!(g.entries[0].id, "old-logs");
    assert_eq!(g.entries[0].label, "2 log file(s) older than 30 days");
    assert_eq!(g.entries[0].files, 2);
    assert_eq!(g.entries[0].bytes, 200);
    assert_eq!(g.entries[0].detail, ["aiwm.log.2026-01-01", "aiwm.log.2026-02-01"]);
}

#[test]
fn old_logs_never_offer_the_only_log_even_when_it_is_old() {
    let only = vec![file("E:\\aiwm\\logs\\aiwm.log", 100, 90 * DAY_NANOS)];
    assert!(old_log_candidates(&only, NOW).is_empty());
    // Of two equally old logs, the one with the greater path is the newest.
    let two = vec![
        file("E:\\aiwm\\logs\\b.log", 1, 90 * DAY_NANOS),
        file("E:\\aiwm\\logs\\a.log", 1, 90 * DAY_NANOS),
    ];
    let old = old_log_candidates(&two, NOW);
    assert_eq!(old.len(), 1);
    assert_eq!(old[0].path, "E:\\aiwm\\logs\\a.log");
    // A log with no time is older than any dated one.
    let undated = vec![
        ScannedFile { path: "E:\\aiwm\\logs\\z.log".into(), bytes: 1, modified_nanos: None },
        file("E:\\aiwm\\logs\\a.log", 1, 90 * DAY_NANOS),
        file("E:\\aiwm\\logs\\b.log", 1, 40 * DAY_NANOS),
    ];
    let old = old_log_candidates(&undated, NOW);
    assert_eq!(old.len(), 1);
    assert_eq!(old[0].path, "E:\\aiwm\\logs\\a.log");
}

#[test]
fn db_backups_list_each_export_with_its_date() {
    let mut input = empty_input();
    input.backups = vec![
        file("E:\\aiwm\\exports\\aiwm-backup-1.zip", 1_000, 20 * DAY_NANOS),
        file("E:\\aiwm\\exports\\aiwm-backup-2.zip", 2_000, DAY_NANOS),
        ScannedFile { path: "E:\\aiwm\\exports\\x.zip".into(), bytes: 5, modified_nanos: None },
    ];
    let (groups, _) = caches_groups(&ctx(), &input);
    let g = &groups[2];
    let ids: Vec<&str> = g.entries.iter().map(|e| e.id.as_str()).collect();
    assert_eq!(ids, ["aiwm-backup-1.zip", "aiwm-backup-2.zip", "x.zip"]);
    assert_eq!(g.total_bytes, 3_005);
    assert_eq!(g.entries[1].label, "aiwm-backup-2.zip (2026-05-31)");
    assert_eq!(g.entries[2].label, "x.zip (?)");
    assert_eq!(g.entries[0].detail, ["E:\\aiwm\\exports\\aiwm-backup-1.zip"]);
}

#[test]
fn date_of_an_instant_is_its_calendar_day() {
    assert_eq!(date_of(Some(0)), "1970-01-01");
    assert_eq!(date_of(Some(NOW)), "2026-06-01");
    assert_eq!(date_of(None), "?");
}

#[test]
fn logs_in_the_store_are_only_noted() {
    let mut c = ctx();
    c.paths.logs = "E:\\models\\logs".into();
    let mut input = empty_input();
    input.logs = vec![file("E:\\models\\logs\\a.log", 1, 90 * DAY_NANOS), file("E:\\models\\logs\\b.log", 1, 0)];
    let (groups, notes) = caches_groups(&c, &input);
    assert!(groups[1].entries.is_empty());
    assert_eq!(notes.len(), 1);
    assert_eq!(notes[0].what, "Logs E:\\models\\logs");
    assert_eq!(notes[0].reason, "lies inside the model store E:\\models");
}

#[test]
fn the_whole_scan_lists_every_group_in_display_order_even_when_empty() {
    let input = ScanInput {
        media: MediaInput { datasets: vec![], frames: vec![], jobs: vec![], files: vec![] },
        datasets: vec![],
        unclaimed: UnclaimedFolders { folders: vec![], links: vec![] },
        runs: vec![],
        caches: empty_input(),
    };
    let r = build(&ctx(), &input);
    let keys: Vec<&str> = r.groups.iter().map(|g| g.key.as_str()).collect();
    assert_eq!(
        keys,
        [
            "media_retention",
            "media_orphans",
            "discarded_frames",
            "unclaimed_dataset_folders",
            "missing_frame_rows",
            "finished_runs",
            "caches",
            "old_logs",
            "db_backups"
        ]
    );
    assert!(r.groups.iter().all(|g| g.entries.is_empty() && g.total_bytes == 0));
    assert_eq!(r.scanned_at, "2026-06-01T00:00:00Z");
    assert_eq!(r.protected.len(), 3);
    assert_eq!(r.protected[0].what, "Model store E:\\models");
    assert_eq!(r.groups[8].label, "Database backups");
}

#[test]
fn the_cache_the_pending_import_and_scratch_leftovers_are_applied_by_id() {
    let c = ctx();
    match cache_step(&c, "cache") {
        CacheStep::EmptyRoot { label, dir } => {
            assert_eq!(label, "Registry and runtime caches");
            assert_eq!(dir, "E:\\aiwm\\cache");
        }
        other => panic!("{other:?}"),
    }
    match cache_step(&c, "pending-import") {
        CacheStep::EmptyRoot { label, .. } => assert_eq!(label, "Pending import staging"),
        other => panic!("{other:?}"),
    }
    match cache_step(&c, "comfyui:temp") {
        CacheStep::Leftovers { label, sub } => {
            assert_eq!(label, "ComfyUI temp leftovers");
            assert_eq!(sub, "temp");
        }
        other => panic!("{other:?}"),
    }
    for id in ["comfyui:models", "nope"] {
        match cache_step(&c, id) {
            CacheStep::Done(r) => {
                assert_eq!(r.skipped.len(), 1);
                assert_eq!(r.skipped[0].reason, "not_offered");
                assert_eq!(r.group, "caches");
            }
            other => panic!("{other:?}"),
        }
    }
}

#[test]
fn a_cache_root_holding_another_app_folder_is_refused() {
    let mut c = ctx();
    c.paths.logs = "E:\\aiwm\\cache\\logs".into();
    match cache_step(&c, "cache") {
        CacheStep::Done(r) => {
            assert_eq!(r.label, "Registry and runtime caches");
            assert_eq!(r.skipped[0].path, "E:\\aiwm\\cache");
            assert_eq!(r.skipped[0].reason, "is or holds the logs folder E:\\aiwm\\cache\\logs");
        }
        other => panic!("{other:?}"),
    }
}

#[test]
fn only_old_logs_is_offered_and_backups_follow_their_folder() {
    let c = ctx();
    assert!(matches!(logs_step(&c, "old-logs"), FlatStep::Proceed));
    match logs_step(&c, "aiwm.log") {
        FlatStep::Done(r) => assert_eq!(r.skipped[0].reason, "not_offered"),
        other => panic!("{other:?}"),
    }
    assert!(matches!(backups_step(&c, "aiwm-backup-1.zip"), FlatStep::Proceed));
    let mut inside = ctx();
    inside.paths.exports = "E:\\aiwm\\runtimes\\exports".into();
    match backups_step(&inside, "b.zip") {
        FlatStep::Done(r) => {
            assert_eq!(r.id, "b.zip");
            assert_eq!(r.skipped[0].reason, "lies inside the runtime installs E:\\aiwm\\runtimes");
        }
        other => panic!("{other:?}"),
    }
}
