use aiwm_core::cleanup::apply::{
    default_true, display, log_rows, merge, not_offered, refuse_if_busy, refused, staging_ids,
    strictly_inside, summarise, EntryResult, Selection, SkippedFile, SKIP_NOT_OFFERED,
};
use aiwm_core::cleanup::duplicates::duplicates;
use aiwm_core::cleanup::apply_steps::{apply_plan, GroupWork};
use aiwm_core::cleanup::locations::{
    location_specs, measure_one, volume_of, walk_step, EntryKind, MountedDisk, WalkTotals,
};
use aiwm_core::cleanup::outputs::{
    files_to_delete, retention_fault, OutputFile, RetentionFault, RetentionPolicy, DAY_NANOS,
    EARLIEST_NANOS, MAX_DURATION_DAYS,
};
use aiwm_core::cleanup::scan::{
    capped, fixed_protected, group, group_label, AppFolders, CleanupEntry, ScanContext,
};
use aiwm_core::cleanup::storage::{kind_of, report, stale_cutoff, unused_ids};
use aiwm_core::db::models::{Model, NewModel};
use aiwm_core::error::CoreError;
use aiwm_core::states::{DownloadState, RunState};

fn model(over: NewModel) -> Model {
    Model {
        id: over.name.clone(),
        publisher: None,
        name: over.name,
        family: None,
        format: over.format,
        quant: None,
        arch: None,
        param_count: None,
        file_path: over.file_path,
        sha256: over.sha256,
        size_bytes: over.size_bytes,
        ctx_max: None,
        vram_estimate_mb: None,
        ram_estimate_mb: None,
        source: "manual".into(),
        source_revision: None,
        imported_at: "2026-01-01T00:00:00Z".into(),
        last_used_at: None,
        use_count: 0,
        n_layers: None,
        n_embd: None,
        n_heads: None,
        n_kv_heads: None,
        roles: over.roles,
        runtimes: vec![],
    }
}

#[test]
fn kind_is_the_top_store_folder() {
    let store = "E:\\AI\\models";
    let m = model(NewModel {
        name: "q".into(),
        format: "gguf".into(),
        file_path: "E:\\AI\\models\\llm\\qwen\\q.gguf".into(),
        ..NewModel::default()
    });
    assert_eq!(kind_of(&m, store), "llm");

    let outside = model(NewModel {
        name: "x".into(),
        format: "gguf".into(),
        file_path: "D:\\elsewhere\\x.gguf".into(),
        ..NewModel::default()
    });
    assert_eq!(kind_of(&outside, store), "other");
}

#[test]
fn kind_of_the_store_root_itself_is_other_and_separators_mix() {
    let store = "E:/AI/models/";
    let root = model(NewModel {
        name: "r".into(),
        file_path: "E:\\AI\\models".into(),
        ..NewModel::default()
    });
    assert_eq!(kind_of(&root, store), "other");
    let mixed = model(NewModel {
        name: "m".into(),
        file_path: "E:\\AI\\.\\models\\\\video/wan.safetensors".into(),
        ..NewModel::default()
    });
    assert_eq!(kind_of(&mixed, store), "video");
}

fn dup(name: &str, hash: Option<&str>, size: i64, imported: &str) -> Model {
    let mut m = model(NewModel {
        name: name.into(),
        format: "gguf".into(),
        file_path: format!("E:\\m\\{name}.gguf"),
        sha256: hash.map(str::to_string),
        size_bytes: size,
        ..NewModel::default()
    });
    m.imported_at = imported.into();
    m
}

#[test]
fn duplicates_groups_by_sha256_and_totals_the_waste() {
    let models = vec![
        dup("a", Some("aaaa"), 1_000, "2026-01-01T00:00:00Z"),
        dup("a-copy", Some("aaaa"), 1_000, "2026-02-01T00:00:00Z"),
        dup("a-again", Some("aaaa"), 1_000, "2026-03-01T00:00:00Z"),
        dup("b", Some("bbbb"), 500, "2026-01-01T00:00:00Z"),
        dup("no-hash", None, 9_999, "2026-01-01T00:00:00Z"),
    ];
    let dups = duplicates(&models);
    assert_eq!(dups.len(), 1);
    assert_eq!(dups[0].sha256, "aaaa");
    assert_eq!(dups[0].member_ids, ["a-again", "a-copy", "a"]); // newest first
    assert_eq!(dups[0].wasted_bytes, 2_000); // two redundant copies
}

#[test]
fn duplicate_groups_order_by_waste_then_hash_and_ties_keep_listing_order() {
    let models = vec![
        dup("z1", Some("zz"), 10, "2026-01-01T00:00:00Z"),
        dup("y1", Some("yy"), 10, "2026-01-01T00:00:00Z"),
        dup("z2", Some("zz"), -5, "2026-01-01T00:00:00Z"),
        dup("y2", Some("yy"), 7, "2026-01-01T00:00:00Z"),
        dup("big1", Some("bb"), 100, "2025-01-01T00:00:00Z"),
        dup("big2", Some("bb"), 100, "2027-01-01T00:00:00Z"),
        dup("empty1", Some(""), 100, "2026-01-01T00:00:00Z"),
        dup("empty2", Some(""), 100, "2026-01-01T00:00:00Z"),
    ];
    let dups = duplicates(&models);
    let hashes: Vec<&str> = dups.iter().map(|g| g.sha256.as_str()).collect();
    assert_eq!(hashes, ["bb", "yy", "zz"]);
    assert_eq!(dups[0].wasted_bytes, 100);
    assert_eq!(dups[0].member_ids, ["big2", "big1"]);
    // Equal import times keep the listing order.
    assert_eq!(dups[1].member_ids, ["y1", "y2"]);
    assert_eq!(dups[2].member_ids, ["z1", "z2"]);
    assert_eq!(dups[2].wasted_bytes, 10);
}

#[test]
fn duplicate_waste_saturates() {
    let models = vec![
        dup("a", Some("h"), i64::MAX, "1"),
        dup("b", Some("h"), i64::MAX, "2"),
        dup("c", Some("h"), i64::MAX, "3"),
        dup("d", Some("h"), i64::MAX, "4"),
    ];
    let dups = duplicates(&models);
    assert_eq!(dups[0].wasted_bytes, u64::MAX);
}

#[test]
fn unused_ids_flags_never_used_and_stale() {
    let mut fresh = model(NewModel {
        name: "fresh".into(),
        format: "gguf".into(),
        file_path: "E:\\m\\fresh.gguf".into(),
        ..NewModel::default()
    });
    fresh.last_used_at = Some("2026-09-01T00:00:00Z".into());
    let mut stale = model(NewModel {
        name: "stale".into(),
        format: "gguf".into(),
        file_path: "E:\\m\\stale.gguf".into(),
        ..NewModel::default()
    });
    stale.last_used_at = Some("2026-01-01T00:00:00Z".into());
    let never = model(NewModel {
        name: "never".into(),
        format: "gguf".into(),
        file_path: "E:\\m\\never.gguf".into(),
        ..NewModel::default()
    });

    let got = unused_ids(&[fresh, stale, never], "2026-06-01T00:00:00Z");
    assert_eq!(got, ["stale", "never"]);
}

#[test]
fn report_sums_by_kind_and_orders_models_by_size() {
    let store = "E:\\AI\\models";
    let mk = |name: &str, kind: &str, size: i64| {
        model(NewModel {
            name: name.into(),
            format: "gguf".into(),
            file_path: format!("E:\\AI\\models\\{kind}\\{name}\\f"),
            size_bytes: size,
            ..NewModel::default()
        })
    };
    let models = [mk("big", "llm", 8_000), mk("small", "llm", 1_000), mk("pic", "image", 6_000)];
    let now: i128 = 1_780_272_000 * 1_000_000_000;
    let r = report(&models, store, 30, now, &[true, false, true], Some((5, 9)));
    assert_eq!(r.store_bytes, 15_000);
    assert_eq!(r.models[0].name, "big");
    assert_eq!(r.models[1].name, "pic");
    assert_eq!(r.models[2].name, "small");
    assert!(r.models[0].file_present && !r.models[2].file_present);
    let llm = r.by_kind.iter().find(|k| k.kind == "llm").unwrap();
    assert_eq!(llm.bytes, 9_000);
    assert_eq!(llm.count, 2);
    let kinds: Vec<&str> = r.by_kind.iter().map(|k| k.kind.as_str()).collect();
    assert_eq!(kinds, ["image", "llm"]);
    assert_eq!(r.unused.len(), 3); // none ever used
    assert_eq!(r.volume_free_bytes, Some(5));
    assert_eq!(r.volume_total_bytes, Some(9));
    assert_eq!(r.stale_days, 30);
}

#[test]
fn the_stale_cutoff_is_rfc3339_days_before_now() {
    let now: i128 = 1_780_272_000 * 1_000_000_000; // 2026-06-01T00:00:00Z
    assert_eq!(stale_cutoff(now, 0), "2026-06-01T00:00:00Z");
    assert_eq!(stale_cutoff(now, -3), "2026-06-01T00:00:00Z");
    assert_eq!(stale_cutoff(now, 31), "2026-05-01T00:00:00Z");
    // Before the year 0 there is no RFC 3339 form.
    assert_eq!(stale_cutoff(now, 800_000), "");
}

#[test]
fn is_active_reflects_either_rule() {
    assert!(!RetentionPolicy::default().is_active());
    assert!(RetentionPolicy { max_age_days: 30, max_total_mb: 0 }.is_active());
    assert!(RetentionPolicy { max_age_days: 0, max_total_mb: 10 }.is_active());
}

const NOW: i128 = 1_780_272_000 * 1_000_000_000;

fn file(name: &str, bytes: u64, age_days: i128) -> OutputFile {
    OutputFile { path: name.into(), bytes, modified_nanos: NOW - age_days * DAY_NANOS }
}

fn names(files: &[OutputFile]) -> Vec<&str> {
    files.iter().map(|f| f.path.as_str()).collect()
}

#[test]
fn files_to_delete_keeps_everything_under_budget() {
    let files = vec![file("a.png", 100, 1), file("b.png", 100, 2)];
    let doomed = files_to_delete(files, RetentionPolicy { max_age_days: 0, max_total_mb: 10 }, NOW);
    assert!(doomed.is_empty());
}

#[test]
fn files_older_than_max_age_days_are_the_only_ones_taken() {
    let files = vec![file("old.png", 100, 40), file("fresh.png", 100, 2)];
    let doomed = files_to_delete(files, RetentionPolicy { max_age_days: 30, max_total_mb: 0 }, NOW);
    assert_eq!(names(&doomed), ["old.png"]);
}

#[test]
fn the_size_budget_trims_oldest_first() {
    let files = vec![
        file("newest.mp4", 1_200_000, 1),
        file("oldest.mp4", 1_200_000, 10),
        file("middle.mp4", 1_200_000, 5),
    ];
    let doomed = files_to_delete(files, RetentionPolicy { max_age_days: 0, max_total_mb: 3 }, NOW);
    assert_eq!(names(&doomed), ["oldest.mp4"]);
}

#[test]
fn age_then_size_apply_together() {
    let files = vec![
        file("ancient.mp4", 500_000, 100),
        file("old.mp4", 2_000_000, 20),
        file("fresh.mp4", 500_000, 1),
    ];
    let doomed = files_to_delete(files, RetentionPolicy { max_age_days: 30, max_total_mb: 1 }, NOW);
    assert_eq!(names(&doomed), ["ancient.mp4", "old.mp4"]);
}

#[test]
fn no_policy_takes_nothing() {
    let files = vec![file("a.png", 100, 999)];
    let doomed = files_to_delete(files, RetentionPolicy::default(), NOW);
    assert!(doomed.is_empty());
}

#[test]
fn equal_times_go_in_listing_order() {
    let files = vec![file("b", 10, 5), file("a", 10, 5), file("c", 10, 5)];
    let doomed = files_to_delete(files, RetentionPolicy { max_age_days: 0, max_total_mb: 1 }, NOW);
    assert!(doomed.is_empty());
    let big = vec![file("b", 700_000, 5), file("a", 700_000, 5), file("c", 700_000, 5)];
    let doomed = files_to_delete(big, RetentionPolicy { max_age_days: 0, max_total_mb: 1 }, NOW);
    assert_eq!(names(&doomed), ["b", "a"]);
}

fn entry(id: &str, files: u64, bytes: u64) -> CleanupEntry {
    CleanupEntry { id: id.into(), label: id.into(), files, bytes, rows: 0, detail: vec![] }
}

#[test]
fn a_group_sums_its_entries_and_carries_its_label() {
    let g = group("caches", vec![entry("a", 2, 30), entry("b", 1, 12)]);
    assert_eq!(g.key, "caches");
    assert_eq!(g.label, "Caches and leftovers");
    assert_eq!(g.total_files, 3);
    assert_eq!(g.total_bytes, 42);
    assert_eq!(group_label("media_orphans"), "Generated media without a job");
    assert_eq!(group_label("anything else"), "Database backups");
}

#[test]
fn detail_lines_are_capped_at_twenty() {
    let few: Vec<String> = (0..20).map(|i| format!("f{i}")).collect();
    assert_eq!(capped(few.clone()), few);
    let many: Vec<String> = (0..23).map(|i| format!("f{i}")).collect();
    let got = capped(many);
    assert_eq!(got.len(), 21);
    assert_eq!(got[19], "f19");
    assert_eq!(got[20], "\u{2026} and 3 more");
}

fn folders(root: &str) -> AppFolders {
    let at = |sub: &str| format!("{root}\\{sub}");
    AppFolders {
        root: root.into(),
        outputs: at("outputs"),
        datasets: at("datasets"),
        training: at("training"),
        runtimes: at("runtimes"),
        cache: at("cache"),
        downloads: at(".downloads"),
        comfyui_data: at("comfyui"),
        voice_identities: at("voices"),
        logs: at("logs"),
        exports: at("exports"),
        pending_import: at("pending"),
    }
}

#[test]
fn the_store_and_runtimes_are_never_scanned() {
    let ctx = ScanContext {
        paths: folders("E:\\aiwm"),
        store: "E:\\models".into(),
        policy: RetentionPolicy::default(),
    };
    assert_eq!(
        ctx.inside_store_or_runtimes("E:\\models\\llm"),
        Some("lies inside the model store E:\\models".to_string())
    );
    assert_eq!(
        ctx.inside_store_or_runtimes("E:\\aiwm\\runtimes"),
        Some("lies inside the runtime installs E:\\aiwm\\runtimes".to_string())
    );
    assert_eq!(ctx.inside_store_or_runtimes("E:\\aiwm\\outputs"), None);
    assert_eq!(ctx.inside_store_or_runtimes("E:\\modelsX"), None);
    let notes = fixed_protected(&ctx);
    assert_eq!(notes.len(), 3);
    assert_eq!(notes[0].what, "Model store E:\\models");
    assert!(notes[2].reason.contains("user assets"));
}

#[test]
fn merge_orders_groups_by_the_scan_and_dedups_ids() {
    let sel = |g: &str, ids: &[&str]| Selection {
        group: g.into(),
        entry_ids: ids.iter().map(|s| s.to_string()).collect(),
    };
    let got = merge(&[
        sel("old_logs", &["b", "a", "b"]),
        sel("media_retention", &["x"]),
        sel("old_logs", &["a", "c"]),
    ])
    .unwrap();
    assert_eq!(got.len(), 2);
    assert_eq!(got[0].0, "media_retention");
    assert_eq!(got[0].1, ["x"]);
    assert_eq!(got[1].0, "old_logs");
    assert_eq!(got[1].1, ["b", "a", "c"]);

    let err = merge(&[sel("caches", &[]), sel("nope", &["a"]), sel("worse", &[])]).unwrap_err();
    assert_eq!(err, CoreError::Config("unknown cleanup group \"nope\"".into()));
    assert!(merge(&[]).unwrap().is_empty());
    assert!(default_true());
}

#[test]
fn summarise_adds_up_entries_and_collects_every_skip() {
    let mut a = not_offered("caches", "\\\\?\\E:\\x");
    a.files = 2;
    a.bytes = 10;
    let b = EntryResult {
        group: "old_logs".into(),
        id: "l".into(),
        label: "l".into(),
        files: 1,
        bytes: 5,
        rows: 3,
        skipped: vec![SkippedFile { path: "p".into(), reason: "missing".into() }],
        paths: vec![],
    };
    let r = summarise(true, vec![a, b]);
    assert!(r.dry_run);
    assert_eq!((r.deleted_files, r.freed_bytes, r.removed_rows), (3, 15, 3));
    assert_eq!(r.skipped.len(), 2);
    assert_eq!(r.skipped[0].path, "E:\\x");
    assert_eq!(r.skipped[0].reason, SKIP_NOT_OFFERED);
    assert_eq!(r.entries.len(), 2);
}

#[test]
fn paths_are_shown_without_the_verbatim_prefix() {
    assert_eq!(display("\\\\?\\E:\\AI\\x"), "E:\\AI\\x");
    assert_eq!(display("\\\\?\\UNC\\server\\share"), "\\\\?\\UNC\\server\\share");
    assert_eq!(display("E:\\x"), "E:\\x");
    let r = refused("caches", "id", "label", "\\\\?\\C:\\y", "why");
    assert_eq!(r.skipped[0].path, "C:\\y");
    assert!(strictly_inside("E:\\a\\b", "E:\\a"));
    assert!(!strictly_inside("E:\\a", "E:\\a\\"));
    assert!(!strictly_inside("E:\\ab", "E:\\a"));
}

#[test]
fn locations_come_in_display_order_with_their_flags() {
    let f = folders("E:\\aiwm");
    let specs = location_specs(&f, &"E:\\models".to_string());
    let keys: Vec<&str> = specs.iter().map(|s| s.key.as_str()).collect();
    assert_eq!(
        keys,
        vec![
            "outputs",
            "datasets",
            "training",
            "models",
            "runtimes",
            "cache",
            "downloads",
            "logs",
            "exports",
            "voice_identities",
            "comfyui_data",
            "pending_import",
        ]
    );
    const FIXED: [&str; 6] =
        ["downloads", "logs", "exports", "voice_identities", "comfyui_data", "pending_import"];
    for s in &specs {
        assert_eq!(s.configurable, !FIXED.contains(&s.key.as_str()), "{}", s.key);
    }
    assert_eq!(specs[3].path, "E:\\models");
    assert!(specs[9].label.contains("user assets"));
    let row = measure_one(
        specs[0].clone(),
        WalkTotals { exists: true, bytes: 42, files: 1, skipped: 0 },
        Some((7, 8)),
    );
    assert_eq!((row.bytes, row.files, row.volume_free_bytes), (42, 1, Some(7)));
}

use aiwm_core::cleanup::media::{classify_media, file_name, media_entries, media_groups, DatasetSource, JobOutput};
use aiwm_core::winpath::volume_label;

fn out(name: &str, bytes: u64, age_days: i128) -> OutputFile {
    OutputFile {
        path: format!("E:\\aiwm\\outputs\\{name}"),
        bytes,
        modified_nanos: NOW - age_days * DAY_NANOS,
    }
}

fn job(path: Option<&str>, finished: bool) -> JobOutput {
    JobOutput { output_path: path.map(str::to_string), finished }
}

#[test]
fn flat_outputs_split_into_rows_orphans_claimed_and_dataset_files() {
    let files = vec![
        out("job1.png", 10, 40),
        out("job2.png", 20, 1),
        out("orphan.png", 30, 2),
        out("Frame.PNG", 40, 3),
    ];
    let jobs = vec![
        job(Some("E:\\aiwm\\outputs\\job1.png"), true),
        job(Some("E:\\aiwm\\outputs\\job2.png"), false),
        job(Some("E:\\aiwm\\outputs\\job2.png"), true),
        job(None, true),
    ];
    let frames = vec!["E:\\aiwm\\outputs\\frame.png".to_string(), "E:\\elsewhere\\orphan.png".to_string()];
    let split = classify_media("E:\\aiwm\\outputs", &frames, &jobs, &files);
    assert_eq!(names(&split.with_rows), ["E:\\aiwm\\outputs\\job1.png"]);
    assert_eq!(names(&split.orphans), ["E:\\aiwm\\outputs\\orphan.png"]);
    assert_eq!(split.dataset_files, 1);

    let ctx = ScanContext {
        paths: folders("E:\\aiwm"),
        store: "E:\\models".into(),
        policy: RetentionPolicy { max_age_days: 30, max_total_mb: 0 },
    };
    let (groups, notes) = media_groups(&ctx, &[], &frames, &jobs, &files, NOW);
    assert_eq!(groups[0].key, "media_retention");
    assert_eq!(groups[0].entries.len(), 1);
    assert_eq!(groups[0].entries[0].id, "job1.png");
    assert_eq!(groups[0].total_bytes, 10);
    assert_eq!(groups[1].key, "media_orphans");
    assert_eq!(groups[1].entries[0].id, "orphan.png");
    assert_eq!(groups[1].entries[0].detail, ["last modified 2026-05-30"]);
    assert_eq!(notes.len(), 1);
    assert_eq!(notes[0].what, "1 media file(s) in E:\\aiwm\\outputs");
}

#[test]
fn outputs_inside_a_dataset_source_offer_nothing() {
    let ctx = ScanContext {
        paths: folders("E:\\aiwm"),
        store: "E:\\models".into(),
        policy: RetentionPolicy { max_age_days: 1, max_total_mb: 0 },
    };
    let ds = [
        DatasetSource { name: "far".into(), source_root: "D:\\pics".into() },
        DatasetSource { name: "mine".into(), source_root: "E:\\aiwm".into() },
    ];
    let (groups, notes) = media_groups(&ctx, &ds, &[], &[], &[out("a.png", 1, 9)], NOW);
    assert!(groups.iter().all(|g| g.entries.is_empty() && g.total_files == 0));
    assert_eq!(notes[0].what, "Generated media (outputs) E:\\aiwm\\outputs");
    assert_eq!(notes[0].reason, "lies inside the source folder of dataset \"mine\"");
}

#[test]
fn media_entries_go_oldest_first_then_by_name() {
    let files = vec![out("b.png", 1, 5), out("c.png", 2, 9), out("a.png", 3, 5)];
    let ids: Vec<String> = media_entries(&files).into_iter().map(|e| e.id).collect();
    assert_eq!(ids, ["c.png", "a.png", "b.png"]);
    assert_eq!(file_name("E:\\x\\y.png"), "y.png");
    assert_eq!(file_name("E:\\x\\.."), "");
}

#[test]
fn the_volume_label_is_the_path_prefix() {
    assert_eq!(volume_label("E:\\AI\\models"), "E:");
    assert_eq!(volume_label("\\\\server\\share\\x"), "\\\\server\\share");
    assert_eq!(volume_label("\\\\?\\C:\\x"), "\\\\?\\C:");
    assert_eq!(volume_label("\\\\?\\UNC\\srv\\sh\\x"), "\\\\?\\UNC\\srv\\sh");
    assert_eq!(volume_label("\\\\.\\COM1"), "\\\\.\\COM1");
    assert_eq!(volume_label("\\\\?\\Volume{x}\\y"), "\\\\?\\Volume{x}");
    assert_eq!(volume_label("/home/me/models"), "/home/me/models");
    assert_eq!(volume_label("\\\\server"), "\\\\server");
}

#[test]
fn the_volume_is_the_longest_mount_point_the_path_lies_under() {
    let disk = |m: &str, avail: u64| MountedDisk {
        mount_point: m.into(),
        mount_len: m.len(),
        available: avail,
        total: 1_000,
    };
    let disks = vec![disk("c:\\", 1), disk("c:\\mnt\\data", 2), disk("e:\\", 3)];
    assert_eq!(volume_of("c:\\mnt\\data\\models", &disks), Some((2, 1_000)));
    assert_eq!(volume_of("c:\\mnt\\database", &disks), Some((1, 1_000)));
    assert_eq!(volume_of("e:\\ai", &disks), Some((3, 1_000)));
    assert_eq!(volume_of("f:\\ai", &disks), None);
    // Of two equally long mount points that both match, the later one.
    let twice = vec![disk("/", 5), disk("/", 6)];
    assert_eq!(volume_of("/home/me", &twice), Some((6, 1_000)));
}

#[test]
fn a_busy_selection_refuses_the_whole_request() {
    let ok = refuse_if_busy(&[None], &[("r".to_string(), RunState::Completed)], &[(
        "a.gguf".to_string(),
        DownloadState::Done,
    )]);
    assert!(ok.is_ok());
    let busy_dataset = refuse_if_busy(
        &[None, Some("a prep job is writing its frames".to_string())],
        &[("r".to_string(), RunState::Running)],
        &[],
    );
    assert_eq!(
        busy_dataset.unwrap_err(),
        CoreError::Config("a prep job is writing its frames".into())
    );
    let busy_run =
        refuse_if_busy(&[None], &[("lora-v1".to_string(), RunState::Paused)], &[]);
    assert_eq!(
        busy_run.unwrap_err(),
        CoreError::Config(
            "training run \"lora-v1\" is paused \u{2014} wait for it to finish or cancel it first"
                .into()
        )
    );
    let busy_download = refuse_if_busy(&[], &[], &[
        ("x.gguf".to_string(), DownloadState::Done),
        ("m.gguf".to_string(), DownloadState::Verifying),
    ]);
    assert_eq!(
        busy_download.unwrap_err(),
        CoreError::Config(
            "the download of m.gguf is verifying \u{2014} wait for it to finish or cancel it first"
                .into()
        )
    );
}

#[test]
fn staging_ids_are_the_download_ids_of_staging_entries() {
    let ids = vec![
        "cache".to_string(),
        "download-staging:abc".to_string(),
        "comfyui:input".to_string(),
        "download-staging:".to_string(),
    ];
    assert_eq!(staging_ids(&ids), ["abc", ""]);
}

#[test]
fn each_entry_gets_one_log_row_with_its_paths_capped() {
    let many: Vec<String> = (0..25).map(|k| format!("f{k}.png")).collect();
    let entries = vec![
        EntryResult {
            group: "media_orphans".into(),
            id: "a".into(),
            label: "a".into(),
            files: 25,
            bytes: 250,
            rows: 0,
            skipped: vec![SkippedFile { path: "x".into(), reason: "missing".into() }],
            paths: many,
        },
        EntryResult { group: "caches".into(), id: "cache".into(), ..EntryResult::default() },
    ];
    let rows = log_rows(&entries);
    assert_eq!(rows.len(), 2);
    assert_eq!(rows[0].group_key, "media_orphans");
    assert_eq!((rows[0].deleted_files, rows[0].freed_bytes, rows[0].skipped_count), (25, 250, 1));
    assert_eq!(rows[0].paths.len(), 21);
    assert_eq!(rows[0].paths[20], "\u{2026} and 5 more");
    assert_eq!(rows[0].skipped[0].reason, "missing");
    assert_eq!(rows[1].entry_id, "cache");
    assert!(rows[1].paths.is_empty());
}

#[test]
fn the_sweep_names_what_keeps_it_from_running() {
    let file = |bytes: u64, modified_nanos: i128| OutputFile { path: "x".into(), bytes, modified_nanos };
    let policy = |max_age_days: u64| RetentionPolicy { max_age_days, max_total_mb: 1 };
    let now: i128 = 1_700_000_000 * 1_000_000_000;
    assert_eq!(retention_fault(&[file(5, now)], policy(1), now), None);
    assert_eq!(retention_fault(&[], policy(MAX_DURATION_DAYS + 1), now), Some(RetentionFault::DaysOverflow));
    assert_eq!(retention_fault(&[], policy(MAX_DURATION_DAYS), now), Some(RetentionFault::CutoffOutOfRange));
    assert_eq!(retention_fault(&[], policy(1), EARLIEST_NANOS + DAY_NANOS), None);
    assert_eq!(retention_fault(&[], policy(1), EARLIEST_NANOS + DAY_NANOS - 1), Some(RetentionFault::CutoffOutOfRange));
    // Only what the age rule leaves is summed.
    let big = [file(u64::MAX, now), file(1, now - 2 * DAY_NANOS)];
    assert_eq!(retention_fault(&big, policy(1), now), None);
    assert_eq!(retention_fault(&big, policy(0), now), Some(RetentionFault::SizeOverflow));
    assert_eq!(retention_fault(&big, policy(3), now), Some(RetentionFault::SizeOverflow));
}

#[test]
fn the_report_lists_the_same_duplicate_groups_as_duplicates() {
    let models = vec![
        dup("z1", Some("zz"), 10, "2026-01-01T00:00:00Z"),
        dup("y1", Some("yy"), 10, "2026-01-01T00:00:00Z"),
        dup("z2", Some("zz"), -5, "2026-01-01T00:00:00Z"),
        dup("y2", Some("yy"), 7, "2026-01-01T00:00:00Z"),
        dup("big1", Some("bb"), 100, "2025-01-01T00:00:00Z"),
        dup("big2", Some("bb"), 100, "2027-01-01T00:00:00Z"),
        dup("lone", Some("ll"), 100, "2026-01-01T00:00:00Z"),
    ];
    let now: i128 = 1_780_272_000 * 1_000_000_000;
    let present = vec![true; models.len()];
    let r = report(&models, "E:\\m", 30, now, &present, None);
    let d = duplicates(&models);
    assert_eq!(r.duplicates.len(), d.len());
    for (a, b) in r.duplicates.iter().zip(d.iter()) {
        assert_eq!(a.sha256, b.sha256);
        assert_eq!(a.member_ids, b.member_ids);
        assert_eq!(a.wasted_bytes, b.wasted_bytes);
    }
    let hashes: Vec<&str> = d.iter().map(|g| g.sha256.as_str()).collect();
    assert_eq!(hashes, ["bb", "yy", "zz"]);
}

#[test]
fn a_relative_path_is_never_inside_a_rooted_store() {
    let relative = model(NewModel {
        name: "r".into(),
        file_path: "data/models/llm/x.gguf".into(),
        ..NewModel::default()
    });
    assert_eq!(kind_of(&relative, "/data/models"), "other");
    assert_eq!(kind_of(&relative, "data/models"), "llm");
    let drive_relative = model(NewModel {
        name: "d".into(),
        file_path: "AI\\models\\llm\\x.gguf".into(),
        ..NewModel::default()
    });
    assert_eq!(kind_of(&drive_relative, "E:\\AI\\models"), "other");
    assert_eq!(kind_of(&drive_relative, "\\AI\\models"), "other");
    let rooted = model(NewModel {
        name: "s".into(),
        file_path: "/data/models/llm/x.gguf".into(),
        ..NewModel::default()
    });
    assert_eq!(kind_of(&rooted, "\\data\\models"), "llm");
    assert_eq!(file_name("/"), "");
    assert_eq!(file_name("E:\\"), "");
    assert_eq!(file_name("/x/y.bin"), "y.bin");
}

#[test]
fn the_apply_plan_runs_each_groups_work_in_order() {
    let g = |k: &str, ids: &[&str]| (k.to_string(), ids.iter().map(|i| i.to_string()).collect::<Vec<_>>());
    let groups = vec![
        g("media_orphans", &["a.png"]),
        g("finished_runs", &["r1", "r2"]),
        g("caches", &["cache"]),
        g("db_backups", &["b.db"]),
    ];
    let plan = apply_plan(&groups, true);
    assert!(plan.fresh_scan);
    assert!(!plan.write_log);
    let work: Vec<GroupWork> = plan.groups.iter().map(|p| p.work).collect();
    assert_eq!(work, [GroupWork::Media, GroupWork::FinishedRuns, GroupWork::Caches, GroupWork::Backups]);
    assert_eq!(plan.groups[1].group, "finished_runs");
    assert_eq!(plan.groups[1].ids, ["r1", "r2"]);

    let plan = apply_plan(&groups[1..], false);
    assert!(!plan.fresh_scan);
    assert!(plan.write_log);
    assert_eq!(plan.groups.len(), 3);
    let all = vec![
        g("media_retention", &[]),
        g("discarded_frames", &[]),
        g("unclaimed_dataset_folders", &[]),
        g("missing_frame_rows", &[]),
        g("old_logs", &[]),
    ];
    let work: Vec<GroupWork> = apply_plan(&all, false).groups.iter().map(|p| p.work).collect();
    assert_eq!(
        work,
        [
            GroupWork::Media,
            GroupWork::DiscardedFrames,
            GroupWork::UnclaimedFolders,
            GroupWork::MissingFrameRows,
            GroupWork::OldLogs,
        ]
    );
    assert!(!apply_plan(&[], true).fresh_scan);
}

#[test]
fn a_walk_counts_files_skips_links_and_descends_folders() {
    let t = WalkTotals { exists: true, bytes: 10, files: 1, skipped: 0 };
    assert_eq!(walk_step(t, EntryKind::File { len: 5 }), (WalkTotals { bytes: 15, files: 2, ..t }, false));
    assert_eq!(walk_step(t, EntryKind::Link), (t, false));
    assert_eq!(walk_step(t, EntryKind::Dir), (t, true));
    assert_eq!(walk_step(t, EntryKind::Other), (WalkTotals { skipped: 1, ..t }, false));
    assert_eq!(walk_step(t, EntryKind::Unreadable), (WalkTotals { skipped: 1, ..t }, false));
}
