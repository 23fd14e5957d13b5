use aiwm_core::cleanup::apply_steps::{
    file_verdict, find_run, run_step, FileProbe, FileVerdict, RunStep, SkipWhy,
};
use aiwm_core::cleanup::caches::ScannedFile;
use aiwm_core::cleanup::caches_scan::FolderTotals;
use aiwm_core::cleanup::outputs::RetentionPolicy;
use aiwm_core::cleanup::runs::{
    disposable_files, library_copy, runs_group, FolderProbe, ResultModel,
    RunFile, RunScan,
};
use aiwm_core::cleanup::scan::{AppFolders, ScanContext};
use aiwm_core::states::RunState;

const DIR: &str = "/data/aiwm/training/run-1";

fn ctx() -> ScanContext {
    let root = "/data/aiwm";
    let at = |sub: &str| format!("{root}/{sub}");
    ScanContext {
        paths: AppFolders {
            root: root.into(),
            outputs: at("outputs"),
            datasets: at("datasets"),
            training: at("training"),
            runtimes: at("runtimes"),
            cache: at("cache"),
            downloads: at(".downloads"),
            comfyui_data: at("comfyui"),
            voice_identities: at("voices"),
            logs: at("logs"),
            exports: at("exports"),
            pending_import: at("pending"),
        },
        store: "/models".into(),
        policy: RetentionPolicy::default(),
    }
}

fn f(rel: &str, bytes: u64, step: Option<u64>) -> RunFile {
    RunFile {
        file: ScannedFile { path: format!("{DIR}/{rel}"), bytes, modified_nanos: Some(0) },
        checkpoint_step: step,
    }
}

/// Three checkpoints (the unsuffixed save ranks last), optimizer, two
/// samples, the log, the config.
fn files() -> Vec<RunFile> {
    vec![
        f("config.toml", 5, None),
        f("lora-v1.safetensors", 800, Some(u64::MAX)),
        f("lora-v1_000000200.safetensors", 200, Some(200)),
        f("lora-v1_000000400.safetensors", 400, Some(400)),
        f("optimizer.pt", 50, None),
        f("Samples/a.png", 10, None),
        f("samples/b.png", 10, None),
        f("train.log", 30, None),
    ]
}

fn run(state: RunState, model: Option<ResultModel>) -> RunScan {
    RunScan {
        id: "run-1".into(),
        name: "lora-v1".into(),
        state,
        folder: DIR.into(),
        probe: FolderProbe::Present,
        purge_refusal: None,
        result_model: model,
        totals: FolderTotals { files: 8, bytes: 1_505 },
        files: files(),
    }
}

fn library_lora(present: bool) -> ResultModel {
    ResultModel {
        name: "lora-v1".into(),
        file_path: "/models/image/loras/lora-v1.safetensors".into(),
        present,
        absolute: true,
    }
}

#[test]
fn finished_runs_offer_the_whole_folder_when_the_lora_is_in_the_library() {
    let (g, notes) = runs_group(&ctx(), &[run(RunState::Completed, Some(library_lora(true)))]);
    assert_eq!(g.key, "finished_runs");
    assert_eq!(g.entries.len(), 1);
    let e = &g.entries[0];
    assert_eq!(e.id, "run-1");
    assert_eq!(e.label, "lora-v1 \u{2014} whole folder");
    assert_eq!(e.files, 8);
    assert_eq!(e.bytes, 200 + 400 + 800 + 50 + 10 + 10 + 30 + 5);
    assert_eq!(
        e.detail,
        [DIR.to_string(), "the result LoRA \"lora-v1\" is in the library".to_string()]
    );
    assert!(notes.is_empty());
}

#[test]
fn finished_runs_keep_the_final_checkpoint_when_the_lora_is_not_in_the_library() {
    let (g, notes) = runs_group(&ctx(), &[run(RunState::Failed, Some(library_lora(false)))]);
    assert_eq!(g.entries.len(), 1);
    let e = &g.entries[0];
    assert_eq!(e.label, "lora-v1 \u{2014} checkpoints, optimizer state, samples and log");
    assert_eq!(e.files, 6);
    assert_eq!(e.bytes, 200 + 400 + 50 + 10 + 10 + 30);
    assert!(e.detail.iter().any(|d| d == "lora-v1_000000200.safetensors"));
    assert!(!e.detail.iter().any(|d| d == "lora-v1.safetensors"));
    assert!(!e.detail.iter().any(|d| d == "config.toml"));
    assert_eq!(notes.len(), 1);
    assert_eq!(notes[0].what, "Training run \"lora-v1\": lora-v1.safetensors");
    assert_eq!(notes[0].reason, "the only copy of the result \u{2014} the LoRA is not in the library");
}

#[test]
fn a_run_that_has_not_finished_is_only_noted() {
    let (g, notes) = runs_group(&ctx(), &[run(RunState::Running, None)]);
    assert!(g.entries.is_empty());
    assert_eq!(notes.len(), 1);
    assert_eq!(notes[0].what, "Training run \"lora-v1\"");
    assert_eq!(notes[0].reason, "the run is running \u{2014} its folder stays until it finishes");
}

#[test]
fn refused_unreadable_and_absent_folders() {
    let mut refused = run(RunState::Completed, None);
    refused.purge_refusal = Some("the folder holds a dataset".into());
    let mut unreadable = run(RunState::Cancelled, None);
    unreadable.probe = FolderProbe::Unreadable("access denied".into());
    let mut absent = run(RunState::Completed, None);
    absent.probe = FolderProbe::Absent;
    let (g, notes) = runs_group(&ctx(), &[refused, unreadable, absent]);
    assert!(g.entries.is_empty());
    assert_eq!(notes.len(), 2);
    assert_eq!(notes[0].reason, "the folder holds a dataset");
    assert_eq!(
        notes[1].reason,
        "its folder /data/aiwm/training/run-1 cannot be inspected: access denied"
    );
}

#[test]
fn a_library_copy_inside_the_run_folder_or_the_outputs_is_no_copy() {
    let c = ctx();
    let inside = ResultModel {
        name: "x".into(),
        file_path: format!("{DIR}/lora-v1.safetensors"),
        present: true,
        absolute: true,
    };
    assert_eq!(library_copy(&c, Some(&inside), DIR), None);
    let in_outputs = ResultModel {
        name: "x".into(),
        file_path: "/data/aiwm/outputs/x.safetensors".into(),
        present: true,
        absolute: true,
    };
    assert_eq!(library_copy(&c, Some(&in_outputs), DIR), None);
    assert_eq!(library_copy(&c, Some(&library_lora(true)), DIR), Some("lora-v1".to_string()));
    assert_eq!(library_copy(&c, None, DIR), None);
    // A relative path is never a library copy.
    let relative = ResultModel { absolute: false, ..library_lora(true) };
    assert_eq!(library_copy(&c, Some(&relative), DIR), None);
    // The platform is asked whether a path is absolute; an empty one never is.
    let empty = ResultModel::new("x".into(), String::new(), true);
    assert!(!empty.absolute);
    assert_eq!(library_copy(&c, Some(&empty), DIR), None);
    let asked = ResultModel::new("y".into(), "models/y.safetensors".into(), true);
    assert!(!asked.absolute);
    assert_eq!(asked.name, "y");
    assert_eq!(asked.file_path, "models/y.safetensors");
    assert!(asked.present);
}

#[test]
fn the_final_checkpoint_is_the_greatest_step_the_later_of_equal_ones() {
    let fs = vec![f("a.safetensors", 1, Some(7)), f("b.safetensors", 1, Some(7)), f("c.txt", 1, None)];
    let (deletable, last) = disposable_files(&fs, DIR);
    assert_eq!(last.as_deref(), Some("/data/aiwm/training/run-1/b.safetensors"));
    assert_eq!(deletable.len(), 1);
    assert_eq!(deletable[0].path, "/data/aiwm/training/run-1/a.safetensors");
    let (none, no_last) = disposable_files(&[f("config.toml", 1, None)], DIR);
    assert!(none.is_empty());
    assert_eq!(no_last, None);
}

#[test]
fn the_first_run_with_the_id_is_the_one_applied() {
    let mut other = run(RunState::Failed, None);
    other.name = "second".into();
    let runs = vec![run(RunState::Completed, None), other];
    assert_eq!(find_run(&runs, "run-1"), Some(0));
    assert_eq!(find_run(&runs, "run-2"), None);
    assert_eq!(find_run(&[], "run-1"), None);
}

#[test]
fn applying_a_run_refuses_what_cannot_go_and_picks_the_rest() {
    let c = ctx();
    let root = "/canonical/run-1";
    // Never offered.
    let RunStep::Done(e) = run_step(&c, None, "ghost", None, Some(root)) else { panic!() };
    assert_eq!((e.group.as_str(), e.label.as_str()), ("finished_runs", "ghost"));
    assert_eq!(e.skipped[0].reason, "not_offered");
    // The lookup failed.
    let r = run(RunState::Completed, Some(library_lora(true)));
    let RunStep::Done(e) = run_step(&c, Some(&r), "run-1", Some("denied"), Some(root)) else { panic!() };
    assert_eq!((e.label.as_str(), e.skipped[0].reason.as_str()), ("lora-v1", "denied"));
    assert_eq!(e.files, 0);
    // The purge check refused.
    let mut held = r.clone();
    held.purge_refusal = Some("a dataset lives here".into());
    let RunStep::Done(e) = run_step(&c, Some(&held), "run-1", None, Some(root)) else { panic!() };
    assert_eq!(e.skipped[0].reason, "a dataset lives here");
    // Not a folder.
    let RunStep::NotAFolder { label, dir } = run_step(&c, Some(&r), "run-1", None, None) else { panic!() };
    assert_eq!((label.as_str(), dir.as_str()), ("lora-v1", DIR));
    // In the library: the whole folder.
    let RunStep::WholeFolder { label, root: d } = run_step(&c, Some(&r), "run-1", None, Some(root)) else { panic!() };
    assert_eq!((label.as_str(), d.as_str()), ("lora-v1 \u{2014} whole folder", root));
    // Not in the library: the disposable files, never the final checkpoint.
    let r = run(RunState::Completed, None);
    let RunStep::Disposable { label, root: d, files } = run_step(&c, Some(&r), "run-1", None, Some(root)) else {
        panic!()
    };
    assert_eq!(label, "lora-v1 \u{2014} checkpoints, optimizer state, samples and log");
    assert_eq!(d, root);
    let names: Vec<&str> = files.iter().map(|f| f.path.trim_start_matches(DIR)).collect();
    assert_eq!(
        names,
        [
            "/lora-v1_000000200.safetensors",
            "/lora-v1_000000400.safetensors",
            "/optimizer.pt",
            "/Samples/a.png",
            "/samples/b.png",
            "/train.log",
        ]
    );
}

fn file_at(path: &str, bytes: u64) -> FileProbe {
    FileProbe::File { canonical: Ok(path.into()), bytes }
}

fn skipped(v: FileVerdict) -> SkipWhy {
    match v {
        FileVerdict::Skip(w) => w,
        FileVerdict::Delete { canonical, .. } => panic!("would delete {canonical}"),
    }
}

#[test]
fn only_regular_files_strictly_inside_the_root_may_go() {
    let root = "/data/aiwm/cache";
    let FileVerdict::Delete { canonical, bytes } = file_verdict(root, file_at("/data/aiwm/cache/a/b.bin", 7), false)
    else {
        panic!()
    };
    assert_eq!((canonical.as_str(), bytes), ("/data/aiwm/cache/a/b.bin", 7));
    assert_eq!(skipped(file_verdict(root, FileProbe::Missing, false)), SkipWhy::Missing);
    assert_eq!(skipped(file_verdict(root, FileProbe::Link, false)), SkipWhy::Link);
    assert_eq!(skipped(file_verdict(root, FileProbe::NotAFile, false)), SkipWhy::NotAFile);
    assert_eq!(
        skipped(file_verdict(root, FileProbe::Unreadable("denied".into()), false)),
        SkipWhy::Error("denied".into())
    );
    assert_eq!(
        skipped(file_verdict(root, FileProbe::File { canonical: Err("gone".into()), bytes: 1 }, false)),
        SkipWhy::Error("gone".into())
    );
    assert_eq!(skipped(file_verdict(root, file_at("/data/aiwm/cache", 1), false)), SkipWhy::Outside);
    assert_eq!(skipped(file_verdict(root, file_at("/data/aiwm/cached/x", 1), false)), SkipWhy::Outside);
    assert_eq!(skipped(file_verdict(root, file_at("/etc/passwd", 1), false)), SkipWhy::Outside);
}

#[test]
fn a_flat_id_must_name_a_file_right_in_the_root() {
    let root = "/data/aiwm/exports";
    assert!(matches!(
        file_verdict(root, file_at("/data/aiwm/exports/backup.db", 3), true),
        FileVerdict::Delete { bytes: 3, .. }
    ));
    assert_eq!(skipped(file_verdict(root, file_at("/data/aiwm/exports/sub/backup.db", 3), true)), SkipWhy::NotOffered);
    assert_eq!(skipped(file_verdict(root, FileProbe::Missing, true)), SkipWhy::NotOffered);
    assert_eq!(skipped(file_verdict(root, file_at("/elsewhere/backup.db", 3), true)), SkipWhy::Outside);
}
