use aiwm_core::cleanup::apply_steps::{unclaimed_step, FolderStep};
use aiwm_core::cleanup::caches_scan::FolderTotals;
use aiwm_core::cleanup::datasets::{
    dataset_groups, DatasetScan, DatasetUsage, FrameState, UnclaimedFolder, UnclaimedFolders,
};
use aiwm_core::cleanup::outputs::RetentionPolicy;
use aiwm_core::cleanup::scan::{AppFolders, ScanContext};

fn ctx() -> ScanContext {
    let root = "E:\\aiwm";
    let at = |sub: &str| format!("{root}\\{sub}");
    ScanContext {
        paths: AppFolders {
            root: root.into(),
            outputs: at("outputs"),
            datasets: at("datasets"),
            training: at("training"),
            runtimes: at("runtimes"),
            cache: at("cache"),
            downloads: at(".downloads"),
            comfyui_data: at("comfyui"),
            voice_identities: at("voices"),
            logs: at("logs"),
            exports: at("exports"),
            pending_import: at("pending"),
        },
        store: "E:\\models".into(),
        policy: RetentionPolicy::default(),
    }
}

fn dataset(id: &str, name: &str) -> DatasetScan {
    DatasetScan { id: id.into(), name: name.into(), busy: None, usage: None, frames: vec![] }
}

fn no_unclaimed() -> UnclaimedFolders {
    UnclaimedFolders { folders: vec![], links: vec![] }
}

#[test]
fn discarded_frames_are_counted_per_dataset() {
    let mut demo = dataset("ds-1", "Demo");
    demo.usage = Some(DatasetUsage {
        discarded_frames: 2,
        discarded_files: 2,
        discarded_bytes: 500,
        work_dir: Some("E:\\aiwm\\datasets\\job-1".into()),
    });
    let mut clean = dataset("ds-2", "Clean");
    clean.usage = Some(DatasetUsage {
        discarded_frames: 0,
        discarded_files: 0,
        discarded_bytes: 0,
        work_dir: None,
    });
    let (groups, notes) = dataset_groups(&ctx(), &[demo, clean], &no_unclaimed());
    let g = &groups[0];
    assert_eq!(g.key, "discarded_frames");
    assert_eq!(g.entries.len(), 1);
    let e = &g.entries[0];
    assert_eq!(e.id, "ds-1");
    assert_eq!(e.label, "Demo");
    assert_eq!((e.rows, e.files, e.bytes), (2, 2, 500));
    assert_eq!(e.detail, ["work folder E:\\aiwm\\datasets\\job-1"]);
    assert_eq!(g.total_bytes, 500);
    assert!(notes.is_empty());
}

#[test]
fn a_busy_dataset_is_only_noted() {
    let mut busy = dataset("ds-1", "Demo");
    busy.busy = Some("a training run is reading its frames".into());
    busy.usage = Some(DatasetUsage {
        discarded_frames: 3,
        discarded_files: 3,
        discarded_bytes: 30,
        work_dir: None,
    });
    busy.frames = vec![FrameState::Missing];
    let (groups, notes) = dataset_groups(&ctx(), &[busy], &no_unclaimed());
    assert!(groups.iter().all(|g| g.entries.is_empty()));
    assert_eq!(notes.len(), 1);
    assert_eq!(notes[0].what, "Dataset \"Demo\"");
    assert_eq!(notes[0].reason, "a training run is reading its frames");
}

#[test]
fn unclaimed_dataset_folders_lists_only_folders_no_dataset_claims() {
    let mut c = ctx();
    c.paths.training = "E:\\aiwm\\datasets\\trainroot\\runs".into();
    let unclaimed = UnclaimedFolders {
        folders: vec![
            UnclaimedFolder {
                path: "E:\\aiwm\\datasets\\gone-dataset".into(),
                totals: FolderTotals { files: 2, bytes: 440 },
            },
            UnclaimedFolder {
                path: "E:\\aiwm\\datasets\\trainroot".into(),
                totals: FolderTotals { files: 9, bytes: 9 },
            },
        ],
        links: vec!["E:\\aiwm\\datasets\\linked".into()],
    };
    let (groups, notes) = dataset_groups(&c, &[], &unclaimed);
    let g = &groups[1];
    assert_eq!(g.key, "unclaimed_dataset_folders");
    let ids: Vec<&str> = g.entries.iter().map(|e| e.id.as_str()).collect();
    assert_eq!(ids, ["gone-dataset"]);
    assert_eq!((g.entries[0].files, g.entries[0].bytes), (2, 440));
    assert_eq!(g.entries[0].detail, ["E:\\aiwm\\datasets\\gone-dataset"]);
    assert_eq!(notes.len(), 2);
    assert_eq!(notes[0].what, "Folder E:\\aiwm\\datasets\\trainroot");
    assert_eq!(
        notes[0].reason,
        "is or holds the training folder E:\\aiwm\\datasets\\trainroot\\runs"
    );
    assert_eq!(notes[1].what, "Folder E:\\aiwm\\datasets\\linked");
    assert_eq!(notes[1].reason, "it is a link or junction, never followed");
}

#[test]
fn missing_frame_rows_counts_rows_whose_file_is_gone() {
    let mut demo = dataset("ds-1", "Demo");
    demo.frames = vec![FrameState::Other, FrameState::Other, FrameState::Missing];
    let (groups, notes) = dataset_groups(&ctx(), &[demo], &no_unclaimed());
    let g = &groups[2];
    assert_eq!(g.key, "missing_frame_rows");
    assert_eq!(g.entries.len(), 1);
    assert_eq!(g.entries[0].id, "ds-1");
    assert_eq!((g.entries[0].rows, g.entries[0].files, g.entries[0].bytes), (1, 0, 0));
    assert_eq!(g.entries[0].detail, ["1 of 3 frame entries"]);
    assert_eq!(g.total_files, 0);
    assert!(notes.is_empty());
}

#[test]
fn rows_on_a_disconnected_drive_are_protected_per_drive() {
    let mut demo = dataset("ds-1", "Demo");
    demo.frames = vec![
        FrameState::DriveAbsent("F:\\".into()),
        FrameState::Missing,
        FrameState::DriveAbsent("D:\\".into()),
        FrameState::DriveAbsent("F:\\".into()),
    ];
    let (groups, notes) = dataset_groups(&ctx(), &[demo], &no_unclaimed());
    assert_eq!(groups[2].entries[0].rows, 1);
    assert_eq!(notes.len(), 2);
    assert_eq!(notes[0].what, "1 frame rows of dataset \"Demo\"");
    assert_eq!(
        notes[0].reason,
        "their files are on a drive that is not connected (D:\\) \u{2014} reconnect it or leave them"
    );
    assert_eq!(notes[1].what, "2 frame rows of dataset \"Demo\"");
    assert!(notes[1].reason.contains("(F:\\)"));
}

#[test]
fn an_unclaimed_folder_is_applied_by_its_name() {
    let folders = vec![
        "E:\\aiwm\\datasets\\gone".to_string(),
        "E:\\aiwm\\datasets\\trainroot".to_string(),
    ];
    match unclaimed_step(&ctx(), &folders, "gone") {
        FolderStep::Remove(f) => assert_eq!(f, "E:\\aiwm\\datasets\\gone"),
        other => panic!("{other:?}"),
    }
    match unclaimed_step(&ctx(), &folders, "other") {
        FolderStep::Done(r) => assert_eq!(r.skipped[0].reason, "not_offered"),
        other => panic!("{other:?}"),
    }
    let mut c = ctx();
    c.paths.training = "E:\\aiwm\\datasets\\trainroot\\runs".into();
    match unclaimed_step(&c, &folders, "trainroot") {
        FolderStep::Done(r) => {
            assert_eq!(r.group, "unclaimed_dataset_folders");
            assert_eq!(r.skipped[0].path, "E:\\aiwm\\datasets\\trainroot");
        }
        other => panic!("{other:?}"),
    }
}
