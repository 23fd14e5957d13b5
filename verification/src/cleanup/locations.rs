//! The storage-locations report: every folder the app writes to, in display
//! order, whether Settings may point it elsewhere, and — once the caller
//! has walked it and asked its volume — its size and free space.

use vstd::prelude::*;

use crate::cleanup::scan::{is_same_or_inside, same_or_inside, AppFolders};

verus! {

/// One location's report row.
#[derive(Debug, Clone, PartialEq, Eq)]
pub struct StorageLocation {
    /// Stable identifier (`outputs`, `datasets`, `training`, `models`,
    /// `runtimes`, `cache`, `downloads`, `logs`, `exports`,
    /// `voice_identities`, `comfyui_data`, `pending_import`).
    pub key: String,
    /// Short human label for the Settings UI.
    pub label: String,
    pub path: String,
    /// Whether this location can be pointed elsewhere in Settings.
    pub configurable: bool,
    pub exists: bool,
    pub bytes: u64,
    pub files: u64,
    /// Entries the walk could not read — never fatal.
    pub skipped: u64,
    pub volume_free_bytes: Option<u64>,
    pub volume_total_bytes: Option<u64>,
}

/// One location before it is measured.
#[derive(Debug, Clone, PartialEq, Eq)]
pub struct LocationSpec {
    pub key: String,
    pub label: String,
    pub path: String,
    pub configurable: bool,
}

/// What a recursive walk of one folder found.
#[derive(Debug, Clone, Copy, Default, PartialEq, Eq)]
pub struct WalkTotals {
    pub exists: bool,
    pub bytes: u64,
    pub files: u64,
    pub skipped: u64,
}

/// What a walk learns of one entry of a folder (or of a folder it could
/// not list).
#[derive(Debug, Clone, Copy, PartialEq, Eq)]
pub enum EntryKind {
    /// The folder could not be listed, or the entry or its metadata could
    /// not be read.
    Unreadable,
    /// A symbolic link, or a junction or other reparse point.
    Link,
    /// A folder.
    Dir,
    /// A regular file of `len` bytes.
    File { len: u64 },
    /// Anything else.
    Other,
}

/// The totals after one more entry.
pub open spec fn walked(t: WalkTotals, e: EntryKind) -> WalkTotals {
    match e {
        EntryKind::Unreadable | EntryKind::Other => WalkTotals { skipped: (t.skipped + 1) as u64, ..t },
        EntryKind::Link | EntryKind::Dir => t,
        EntryKind::File { len } => WalkTotals { bytes: (t.bytes + len) as u64, files: (t.files + 1) as u64, ..t },
    }
}

/// One step of a walk: a link or reparse point is skipped outright (never
/// followed, never counted); a folder is descended into (the `bool`); a
/// regular file adds one file and its length; anything else, or anything
/// unreadable, adds one to `skipped`.
pub fn walk_step(t: WalkTotals, e: EntryKind) -> (r: (WalkTotals, bool))
    requires
        e matches EntryKind::File { len } ==> t.bytes + len <= u64::MAX && t.files < u64::MAX,
        (e is Unreadable || e is Other) ==> t.skipped < u64::MAX,
    ensures
        r.0 == walked(t, e),
        r.1 == (e is Dir),
{
    match e {
        EntryKind::Unreadable | EntryKind::Other => (WalkTotals { skipped: t.skipped + 1, ..t }, false),
        EntryKind::Link => (t, false),
        EntryKind::Dir => (t, true),
        EntryKind::File { len } => (WalkTotals { bytes: t.bytes + len, files: t.files + 1, ..t }, false),
    }
}

/// A location spec as values: key, label, path, configurable.
pub open spec fn spec_row(s: LocationSpec) -> (Seq<char>, Seq<char>, Seq<char>, bool) {
    (s.key@, s.label@, s.path@, s.configurable)
}

/// Every location the app writes to, in display order.
pub open spec fn location_table(f: AppFolders, store: Seq<char>) -> Seq<(Seq<char>, Seq<char>, Seq<char>, bool)> {
    seq![
        ("outputs"@, "Generated media (outputs)"@, f.outputs@, true),
        ("datasets"@, "Dataset work folders"@, f.datasets@, true),
        ("training"@, "Training runs"@, f.training@, true),
        ("models"@, "Model store"@, store, true),
        ("runtimes"@, "Managed runtime installs"@, f.runtimes@, true),
        ("cache"@, "Disposable cache"@, f.cache@, true),
        ("downloads"@, "Download staging"@, f.downloads@, false),
        ("logs"@, "Logs"@, f.logs@, false),
        ("exports"@, "Backups"@, f.exports@, false),
        ("voice_identities"@, "Voice identities \u{2014} user assets"@, f.voice_identities@, false),
        ("comfyui_data"@, "ComfyUI scratch"@, f.comfyui_data@, false),
        ("pending_import"@, "Pending import"@, f.pending_import@, false),
    ]
}

fn spec_of(key: &str, label: &str, path: &String, configurable: bool) -> (r: LocationSpec)
    ensures
        spec_row(r) == (key@, label@, path@, configurable),
{
    LocationSpec {
        key: String::from_str(key),
        label: String::from_str(label),
        path: path.clone(),
        configurable,
    }
}

/// Every location the app writes to, in display order. `store` is the
/// model store, which the app's folders do not include.
pub fn location_specs(folders: &AppFolders, store: &String) -> (r: Vec<LocationSpec>)
    ensures
        r@.map_values(|s: LocationSpec| spec_row(s)) == location_table(*folders, store@),
{
    let f = folders;
    let r = vec![
        spec_of("outputs", "Generated media (outputs)", &f.outputs, true),
        spec_of("datasets", "Dataset work folders", &f.datasets, true),
        spec_of("training", "Training runs", &f.training, true),
        spec_of("models", "Model store", store, true),
        spec_of("runtimes", "Managed runtime installs", &f.runtimes, true),
        spec_of("cache", "Disposable cache", &f.cache, true),
        spec_of("downloads", "Download staging", &f.downloads, false),
        spec_of("logs", "Logs", &f.logs, false),
        spec_of("exports", "Backups", &f.exports, false),
        spec_of("voice_identities", "Voice identities \u{2014} user assets", &f.voice_identities, false),
        spec_of("comfyui_data", "ComfyUI scratch", &f.comfyui_data, false),
        spec_of("pending_import", "Pending import", &f.pending_import, false),
    ];
    assert(r@.map_values(|s: LocationSpec| spec_row(s)) =~= location_table(*folders, store@));
    r
}

/// One location's row, from its spec, what the walk found, and the
/// `(free, total)` bytes of its volume when known.
pub fn measure_one(spec: LocationSpec, walked: WalkTotals, volume: Option<(u64, u64)>) -> (r: StorageLocation)
    ensures
        r.key == spec.key,
        r.label == spec.label,
        r.path == spec.path,
        r.configurable == spec.configurable,
        r.exists == walked.exists,
        r.bytes == walked.bytes,
        r.files == walked.files,
        r.skipped == walked.skipped,
        r.volume_free_bytes == (match volume {
            Some((f, _)) => Some(f),
            None => None::<u64>,
        }),
        r.volume_total_bytes == (match volume {
            Some((_, t)) => Some(t),
            None => None::<u64>,
        }),
{
    let (volume_free_bytes, volume_total_bytes) = match volume {
        Some((free, total)) => (Some(free), Some(total)),
        None => (None, None),
    };
    StorageLocation {
        key: spec.key,
        label: spec.label,
        path: spec.path,
        configurable: spec.configurable,
        exists: walked.exists,
        bytes: walked.bytes,
        files: walked.files,
        skipped: walked.skipped,
        volume_free_bytes,
        volume_total_bytes,
    }
}

/// One mounted disk as the operating system lists it.
#[derive(Debug, Clone, PartialEq, Eq)]
pub struct MountedDisk {
    /// The mount point, in the form paths are compared in (no verbatim
    /// prefix; case-folded where the file system folds case).
    pub mount_point: String,
    /// The length of the mount point as the system spells it.
    pub mount_len: usize,
    pub available: u64,
    pub total: u64,
}

/// The index of the disk `target` lives on, among the first `n`: of the
/// mount points `target` lies at or inside, the longest; of equally long
/// ones, the later.
pub open spec fn volume_index(target: Seq<char>, disks: Seq<MountedDisk>, n: int) -> Option<int>
    decreases n,
{
    if n <= 0 {
        None
    } else {
        let best = volume_index(target, disks, n - 1);
        let d = disks[n - 1];
        if same_or_inside(target, d.mount_point@) && (match best {
            Some(b) => disks[b].mount_len <= d.mount_len,
            None => true,
        }) {
            Some(n - 1)
        } else {
            best
        }
    }
}

proof fn lemma_volume_index_bound(target: Seq<char>, disks: Seq<MountedDisk>, n: int)
    requires
        0 <= n <= disks.len(),
    ensures
        volume_index(target, disks, n) matches Some(b) ==> 0 <= b < n,
    decreases n,
{
    if n > 0 {
        lemma_volume_index_bound(target, disks, n - 1);
    }
}

/// `(free, total)` bytes of the volume `target` lives on: the disk whose
/// mount point is the longest that `target` lies at or inside; `None` when
/// none does.
pub fn volume_of(target: &str, disks: &[MountedDisk]) -> (r: Option<(u64, u64)>)
    ensures
        match volume_index(target@, disks@, disks@.len() as int) {
            Some(b) => r == Some((disks@[b].available, disks@[b].total)),
            None => r is None,
        },
{
    let mut best: Option<usize> = None;
    let mut i: usize = 0;
    while i < disks.len()
        invariant
            i <= disks@.len(),
            match best {
                Some(b) => volume_index(target@, disks@, i as int) == Some(b as int),
                None => volume_index(target@, disks@, i as int) is None,
            },
        decreases disks@.len() - i,
    {
        proof {
            lemma_volume_index_bound(target@, disks@, i as int);
        }
        let d = &disks[i];
        if is_same_or_inside(target, d.mount_point.as_str()) {
            let longer = match best {
                Some(b) => disks[b].mount_len <= d.mount_len,
                None => true,
            };
            if longer {
                best = Some(i);
            }
        }
        i = i + 1;
    }
    proof {
        lemma_volume_index_bound(target@, disks@, disks@.len() as int);
    }
    match best {
        Some(b) => Some((disks[b].available, disks[b].total)),
        None => None,
    }
}

} // verus!
