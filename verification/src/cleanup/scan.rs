//! The cleanup scan's report: what the app itself generated and could be
//! removed, grouped by kind with counts and sizes, plus what was
//! deliberately not offered and why. The groups' display order and labels,
//! their totals, the capped detail lines, and the folder rules every group
//! obeys (never the model store or the runtime installs, never a folder
//! that is or holds one of the app's own) live here.

use vstd::prelude::*;

use crate::cleanup::outputs::RetentionPolicy;
use crate::text::{decimal, decimal_string};
use crate::winpath::{components, path_components, starts_with};

verus! {

/// The whole scan.
#[derive(Debug, Clone, PartialEq, Eq)]
pub struct CleanupReport {
    /// RFC 3339, when the scan ran.
    pub scanned_at: String,
    /// Every group, in display order — present even when empty.
    pub groups: Vec<CleanupGroup>,
    /// What was not offered, and why.
    pub protected: Vec<ProtectedNote>,
}

/// One kind of removable content.
#[derive(Debug, Clone, PartialEq, Eq)]
pub struct CleanupGroup {
    /// One of the group keys.
    pub key: String,
    pub label: String,
    pub entries: Vec<CleanupEntry>,
    pub total_files: u64,
    pub total_bytes: u64,
}

/// One selectable item of a group: a file, a dataset, a run, a folder.
#[derive(Debug, Clone, PartialEq, Eq)]
pub struct CleanupEntry {
    /// Stable within its group; what a later apply names.
    pub id: String,
    pub label: String,
    /// Files that would be deleted.
    pub files: u64,
    pub bytes: u64,
    /// Database rows that would be removed, else 0.
    pub rows: u64,
    /// A few lines for the expanded entry — capped.
    pub detail: Vec<String>,
}

/// Something a user might expect to see offered, and why it is not.
#[derive(Debug, Clone, PartialEq, Eq)]
pub struct ProtectedNote {
    pub what: String,
    pub reason: String,
}

/// The folders the app owns, resolved by the caller.
#[derive(Debug, Clone, PartialEq, Eq)]
pub struct AppFolders {
    /// The data root every other folder defaults under.
    pub root: String,
    pub outputs: String,
    pub datasets: String,
    pub training: String,
    pub runtimes: String,
    pub cache: String,
    pub downloads: String,
    pub comfyui_data: String,
    pub voice_identities: String,
    pub logs: String,
    pub exports: String,
    pub pending_import: String,
}

/// The folders and rules the scan works with.
#[derive(Debug, Clone, PartialEq, Eq)]
pub struct ScanContext {
    pub paths: AppFolders,
    /// The model store, never scanned.
    pub store: String,
    /// The configured output retention; inactive leaves `media_retention`
    /// empty.
    pub policy: RetentionPolicy,
}

/// The group keys, in display order.
pub open spec fn group_keys() -> Seq<Seq<char>> {
    seq![
        "media_retention"@,
        "media_orphans"@,
        "discarded_frames"@,
        "unclaimed_dataset_folders"@,
        "missing_frame_rows"@,
        "finished_runs"@,
        "caches"@,
        "old_logs"@,
        "db_backups"@,
    ]
}

/// How many groups there are.
pub const GROUP_COUNT: usize = 9;

/// The group key at position `i` of the display order.
pub fn group_key(i: usize) -> (r: &'static str)
    requires
        i < GROUP_COUNT,
    ensures
        r@ == group_keys()[i as int],
{
    match i {
        0 => "media_retention",
        1 => "media_orphans",
        2 => "discarded_frames",
        3 => "unclaimed_dataset_folders",
        4 => "missing_frame_rows",
        5 => "finished_runs",
        6 => "caches",
        7 => "old_logs",
        _ => "db_backups",
    }
}

/// A group's label; unknown keys read as the last group's.
pub open spec fn label_of(key: Seq<char>) -> Seq<char> {
    if key == "media_retention"@ {
        "Generated media beyond the retention rule"@
    } else if key == "media_orphans"@ {
        "Generated media without a job"@
    } else if key == "discarded_frames"@ {
        "Discarded dataset frames"@
    } else if key == "unclaimed_dataset_folders"@ {
        "Dataset work folders without a dataset"@
    } else if key == "missing_frame_rows"@ {
        "Frame entries whose files are missing"@
    } else if key == "finished_runs"@ {
        "Finished training runs"@
    } else if key == "caches"@ {
        "Caches and leftovers"@
    } else if key == "old_logs"@ {
        "Logs older than 30 days"@
    } else {
        "Database backups"@
    }
}

/// The label shown for a group.
pub fn group_label(key: &str) -> (r: &'static str)
    ensures
        r@ == label_of(key@),
{
    if crate::text::str_eq(key, "media_retention") {
        "Generated media beyond the retention rule"
    } else if crate::text::str_eq(key, "media_orphans") {
        "Generated media without a job"
    } else if crate::text::str_eq(key, "discarded_frames") {
        "Discarded dataset frames"
    } else if crate::text::str_eq(key, "unclaimed_dataset_folders") {
        "Dataset work folders without a dataset"
    } else if crate::text::str_eq(key, "missing_frame_rows") {
        "Frame entries whose files are missing"
    } else if crate::text::str_eq(key, "finished_runs") {
        "Finished training runs"
    } else if crate::text::str_eq(key, "caches") {
        "Caches and leftovers"
    } else if crate::text::str_eq(key, "old_logs") {
        "Logs older than 30 days"
    } else {
        "Database backups"
    }
}

/// The total files of `es`.
pub open spec fn entry_files(es: Seq<CleanupEntry>) -> int
    decreases es.len(),
{
    if es.len() == 0 {
        0
    } else {
        entry_files(es.drop_last()) + es.last().files
    }
}

/// The total bytes of `es`.
pub open spec fn entry_bytes(es: Seq<CleanupEntry>) -> int
    decreases es.len(),
{
    if es.len() == 0 {
        0
    } else {
        entry_bytes(es.drop_last()) + es.last().bytes
    }
}

proof fn lemma_entry_totals_prefix(es: Seq<CleanupEntry>, i: int)
    requires
        0 <= i <= es.len(),
    ensures
        0 <= entry_files(es.take(i)) <= entry_files(es),
        0 <= entry_bytes(es.take(i)) <= entry_bytes(es),
    decreases es.len(),
{
    if es.len() > 0 {
        if i == es.len() {
            assert(es.take(i) =~= es);
            lemma_entry_totals_prefix(es.drop_last(), i - 1);
            assert(es.drop_last().take(i - 1) =~= es.drop_last());
        } else {
            lemma_entry_totals_prefix(es.drop_last(), i);
            assert(es.drop_last().take(i) =~= es.take(i));
        }
    } else {
        assert(es.take(i) =~= es);
    }
}

/// A group with its totals summed from its entries.
pub fn group(key: &str, entries: Vec<CleanupEntry>) -> (r: CleanupGroup)
    requires
        entry_files(entries@) <= u64::MAX,
        entry_bytes(entries@) <= u64::MAX,
    ensures
        r.key@ == key@,
        r.label@ == label_of(key@),
        r.entries@ == entries@,
        r.total_files == entry_files(entries@),
        r.total_bytes == entry_bytes(entries@),
{
    let mut files: u64 = 0;
    let mut bytes: u64 = 0;
    let mut i: usize = 0;
    assert(entries@.take(0) =~= Seq::<CleanupEntry>::empty());
    while i < entries.len()
        invariant
            i <= entries@.len(),
            entry_files(entries@) <= u64::MAX,
            entry_bytes(entries@) <= u64::MAX,
            files == entry_files(entries@.take(i as int)),
            bytes == entry_bytes(entries@.take(i as int)),
        decreases entries@.len() - i,
    {
        assert(entries@.take(i + 1).drop_last() =~= entries@.take(i as int));
        proof {
            lemma_entry_totals_prefix(entries@, i + 1);
        }
        files = files + entries[i].files;
        bytes = bytes + entries[i].bytes;
        i = i + 1;
    }
    assert(entries@.take(i as int) =~= entries@);
    CleanupGroup {
        key: String::from_str(key),
        label: String::from_str(group_label(key)),
        entries,
        total_files: files,
        total_bytes: bytes,
    }
}

/// A protected note.
pub fn note(what: String, reason: String) -> (r: ProtectedNote)
    ensures
        r.what == what,
        r.reason == reason,
{
    ProtectedNote { what, reason }
}

/// Most lines one entry's `detail` carries; beyond that, "… and N more".
pub const DETAIL_CAP: usize = 20;

/// The line closing a capped list of `more` hidden lines.
pub open spec fn more_line(more: nat) -> Seq<char> {
    "\u{2026} and "@ + decimal(more) + " more"@
}

/// `names` capped at [`DETAIL_CAP`] lines, plus a closing line.
pub open spec fn capped_lines(names: Seq<Seq<char>>) -> Seq<Seq<char>> {
    if names.len() <= DETAIL_CAP {
        names
    } else {
        names.take(DETAIL_CAP as int).push(more_line((names.len() - DETAIL_CAP) as nat))
    }
}

/// `names`, capped at [`DETAIL_CAP`] lines plus "… and N more".
pub fn capped(names: Vec<String>) -> (r: Vec<String>)
    ensures
        crate::text::views(r@) == capped_lines(crate::text::views(names@)),
{
    let n = names.len();
    if n <= DETAIL_CAP {
        return names;
    }
    let mut out: Vec<String> = Vec::new();
    let mut i: usize = 0;
    while i < DETAIL_CAP
        invariant
            n == names@.len(),
            n > DETAIL_CAP,
            i <= DETAIL_CAP,
            crate::text::views(out@) == crate::text::views(names@).take(i as int),
        decreases DETAIL_CAP - i,
    {
        let ghost prev = out@;
        out.push(names[i].clone());
        assert(crate::text::views(out@) =~= crate::text::views(prev).push(names@[i as int]@));
        assert(crate::text::views(names@).take(i + 1) =~= crate::text::views(names@).take(i as int).push(
            names@[i as int]@,
        ));
        i = i + 1;
    }
    let mut line = String::from_str("\u{2026} and ");
    line.append(decimal_string((n - DETAIL_CAP) as u64).as_str());
    line.append(" more");
    let ghost prev = out@;
    out.push(line);
    assert(crate::text::views(out@) =~= crate::text::views(prev).push(line@));
    out
}

/// `inner` is `outer` or lies inside it, component by component.
pub open spec fn same_or_inside(inner: Seq<char>, outer: Seq<char>) -> bool {
    starts_with(components(inner), components(outer))
}

/// Whether `inner` is `outer` or lies inside it.
pub fn is_same_or_inside(inner: &str, outer: &str) -> (r: bool)
    ensures
        r == same_or_inside(inner@, outer@),
{
    let a = path_components(inner);
    let b = path_components(outer);
    let ghost (av, bv) = (crate::text::views(a@), crate::text::views(b@));
    if b.len() > a.len() {
        return false;
    }
    let mut i: usize = 0;
    while i < b.len()
        invariant
            av == crate::text::views(a@),
            bv == crate::text::views(b@),
            av == components(inner@),
            bv == components(outer@),
            b@.len() <= a@.len(),
            i <= b@.len(),
            forall|k: int| 0 <= k < i ==> av[k] == bv[k],
        decreases b@.len() - i,
    {
        if !crate::text::str_eq(a[i].as_str(), b[i].as_str()) {
            proof {
                assert(av.take(bv.len() as int)[i as int] == av[i as int]);
                assert(av.take(bv.len() as int) != bv);
            }
            return false;
        }
        i = i + 1;
    }
    assert(av.take(bv.len() as int) =~= bv);
    true
}

impl ScanContext {
    /// Why `dir` must not be scanned at all: it is, or lies inside, the
    /// model store or the runtime installs.
    pub open spec fn store_or_runtimes_reason(&self, dir: Seq<char>) -> Option<Seq<char>> {
        if self.store@.len() > 0 && same_or_inside(dir, self.store@) {
            Some("lies inside the model store "@ + self.store@)
        } else if same_or_inside(dir, self.paths.runtimes@) {
            Some("lies inside the runtime installs "@ + self.paths.runtimes@)
        } else {
            None
        }
    }

    /// Why `dir` must not be scanned at all, if it must not.
    pub fn inside_store_or_runtimes(&self, dir: &str) -> (r: Option<String>)
        ensures
            match r {
                Some(m) => self.store_or_runtimes_reason(dir@) == Some(m@),
                None => self.store_or_runtimes_reason(dir@) is None,
            },
    {
        if self.store.unicode_len() > 0 && is_same_or_inside(dir, self.store.as_str()) {
            let mut m = String::from_str("lies inside the model store ");
            m.append(self.store.as_str());
            return Some(m);
        }
        if is_same_or_inside(dir, self.paths.runtimes.as_str()) {
            let mut m = String::from_str("lies inside the runtime installs ");
            m.append(self.paths.runtimes.as_str());
            return Some(m);
        }
        None
    }
}

/// The notes on what is never offered: the model store, the runtime
/// installs and the voice identities.
pub open spec fn fixed_notes(ctx: ScanContext, ns: Seq<ProtectedNote>) -> bool {
    &&& ns.len() == 3
    &&& ns[0].what@ == "Model store "@ + ctx.store@
    &&& ns[0].reason@ == "models are never cleaned up here \u{2014} delete a model from the library"@
    &&& ns[1].what@ == "Runtime installs "@ + ctx.paths.runtimes@
    &&& ns[1].reason@ == "installed runtimes are managed from Settings, never cleaned up here"@
    &&& ns[2].what@ == "Voice identities "@ + ctx.paths.voice_identities@
    &&& ns[2].reason@ == "your saved voices' reference clips are user assets"@
}

/// What is never offered, whatever the disk holds.
pub fn fixed_protected(ctx: &ScanContext) -> (r: Vec<ProtectedNote>)
    ensures
        fixed_notes(*ctx, r@),
{
    let mut store = String::from_str("Model store ");
    store.append(ctx.store.as_str());
    let mut runtimes = String::from_str("Runtime installs ");
    runtimes.append(ctx.paths.runtimes.as_str());
    let mut voices = String::from_str("Voice identities ");
    voices.append(ctx.paths.voice_identities.as_str());
    vec![
        note(store, String::from_str("models are never cleaned up here \u{2014} delete a model from the library")),
        note(runtimes, String::from_str("installed runtimes are managed from Settings, never cleaned up here")),
        note(voices, String::from_str("your saved voices' reference clips are user assets")),
    ]
}


/// Every folder the app owns, with its label, in the order they are
/// checked.
pub open spec fn app_root_table(ctx: ScanContext) -> Seq<(Seq<char>, Seq<char>)> {
    seq![
        (ctx.store@, "model store"@),
        (ctx.paths.runtimes@, "runtime installs"@),
        (ctx.paths.root@, "data"@),
        (ctx.paths.outputs@, "outputs"@),
        (ctx.paths.datasets@, "datasets"@),
        (ctx.paths.training@, "training"@),
        (ctx.paths.cache@, "cache"@),
        (ctx.paths.downloads@, "download staging"@),
        (ctx.paths.comfyui_data@, "ComfyUI scratch"@),
        (ctx.paths.voice_identities@, "voice identities"@),
        (ctx.paths.logs@, "logs"@),
        (ctx.paths.exports@, "backups"@),
        (ctx.paths.pending_import@, "pending import"@),
    ]
}

/// The first app folder (not the `except` one) that is `dir` or lies
/// inside it, among the first `n` of the table.
pub open spec fn first_held_root(
    roots: Seq<(Seq<char>, Seq<char>)>,
    dir: Seq<char>,
    except: Option<Seq<char>>,
    n: int,
) -> Option<(Seq<char>, Seq<char>)>
    decreases n,
{
    if n <= 0 {
        None
    } else {
        match first_held_root(roots, dir, except, n - 1) {
            Some(x) => Some(x),
            None => {
                let (root, label) = roots[n - 1];
                let skipped = match except {
                    Some(e) => components(root) == components(e),
                    None => false,
                };
                if !skipped && same_or_inside(root, dir) {
                    Some((root, label))
                } else {
                    None
                }
            },
        }
    }
}

impl ScanContext {
    /// Every folder the app owns, with a label — a folder offered as a
    /// whole must not be or hold any of them.
    pub fn app_roots(&self) -> (r: Vec<(String, &'static str)>)
        ensures
            r@.map_values(|x: (String, &'static str)| (x.0@, x.1@)) == app_root_table(*self),
    {
        let p = &self.paths;
        let r = vec![
            (self.store.clone(), "model store"),
            (p.runtimes.clone(), "runtime installs"),
            (p.root.clone(), "data"),
            (p.outputs.clone(), "outputs"),
            (p.datasets.clone(), "datasets"),
            (p.training.clone(), "training"),
            (p.cache.clone(), "cache"),
            (p.downloads.clone(), "download staging"),
            (p.comfyui_data.clone(), "ComfyUI scratch"),
            (p.voice_identities.clone(), "voice identities"),
            (p.logs.clone(), "logs"),
            (p.exports.clone(), "backups"),
            (p.pending_import.clone(), "pending import"),
        ];
        assert(r@.map_values(|x: (String, &'static str)| (x.0@, x.1@)) =~= app_root_table(*self));
        r
    }

    /// Why `dir` must not be offered as a whole, if so: it lies in the
    /// store or the runtimes, or it is or holds one of the app's folders
    /// (the `except` one, when `dir` is that folder, not counted).
    pub open spec fn whole_folder_reason(&self, dir: Seq<char>, except: Option<Seq<char>>) -> Option<Seq<char>> {
        match self.store_or_runtimes_reason(dir) {
            Some(why) => Some(why),
            None => match first_held_root(app_root_table(*self), dir, except, 13) {
                Some((root, label)) => Some("is or holds the "@ + label + " folder "@ + root),
                None => None,
            },
        }
    }

    /// Why `dir` must not be offered as a whole, if it must not.
    pub fn whole_folder_refusal(&self, dir: &str, except: Option<&str>) -> (r: Option<String>)
        ensures
            match r {
                Some(m) => self.whole_folder_reason(
                    dir@,
                    match except {
                        Some(e) => Some(e@),
                        None => None,
                    },
                ) == Some(m@),
                None => self.whole_folder_reason(
                    dir@,
                    match except {
                        Some(e) => Some(e@),
                        None => None,
                    },
                ) is None,
            },
    {
        if let Some(why) = self.inside_store_or_runtimes(dir) {
            return Some(why);
        }
        let ghost ex = match except {
            Some(e) => Some(e@),
            None => None::<Seq<char>>,
        };
        let roots = self.app_roots();
        let ghost table = app_root_table(*self);
        assert(table.len() == 13);
        assert(roots@.len() == table.len());
        let mut i: usize = 0;
        while i < roots.len()
            invariant
                roots@.len() == 13,
                table.len() == 13,
                roots@.map_values(|x: (String, &'static str)| (x.0@, x.1@)) == table,
                table == app_root_table(*self),
                ex == match except {
                    Some(e) => Some(e@),
                    None => None::<Seq<char>>,
                },
                self.store_or_runtimes_reason(dir@) is None,
                i <= roots@.len(),
                first_held_root(table, dir@, ex, i as int) is None,
            decreases roots@.len() - i,
        {
            let (root, label) = (&roots[i].0, roots[i].1);
            assert(table[i as int] == (root@, label@));
            let skipped = match except {
                Some(e) => same_components(root.as_str(), e),
                None => false,
            };
            if !skipped && is_same_or_inside(root.as_str(), dir) {
                let mut m = String::from_str("is or holds the ");
                m.append(label);
                m.append(" folder ");
                m.append(root.as_str());
                proof {
                    lemma_first_held_settles(table, dir@, ex, i + 1);
                }
                return Some(m);
            }
            i = i + 1;
        }
        None
    }
}

proof fn lemma_first_held_settles(roots: Seq<(Seq<char>, Seq<char>)>, dir: Seq<char>, except: Option<Seq<char>>, i: int)
    requires
        0 <= i <= 13,
        roots.len() == 13,
        first_held_root(roots, dir, except, i) is Some,
    ensures
        first_held_root(roots, dir, except, 13) == first_held_root(roots, dir, except, i),
    decreases 13 - i,
{
    if i < 13 {
        lemma_first_held_settles(roots, dir, except, i + 1);
    }
}

/// Whether two paths have the same components.
pub fn same_components(a: &str, b: &str) -> (r: bool)
    ensures
        r == (components(a@) == components(b@)),
{
    let x = path_components(a);
    let y = path_components(b);
    if x.len() != y.len() {
        proof {
            assert(crate::text::views(x@).len() != crate::text::views(y@).len());
        }
        return false;
    }
    let mut i: usize = 0;
    while i < x.len()
        invariant
            x@.len() == y@.len(),
            crate::text::views(x@) == components(a@),
            crate::text::views(y@) == components(b@),
            i <= x@.len(),
            forall|k: int| 0 <= k < i ==> x@[k]@ == y@[k]@,
        decreases x@.len() - i,
    {
        if !crate::text::str_eq(x[i].as_str(), y[i].as_str()) {
            assert(crate::text::views(x@)[i as int] != crate::text::views(y@)[i as int]);
            return false;
        }
        i = i + 1;
    }
    assert(crate::text::views(x@) =~= crate::text::views(y@));
    true
}

} // verus!
