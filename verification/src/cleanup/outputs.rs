//! Output retention: which files of the flat outputs folder an age and/or
//! total-size rule marks for deletion. Either rule `0` is off; both `0`
//! means outputs live until deleted by hand. Only files are ever chosen —
//! a pruned job's row stays.

use vstd::multiset::Multiset;
use vstd::prelude::*;

use crate::arith::{sat, sat_mul};
use crate::order::{asc_num_before, ints, is_perm, order_by_num, sorted_perm, wide};

verus! {

/// Nanoseconds in a day.
pub const DAY_NANOS: i128 = 86_400_000_000_000;

/// The earliest instant the calendar arithmetic can represent:
/// `-9999-01-01T00:00:00Z`, in nanoseconds since the Unix epoch.
pub const EARLIEST_NANOS: i128 = -377_705_203_200_000_000_000;

/// The largest day count a duration can hold (`i64` seconds).
pub const MAX_DURATION_DAYS: u64 = 106_751_991_167_300;

/// Bytes in a megabyte, as the size rule counts them.
pub const MB: u64 = 1_048_576;

/// One regular file directly in the outputs folder.
#[derive(Debug, Clone, PartialEq, Eq)]
pub struct OutputFile {
    pub path: String,
    pub bytes: u64,
    /// Last modification, in nanoseconds since the Unix epoch.
    pub modified_nanos: i128,
}

/// The configured retention rules. Either field `0` disables that rule.
#[derive(Debug, Clone, Copy, Default, PartialEq, Eq)]
pub struct RetentionPolicy {
    /// Delete output files last modified more than this many days ago.
    pub max_age_days: u64,
    /// After the age rule, keep the remaining total under this many MB —
    /// oldest files first until it fits.
    pub max_total_mb: u64,
}

impl RetentionPolicy {
    pub open spec fn active(self) -> bool {
        self.max_age_days > 0 || self.max_total_mb > 0
    }

    /// Whether either rule is configured.
    pub fn is_active(&self) -> (r: bool)
        ensures
            r == self.active(),
    {
        self.max_age_days > 0 || self.max_total_mb > 0
    }
}

/// What one sweep did.
#[derive(Debug, Clone, Default, PartialEq, Eq)]
pub struct SweepResult {
    pub deleted_files: u64,
    pub freed_bytes: u64,
    /// One message per file that could not be deleted.
    pub errors: Vec<String>,
}

/// The instant before which the age rule deletes.
pub open spec fn cutoff(policy: RetentionPolicy, now: int) -> int {
    now - policy.max_age_days * DAY_NANOS
}

/// Whether the age rule takes `f`.
pub open spec fn too_old(f: OutputFile, policy: RetentionPolicy, now: int) -> bool {
    policy.max_age_days > 0 && f.modified_nanos < cutoff(policy, now)
}

/// The files of `s` the age rule takes, in order.
pub open spec fn aged_out(s: Seq<OutputFile>, policy: RetentionPolicy, now: int) -> Seq<OutputFile>
    decreases s.len(),
{
    if s.len() == 0 {
        s
    } else if too_old(s.last(), policy, now) {
        aged_out(s.drop_last(), policy, now).push(s.last())
    } else {
        aged_out(s.drop_last(), policy, now)
    }
}

/// The files of `s` the age rule leaves, in order.
pub open spec fn survivors(s: Seq<OutputFile>, policy: RetentionPolicy, now: int) -> Seq<OutputFile>
    decreases s.len(),
{
    if s.len() == 0 {
        s
    } else if too_old(s.last(), policy, now) {
        survivors(s.drop_last(), policy, now)
    } else {
        survivors(s.drop_last(), policy, now).push(s.last())
    }
}

/// The total size of `s`.
pub open spec fn total_bytes(s: Seq<OutputFile>) -> int
    decreases s.len(),
{
    if s.len() == 0 {
        0
    } else {
        total_bytes(s.drop_last()) + s.last().bytes
    }
}

/// The size budget in bytes (`max_total_mb` MB, saturating).
pub open spec fn budget(policy: RetentionPolicy) -> int {
    sat(policy.max_total_mb * MB)
}

/// How many of the oldest files of `s` must go for the rest to drop below
/// `excess` bytes removed: the shortest prefix whose size reaches `excess`.
pub open spec fn trim_count(s: Seq<OutputFile>, excess: int) -> nat
    decreases s.len(),
{
    if s.len() == 0 || excess <= 0 {
        0
    } else {
        1 + trim_count(s.drop_first(), excess - s[0].bytes)
    }
}

/// What the retention rules delete from `s` (sorted oldest first): the
/// files the age rule takes, then as many of the oldest survivors as the
/// size rule needs.
pub open spec fn doomed(s: Seq<OutputFile>, policy: RetentionPolicy, now: int) -> Seq<OutputFile> {
    let young = survivors(s, policy, now);
    let excess = total_bytes(young) - budget(policy);
    let trimmed = if policy.max_total_mb > 0 {
        young.take(trim_count(young, excess) as int)
    } else {
        Seq::empty()
    };
    aged_out(s, policy, now) + trimmed
}

/// The files in the order of a permutation of their positions.
pub open spec fn arranged(files: Seq<OutputFile>, p: Seq<int>) -> Seq<OutputFile> {
    p.map_values(|k: int| files[k])
}

/// Oldest first, ties in listing order.
pub open spec fn oldest_first(files: Seq<OutputFile>) -> spec_fn(int, int) -> bool {
    |a: int, b: int| asc_num_before(files.map_values(|f: OutputFile| f.modified_nanos as int), a, b)
}

/// What `files_to_delete` needs to run without an arithmetic failure: the
/// age cutoff is a representable instant, and the files the age rule
/// leaves sum to a `u64`.
pub open spec fn retention_inputs_ok(files: Seq<OutputFile>, policy: RetentionPolicy, now: int) -> bool {
    &&& policy.max_age_days > 0 ==> policy.max_age_days <= MAX_DURATION_DAYS
    &&& policy.max_age_days > 0 ==> cutoff(policy, now) >= EARLIEST_NANOS
    &&& total_bytes(survivors(files, policy, now)) <= u64::MAX
}

proof fn lemma_split_sizes(s: Seq<OutputFile>, policy: RetentionPolicy, now: int)
    ensures
        total_bytes(aged_out(s, policy, now)) + total_bytes(survivors(s, policy, now))
            == total_bytes(s),
        total_bytes(aged_out(s, policy, now)) >= 0,
        total_bytes(survivors(s, policy, now)) >= 0,
    decreases s.len(),
{
    if s.len() > 0 {
        lemma_split_sizes(s.drop_last(), policy, now);
        let (a, y) = (aged_out(s.drop_last(), policy, now), survivors(s.drop_last(), policy, now));
        assert(a.push(s.last()).drop_last() =~= a);
        assert(y.push(s.last()).drop_last() =~= y);
    }
}

/// The survivors of a reordering are the same files, so their total does
/// not depend on the order.
proof fn lemma_survivor_total_perm(files: Seq<OutputFile>, p: Seq<int>, policy: RetentionPolicy, now: int)
    requires
        sorted_perm(p, files.len() as int, oldest_first(files)),
    ensures
        total_bytes(survivors(arranged(files, p), policy, now)) == total_bytes(survivors(files, policy, now)),
{
    lemma_total_survivors_is_sum(files, policy, now);
    lemma_total_survivors_is_sum(arranged(files, p), policy, now);
    lemma_weighted_sum_perm(files, p, policy, now);
}

/// The survivors' total as a sum over all files of their surviving size.
pub open spec fn kept_size(f: OutputFile, policy: RetentionPolicy, now: int) -> int {
    if too_old(f, policy, now) {
        0
    } else {
        f.bytes as int
    }
}

pub open spec fn kept_sum(s: Seq<OutputFile>, policy: RetentionPolicy, now: int) -> int
    decreases s.len(),
{
    if s.len() == 0 {
        0
    } else {
        kept_sum(s.drop_last(), policy, now) + kept_size(s.last(), policy, now)
    }
}

proof fn lemma_total_survivors_is_sum(s: Seq<OutputFile>, policy: RetentionPolicy, now: int)
    ensures
        total_bytes(survivors(s, policy, now)) == kept_sum(s, policy, now),
    decreases s.len(),
{
    if s.len() > 0 {
        lemma_total_survivors_is_sum(s.drop_last(), policy, now);
        let y = survivors(s.drop_last(), policy, now);
        assert(y.push(s.last()).drop_last() =~= y);
    }
}

/// `kept_sum` over positions `k < i` of `files` that a predicate on the
/// position selects.
pub open spec fn kept_sum_where(
    files: Seq<OutputFile>,
    i: int,
    sel: spec_fn(int) -> bool,
    policy: RetentionPolicy,
    now: int,
) -> int
    decreases i,
{
    if i <= 0 {
        0
    } else {
        kept_sum_where(files, i - 1, sel, policy, now) + if sel(i - 1) {
            kept_size(files[i - 1], policy, now)
        } else {
            0
        }
    }
}

proof fn lemma_kept_sum_where_all(files: Seq<OutputFile>, i: int, policy: RetentionPolicy, now: int)
    requires
        0 <= i <= files.len(),
    ensures
        kept_sum_where(files, i, |k: int| true, policy, now) == kept_sum(files.take(i), policy, now),
    decreases i,
{
    if i > 0 {
        lemma_kept_sum_where_all(files, i - 1, policy, now);
        assert(files.take(i).drop_last() =~= files.take(i - 1));
    }
}

proof fn lemma_kept_sum_where_ext(
    files: Seq<OutputFile>,
    i: int,
    s1: spec_fn(int) -> bool,
    s2: spec_fn(int) -> bool,
    policy: RetentionPolicy,
    now: int,
)
    requires
        forall|k: int| 0 <= k < i ==> #[trigger] s1(k) == s2(k),
    ensures
        kept_sum_where(files, i, s1, policy, now) == kept_sum_where(files, i, s2, policy, now),
    decreases i,
{
    if i > 0 {
        lemma_kept_sum_where_ext(files, i - 1, s1, s2, policy, now);
    }
}

/// Taking position `x` out of a selection lowers the sum by its share.
proof fn lemma_kept_sum_where_remove(
    files: Seq<OutputFile>,
    i: int,
    sel: spec_fn(int) -> bool,
    x: int,
    policy: RetentionPolicy,
    now: int,
)
    requires
        0 <= x < i,
        sel(x),
    ensures
        kept_sum_where(files, i, sel, policy, now) == kept_sum_where(
            files,
            i,
            |k: int| sel(k) && k != x,
            policy,
            now,
        ) + kept_size(files[x], policy, now),
    decreases i,
{
    if i - 1 > x {
        lemma_kept_sum_where_remove(files, i - 1, sel, x, policy, now);
    } else {
        lemma_kept_sum_where_ext(files, i - 1, sel, |k: int| sel(k) && k != x, policy, now);
    }
}

proof fn lemma_kept_sum_where_none(files: Seq<OutputFile>, i: int, sel: spec_fn(int) -> bool, policy: RetentionPolicy, now: int)
    requires
        forall|k: int| 0 <= k < i ==> !#[trigger] sel(k),
    ensures
        kept_sum_where(files, i, sel, policy, now) == 0,
    decreases i,
{
    if i > 0 {
        lemma_kept_sum_where_none(files, i - 1, sel, policy, now);
    }
}

/// Summing in the order of `p.take(j)` is summing over the positions it
/// holds.
proof fn lemma_weighted_prefix(files: Seq<OutputFile>, p: Seq<int>, j: int, policy: RetentionPolicy, now: int)
    requires
        is_perm(p, files.len() as int),
        0 <= j <= p.len(),
    ensures
        kept_sum(arranged(files, p).take(j), policy, now) == kept_sum_where(
            files,
            files.len() as int,
            |k: int| exists|t: int| 0 <= t < j && p[t] == k,
            policy,
            now,
        ),
    decreases j,
{
    let n = files.len() as int;
    let sel_j = |k: int| exists|t: int| 0 <= t < j && p[t] == k;
    if j == 0 {
        lemma_kept_sum_where_none(files, n, sel_j, policy, now);
        assert(arranged(files, p).take(0) =~= Seq::<OutputFile>::empty());
    } else {
        lemma_weighted_prefix(files, p, j - 1, policy, now);
        let sel_prev = |k: int| exists|t: int| 0 <= t < j - 1 && p[t] == k;
        let x = p[j - 1];
        assert(sel_j(x));
        lemma_kept_sum_where_remove(files, n, sel_j, x, policy, now);
        assert forall|k: int| 0 <= k < n implies (sel_j(k) && k != x) == #[trigger] sel_prev(k) by {
            if sel_prev(k) {
                let t = choose|t: int| 0 <= t < j - 1 && p[t] == k;
                assert(p[t] != p[j - 1]);
                assert(sel_j(k));
            }
            if sel_j(k) && k != x {
                let t = choose|t: int| 0 <= t < j && p[t] == k;
                assert(t != j - 1);
                assert(sel_prev(k));
            }
        }
        lemma_kept_sum_where_ext(files, n, |k: int| sel_j(k) && k != x, sel_prev, policy, now);
        let a = arranged(files, p);
        assert(a.take(j).drop_last() =~= a.take(j - 1));
        assert(a.take(j).last() == files[x]);
    }
}

proof fn lemma_weighted_sum_perm(files: Seq<OutputFile>, p: Seq<int>, policy: RetentionPolicy, now: int)
    requires
        is_perm(p, files.len() as int),
    ensures
        kept_sum(arranged(files, p), policy, now) == kept_sum(files, policy, now),
{
    let n = files.len() as int;
    lemma_weighted_prefix(files, p, n, policy, now);
    let sel = |k: int| exists|t: int| 0 <= t < n && p[t] == k;
    assert(arranged(files, p).take(n) =~= arranged(files, p));
    assert forall|k: int| 0 <= k < n implies #[trigger] sel(k) == true by {
        crate::order::lemma_perm_onto(p, n, k);
    }
    lemma_kept_sum_where_ext(files, n, sel, |k: int| true, policy, now);
    lemma_kept_sum_where_all(files, n, policy, now);
    assert(files.take(n) =~= files);
}

/// Why the retention rules cannot be applied to a listing at an instant.
#[derive(Debug, Clone, Copy, PartialEq, Eq)]
pub enum RetentionFault {
    /// The age rule's day count is more than a duration holds.
    DaysOverflow,
    /// The age cutoff falls before the calendar's first instant.
    CutoffOutOfRange,
    /// The files the age rule leaves sum past `u64`.
    SizeOverflow,
}

/// The first thing that keeps the retention rules from being applied to
/// `files` at `now`, in the order the sweep meets them.
pub open spec fn retention_fault_of(files: Seq<OutputFile>, policy: RetentionPolicy, now: int) -> Option<RetentionFault> {
    if policy.max_age_days > 0 && policy.max_age_days > MAX_DURATION_DAYS {
        Some(RetentionFault::DaysOverflow)
    } else if policy.max_age_days > 0 && cutoff(policy, now) < EARLIEST_NANOS {
        Some(RetentionFault::CutoffOutOfRange)
    } else if total_bytes(survivors(files, policy, now)) > u64::MAX {
        Some(RetentionFault::SizeOverflow)
    } else {
        None
    }
}

proof fn lemma_kept_sum_prefix(s: Seq<OutputFile>, i: int, policy: RetentionPolicy, now: int)
    requires
        0 <= i <= s.len(),
    ensures
        kept_sum(s.take(i), policy, now) <= kept_sum(s, policy, now),
    decreases s.len(),
{
    if i < s.len() {
        lemma_kept_sum_prefix(s.drop_last(), i, policy, now);
        assert(s.drop_last().take(i) =~= s.take(i));
    } else {
        assert(s.take(i) =~= s);
    }
}

/// Whether [`files_to_delete`] can run on `files` at `now_nanos`: `None`
/// exactly when it can, else the first fault the sweep would meet.
pub fn retention_fault(files: &[OutputFile], policy: RetentionPolicy, now_nanos: i128) -> (r: Option<RetentionFault>)
    ensures
        r == retention_fault_of(files@, policy, now_nanos as int),
        r is None <==> retention_inputs_ok(files@, policy, now_nanos as int),
{
    let mut cut: i128 = 0;
    if policy.max_age_days > 0 {
        if policy.max_age_days > MAX_DURATION_DAYS {
            return Some(RetentionFault::DaysOverflow);
        }
        let span: i128 = policy.max_age_days as i128 * DAY_NANOS;
        if now_nanos < EARLIEST_NANOS + span {
            return Some(RetentionFault::CutoffOutOfRange);
        }
        cut = now_nanos - span;
    }
    let mut total: u64 = 0;
    let mut i: usize = 0;
    while i < files.len()
        invariant
            i <= files@.len(),
            policy.max_age_days > 0 ==> cut == cutoff(policy, now_nanos as int),
            policy.max_age_days > 0 ==> policy.max_age_days <= MAX_DURATION_DAYS,
            policy.max_age_days > 0 ==> cutoff(policy, now_nanos as int) >= EARLIEST_NANOS,
            total == kept_sum(files@.take(i as int), policy, now_nanos as int),
        decreases files@.len() - i,
    {
        assert(files@.take(i + 1).drop_last() =~= files@.take(i as int));
        assert(files@.take(i + 1).last() == files@[i as int]);
        let f = &files[i];
        let old = policy.max_age_days > 0 && f.modified_nanos < cut;
        if !old {
            if total > u64::MAX - f.bytes {
                proof {
                    lemma_kept_sum_prefix(files@, i + 1, policy, now_nanos as int);
                    lemma_total_survivors_is_sum(files@, policy, now_nanos as int);
                }
                return Some(RetentionFault::SizeOverflow);
            }
            total = total + f.bytes;
        }
        i = i + 1;
    }
    proof {
        assert(files@.take(i as int) =~= files@);
        lemma_total_survivors_is_sum(files@, policy, now_nanos as int);
    }
    None
}

/// Which of `files` the retention rules delete, given `now`: sorted oldest
/// first, the age rule takes every file modified before `now - max_age_days`
/// and then, while the rest is over `max_total_mb`, the oldest of the rest
/// go until it fits.
pub fn files_to_delete(files: Vec<OutputFile>, policy: RetentionPolicy, now_nanos: i128) -> (r: Vec<OutputFile>)
    requires
        retention_inputs_ok(files@, policy, now_nanos as int),
    ensures
        exists|p: Seq<int>|
            sorted_perm(p, files@.len() as int, oldest_first(files@)) && r@ == doomed(
                arranged(files@, p),
                policy,
                now_nanos as int,
            ),
{
    let n = files.len();
    let mut keys: Vec<i128> = Vec::new();
    let mut i: usize = 0;
    while i < n
        invariant
            n == files@.len(),
            i <= n,
            keys@.len() == i,
            forall|k: int| 0 <= k < i ==> #[trigger] keys@[k] == files@[k].modified_nanos,
        decreases n - i,
    {
        keys.push(files[i].modified_nanos);
        i = i + 1;
    }
    let order = order_by_num(&keys, false);
    let ghost p = ints(order@);
    proof {
        assert(wide(keys@) =~= files@.map_values(|f: OutputFile| f.modified_nanos as int));
        assert(oldest_first(files@) == (|a: int, b: int| crate::order::num_before(wide(keys@), false, a, b)));
    }
    let ghost s = arranged(files@, p);
    // Oldest first, then split by the age rule.
    let age_on = policy.max_age_days > 0;
    let cut: i128 = if age_on {
        now_nanos - (policy.max_age_days as i128) * DAY_NANOS
    } else {
        0
    };
    let mut old: Vec<OutputFile> = Vec::new();
    let mut young: Vec<OutputFile> = Vec::new();
    let mut j: usize = 0;
    while j < n
        invariant
            n == files@.len(),
            order@.len() == n,
            p == ints(order@),
            s == arranged(files@, p),
            sorted_perm(p, n as int, oldest_first(files@)),
            j <= n,
            age_on == (policy.max_age_days > 0),
            age_on ==> cut == cutoff(policy, now_nanos as int),
            old@ == aged_out(s.take(j as int), policy, now_nanos as int),
            young@ == survivors(s.take(j as int), policy, now_nanos as int),
        decreases n - j,
    {
        let k = order[j];
        proof {
            assert(p[j as int] == k as int);
        }
        let f = copy_file(&files[k]);
        assert(s[j as int] == f);
        assert(s.take(j + 1).drop_last() =~= s.take(j as int));
        if age_on && f.modified_nanos < cut {
            old.push(f);
        } else {
            young.push(f);
        }
        j = j + 1;
    }
    assert(s.take(n as int) =~= s);
    proof {
        lemma_survivor_total_perm(files@, p, policy, now_nanos as int);
    }
    if policy.max_total_mb > 0 {
        let budget_bytes = sat_mul(policy.max_total_mb, MB);
        let total = sum_bytes(&young);
        let mut over: u64 = total.saturating_sub(budget_bytes);
        let ghost excess = total - budget_bytes;
        let mut t: usize = 0;
        let m = young.len();
        assert(young@.skip(0) =~= young@);
        assert(young@.take(0) =~= Seq::<OutputFile>::empty());
        while t < m && over > 0
            invariant
                m == young@.len(),
                t <= m,
                over == (if excess - total_bytes(young@.take(t as int)) > 0 {
                    excess - total_bytes(young@.take(t as int))
                } else {
                    0
                }),
                trim_count(young@, excess) == t + trim_count(young@.skip(t as int), excess - total_bytes(young@.take(t as int))),
                old@.len() >= 0,
            decreases m - t,
        {
            assert(young@.take(t + 1).drop_last() =~= young@.take(t as int));
            assert(young@.skip(t as int).drop_first() =~= young@.skip(t + 1));
            over = over.saturating_sub(young[t].bytes);
            t = t + 1;
        }
        proof {
            if t < m {
                assert(trim_count(young@.skip(t as int), excess - total_bytes(young@.take(t as int))) == 0);
            } else {
                assert(young@.skip(t as int).len() == 0);
            }
            assert(young@.take(0) =~= Seq::<OutputFile>::empty());
        }
        let mut u: usize = 0;
        let ghost base = old@;
        while u < t
            invariant
                t <= m,
                m == young@.len(),
                u <= t,
                old@ == base + young@.take(u as int),
            decreases t - u,
        {
            old.push(copy_file(&young[u]));
            assert(young@.take(u + 1) =~= young@.take(u as int).push(young@[u as int]));
            u = u + 1;
        }
    } else {
        assert(old@ =~= old@ + Seq::<OutputFile>::empty());
    }
    proof {
        assert(sorted_perm(p, files@.len() as int, oldest_first(files@)));
    }
    old
}

/// A copy of `f`.
fn copy_file(f: &OutputFile) -> (r: OutputFile)
    ensures
        r == *f,
{
    OutputFile { path: f.path.clone(), bytes: f.bytes, modified_nanos: f.modified_nanos }
}

/// The total size of `files`, which must fit a `u64`.
fn sum_bytes(files: &Vec<OutputFile>) -> (r: u64)
    requires
        total_bytes(files@) <= u64::MAX,
    ensures
        r == total_bytes(files@),
{
    let mut sum: u64 = 0;
    let mut i: usize = 0;
    proof {
        lemma_total_prefix_le(files@, 0);
    }
    assert(files@.take(0) =~= Seq::<OutputFile>::empty());
    while i < files.len()
        invariant
            i <= files@.len(),
            total_bytes(files@) <= u64::MAX,
            sum == total_bytes(files@.take(i as int)),
        decreases files@.len() - i,
    {
        assert(files@.take(i + 1).drop_last() =~= files@.take(i as int));
        proof {
            lemma_total_prefix_le(files@, i + 1);
        }
        sum = sum + files[i].bytes;
        i = i + 1;
    }
    assert(files@.take(i as int) =~= files@);
    sum
}

proof fn lemma_total_prefix_le(s: Seq<OutputFile>, i: int)
    requires
        0 <= i <= s.len(),
    ensures
        0 <= total_bytes(s.take(i)) <= total_bytes(s),
    decreases s.len(),
{
    if s.len() > 0 {
        if i == s.len() {
            assert(s.take(i) =~= s);
            lemma_total_prefix_le(s.drop_last(), i - 1);
            assert(s.drop_last().take(i - 1) =~= s.drop_last());
        } else {
            lemma_total_prefix_le(s.drop_last(), i);
            assert(s.drop_last().take(i) =~= s.take(i));
        }
    } else {
        assert(s.take(i) =~= s);
    }
}


proof fn lemma_total_first(s: Seq<OutputFile>)
    requires
        s.len() > 0,
    ensures
        total_bytes(s) == s[0].bytes + total_bytes(s.drop_first()),
    decreases s.len(),
{
    if s.len() > 1 {
        let (dl, df) = (s.drop_last(), s.drop_first());
        lemma_total_first(dl);
        assert(dl.drop_first() =~= df.drop_last());
        assert(df.last() == s.last());
        assert(dl[0] == s[0]);
        assert(total_bytes(df) == total_bytes(df.drop_last()) + df.last().bytes);
        assert(total_bytes(s) == total_bytes(dl) + s.last().bytes);
    } else {
        assert(s.drop_last().len() == 0);
        assert(s.drop_first().len() == 0);
        assert(total_bytes(s.drop_last()) == 0);
        assert(total_bytes(s.drop_first()) == 0);
        assert(s.last() == s[0]);
    }
}

/// The prefix `trim_count` takes reaches `excess`, unless it takes all.
proof fn lemma_trim_reaches(s: Seq<OutputFile>, excess: int)
    ensures
        trim_count(s, excess) <= s.len(),
        trim_count(s, excess) == s.len() || total_bytes(s.take(trim_count(s, excess) as int)) >= excess,
    decreases s.len(),
{
    if s.len() == 0 || excess <= 0 {
        assert(s.take(0) =~= Seq::<OutputFile>::empty());
    } else {
        let rest = s.drop_first();
        lemma_trim_reaches(rest, excess - s[0].bytes);
        let c = trim_count(s, excess);
        let t = s.take(c as int);
        assert(t.len() > 0);
        assert(t.drop_first() =~= rest.take(c - 1));
        lemma_total_first(t);
    }
}

/// With the size rule on, what the rules leave of the age rule's survivors
/// fits the size budget.
pub proof fn law_retention_fits_budget(s: Seq<OutputFile>, policy: RetentionPolicy, now: int)
    requires
        policy.max_total_mb > 0,
    ensures
        ({
            let young = survivors(s, policy, now);
            let gone = doomed(s, policy, now).skip(aged_out(s, policy, now).len() as int);
            total_bytes(young) - total_bytes(gone) <= budget(policy)
        }),
{
    let young = survivors(s, policy, now);
    let excess = total_bytes(young) - budget(policy);
    let c = trim_count(young, excess);
    lemma_trim_reaches(young, excess);
    let gone = doomed(s, policy, now).skip(aged_out(s, policy, now).len() as int);
    assert(gone =~= young.take(c as int));
    if c == young.len() {
        assert(young.take(c as int) =~= young);
    }
    lemma_total_prefix_le(young, 0);
    assert(budget(policy) >= 0);
}

/// With neither rule on, nothing is deleted.
pub proof fn law_retention_inactive_keeps_all(s: Seq<OutputFile>, policy: RetentionPolicy, now: int)
    requires
        !policy.active(),
    ensures
        doomed(s, policy, now).len() == 0,
{
    lemma_aged_out_empty(s, policy, now);
}

proof fn lemma_aged_out_empty(s: Seq<OutputFile>, policy: RetentionPolicy, now: int)
    requires
        policy.max_age_days == 0,
    ensures
        aged_out(s, policy, now).len() == 0,
        survivors(s, policy, now) == s,
    decreases s.len(),
{
    if s.len() > 0 {
        lemma_aged_out_empty(s.drop_last(), policy, now);
        assert(s.drop_last().push(s.last()) =~= s);
    }
}

/// The age rule takes exactly the files modified before the cutoff:
/// everything it takes is older, everything it leaves is not.
pub proof fn law_age_rule_splits_at_cutoff(s: Seq<OutputFile>, policy: RetentionPolicy, now: int)
    ensures
        forall|i: int|
            0 <= i < aged_out(s, policy, now).len() ==> too_old(
                #[trigger] aged_out(s, policy, now)[i],
                policy,
                now,
            ),
        forall|i: int|
            0 <= i < survivors(s, policy, now).len() ==> !too_old(
                #[trigger] survivors(s, policy, now)[i],
                policy,
                now,
            ),
        aged_out(s, policy, now).len() + survivors(s, policy, now).len() == s.len(),
    decreases s.len(),
{
    if s.len() > 0 {
        law_age_rule_splits_at_cutoff(s.drop_last(), policy, now);
    }
}

/// Every file the rules delete is one of the files they were given.
pub proof fn law_doomed_come_from_input(s: Seq<OutputFile>, policy: RetentionPolicy, now: int)
    ensures
        forall|i: int|
            0 <= i < doomed(s, policy, now).len() ==> s.contains(#[trigger] doomed(s, policy, now)[i]),
{
    lemma_split_from_input(s, policy, now);
    let d = doomed(s, policy, now);
    let a = aged_out(s, policy, now);
    let young = survivors(s, policy, now);
    lemma_trim_reaches(young, total_bytes(young) - budget(policy));
    assert forall|i: int| 0 <= i < d.len() implies s.contains(#[trigger] d[i]) by {
        if i < a.len() {
            assert(d[i] == a[i]);
        } else {
            assert(d[i] == young[i - a.len()]);
        }
    }
}

proof fn lemma_split_from_input(s: Seq<OutputFile>, policy: RetentionPolicy, now: int)
    ensures
        forall|i: int| 0 <= i < aged_out(s, policy, now).len() ==> s.contains(#[trigger] aged_out(s, policy, now)[i]),
        forall|i: int| 0 <= i < survivors(s, policy, now).len() ==> s.contains(#[trigger] survivors(s, policy, now)[i]),
    decreases s.len(),
{
    if s.len() > 0 {
        let p = s.drop_last();
        lemma_split_from_input(p, policy, now);
        let (ap, yp) = (aged_out(p, policy, now), survivors(p, policy, now));
        let (a, y) = (aged_out(s, policy, now), survivors(s, policy, now));
        assert forall|i: int| 0 <= i < a.len() implies s.contains(#[trigger] a[i]) by {
            if i < ap.len() {
                assert(a[i] == ap[i]);
                let k = choose|k: int| 0 <= k < p.len() && p[k] == ap[i];
                assert(s[k] == a[i]);
            } else {
                assert(a[i] == s[s.len() - 1]);
            }
        }
        assert forall|i: int| 0 <= i < y.len() implies s.contains(#[trigger] y[i]) by {
            if i < yp.len() {
                assert(y[i] == yp[i]);
                let k = choose|k: int| 0 <= k < p.len() && p[k] == yp[i];
                assert(s[k] == y[i]);
            } else {
                assert(y[i] == s[s.len() - 1]);
            }
        }
    }
}


/// Reordering files keeps their total size.
pub proof fn lemma_total_perm(files: Seq<OutputFile>, p: Seq<int>)
    requires
        is_perm(p, files.len() as int),
    ensures
        total_bytes(arranged(files, p)) == total_bytes(files),
{
    let none = RetentionPolicy { max_age_days: 0, max_total_mb: 0 };
    lemma_aged_out_empty(files, none, 0);
    lemma_aged_out_empty(arranged(files, p), none, 0);
    lemma_total_survivors_is_sum(files, none, 0);
    lemma_total_survivors_is_sum(arranged(files, p), none, 0);
    lemma_weighted_sum_perm(files, p, none, 0);
}

/// What the rules delete weighs no more than what they were given.
pub proof fn lemma_doomed_total_le(s: Seq<OutputFile>, policy: RetentionPolicy, now: int)
    ensures
        0 <= total_bytes(doomed(s, policy, now)) <= total_bytes(s),
{
    lemma_split_sizes(s, policy, now);
    let young = survivors(s, policy, now);
    let c = trim_count(young, total_bytes(young) - budget(policy));
    lemma_trim_reaches(young, total_bytes(young) - budget(policy));
    lemma_total_prefix_le(young, c as int);
    lemma_total_prefix_le(young, 0);
    assert(young.take(0) =~= Seq::<OutputFile>::empty());
    lemma_total_concat(aged_out(s, policy, now), if policy.max_total_mb > 0 {
        young.take(c as int)
    } else {
        Seq::empty()
    });
}

/// The total of two lists one after the other.
pub proof fn lemma_total_concat(a: Seq<OutputFile>, b: Seq<OutputFile>)
    ensures
        total_bytes(a + b) == total_bytes(a) + total_bytes(b),
    decreases b.len(),
{
    if b.len() == 0 {
        assert(a + b =~= a);
    } else {
        lemma_total_concat(a, b.drop_last());
        assert((a + b).drop_last() =~= a + b.drop_last());
        assert((a + b).last() == b.last());
    }
}

/// Reordering files keeps the files.
proof fn lemma_arranged_multiset(files: Seq<OutputFile>, p: Seq<int>)
    requires
        is_perm(p, files.len() as int),
    ensures
        arranged(files, p).to_multiset() =~= files.to_multiset(),
    decreases files.len(),
{
    broadcast use vstd::seq_lib::group_to_multiset_ensures;
    broadcast use vstd::multiset::group_multiset_axioms;

    let n = files.len() as int;
    let a = arranged(files, p);
    if n == 0 {
        assert(a =~= Seq::<OutputFile>::empty());
        assert(files =~= Seq::<OutputFile>::empty());
    } else {
        crate::order::lemma_perm_onto(p, n, n - 1);
        let t = choose|t: int| 0 <= t < n && p[t] == n - 1;
        let q = p.remove(t);
        assert forall|k: int| 0 <= k < n - 1 implies 0 <= #[trigger] q[k] < n - 1 by {
            if k < t {
                assert(q[k] == p[k]);
            } else {
                assert(q[k] == p[k + 1]);
            }
        }
        assert forall|x: int, y: int| 0 <= x < y < n - 1 implies q[x] != q[y] by {
            let x2 = if x < t { x } else { x + 1 };
            let y2 = if y < t { y } else { y + 1 };
            assert(q[x] == p[x2] && q[y] == p[y2]);
        }
        let rest = files.drop_last();
        lemma_arranged_multiset(rest, q);
        assert(a.remove(t) =~= arranged(rest, q)) by {
            assert forall|k: int| 0 <= k < n - 1 implies a.remove(t)[k] == #[trigger] arranged(rest, q)[k] by {
                if k < t {
                    assert(q[k] == p[k]);
                } else {
                    assert(q[k] == p[k + 1]);
                }
            }
        }
        assert(a[t] == files[n - 1]);
        assert(rest.push(files[n - 1]) =~= files);
        assert(a.to_multiset().count(a[t]) > 0) by {
            assert(a.contains(a[t]));
        }
        assert(a.to_multiset() =~= a.to_multiset().remove(a[t]).insert(a[t]));
    }
}

/// How often each file appears among those the age rule takes and those it
/// leaves.
proof fn lemma_split_counts(s: Seq<OutputFile>, policy: RetentionPolicy, now: int)
    ensures
        forall|f: OutputFile| #[trigger] aged_out(s, policy, now).to_multiset().count(f) == if too_old(f, policy, now) {
            s.to_multiset().count(f)
        } else {
            0
        },
        forall|f: OutputFile| #[trigger] survivors(s, policy, now).to_multiset().count(f) == if too_old(f, policy, now) {
            0
        } else {
            s.to_multiset().count(f)
        },
    decreases s.len(),
{
    broadcast use vstd::seq_lib::group_to_multiset_ensures;
    broadcast use vstd::multiset::group_multiset_axioms;

    if s.len() == 0 {
        assert(aged_out(s, policy, now).to_multiset() =~= Multiset::empty());
        assert(survivors(s, policy, now).to_multiset() =~= Multiset::empty());
        assert(s.to_multiset() =~= Multiset::empty());
    } else {
        let p = s.drop_last();
        let x = s.last();
        lemma_split_counts(p, policy, now);
        assert(p.push(x) =~= s);
        vstd::seq_lib::to_multiset_build(p, x);
        let (a, y) = (aged_out(p, policy, now), survivors(p, policy, now));
        vstd::seq_lib::to_multiset_build(a, x);
        vstd::seq_lib::to_multiset_build(y, x);
        if too_old(x, policy, now) {
            assert(aged_out(s, policy, now) == a.push(x));
            assert(survivors(s, policy, now) == y);
        } else {
            assert(aged_out(s, policy, now) == a);
            assert(survivors(s, policy, now) == y.push(x));
        }
        assert forall|f: OutputFile| #[trigger] aged_out(s, policy, now).to_multiset().count(f) == if too_old(
            f,
            policy,
            now,
        ) {
            s.to_multiset().count(f)
        } else {
            0
        } by {
            assert(a.to_multiset().count(f) == if too_old(f, policy, now) {
                p.to_multiset().count(f)
            } else {
                0
            });
        }
        assert forall|f: OutputFile| #[trigger] survivors(s, policy, now).to_multiset().count(f) == if too_old(
            f,
            policy,
            now,
        ) {
            0
        } else {
            s.to_multiset().count(f)
        } by {
            assert(y.to_multiset().count(f) == if too_old(f, policy, now) {
                0
            } else {
                p.to_multiset().count(f)
            });
        }
    }
}

/// The sweep deletes only files it was given, none more often than given;
/// it deletes every file the age rule names; and with the size rule off it
/// deletes exactly those.
pub proof fn law_sweep_takes_the_old_files(files: Seq<OutputFile>, p: Seq<int>, policy: RetentionPolicy, now: int)
    requires
        sorted_perm(p, files.len() as int, oldest_first(files)),
    ensures
        ({
            let d = doomed(arranged(files, p), policy, now).to_multiset();
            &&& d.subset_of(files.to_multiset())
            &&& forall|f: OutputFile| too_old(f, policy, now) ==> #[trigger] d.count(f) == files.to_multiset().count(f)
            &&& policy.max_total_mb == 0 ==> d == aged_out(files, policy, now).to_multiset()
        }),
{
    broadcast use vstd::seq_lib::group_to_multiset_ensures;
    broadcast use vstd::multiset::group_multiset_axioms;

    let s = arranged(files, p);
    lemma_arranged_multiset(files, p);
    lemma_split_counts(s, policy, now);
    lemma_split_counts(files, policy, now);
    let young = survivors(s, policy, now);
    let c = trim_count(young, total_bytes(young) - budget(policy));
    lemma_trim_reaches(young, total_bytes(young) - budget(policy));
    let trimmed = if policy.max_total_mb > 0 {
        young.take(c as int)
    } else {
        Seq::empty()
    };
    let d = doomed(s, policy, now);
    assert(d == aged_out(s, policy, now) + trimmed);
    vstd::seq_lib::lemma_multiset_commutative(aged_out(s, policy, now), trimmed);
    assert(young =~= young.take(c as int) + young.skip(c as int));
    vstd::seq_lib::lemma_multiset_commutative(young.take(c as int), young.skip(c as int));
    assert(trimmed.to_multiset().subset_of(young.to_multiset())) by {
        if policy.max_total_mb == 0 {
            assert(trimmed.to_multiset() =~= Multiset::empty());
        }
    }
    assert forall|f: OutputFile| #[trigger] d.to_multiset().count(f) <= files.to_multiset().count(f) by {
        assert(trimmed.to_multiset().count(f) <= young.to_multiset().count(f));
    }
    assert forall|f: OutputFile| too_old(f, policy, now) implies #[trigger] d.to_multiset().count(f)
        == files.to_multiset().count(f) by {
        assert(trimmed.to_multiset().count(f) <= young.to_multiset().count(f));
    }
    if policy.max_total_mb == 0 {
        assert(trimmed.to_multiset() =~= Multiset::empty());
        assert(d.to_multiset() =~= aged_out(files, policy, now).to_multiset());
    }
}

/// No shorter prefix than the trimmed one reaches the excess.
proof fn lemma_trim_shortest(s: Seq<OutputFile>, excess: int, j: int)
    requires
        0 <= j < trim_count(s, excess),
    ensures
        total_bytes(s.take(j)) < excess,
    decreases s.len(),
{
    lemma_trim_reaches(s, excess);
    if j == 0 {
        assert(s.take(0) =~= Seq::<OutputFile>::empty());
    } else {
        let rest = s.drop_first();
        lemma_trim_shortest(rest, excess - s[0].bytes, j - 1);
        let t = s.take(j);
        assert(t.drop_first() =~= rest.take(j - 1));
        lemma_total_first(t);
    }
}

/// What the age rule leaves of an oldest-first listing is oldest first.
proof fn lemma_survivors_ordered(s: Seq<OutputFile>, policy: RetentionPolicy, now: int)
    requires
        forall|a: int, b: int| 0 <= a < b < s.len() ==> (#[trigger] s[a]).modified_nanos <= (#[trigger] s[b]).modified_nanos,
    ensures
        forall|a: int, b: int|
            0 <= a < b < survivors(s, policy, now).len() ==> (#[trigger] survivors(s, policy, now)[a]).modified_nanos
                <= (#[trigger] survivors(s, policy, now)[b]).modified_nanos,
    decreases s.len(),
{
    if s.len() > 0 {
        let p = s.drop_last();
        assert forall|a: int, b: int| 0 <= a < b < p.len() implies (#[trigger] p[a]).modified_nanos
            <= (#[trigger] p[b]).modified_nanos by {
            assert(p[a] == s[a] && p[b] == s[b]);
        }
        lemma_survivors_ordered(p, policy, now);
        lemma_split_from_input(p, policy, now);
        let y = survivors(p, policy, now);
        if !too_old(s.last(), policy, now) {
            let z = survivors(s, policy, now);
            assert(z == y.push(s.last()));
            assert forall|a: int, b: int| 0 <= a < b < z.len() implies (#[trigger] z[a]).modified_nanos
                <= (#[trigger] z[b]).modified_nanos by {
                if b == z.len() - 1 {
                    assert(p.contains(y[a]));
                    let k = choose|k: int| 0 <= k < p.len() && p[k] == y[a];
                    assert(s[k] == y[a]);
                    assert(s[s.len() - 1] == s.last());
                } else {
                    assert(z[a] == y[a] && z[b] == y[b]);
                }
            }
        }
    }
}

/// With the size rule on, the files it deletes are the shortest run of the
/// oldest files the age rule leaves whose size reaches the excess over the
/// budget (all of them when none does), so no file it keeps is older than
/// one it deletes.
pub proof fn law_size_rule_trims_the_oldest(files: Seq<OutputFile>, p: Seq<int>, policy: RetentionPolicy, now: int)
    requires
        sorted_perm(p, files.len() as int, oldest_first(files)),
        policy.max_total_mb > 0,
    ensures
        ({
            let s = arranged(files, p);
            let young = survivors(s, policy, now);
            let excess = total_bytes(young) - budget(policy);
            let gone = doomed(s, policy, now).skip(aged_out(s, policy, now).len() as int);
            &&& gone.len() <= young.len()
            &&& gone == young.take(gone.len() as int)
            &&& gone.len() == young.len() || total_bytes(gone) >= excess
            &&& forall|j: int| 0 <= j < gone.len() ==> total_bytes(#[trigger] young.take(j)) < excess
            &&& forall|a: int, b: int|
                0 <= a < gone.len() <= b < young.len() ==> (#[trigger] young[a]).modified_nanos
                    <= (#[trigger] young[b]).modified_nanos
        }),
{
    let s = arranged(files, p);
    let young = survivors(s, policy, now);
    let excess = total_bytes(young) - budget(policy);
    let c = trim_count(young, excess);
    lemma_trim_reaches(young, excess);
    let gone = doomed(s, policy, now).skip(aged_out(s, policy, now).len() as int);
    assert(gone =~= young.take(c as int));
    assert forall|j: int| 0 <= j < gone.len() implies total_bytes(#[trigger] young.take(j)) < excess by {
        lemma_trim_shortest(young, excess, j);
    }
    assert forall|a: int, b: int| 0 <= a < b < s.len() implies (#[trigger] s[a]).modified_nanos
        <= (#[trigger] s[b]).modified_nanos by {
        assert(asc_num_before(files.map_values(|f: OutputFile| f.modified_nanos as int), p[a], p[b]));
    }
    lemma_survivors_ordered(s, policy, now);
}

} // verus!
