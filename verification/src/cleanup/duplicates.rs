//! Exact-duplicate weights: models whose SHA-256 is the same, grouped,
//! with what deleting all but one copy would free.

use vstd::prelude::*;

use crate::arith::{sat, sat_mul};
use crate::db::models::{strictly_ascending, Model};
use crate::order::{
    desc_text_before, ints, lemma_lex_asymmetric, lemma_lex_irreflexive, lemma_lex_total,
    lemma_lex_transitive, lemma_perm_onto, lemma_sorted_lists_agree, lex_lt, num_before, order_by_num, order_desc_text,
    sorted_perm, str_lt, wide,
};
use crate::text::{copy_strings, str_eq, views};

verus! {

/// One SHA-256 shared by more than one model.
#[derive(Debug, Clone)]
pub struct DuplicateGroup {
    pub sha256: String,
    /// The models holding these weights, newest import first.
    pub member_ids: Vec<String>,
    /// What deleting all but one copy would free.
    pub wasted_bytes: u64,
}

/// The hash a model is grouped by: its SHA-256 when recorded and not empty.
pub open spec fn hash_of(m: Model) -> Option<Seq<char>> {
    match m.sha256 {
        Some(h) => if h@.len() > 0 {
            Some(h@)
        } else {
            None
        },
        None => None,
    }
}

/// The positions among the first `n` models whose hash is `h`, in order.
pub open spec fn members_upto(ms: Seq<Model>, h: Seq<char>, n: int) -> Seq<int>
    decreases n,
{
    if n <= 0 {
        Seq::empty()
    } else if hash_of(ms[n - 1]) == Some(h) {
        members_upto(ms, h, n - 1).push(n - 1)
    } else {
        members_upto(ms, h, n - 1)
    }
}

/// The positions of all models whose hash is `h`.
pub open spec fn members(ms: Seq<Model>, h: Seq<char>) -> Seq<int> {
    members_upto(ms, h, ms.len() as int)
}

/// A stored size, negative counted as 0.
pub open spec fn clamped(size: i64) -> int {
    if size < 0 {
        0
    } else {
        size as int
    }
}

/// The largest size among the models at `idx`.
pub open spec fn largest(ms: Seq<Model>, idx: Seq<int>) -> int
    decreases idx.len(),
{
    if idx.len() == 0 {
        0
    } else {
        let rest = largest(ms, idx.drop_last());
        let last = clamped(ms[idx.last()].size_bytes);
        if last > rest {
            last
        } else {
            rest
        }
    }
}

/// The import times of the models at `idx`.
pub open spec fn import_times(ms: Seq<Model>, idx: Seq<int>) -> Seq<Seq<char>> {
    idx.map_values(|k: int| ms[k].imported_at@)
}

/// Positions of `idx` by import time, newest first, ties in order.
pub open spec fn newest_order(ms: Seq<Model>, idx: Seq<int>) -> spec_fn(int, int) -> bool {
    |a: int, b: int| desc_text_before(import_times(ms, idx), a, b)
}

/// `ids` are the ids of the models at `idx`, newest import first, equal
/// times in their listing order.
pub open spec fn newest_first(ms: Seq<Model>, idx: Seq<int>, ids: Seq<Seq<char>>) -> bool {
    exists|p: Seq<int>|
        #[trigger] sorted_perm(p, idx.len() as int, newest_order(ms, idx)) && ids == p.map_values(
            |t: int| ms[idx[t]].id@,
        )
}

/// `g` is the duplicate group of its hash: at least two members, listed
/// newest first, and the waste of all but one copy of the largest.
pub open spec fn group_of(ms: Seq<Model>, g: DuplicateGroup) -> bool {
    let idx = members(ms, g.sha256@);
    &&& idx.len() >= 2
    &&& g.wasted_bytes == sat(largest(ms, idx) * (idx.len() - 1))
    &&& newest_first(ms, idx, views(g.member_ids@))
}

/// The hashes of `gs`, in order.
pub open spec fn group_hashes(gs: Seq<DuplicateGroup>) -> Seq<Seq<char>> {
    gs.map_values(|g: DuplicateGroup| g.sha256@)
}

/// Groups wasting more come first; equal waste by hash.
pub open spec fn biggest_waste_first(x: DuplicateGroup, y: DuplicateGroup) -> bool {
    x.wasted_bytes > y.wasted_bytes || (x.wasted_bytes == y.wasted_bytes && lex_lt(x.sha256@, y.sha256@))
}

proof fn lemma_members_other(ms: Seq<Model>, h: Seq<char>, i: int)
    requires
        0 <= i < ms.len(),
        hash_of(ms[i]) != Some(h),
    ensures
        members_upto(ms, h, i + 1) == members_upto(ms, h, i),
{
}

proof fn lemma_members_bounds(ms: Seq<Model>, h: Seq<char>, n: int)
    requires
        0 <= n <= ms.len(),
    ensures
        forall|t: int| 0 <= t < members_upto(ms, h, n).len() ==> 0 <= #[trigger] members_upto(ms, h, n)[t] < n,
        forall|t: int| 0 <= t < members_upto(ms, h, n).len() ==> hash_of(ms[#[trigger] members_upto(ms, h, n)[t]]) == Some(h),
    decreases n,
{
    if n > 0 {
        lemma_members_bounds(ms, h, n - 1);
    }
}

fn copy_group(g: &DuplicateGroup) -> (r: DuplicateGroup)
    ensures
        r.sha256@ == g.sha256@,
        r.member_ids@ == g.member_ids@,
        r.wasted_bytes == g.wasted_bytes,
{
    DuplicateGroup {
        sha256: g.sha256.clone(),
        member_ids: copy_strings(&g.member_ids),
        wasted_bytes: g.wasted_bytes,
    }
}

/// The group of `hash`, whose members (at least two) sit at `idx`.
fn build_group(models: &[Model], hash: &String, idx: &Vec<usize>) -> (g: DuplicateGroup)
    requires
        ints(idx@) == members(models@, hash@),
        idx@.len() >= 2,
    ensures
        group_of(models@, g),
        g.sha256@ == hash@,
{
    let ghost ms = models@;
    let ghost mi = ints(idx@);
    proof {
        lemma_members_bounds(ms, hash@, ms.len() as int);
        assert forall|t: int| 0 <= t < idx@.len() implies #[trigger] idx@[t] < ms.len() by {
            assert(mi[t] == idx@[t] as int);
        }
    }
    let n = idx.len();
    let mut times: Vec<String> = Vec::new();
    let mut unit: u64 = 0;
    let mut t: usize = 0;
    while t < n
        invariant
            n == idx@.len(),
            mi == ints(idx@),
            forall|u: int| 0 <= u < n ==> #[trigger] idx@[u] < ms.len(),
            ms == models@,
            t <= n,
            views(times@) == import_times(ms, mi.take(t as int)),
            unit == largest(ms, mi.take(t as int)),
        decreases n - t,
    {
        let m = &models[idx[t]];
        let ghost prev_times = times@;
        times.push(m.imported_at.clone());
        proof {
            assert(views(times@) =~= views(prev_times).push(m.imported_at@));
            assert(mi[t as int] == idx@[t as int] as int);
            assert(*m == ms[mi[t as int]]);
            assert(import_times(ms, mi.take(t + 1)) =~= import_times(ms, mi.take(t as int)).push(
                ms[mi[t as int]].imported_at@,
            ));
        }
        let size: u64 = if m.size_bytes < 0 {
            0
        } else {
            m.size_bytes as u64
        };
        if size > unit {
            unit = size;
        }
        proof {
            assert(mi.take(t + 1).drop_last() =~= mi.take(t as int));
            assert(mi.take(t + 1).last() == idx@[t as int] as int);
            assert(views(times@) =~= import_times(ms, mi.take(t + 1)));
        }
        t = t + 1;
    }
    assert(mi.take(n as int) =~= mi);
    let order = order_desc_text(&times);
    assert(times@.map_values(|s: String| s@) =~= import_times(ms, mi));
    assert(newest_order(ms, mi) == (|a: int, b: int| desc_text_before(times@.map_values(|s: String| s@), a, b)));
    let mut ids: Vec<String> = Vec::new();
    let mut u: usize = 0;
    let ghost p = ints(order@);
    while u < n
        invariant
            n == idx@.len(),
            mi == ints(idx@),
            ms == models@,
            forall|w: int| 0 <= w < n ==> #[trigger] idx@[w] < ms.len(),
            order@.len() == n,
            p == ints(order@),
            sorted_perm(p, n as int, newest_order(ms, mi)),
            u <= n,
            views(ids@) == p.take(u as int).map_values(|w: int| ms[mi[w]].id@),
        decreases n - u,
    {
        let w = order[u];
        proof {
            assert(p[u as int] == w as int);
            assert(0 <= p[u as int] < n);
        }
        let ghost prev_ids = ids@;
        ids.push(models[idx[w]].id.clone());
        proof {
            assert(mi[w as int] == idx@[w as int] as int);
            assert(views(ids@) =~= views(prev_ids).push(ms[mi[w as int]].id@));
            assert(views(ids@) =~= p.take(u + 1).map_values(|w: int| ms[mi[w]].id@));
        }
        u = u + 1;
    }
    assert(p.take(n as int) =~= p);
    let wasted = sat_mul(unit, (n - 1) as u64);
    let g = DuplicateGroup { sha256: hash.clone(), member_ids: ids, wasted_bytes: wasted };
    proof {
        assert(newest_first(ms, mi, views(g.member_ids@)));
    }
    g
}

/// SHA-256 groups with more than one member, newest import first within a
/// group; the groups wasting most come first, equal waste by hash.
pub fn duplicates(models: &[Model]) -> (r: Vec<DuplicateGroup>)
    ensures
        forall|j: int| 0 <= j < r@.len() ==> group_of(models@, #[trigger] r@[j]),
        forall|h: Seq<char>|
            (exists|j: int| 0 <= j < r@.len() && #[trigger] r@[j].sha256@ == h) <==> members(models@, h).len()
                >= 2,
        forall|a: int, b: int| 0 <= a < b < r@.len() ==> biggest_waste_first(#[trigger] r@[a], #[trigger] r@[b]),
{
    let ghost ms = models@;
    let n = models.len();
    // The distinct hashes in `str` order, each with the positions holding it.
    let mut hashes: Vec<String> = Vec::new();
    let mut idx: Vec<Vec<usize>> = Vec::new();
    let mut i: usize = 0;
    while i < n
        invariant
            ms == models@,
            n == ms.len(),
            i <= n,
            hashes@.len() == idx@.len(),
            strictly_ascending(views(hashes@)),
            forall|k: int| 0 <= k < idx@.len() ==> ints(#[trigger] idx@[k]@) == members_upto(ms, hashes@[k]@, i as int),
            forall|h: Seq<char>| views(hashes@).contains(h) <==> members_upto(ms, h, i as int).len() > 0,
        decreases n - i,
    {
        let ghost hv = views(hashes@);
        let mut recorded = false;
        if let Some(h) = &models[i].sha256 {
            if h.unicode_len() > 0 {
                recorded = true;
                assert(hash_of(ms[i as int]) == Some(h@));
                let mut at: usize = 0;
                while at < hashes.len() && str_lt(hashes[at].as_str(), h.as_str())
                    invariant
                        at <= hashes@.len(),
                        hv == views(hashes@),
                        forall|k: int| 0 <= k < at ==> lex_lt(#[trigger] hv[k], h@),
                    decreases hashes@.len() - at,
                {
                    at = at + 1;
                }
                let present = at < hashes.len() && str_eq(hashes[at].as_str(), h.as_str());
                proof {
                    assert forall|k: int| at <= k < hv.len() implies (k == at && #[trigger] hv[k] == h@)
                        || lex_lt(h@, hv[k]) by {
                        lemma_lex_total(hv[at as int], h@);
                        if k > at && hv[at as int] != h@ {
                            lemma_lex_transitive(h@, hv[at as int], hv[k]);
                        }
                    }
                    assert forall|k: int| 0 <= k < hv.len() && k != at implies #[trigger] hv[k] != h@ by {
                        if k < at {
                            lemma_lex_irreflexive(h@);
                        } else {
                            lemma_lex_irreflexive(h@);
                        }
                    }
                }
                if present {
                    let ghost old_idx = idx@;
                    let mut v = idx.remove(at);
                    v.push(i);
                    idx.insert(at, v);
                    proof {
                        assert forall|k: int| 0 <= k < idx@.len() implies ints(#[trigger] idx@[k]@)
                            == members_upto(ms, hashes@[k]@, i + 1) by {
                            if k == at {
                                assert(ints(idx@[k]@) =~= ints(old_idx[k]@).push(i as int));
                                assert(hashes@[k]@ == hv[k]);
                            } else {
                                assert(idx@[k] == old_idx[k]);
                                assert(hashes@[k]@ == hv[k]);
                                lemma_members_other(ms, hashes@[k]@, i as int);
                            }
                        }
                        assert forall|x: Seq<char>| views(hashes@).contains(x) <==> members_upto(ms, x, i + 1).len() > 0 by {
                            if x != h@ {
                                lemma_members_other(ms, x, i as int);
                            } else {
                                assert(views(hashes@)[at as int] == x);
                            }
                        }
                    }
                } else {
                    let ghost old_idx = idx@;
                    hashes.insert(at, h.clone());
                    idx.insert(at, vec![i]);
                    proof {
                        let w = views(hashes@);
                        assert(w =~= hv.insert(at as int, h@));
                        assert forall|a: int, b: int| 0 <= a < b < w.len() implies lex_lt(
                            #[trigger] w[a],
                            #[trigger] w[b],
                        ) by {
                            if b < at {
                                assert(w[a] == hv[a] && w[b] == hv[b]);
                            } else if b == at {
                                assert(w[a] == hv[a]);
                            } else if a < at {
                                assert(w[a] == hv[a] && w[b] == hv[b - 1]);
                                lemma_lex_transitive(hv[a], h@, hv[b - 1]);
                            } else if a == at {
                                assert(w[b] == hv[b - 1]);
                            } else {
                                assert(w[a] == hv[a - 1] && w[b] == hv[b - 1]);
                            }
                        }
                        assert(members_upto(ms, h@, i as int).len() == 0) by {
                            if members_upto(ms, h@, i as int).len() > 0 {
                                assert(hv.contains(h@));
                                let k = choose|k: int| 0 <= k < hv.len() && hv[k] == h@;
                            }
                        }
                        assert forall|k: int| 0 <= k < idx@.len() implies ints(#[trigger] idx@[k]@)
                            == members_upto(ms, hashes@[k]@, i + 1) by {
                            if k == at {
                                assert(ints(idx@[k]@) =~= seq![i as int]);
                                assert(members_upto(ms, h@, i as int) =~= Seq::<int>::empty());
                            } else if k < at {
                                assert(idx@[k] == old_idx[k]);
                                assert(hashes@[k]@ == hv[k]);
                                lemma_members_other(ms, hashes@[k]@, i as int);
                            } else {
                                assert(idx@[k] == old_idx[k - 1]);
                                assert(hashes@[k]@ == hv[k - 1]);
                                lemma_members_other(ms, hashes@[k]@, i as int);
                            }
                        }
                        assert forall|x: Seq<char>| w.contains(x) <==> members_upto(ms, x, i + 1).len() > 0 by {
                            if x != h@ {
                                lemma_members_other(ms, x, i as int);
                                if w.contains(x) {
                                    let k = choose|k: int| 0 <= k < w.len() && w[k] == x;
                                    if k < at {
                                        assert(hv[k] == x);
                                    } else {
                                        assert(hv[k - 1] == x);
                                    }
                                    assert(hv.contains(x));
                                }
                                if hv.contains(x) {
                                    let k = choose|k: int| 0 <= k < hv.len() && hv[k] == x;
                                    if k < at {
                                        assert(w[k] == x);
                                    } else {
                                        assert(w[k + 1] == x);
                                    }
                                }
                            } else {
                                assert(w[at as int] == x);
                            }
                        }
                    }
                }
            }
        }
        if !recorded {
            proof {
                assert(hash_of(ms[i as int]) is None);
                assert forall|x: Seq<char>| members_upto(ms, x, i + 1) == members_upto(ms, x, i as int) by {
                    lemma_members_other(ms, x, i as int);
                }
            }
        }
        i = i + 1;
    }
    // One group per hash held at least twice, in `str` order of the hash.
    let mut groups: Vec<DuplicateGroup> = Vec::new();
    let mut k: usize = 0;
    while k < hashes.len()
        invariant
            ms == models@,
            n == ms.len(),
            hashes@.len() == idx@.len(),
            strictly_ascending(views(hashes@)),
            forall|k: int| 0 <= k < idx@.len() ==> ints(#[trigger] idx@[k]@) == members_upto(ms, hashes@[k]@, n as int),
            forall|h: Seq<char>| views(hashes@).contains(h) <==> members_upto(ms, h, n as int).len() > 0,
            k <= hashes@.len(),
            forall|j: int| 0 <= j < groups@.len() ==> group_of(ms, #[trigger] groups@[j]),
            strictly_ascending(group_hashes(groups@)),
            forall|h: Seq<char>|
                #[trigger] group_hashes(groups@).contains(h) <==> (exists|k2: int|
                    0 <= k2 < k && #[trigger] hashes@[k2]@ == h && members(ms, h).len() >= 2),
        decreases hashes@.len() - k,
    {
        if idx[k].len() >= 2 {
            let g = build_group(models, &hashes[k], &idx[k]);
            let ghost gh = group_hashes(groups@);
            let ghost hv = views(hashes@);
            groups.push(g);
            proof {
                let gh2 = group_hashes(groups@);
                assert(gh2 =~= gh.push(hashes@[k as int]@));
                assert forall|a: int, b: int| 0 <= a < b < gh2.len() implies lex_lt(
                    #[trigger] gh2[a],
                    #[trigger] gh2[b],
                ) by {
                    if b == gh.len() {
                        assert(gh.contains(gh[a]));
                        let k2 = choose|k2: int| 0 <= k2 < k && #[trigger] hashes@[k2]@ == gh[a] && members(ms, gh[a]).len() >= 2;
                        assert(hv[k2] == gh[a]);
                        assert(hv[k as int] == hashes@[k as int]@);
                    } else {
                        assert(gh2[a] == gh[a] && gh2[b] == gh[b]);
                    }
                }
                assert forall|h: Seq<char>| gh2.contains(h) <==> (exists|k2: int|
                    0 <= k2 < k + 1 && #[trigger] hashes@[k2]@ == h && members(ms, h).len() >= 2) by {
                    if gh2.contains(h) {
                        let j = choose|j: int| 0 <= j < gh2.len() && gh2[j] == h;
                        if j < gh.len() {
                            assert(gh[j] == h && gh.contains(h));
                        } else {
                            assert(hashes@[k as int]@ == h);
                        }
                    }
                    if exists|k2: int| 0 <= k2 < k + 1 && #[trigger] hashes@[k2]@ == h && members(ms, h).len() >= 2 {
                        let k2 = choose|k2: int| 0 <= k2 < k + 1 && #[trigger] hashes@[k2]@ == h && members(ms, h).len() >= 2;
                        if k2 < k {
                            assert(gh.contains(h));
                            let j = choose|j: int| 0 <= j < gh.len() && gh[j] == h;
                            assert(gh2[j] == h);
                        } else {
                            assert(gh2[gh.len() as int] == h);
                        }
                    }
                }
            }
        } else {
            proof {
                let gh = group_hashes(groups@);
                assert forall|h: Seq<char>| gh.contains(h) <==> (exists|k2: int|
                    0 <= k2 < k + 1 && #[trigger] hashes@[k2]@ == h && members(ms, h).len() >= 2) by {
                    if exists|k2: int| 0 <= k2 < k + 1 && #[trigger] hashes@[k2]@ == h && members(ms, h).len() >= 2 {
                        let k2 = choose|k2: int| 0 <= k2 < k + 1 && #[trigger] hashes@[k2]@ == h && members(ms, h).len() >= 2;
                        if k2 == k {
                            assert(ints(idx@[k as int]@).len() == idx@[k as int]@.len());
                        }
                    }
                }
            }
        }
        k = k + 1;
    }
    let ghost gh = group_hashes(groups@);
    proof {
        assert forall|h: Seq<char>| gh.contains(h) <==> members(ms, h).len() >= 2 by {
            if members(ms, h).len() >= 2 {
                assert(views(hashes@).contains(h));
                let k2 = choose|k2: int| 0 <= k2 < views(hashes@).len() && views(hashes@)[k2] == h;
                assert(hashes@[k2]@ == h);
            }
        }
    }
    // Biggest waste first; the hash order breaks ties.
    let m = groups.len();
    let mut keys: Vec<i128> = Vec::new();
    let mut j: usize = 0;
    while j < m
        invariant
            m == groups@.len(),
            j <= m,
            keys@.len() == j,
            forall|t: int| 0 <= t < j ==> #[trigger] keys@[t] == groups@[t].wasted_bytes as i128,
        decreases m - j,
    {
        keys.push(groups[j].wasted_bytes as i128);
        j = j + 1;
    }
    let order = order_by_num(&keys, true);
    let ghost p = ints(order@);
    let mut out: Vec<DuplicateGroup> = Vec::new();
    let mut u: usize = 0;
    while u < m
        invariant
            m == groups@.len(),
            keys@.len() == m,
            forall|t: int| 0 <= t < m ==> #[trigger] keys@[t] == groups@[t].wasted_bytes as i128,
            order@.len() == m,
            p == ints(order@),
            sorted_perm(p, m as int, |a: int, b: int| num_before(wide(keys@), true, a, b)),
            u <= m,
            out@.len() == u,
            forall|t: int| 0 <= t < u ==> (#[trigger] out@[t]).sha256@ == groups@[p[t]].sha256@
                && out@[t].member_ids@ == groups@[p[t]].member_ids@ && out@[t].wasted_bytes
                == groups@[p[t]].wasted_bytes,
        decreases m - u,
    {
        let w = order[u];
        proof {
            assert(p[u as int] == w as int);
        }
        out.push(copy_group(&groups[w]));
        u = u + 1;
    }
    proof {
        assert forall|t: int| 0 <= t < m implies group_of(ms, #[trigger] out@[t]) by {
            assert(group_of(ms, groups@[p[t]]));
        }
        assert forall|h: Seq<char>|
            (exists|t: int| 0 <= t < out@.len() && #[trigger] out@[t].sha256@ == h) <==> members(ms, h).len() >= 2 by {
            if exists|t: int| 0 <= t < out@.len() && #[trigger] out@[t].sha256@ == h {
                let t = choose|t: int| 0 <= t < out@.len() && #[trigger] out@[t].sha256@ == h;
                assert(gh[p[t]] == h);
            }
            if members(ms, h).len() >= 2 {
                assert(gh.contains(h));
                let g = choose|g: int| 0 <= g < gh.len() && gh[g] == h;
                lemma_perm_onto(p, m as int, g);
                let t = choose|t: int| 0 <= t < m && p[t] == g;
                assert(out@[t].sha256@ == h);
            }
        }
        assert forall|a: int, b: int| 0 <= a < b < out@.len() implies biggest_waste_first(
            #[trigger] out@[a],
            #[trigger] out@[b],
        ) by {
            assert(num_before(wide(keys@), true, p[a], p[b]));
            assert(wide(keys@)[p[a]] == keys@[p[a]] as int);
            assert(wide(keys@)[p[b]] == keys@[p[b]] as int);
            if out@[a].wasted_bytes == out@[b].wasted_bytes {
                assert(p[a] < p[b]);
                assert(gh[p[a]] == groups@[p[a]].sha256@);
                assert(gh[p[b]] == groups@[p[b]].sha256@);
            }
        }
    }
    out
}

/// What a list of duplicate groups (as [`duplicates`] and the storage
/// report give them) says in plain terms: one group per hash, a non-empty
/// hash; as many member ids as models hold that hash, at least two, each
/// the id of such a model; the waste never growing down the list.
pub proof fn law_duplicate_groups_in_plain_terms(ms: Seq<Model>, r: Seq<DuplicateGroup>)
    requires
        crate::cleanup::storage::duplicates_of(ms, r),
    ensures
        forall|a: int, b: int| 0 <= a < b < r.len() ==> (#[trigger] r[a]).sha256@ != (#[trigger] r[b]).sha256@,
        forall|a: int, b: int| 0 <= a < b < r.len() ==> (#[trigger] r[a]).wasted_bytes >= (#[trigger] r[b]).wasted_bytes,
        forall|j: int|
            0 <= j < r.len() ==> {
                let g = #[trigger] r[j];
                &&& g.sha256@.len() > 0
                &&& g.member_ids@.len() == members(ms, g.sha256@).len()
                &&& g.member_ids@.len() >= 2
                &&& forall|t: int|
                    0 <= t < g.member_ids@.len() ==> exists|k: int|
                        0 <= k < ms.len() && ms[k].id@ == (#[trigger] g.member_ids@[t])@ && hash_of(ms[k]) == Some(
                            g.sha256@,
                        )
            },
{
    assert forall|a: int, b: int| 0 <= a < b < r.len() implies (#[trigger] r[a]).sha256@ != (
    #[trigger] r[b]).sha256@ by {
        assert(group_of(ms, r[a]) && group_of(ms, r[b]));
        assert(biggest_waste_first(r[a], r[b]));
        lemma_lex_irreflexive(r[a].sha256@);
    }
    assert forall|j: int| 0 <= j < r.len() implies {
        let g = #[trigger] r[j];
        &&& g.sha256@.len() > 0
        &&& g.member_ids@.len() == members(ms, g.sha256@).len()
        &&& g.member_ids@.len() >= 2
        &&& forall|t: int|
            0 <= t < g.member_ids@.len() ==> exists|k: int|
                0 <= k < ms.len() && ms[k].id@ == (#[trigger] g.member_ids@[t])@ && hash_of(ms[k]) == Some(g.sha256@)
    } by {
        let g = r[j];
        let h = g.sha256@;
        let idx = members(ms, h);
        assert(group_of(ms, g));
        lemma_members_bounds(ms, h, ms.len() as int);
        let p = choose|p: Seq<int>|
            #[trigger] sorted_perm(p, idx.len() as int, newest_order(ms, idx)) && views(g.member_ids@) == p.map_values(
                |t: int| ms[idx[t]].id@,
            );
        assert(hash_of(ms[idx[0]]) == Some(h));
        assert(views(g.member_ids@).len() == g.member_ids@.len());
        assert forall|t: int| 0 <= t < g.member_ids@.len() implies exists|k: int|
            0 <= k < ms.len() && ms[k].id@ == (#[trigger] g.member_ids@[t])@ && hash_of(ms[k]) == Some(h) by {
            assert(views(g.member_ids@)[t] == g.member_ids@[t]@);
            let k = idx[p[t]];
            assert(0 <= p[t] < idx.len());
            assert(ms[k].id@ == g.member_ids@[t]@);
        }
    }
}

/// The waste of the group of hash `h`.
pub open spec fn waste_of(ms: Seq<Model>, h: Seq<char>) -> int {
    sat(largest(ms, members(ms, h)) * (members(ms, h).len() - 1))
}

/// Hashes whose groups waste more come first; equal waste by hash.
pub open spec fn hash_before(ms: Seq<Model>) -> spec_fn(Seq<char>, Seq<char>) -> bool {
    |x: Seq<char>, y: Seq<char>| waste_of(ms, x) > waste_of(ms, y) || (waste_of(ms, x) == waste_of(ms, y) && lex_lt(x, y))
}

proof fn lemma_newest_ids_agree(ms: Seq<Model>, idx: Seq<int>, a: Seq<Seq<char>>, b: Seq<Seq<char>>)
    requires
        newest_first(ms, idx, a),
        newest_first(ms, idx, b),
    ensures
        a == b,
{
    let n = idx.len() as int;
    let order = newest_order(ms, idx);
    let p = choose|p: Seq<int>| #[trigger] sorted_perm(p, n, order) && a == p.map_values(|t: int| ms[idx[t]].id@);
    let q = choose|q: Seq<int>| #[trigger] sorted_perm(q, n, order) && b == q.map_values(|t: int| ms[idx[t]].id@);
    assert forall|x: int| p.contains(x) <==> q.contains(x) by {
        if 0 <= x < n {
            lemma_perm_onto(p, n, x);
            lemma_perm_onto(q, n, x);
        }
    }
    assert forall|x: int, y: int| #[trigger] order(x, y) && p.contains(x) && p.contains(y) implies !order(y, x) by {
        let keys = import_times(ms, idx);
        if lex_lt(keys[y], keys[x]) {
            lemma_lex_asymmetric(keys[y], keys[x]);
        } else {
            lemma_lex_irreflexive(keys[x]);
        }
    }
    lemma_sorted_lists_agree(p, q, order);
    assert(a =~= b);
}

/// The duplicate groups are determined by the models: any two lists that
/// meet what [`duplicates`] states, such as the storage report's and
/// `duplicates`' own, hold the same groups in the same order.
#[verifier::spinoff_prover]
pub proof fn law_duplicate_groups_are_determined(ms: Seq<Model>, r1: Seq<DuplicateGroup>, r2: Seq<DuplicateGroup>)
    requires
        crate::cleanup::storage::duplicates_of(ms, r1),
        crate::cleanup::storage::duplicates_of(ms, r2),
    ensures
        r1.len() == r2.len(),
        forall|j: int|
            0 <= j < r1.len() ==> {
                &&& (#[trigger] r1[j]).sha256@ == r2[j].sha256@
                &&& views(r1[j].member_ids@) == views(r2[j].member_ids@)
                &&& r1[j].wasted_bytes == r2[j].wasted_bytes
            },
{
    let (h1, h2) = (group_hashes(r1), group_hashes(r2));
    let before = hash_before(ms);
    assert forall|a: int, b: int| 0 <= a < b < h1.len() implies before(#[trigger] h1[a], #[trigger] h1[b]) by {
        assert(biggest_waste_first(r1[a], r1[b]));
        assert(group_of(ms, r1[a]) && group_of(ms, r1[b]));
    }
    assert forall|a: int, b: int| 0 <= a < b < h2.len() implies before(#[trigger] h2[a], #[trigger] h2[b]) by {
        assert(biggest_waste_first(r2[a], r2[b]));
        assert(group_of(ms, r2[a]) && group_of(ms, r2[b]));
    }
    assert forall|x: Seq<char>| h1.contains(x) <==> h2.contains(x) by {
        if h1.contains(x) {
            let j = choose|j: int| 0 <= j < h1.len() && h1[j] == x;
            assert(r1[j].sha256@ == x);
            assert(members(ms, x).len() >= 2);
            let k = choose|k: int| 0 <= k < r2.len() && #[trigger] r2[k].sha256@ == x;
            assert(h2[k] == x);
        }
        if h2.contains(x) {
            let j = choose|j: int| 0 <= j < h2.len() && h2[j] == x;
            assert(r2[j].sha256@ == x);
            assert(members(ms, x).len() >= 2);
            let k = choose|k: int| 0 <= k < r1.len() && #[trigger] r1[k].sha256@ == x;
            assert(h1[k] == x);
        }
    }
    assert forall|x: Seq<char>, y: Seq<char>| #[trigger] before(x, y) && h1.contains(x) && h1.contains(y) implies !before(
        y,
        x,
    ) by {
        if waste_of(ms, x) == waste_of(ms, y) {
            lemma_lex_asymmetric(x, y);
        }
    }
    lemma_sorted_lists_agree(h1, h2, before);
    assert(h1.len() == r1.len() && h2.len() == r2.len());
    assert(r1.len() == r2.len());
    assert forall|j: int| 0 <= j < r1.len() implies {
        &&& (#[trigger] r1[j]).sha256@ == r2[j].sha256@
        &&& views(r1[j].member_ids@) == views(r2[j].member_ids@)
        &&& r1[j].wasted_bytes == r2[j].wasted_bytes
    } by {
        assert(h1[j] == h2[j]);
        assert(group_of(ms, r1[j]) && group_of(ms, r2[j]));
        lemma_newest_ids_agree(ms, members(ms, r1[j].sha256@), views(r1[j].member_ids@), views(r2[j].member_ids@));
    }
}

} // verus!
