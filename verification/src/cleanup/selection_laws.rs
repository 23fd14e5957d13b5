//! What holds of every merged selection: each group at most once, in the
//! scan's order, each id once.

use vstd::prelude::*;

use crate::cleanup::apply::{ids_of, merged, merged_upto, selected, Selection};
use crate::cleanup::scan::{group_keys, GROUP_COUNT};
use crate::text::dedup_first;

verus! {

proof fn lemma_dedup_first(s: Seq<Seq<char>>)
    ensures
        forall|a: int, b: int| 0 <= a < b < dedup_first(s).len() ==> dedup_first(s)[a] != dedup_first(s)[b],
        forall|x: Seq<char>| dedup_first(s).contains(x) <==> s.contains(x),
    decreases s.len(),
{
    if s.len() > 0 {
        lemma_dedup_first(s.drop_last());
        let d = dedup_first(s.drop_last());
        let t = s.drop_last();
        assert forall|x: Seq<char>| dedup_first(s).contains(x) <==> s.contains(x) by {
            if s.contains(x) {
                let i = choose|i: int| 0 <= i < s.len() && s[i] == x;
                if i < s.len() - 1 {
                    assert(t[i] == x);
                    assert(t.contains(x));
                    assert(d.contains(x));
                    if !d.contains(s.last()) {
                        let j = choose|j: int| 0 <= j < d.len() && d[j] == x;
                        assert(d.push(s.last())[j] == x);
                    }
                } else {
                    assert(x == s.last());
                    if !d.contains(s.last()) {
                        assert(d.push(s.last())[d.len() as int] == x);
                    }
                }
            }
            if dedup_first(s).contains(x) {
                if d.contains(x) {
                    assert(t.contains(x));
                    let i = choose|i: int| 0 <= i < t.len() && t[i] == x;
                    assert(s[i] == x);
                } else {
                    let i = choose|i: int| 0 <= i < dedup_first(s).len() && dedup_first(s)[i] == x;
                    if i < d.len() {
                        assert(d[i] == x);
                    }
                    assert(x == s.last());
                    assert(s[s.len() - 1] == x);
                }
            }
        }
        if !d.contains(s.last()) {
            assert forall|a: int, b: int| 0 <= a < b < d.len() + 1 implies d.push(s.last())[a] != d.push(
                s.last(),
            )[b] by {
                if b == d.len() {
                    assert(d.push(s.last())[a] == d[a]);
                }
            }
        }
    }
}

/// The positions in the scan's group list of the first `g` groups'
/// selected ones, in order.
proof fn lemma_merged_upto(sels: Seq<Selection>, g: int)
    requires
        0 <= g <= GROUP_COUNT,
    ensures
        exists|ks: Seq<int>| #[trigger] merged_positions(sels, g, ks),
    decreases g,
{
    if g > 0 {
        lemma_merged_upto(sels, g - 1);
        let ks = choose|ks: Seq<int>| #[trigger] merged_positions(sels, g - 1, ks);
        let key = group_keys()[g - 1];
        if selected(sels, key) {
            let ks2 = ks.push(g - 1);
            assert(merged_upto(sels, g) == merged_upto(sels, g - 1).push((key, dedup_first(ids_of(sels, key)))));
            assert forall|p: int| 0 <= p < ks2.len() implies 0 <= #[trigger] ks2[p] < g && merged_upto(sels, g)[p].0
                == group_keys()[ks2[p]] by {
                if p < ks.len() {
                    assert(ks2[p] == ks[p]);
                    assert(merged_upto(sels, g)[p] == merged_upto(sels, g - 1)[p]);
                }
            }
            assert(merged_positions(sels, g, ks2));
        } else {
            assert(merged_positions(sels, g, ks));
        }
    } else {
        assert(merged_positions(sels, 0, Seq::<int>::empty()));
    }
}

/// `ks` are the positions, strictly increasing, of the groups the first
/// `g` of the merge names.
pub open spec fn merged_positions(sels: Seq<Selection>, g: int, ks: Seq<int>) -> bool {
    let m = merged_upto(sels, g);
    &&& ks.len() == m.len()
    &&& forall|p: int| 0 <= p < ks.len() ==> 0 <= #[trigger] ks[p] < g && m[p].0 == group_keys()[ks[p]]
    &&& forall|p: int, q: int| 0 <= p < q < ks.len() ==> #[trigger] ks[p] < #[trigger] ks[q]
}

proof fn lemma_merged_entries(sels: Seq<Selection>, g: int)
    requires
        0 <= g <= GROUP_COUNT,
    ensures
        forall|p: int| 0 <= p < merged_upto(sels, g).len() ==> {
            let (key, ids) = #[trigger] merged_upto(sels, g)[p];
            &&& selected(sels, key)
            &&& ids == dedup_first(ids_of(sels, key))
        },
    decreases g,
{
    if g > 0 {
        lemma_merged_entries(sels, g - 1);
        let m = merged_upto(sels, g - 1);
        let key = group_keys()[g - 1];
        assert forall|p: int| 0 <= p < merged_upto(sels, g).len() implies {
            let (key2, ids) = #[trigger] merged_upto(sels, g)[p];
            &&& selected(sels, key2)
            &&& ids == dedup_first(ids_of(sels, key2))
        } by {
            if p < m.len() {
                assert(merged_upto(sels, g)[p] == m[p]);
            }
        }
    }
}

/// A merged selection names each group at most once, in the scan's group
/// order, only groups the request selected; each group's ids once each,
/// and every id the request named for it.
pub proof fn law_merge_names_each_group_and_id_once(sels: Seq<Selection>)
    ensures
        exists|ks: Seq<int>| #[trigger] merged_positions(sels, GROUP_COUNT as int, ks),
        forall|p: int| 0 <= p < merged(sels).len() ==> selected(sels, (#[trigger] merged(sels)[p]).0),
        forall|p: int, a: int, b: int|
            0 <= p < merged(sels).len() && 0 <= a < b < merged(sels)[p].1.len() ==> #[trigger] merged(
                sels,
            )[p].1[a] != #[trigger] merged(sels)[p].1[b],
        forall|p: int, x: Seq<char>|
            0 <= p < merged(sels).len() ==> (#[trigger] merged(sels)[p].1.contains(x) <==> ids_of(
                sels,
                merged(sels)[p].0,
            ).contains(x)),
{
    lemma_merged_upto(sels, GROUP_COUNT as int);
    lemma_merged_entries(sels, GROUP_COUNT as int);
    assert forall|p: int| #![trigger merged(sels)[p]] 0 <= p < merged(sels).len() implies {
        &&& forall|a: int, b: int|
            0 <= a < b < merged(sels)[p].1.len() ==> #[trigger] merged(sels)[p].1[a] != #[trigger] merged(sels)[p].1[b]
        &&& forall|x: Seq<char>|
            #[trigger] merged(sels)[p].1.contains(x) <==> ids_of(sels, merged(sels)[p].0).contains(x)
    } by {
        let key = merged(sels)[p].0;
        lemma_dedup_first(ids_of(sels, key));
    }
}

} // verus!
