//! Orders the library sorts by: the lexicographic order of text (`str`'s
//! `Ord`, which on UTF-8 is the order of the code points), and stable
//! orders of positions by a key, stated as "a permutation of the positions
//! that is strictly increasing in the order".

use vstd::prelude::*;

verus! {

/// `a < b` in `str`'s order: the first differing character decides, and a
/// proper prefix comes first.
pub open spec fn lex_lt(a: Seq<char>, b: Seq<char>) -> bool
    decreases a.len(),
{
    if a.len() == 0 {
        b.len() > 0
    } else if b.len() == 0 {
        false
    } else if a[0] != b[0] {
        a[0] < b[0]
    } else {
        lex_lt(a.drop_first(), b.drop_first())
    }
}

pub proof fn lemma_lex_irreflexive(a: Seq<char>)
    ensures
        !lex_lt(a, a),
    decreases a.len(),
{
    if a.len() > 0 {
        lemma_lex_irreflexive(a.drop_first());
    }
}

pub proof fn lemma_lex_transitive(a: Seq<char>, b: Seq<char>, c: Seq<char>)
    requires
        lex_lt(a, b),
        lex_lt(b, c),
    ensures
        lex_lt(a, c),
    decreases a.len(),
{
    if a.len() > 0 && b.len() > 0 && c.len() > 0 {
        if a[0] == b[0] && b[0] == c[0] {
            lemma_lex_transitive(a.drop_first(), b.drop_first(), c.drop_first());
        }
    }
}

pub proof fn lemma_lex_total(a: Seq<char>, b: Seq<char>)
    ensures
        a == b || lex_lt(a, b) || lex_lt(b, a),
    decreases a.len(),
{
    if a.len() > 0 && b.len() > 0 && a[0] == b[0] {
        lemma_lex_total(a.drop_first(), b.drop_first());
        if a.drop_first() == b.drop_first() {
            assert(a =~= seq![a[0]] + a.drop_first());
            assert(b =~= seq![b[0]] + b.drop_first());
        }
    } else if a.len() == 0 && b.len() == 0 {
        assert(a =~= b);
    }
}

pub proof fn lemma_lex_asymmetric(a: Seq<char>, b: Seq<char>)
    requires
        lex_lt(a, b),
    ensures
        !lex_lt(b, a),
{
    if lex_lt(b, a) {
        lemma_lex_transitive(a, b, a);
        lemma_lex_irreflexive(a);
    }
}

proof fn lemma_lex_skip(a: Seq<char>, b: Seq<char>, i: int)
    requires
        0 <= i <= a.len(),
        i <= b.len(),
        a.take(i) == b.take(i),
    ensures
        lex_lt(a, b) == lex_lt(a.skip(i), b.skip(i)),
    decreases i,
{
    if i > 0 {
        assert(a.take(i)[0] == b.take(i)[0]);
        assert(a[0] == a.take(i)[0] && b[0] == b.take(i)[0]);
        let (a1, b1) = (a.drop_first(), b.drop_first());
        assert(a1.take(i - 1) =~= a.take(i).drop_first());
        assert(b1.take(i - 1) =~= b.take(i).drop_first());
        lemma_lex_skip(a1, b1, i - 1);
        assert(a1.skip(i - 1) =~= a.skip(i));
        assert(b1.skip(i - 1) =~= b.skip(i));
    } else {
        assert(a.skip(0) =~= a);
        assert(b.skip(0) =~= b);
    }
}

/// Whether `a` comes before `b` in `str`'s order.
pub fn str_lt(a: &str, b: &str) -> (r: bool)
    ensures
        r == lex_lt(a@, b@),
{
    let n = a.unicode_len();
    let m = b.unicode_len();
    let mut i: usize = 0;
    assert(a@.take(0) =~= b@.take(0));
    while i < n && i < m
        invariant
            n == a@.len(),
            m == b@.len(),
            i <= n,
            i <= m,
            a@.take(i as int) == b@.take(i as int),
        decreases n - i,
    {
        let (x, y) = (a.get_char(i), b.get_char(i));
        if x != y {
            proof {
                lemma_lex_skip(a@, b@, i as int);
                assert(a@.skip(i as int)[0] == x);
                assert(b@.skip(i as int)[0] == y);
            }
            return x < y;
        }
        assert(a@.take(i + 1) =~= a@.take(i as int).push(x));
        assert(b@.take(i + 1) =~= b@.take(i as int).push(y));
        i = i + 1;
    }
    proof {
        lemma_lex_skip(a@, b@, i as int);
    }
    i == n && i < m
}

/// `p` lists each position `0..n` once, and every earlier entry comes
/// before every later one in `before`.
pub open spec fn sorted_perm(p: Seq<int>, n: int, before: spec_fn(int, int) -> bool) -> bool {
    &&& p.len() == n
    &&& forall|k: int| 0 <= k < n ==> 0 <= #[trigger] p[k] < n
    &&& forall|a: int, b: int| 0 <= a < b < n ==> p[a] != p[b]
    &&& forall|a: int, b: int| 0 <= a < b < n ==> before(#[trigger] p[a], #[trigger] p[b])
}

/// `p` lists each position `0..n` once.
pub open spec fn is_perm(p: Seq<int>, n: int) -> bool {
    &&& p.len() == n
    &&& forall|k: int| 0 <= k < n ==> 0 <= #[trigger] p[k] < n
    &&& forall|a: int, b: int| 0 <= a < b < n ==> p[a] != p[b]
}

/// Positions as integers.
pub open spec fn ints(v: Seq<usize>) -> Seq<int> {
    v.map_values(|x: usize| x as int)
}

/// Putting the new position `n` at `at` keeps a sorted permutation sorted,
/// when everything before `at` comes before `n` and `n` before the rest.
proof fn lemma_insert_sorted(p: Seq<int>, n: int, at: int, before: spec_fn(int, int) -> bool)
    requires
        sorted_perm(p, n, before),
        0 <= at <= n,
        forall|k: int| 0 <= k < at ==> before(#[trigger] p[k], n),
        forall|k: int| at <= k < n ==> before(n, #[trigger] p[k]),
    ensures
        sorted_perm(p.insert(at, n), n + 1, before),
{
    let q = p.insert(at, n);
    assert forall|k: int| 0 <= k < n + 1 implies 0 <= #[trigger] q[k] < n + 1 by {
        if k < at {
            assert(q[k] == p[k]);
        } else if k > at {
            assert(q[k] == p[k - 1]);
        }
    }
    assert forall|a: int, b: int| 0 <= a < b < n + 1 implies q[a] != q[b] && before(
        #[trigger] q[a],
        #[trigger] q[b],
    ) by {
        if b < at {
            assert(q[a] == p[a] && q[b] == p[b]);
        } else if b == at {
            assert(q[a] == p[a]);
        } else if a < at {
            assert(q[a] == p[a] && q[b] == p[b - 1]);
        } else if a == at {
            assert(q[b] == p[b - 1]);
        } else {
            assert(q[a] == p[a - 1] && q[b] == p[b - 1]);
        }
    }
}

/// Stable descending order of positions by a text key: larger keys first,
/// equal keys in their original order.
pub open spec fn desc_text_before(keys: Seq<Seq<char>>, a: int, b: int) -> bool {
    lex_lt(keys[b], keys[a]) || (keys[a] == keys[b] && a < b)
}

/// Stable descending order of positions by a number.
pub open spec fn desc_num_before(keys: Seq<int>, a: int, b: int) -> bool {
    keys[b] < keys[a] || (keys[a] == keys[b] && a < b)
}

/// Stable ascending order of positions by a number.
pub open spec fn asc_num_before(keys: Seq<int>, a: int, b: int) -> bool {
    keys[a] < keys[b] || (keys[a] == keys[b] && a < b)
}

/// The positions of `keys`, newest (largest text) first, ties in their
/// original order.
pub fn order_desc_text(keys: &Vec<String>) -> (r: Vec<usize>)
    ensures
        sorted_perm(
            ints(r@),
            keys@.len() as int,
            |a: int, b: int| desc_text_before(keys@.map_values(|s: String| s@), a, b),
        ),
{
    let ghost ks = keys@.map_values(|s: String| s@);
    let ghost before = |a: int, b: int| desc_text_before(ks, a, b);
    let n = keys.len();
    let mut p: Vec<usize> = Vec::new();
    let mut i: usize = 0;
    while i < n
        invariant
            n == keys@.len(),
            ks == keys@.map_values(|s: String| s@),
            before == (|a: int, b: int| desc_text_before(ks, a, b)),
            i <= n,
            p@.len() == i,
            forall|k: int| 0 <= k < i ==> #[trigger] p@[k] < i,
            sorted_perm(ints(p@), i as int, before),
        decreases n - i,
    {
        let mut at: usize = 0;
        assert(ks.len() == n);
        while at < i && !str_lt(keys[p[at]].as_str(), keys[i].as_str())
            invariant
                n == keys@.len(),
                ks == keys@.map_values(|s: String| s@),
                before == (|a: int, b: int| desc_text_before(ks, a, b)),
                i < n,
                at <= i,
                p@.len() == i,
                forall|k: int| 0 <= k < i ==> #[trigger] p@[k] < i,
                sorted_perm(ints(p@), i as int, before),
                forall|k: int| 0 <= k < at ==> before(#[trigger] ints(p@)[k], i as int),
            decreases i - at,
        {
            let ghost j = p@[at as int] as int;
            proof {
                assert(ks.len() == n);
                lemma_lex_total(ks[j], ks[i as int]);
                assert(ints(p@)[at as int] == j);
                assert(before(j, i as int));
            }
            at = at + 1;
        }
        proof {
            if at < i {
                let j = p@[at as int] as int;
                assert(ints(p@)[at as int] == j);
                assert(lex_lt(ks[j], ks[i as int]));
                assert forall|k: int| at <= k < i implies before(
                    i as int,
                    #[trigger] ints(p@)[k],
                ) by {
                    if k > at {
                        let l = ints(p@)[k];
                        assert(before(j, l));
                        if lex_lt(ks[l], ks[j]) {
                            lemma_lex_transitive(ks[l], ks[j], ks[i as int]);
                        }
                    }
                }
            }
            lemma_insert_sorted(ints(p@), i as int, at as int, before);
        }
        let ghost prev = p@;
        p.insert(at, i);
        assert(ints(p@) =~= ints(prev).insert(at as int, i as int));
        assert forall|k: int| 0 <= k < i + 1 implies #[trigger] p@[k] < i + 1 by {
            assert(ints(p@)[k] == p@[k] as int);
        }
        i = i + 1;
    }
    p
}


/// Stable order of positions by a number, descending or ascending.
pub open spec fn num_before(keys: Seq<int>, descending: bool, a: int, b: int) -> bool {
    if descending {
        desc_num_before(keys, a, b)
    } else {
        asc_num_before(keys, a, b)
    }
}

/// Numbers as integers.
pub open spec fn wide(v: Seq<i128>) -> Seq<int> {
    v.map_values(|x: i128| x as int)
}

/// Whether `a` may stay ahead of a later `b` in the order.
fn not_after(a: i128, b: i128, descending: bool) -> (r: bool)
    ensures
        r == (if descending {
            a >= b
        } else {
            a <= b
        }),
{
    if descending {
        a >= b
    } else {
        a <= b
    }
}

/// The positions of `keys` ordered by value (largest first when
/// `descending`), ties in their original order.
pub fn order_by_num(keys: &Vec<i128>, descending: bool) -> (r: Vec<usize>)
    ensures
        sorted_perm(
            ints(r@),
            keys@.len() as int,
            |a: int, b: int| num_before(wide(keys@), descending, a, b),
        ),
{
    let ghost ks = wide(keys@);
    let ghost before = |a: int, b: int| num_before(ks, descending, a, b);
    let n = keys.len();
    let mut p: Vec<usize> = Vec::new();
    let mut i: usize = 0;
    while i < n
        invariant
            n == keys@.len(),
            ks == wide(keys@),
            before == (|a: int, b: int| num_before(ks, descending, a, b)),
            i <= n,
            p@.len() == i,
            forall|k: int| 0 <= k < i ==> #[trigger] p@[k] < i,
            sorted_perm(ints(p@), i as int, before),
        decreases n - i,
    {
        let mut at: usize = 0;
        assert(ks.len() == n);
        while at < i && not_after(keys[p[at]], keys[i], descending)
            invariant
                n == keys@.len(),
                ks == wide(keys@),
                before == (|a: int, b: int| num_before(ks, descending, a, b)),
                i < n,
                at <= i,
                p@.len() == i,
                forall|k: int| 0 <= k < i ==> #[trigger] p@[k] < i,
                sorted_perm(ints(p@), i as int, before),
                forall|k: int| 0 <= k < at ==> before(#[trigger] ints(p@)[k], i as int),
            decreases i - at,
        {
            proof {
                assert(ks.len() == n);
                assert(ints(p@)[at as int] == p@[at as int] as int);
            }
            at = at + 1;
        }
        proof {
            if at < i {
                let j = p@[at as int] as int;
                assert(ints(p@)[at as int] == j);
                assert forall|k: int| at <= k < i implies before(
                    i as int,
                    #[trigger] ints(p@)[k],
                ) by {
                    if k > at {
                        let l = ints(p@)[k];
                        assert(before(j, l));
                    }
                }
            }
            lemma_insert_sorted(ints(p@), i as int, at as int, before);
        }
        let ghost prev = p@;
        p.insert(at, i);
        assert(ints(p@) =~= ints(prev).insert(at as int, i as int));
        assert forall|k: int| 0 <= k < i + 1 implies #[trigger] p@[k] < i + 1 by {
            assert(ints(p@)[k] == p@[k] as int);
        }
        i = i + 1;
    }
    p
}

/// A list of `n` distinct positions below `n` holds every position.
pub proof fn lemma_perm_onto(p: Seq<int>, n: int, k: int)
    requires
        p.len() == n,
        forall|t: int| 0 <= t < n ==> 0 <= #[trigger] p[t] < n,
        forall|a: int, b: int| 0 <= a < b < n ==> p[a] != p[b],
        0 <= k < n,
    ensures
        exists|t: int| 0 <= t < n && p[t] == k,
{
    if !(exists|t: int| 0 <= t < n && p[t] == k) {
        // `p` would map `0..n` one-to-one into `0..n` minus `k`.
        let s = p.to_set();
        assert(p.no_duplicates()) by {
            assert forall|a: int, b: int| 0 <= a < p.len() && 0 <= b < p.len() && a != b implies p[a]
                != p[b] by {
                if a < b {
                } else {
                    assert(p[b] != p[a]);
                }
            }
        }
        p.unique_seq_to_set();
        let range = Set::new(|x: int| 0 <= x < n && x != k);
        assert(s.subset_of(range)) by {
            assert forall|x: int| s.contains(x) implies range.contains(x) by {
                let t = choose|t: int| 0 <= t < p.len() && p[t] == x;
            }
        }
        lemma_range_len(n, k);
        vstd::set_lib::lemma_len_subset(s, range);
    }
}

proof fn lemma_range_len(n: int, k: int)
    requires
        0 <= k < n,
    ensures
        Set::new(|x: int| 0 <= x < n && x != k).finite(),
        Set::new(|x: int| 0 <= x < n && x != k).len() == n - 1,
{
    let r = Set::new(|x: int| 0 <= x < n && x != k);
    let full = vstd::set_lib::set_int_range(0, n);
    vstd::set_lib::lemma_int_range(0, n);
    assert(r =~= full.remove(k));
}


/// Positions by time, ascending; equal times by text in `str` order; then
/// in their original order.
pub open spec fn time_text_before(times: Seq<int>, texts: Seq<Seq<char>>, a: int, b: int) -> bool {
    ||| times[a] < times[b]
    ||| (times[a] == times[b] && lex_lt(texts[a], texts[b]))
    ||| (times[a] == times[b] && texts[a] == texts[b] && a < b)
}

fn stays_ahead(ta: i128, xa: &str, tb: i128, xb: &str) -> (r: bool)
    ensures
        r == (ta < tb || (ta == tb && !lex_lt(xb@, xa@))),
{
    ta < tb || (ta == tb && !str_lt(xb, xa))
}

/// The positions ordered by time, then text, then original position.
pub fn order_by_time_then_text(times: &Vec<i128>, texts: &Vec<String>) -> (r: Vec<usize>)
    requires
        times@.len() == texts@.len(),
    ensures
        sorted_perm(
            ints(r@),
            times@.len() as int,
            |a: int, b: int| time_text_before(wide(times@), texts@.map_values(|s: String| s@), a, b),
        ),
{
    let ghost (ts, xs) = (wide(times@), texts@.map_values(|s: String| s@));
    let ghost before = |a: int, b: int| time_text_before(ts, xs, a, b);
    let n = times.len();
    let mut p: Vec<usize> = Vec::new();
    let mut i: usize = 0;
    while i < n
        invariant
            n == times@.len(),
            n == texts@.len(),
            ts == wide(times@),
            xs == texts@.map_values(|s: String| s@),
            before == (|a: int, b: int| time_text_before(ts, xs, a, b)),
            i <= n,
            p@.len() == i,
            forall|k: int| 0 <= k < i ==> #[trigger] p@[k] < i,
            sorted_perm(ints(p@), i as int, before),
        decreases n - i,
    {
        let mut at: usize = 0;
        assert(ts.len() == n && xs.len() == n);
        while at < i && stays_ahead(times[p[at]], texts[p[at]].as_str(), times[i], texts[i].as_str())
            invariant
                n == times@.len(),
                n == texts@.len(),
                ts == wide(times@),
                xs == texts@.map_values(|s: String| s@),
                before == (|a: int, b: int| time_text_before(ts, xs, a, b)),
                i < n,
                at <= i,
                p@.len() == i,
                forall|k: int| 0 <= k < i ==> #[trigger] p@[k] < i,
                sorted_perm(ints(p@), i as int, before),
                forall|k: int| 0 <= k < at ==> before(#[trigger] ints(p@)[k], i as int),
            decreases i - at,
        {
            let ghost j = p@[at as int] as int;
            proof {
                assert(ts.len() == n && xs.len() == n);
                assert(ints(p@)[at as int] == j);
                lemma_lex_total(xs[j], xs[i as int]);
                assert(ts[j] == times@[j] as int);
                assert(ts[i as int] == times@[i as int] as int);
            }
            at = at + 1;
        }
        proof {
            if at < i {
                let j = p@[at as int] as int;
                assert(ints(p@)[at as int] == j);
                assert(ts[j] == times@[j] as int);
                assert(ts[i as int] == times@[i as int] as int);
                assert(before(i as int, j)) by {
                    lemma_lex_total(xs[j], xs[i as int]);
                }
                assert forall|k: int| at <= k < i implies before(i as int, #[trigger] ints(p@)[k]) by {
                    if k > at {
                        let l = ints(p@)[k];
                        assert(before(j, l));
                        if ts[i as int] == ts[j] && ts[j] == ts[l] {
                            if lex_lt(xs[i as int], xs[j]) && lex_lt(xs[j], xs[l]) {
                                lemma_lex_transitive(xs[i as int], xs[j], xs[l]);
                            }
                        }
                    }
                }
            }
            lemma_insert_sorted(ints(p@), i as int, at as int, before);
        }
        let ghost prev = p@;
        p.insert(at, i);
        assert(ints(p@) =~= ints(prev).insert(at as int, i as int));
        assert forall|k: int| 0 <= k < i + 1 implies #[trigger] p@[k] < i + 1 by {
            assert(ints(p@)[k] == p@[k] as int);
        }
        i = i + 1;
    }
    p
}

/// Two lists of the same elements, each strictly in one asymmetric order,
/// are the same list.
pub proof fn lemma_sorted_lists_agree<A>(p: Seq<A>, q: Seq<A>, before: spec_fn(A, A) -> bool)
    requires
        forall|a: int, b: int| 0 <= a < b < p.len() ==> before(#[trigger] p[a], #[trigger] p[b]),
        forall|a: int, b: int| 0 <= a < b < q.len() ==> before(#[trigger] q[a], #[trigger] q[b]),
        forall|x: A| p.contains(x) <==> q.contains(x),
        forall|x: A, y: A| #[trigger] before(x, y) && p.contains(x) && p.contains(y) ==> !before(y, x),
    ensures
        p == q,
    decreases p.len(),
{
    if p.len() == 0 {
        if q.len() > 0 {
            assert(q.contains(q[0]));
        }
        assert(p =~= q);
    } else {
        assert(p.contains(p[0]));
        assert(q.len() > 0);
        assert(q.contains(q[0]));
        let i = choose|i: int| 0 <= i < p.len() && p[i] == q[0];
        let j = choose|j: int| 0 <= j < q.len() && q[j] == p[0];
        if i > 0 && j > 0 {
            assert(before(p[0], p[i]));
            assert(before(q[0], q[j]));
        }
        assert(p[0] == q[0]);
        let (p1, q1) = (p.drop_first(), q.drop_first());
        assert forall|x: A| p1.contains(x) implies q1.contains(x) by {
            let k = choose|k: int| 0 <= k < p1.len() && p1[k] == x;
            assert(p[k + 1] == x);
            assert(before(p[0], p[k + 1]));
            assert(q.contains(x));
            let t = choose|t: int| 0 <= t < q.len() && q[t] == x;
            if t == 0 {
                assert(before(x, x));
            } else {
                assert(q1[t - 1] == x);
            }
        }
        assert forall|x: A| q1.contains(x) implies p1.contains(x) by {
            let k = choose|k: int| 0 <= k < q1.len() && q1[k] == x;
            assert(q[k + 1] == x);
            assert(before(q[0], q[k + 1]));
            assert(q.contains(x));
            let t = choose|t: int| 0 <= t < p.len() && p[t] == x;
            if t == 0 {
                assert(before(x, x));
            } else {
                assert(p1[t - 1] == x);
            }
        }
        assert forall|x: A, y: A| #[trigger] before(x, y) && p1.contains(x) && p1.contains(y) implies !before(y, x) by {
            let a = choose|a: int| 0 <= a < p1.len() && p1[a] == x;
            let b = choose|b: int| 0 <= b < p1.len() && p1[b] == y;
            assert(p[a + 1] == x && p[b + 1] == y);
        }
        lemma_sorted_lists_agree(p1, q1, before);
        assert(p =~= q) by {
            assert forall|k: int| 0 <= k < p.len() implies p[k] == q[k] by {
                if k > 0 {
                    assert(p[k] == p1[k - 1] && q[k] == q1[k - 1]);
                }
            }
        }
    }
}

} // verus!
