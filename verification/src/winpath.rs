//! Windows paths as text: their components, and the volume prefix they
//! start with. Both `\` and `/` separate components; repeated separators
//! and `.` components do not count; a path that starts with a separator,
//! or with a drive and a separator, has a root, so a relative path never
//! lies inside a rooted one. These rules hold on every host the library
//! runs on: the store and app folders it works with are Windows paths (the
//! storage report reads `E:\AI\models\llm\...` as kind `llm`), so a path
//! such as `E:\x` has the volume `E:` and a `\` separates components on
//! Linux too, where the platform's own path type would read the whole text
//! as one relative name.

use vstd::prelude::*;

use crate::text::views;

verus! {

/// A path separator.
pub open spec fn is_sep(c: char) -> bool {
    c == '\\' || c == '/'
}

/// The runs of non-separators of `s`, as a left fold: the runs so far,
/// and whether the last one is still open.
pub open spec fn part_fold(s: Seq<char>) -> (Seq<Seq<char>>, bool)
    decreases s.len(),
{
    if s.len() == 0 {
        (Seq::empty(), false)
    } else {
        let (w, open) = part_fold(s.drop_last());
        let c = s.last();
        if is_sep(c) {
            (w, false)
        } else if open {
            (w.update(w.len() - 1, w.last().push(c)), true)
        } else {
            (w.push(seq![c]), true)
        }
    }
}

/// `parts` without the `.` entries.
pub open spec fn no_dots(parts: Seq<Seq<char>>) -> Seq<Seq<char>>
    decreases parts.len(),
{
    if parts.len() == 0 {
        parts
    } else if parts.last() == seq!['.'] {
        no_dots(parts.drop_last())
    } else {
        no_dots(parts.drop_last()).push(parts.last())
    }
}

/// The named parts of `s`: its runs of non-separators other than `.`.
pub open spec fn parts(s: Seq<char>) -> Seq<Seq<char>> {
    no_dots(part_fold(s).0)
}

/// The component that stands for the root of a rooted path.
pub open spec fn root_mark() -> Seq<char> {
    seq!['\\']
}

/// The components of the path `s`: a path that starts with a separator
/// starts with the root; one that starts with a drive and a separator
/// starts with the drive and then the root; then its named parts. So a
/// relative path never lies inside a rooted one.
pub open spec fn components(s: Seq<char>) -> Seq<Seq<char>> {
    if s.len() > 0 && is_sep(s[0]) {
        seq![root_mark()] + parts(s)
    } else if s.len() > 2 && is_drive(s) && is_sep(s[2]) {
        seq![s.take(2), root_mark()] + parts(s.skip(2))
    } else {
        parts(s)
    }
}

proof fn lemma_part_fold_open(s: Seq<char>)
    ensures
        part_fold(s).1 ==> part_fold(s).0.len() >= 1,
    decreases s.len(),
{
    if s.len() > 0 {
        lemma_part_fold_open(s.drop_last());
    }
}

fn is_separator(c: char) -> (r: bool)
    ensures
        r == is_sep(c),
{
    c == '\\' || c == '/'
}

/// The runs of non-separators of `s`.
fn split_parts(s: &str) -> (r: Vec<String>)
    ensures
        views(r@) == part_fold(s@).0,
{
    let n = s.unicode_len();
    let mut done: Vec<String> = Vec::new();
    let mut start: usize = 0;
    let mut open = false;
    let mut i: usize = 0;
    assert(s@.take(0) =~= Seq::<char>::empty());
    while i < n
        invariant
            n == s@.len(),
            i <= n,
            start <= i,
            part_fold(s@.take(i as int)).1 == open,
            open ==> part_fold(s@.take(i as int)).0 == views(done@).push(
                s@.subrange(start as int, i as int),
            ),
            !open ==> part_fold(s@.take(i as int)).0 == views(done@),
        decreases n - i,
    {
        let c = s.get_char(i);
        let ghost pre = s@.take(i as int);
        let ghost post = s@.take(i + 1);
        assert(post.drop_last() =~= pre);
        assert(post.last() == c);
        if is_separator(c) {
            if open {
                let w = String::from_str(s.substring_char(start, i));
                done.push(w);
                proof {
                    assert(views(done@) =~= views(done@.drop_last()).push(w@));
                }
                open = false;
            }
        } else {
            if !open {
                start = i;
                open = true;
                proof {
                    assert(s@.subrange(start as int, i + 1) =~= seq![c]);
                }
            } else {
                proof {
                    lemma_part_fold_open(pre);
                    assert(s@.subrange(start as int, i + 1) =~= s@.subrange(start as int, i as int).push(c));
                }
            }
        }
        i = i + 1;
        proof {
            if open {
                assert(part_fold(s@.take(i as int)).0 =~= views(done@).push(
                    s@.subrange(start as int, i as int),
                ));
            } else {
                assert(part_fold(s@.take(i as int)).0 =~= views(done@));
            }
        }
    }
    if open {
        let w = String::from_str(s.substring_char(start, n));
        done.push(w);
    }
    assert(s@.take(n as int) =~= s@);
    assert(views(done@) =~= part_fold(s@).0);
    done
}

fn is_dot(s: &str) -> (r: bool)
    ensures
        r == (s@ == seq!['.']),
{
    if s.unicode_len() == 1 && s.get_char(0) == '.' {
        assert(s@ =~= seq!['.']);
        true
    } else {
        false
    }
}

/// The named parts of the path `s`.
fn path_parts(s: &str) -> (r: Vec<String>)
    ensures
        views(r@) == parts(s@),
{
    let parts = split_parts(s);
    let ghost ps = views(parts@);
    let mut out: Vec<String> = Vec::new();
    let mut i: usize = 0;
    assert(ps.take(0) =~= Seq::<Seq<char>>::empty());
    while i < parts.len()
        invariant
            ps == views(parts@),
            i <= parts@.len(),
            views(out@) == no_dots(ps.take(i as int)),
        decreases parts@.len() - i,
    {
        assert(ps.take(i + 1).drop_last() =~= ps.take(i as int));
        assert(ps[i as int] == parts@[i as int]@);
        if !is_dot(parts[i].as_str()) {
            let ghost prev = out@;
            out.push(parts[i].clone());
            assert(views(out@) =~= views(prev).push(parts@[i as int]@));
        }
        i = i + 1;
    }
    assert(ps.take(i as int) =~= ps);
    out
}

/// `head` followed by `rest`.
fn joined_parts(head: Vec<String>, rest: Vec<String>) -> (r: Vec<String>)
    ensures
        views(r@) == views(head@) + views(rest@),
{
    let mut out = head;
    let ghost h = views(out@);
    let mut i: usize = 0;
    while i < rest.len()
        invariant
            i <= rest@.len(),
            views(out@) == h + views(rest@).take(i as int),
        decreases rest@.len() - i,
    {
        let ghost prev = out@;
        out.push(rest[i].clone());
        assert(views(out@) =~= views(prev).push(rest@[i as int]@));
        assert(views(rest@).take(i + 1) =~= views(rest@).take(i as int).push(rest@[i as int]@));
        i = i + 1;
    }
    assert(views(rest@).take(i as int) =~= views(rest@));
    out
}

fn is_drive_letter(c: char) -> (r: bool)
    ensures
        r == (('a' <= c && c <= 'z') || ('A' <= c && c <= 'Z')),
{
    ('a' <= c && c <= 'z') || ('A' <= c && c <= 'Z')
}

/// The components of the path `s`.
pub fn path_components(s: &str) -> (r: Vec<String>)
    ensures
        views(r@) == components(s@),
{
    proof {
        reveal_strlit("\\");
    }
    let n = s.unicode_len();
    if n > 0 && is_separator(s.get_char(0)) {
        let m = String::from_str("\\");
        assert(m@ =~= root_mark());
        let mut head: Vec<String> = Vec::new();
        head.push(m);
        assert(views(head@) =~= seq![root_mark()]);
        return joined_parts(head, path_parts(s));
    }
    if n > 2 && s.get_char(1) == ':' && is_drive_letter(s.get_char(0)) && is_separator(s.get_char(2)) {
        let drive = String::from_str(s.substring_char(0, 2));
        let m = String::from_str("\\");
        assert(m@ =~= root_mark());
        assert(drive@ =~= s@.take(2));
        let mut head: Vec<String> = Vec::new();
        head.push(drive);
        head.push(m);
        assert(views(head@) =~= seq![s@.take(2), root_mark()]);
        let rest = s.substring_char(2, n);
        assert(rest@ =~= s@.skip(2));
        return joined_parts(head, path_parts(rest));
    }
    path_parts(s)
}

/// `prefix` is a leading run of `whole`.
pub open spec fn starts_with(whole: Seq<Seq<char>>, prefix: Seq<Seq<char>>) -> bool {
    prefix.len() <= whole.len() && whole.take(prefix.len() as int) == prefix
}

/// The component of `path` right below `root`, when `path` lies strictly
/// inside `root`.
pub open spec fn first_below(path: Seq<char>, root: Seq<char>) -> Option<Seq<char>> {
    let (p, r) = (components(path), components(root));
    if starts_with(p, r) && r.len() < p.len() {
        Some(p[r.len() as int])
    } else {
        None
    }
}

/// The component of `path` right below `root`, when there is one.
pub fn component_below(path: &str, root: &str) -> (r: Option<String>)
    ensures
        match r {
            Some(c) => first_below(path@, root@) == Some(c@),
            None => first_below(path@, root@) is None,
        },
{
    let p = path_components(path);
    let q = path_components(root);
    let ghost (pv, qv) = (views(p@), views(q@));
    if q.len() >= p.len() {
        return None;
    }
    let mut i: usize = 0;
    while i < q.len()
        invariant
            pv == views(p@),
            qv == views(q@),
            pv == components(path@),
            qv == components(root@),
            q@.len() < p@.len(),
            i <= q@.len(),
            forall|k: int| 0 <= k < i ==> pv[k] == qv[k],
        decreases q@.len() - i,
    {
        if !crate::text::str_eq(p[i].as_str(), q[i].as_str()) {
            proof {
                assert(pv[i as int] != qv[i as int]);
                assert(pv.take(qv.len() as int)[i as int] == pv[i as int]);
                assert(pv.take(qv.len() as int) != qv);
                assert(!starts_with(pv, qv));
            }
            return None;
        }
        i = i + 1;
    }
    assert(pv.take(qv.len() as int) =~= qv);
    Some(p[q.len()].clone())
}


/// A separator, where a verbatim (`\\?\`) path accepts only `\`.
pub open spec fn separates(c: char, verbatim: bool) -> bool {
    if verbatim {
        c == '\\'
    } else {
        is_sep(c)
    }
}

/// The length of the leading component of `s`: up to its first separator.
pub open spec fn comp_len(s: Seq<char>, verbatim: bool) -> nat
    decreases s.len(),
{
    if s.len() == 0 || separates(s[0], verbatim) {
        0
    } else {
        1 + comp_len(s.drop_first(), verbatim)
    }
}

/// What follows the leading component and its separator.
pub open spec fn after_comp(s: Seq<char>, verbatim: bool) -> Seq<char> {
    let k = comp_len(s, verbatim);
    if k < s.len() {
        s.skip(k + 1 as int)
    } else {
        Seq::empty()
    }
}

/// `s` starts with `p`.
pub open spec fn begins(s: Seq<char>, p: Seq<char>) -> bool {
    p.len() <= s.len() && s.take(p.len() as int) == p
}

/// A drive: an ASCII letter and a colon.
pub open spec fn is_drive(s: Seq<char>) -> bool {
    s.len() >= 2 && s[1] == ':' && (('a' <= s[0] && s[0] <= 'z') || ('A' <= s[0] && s[0] <= 'Z'))
}

/// The length of the volume prefix `s` starts with, if any: `C:`,
/// `\\server\share`, `\\?\C:`, `\\?\UNC\server\share`, `\\?\name`,
/// `\\.\device`.
pub open spec fn prefix_len(s: Seq<char>) -> Option<nat> {
    if begins(s, seq!['\\', '\\']) {
        let p = s.skip(2);
        if begins(p, seq!['?', '\\']) {
            let q = p.skip(2);
            if begins(q, seq!['U', 'N', 'C', '\\']) {
                let r = q.skip(4);
                let server = comp_len(r, true);
                let share = comp_len(after_comp(r, true), true);
                Some(8 + server + if share > 0 {
                    1 + share
                } else {
                    0nat
                })
            } else {
                let k = comp_len(q, true);
                if is_drive(q.take(k as int)) && (k == 2 || (k > 2 && is_sep(q[2]))) {
                    Some(6)
                } else {
                    Some(4 + k)
                }
            }
        } else if begins(p, seq!['.', '\\']) {
            Some(4 + comp_len(p.skip(2), false))
        } else {
            let server = comp_len(p, false);
            let share = comp_len(after_comp(p, false), false);
            if server > 0 && share > 0 {
                Some(2 + server + 1 + share)
            } else {
                None
            }
        }
    } else if is_drive(s) {
        Some(2)
    } else {
        None
    }
}

/// The volume a path lives on, for messages: its prefix, else the whole
/// path.
pub open spec fn volume_text(s: Seq<char>) -> Seq<char> {
    match prefix_len(s) {
        Some(k) => s.take(k as int),
        None => s,
    }
}

fn separates_exec(c: char, verbatim: bool) -> (r: bool)
    ensures
        r == separates(c, verbatim),
{
    if verbatim {
        c == '\\'
    } else {
        c == '\\' || c == '/'
    }
}

proof fn lemma_comp_len_bound(s: Seq<char>, verbatim: bool)
    ensures
        comp_len(s, verbatim) <= s.len(),
        comp_len(s, verbatim) < s.len() ==> separates(s[comp_len(s, verbatim) as int], verbatim),
        forall|i: int| 0 <= i < comp_len(s, verbatim) ==> !separates(#[trigger] s[i], verbatim),
    decreases s.len(),
{
    if s.len() > 0 && !separates(s[0], verbatim) {
        lemma_comp_len_bound(s.drop_first(), verbatim);
        assert forall|i: int| 0 <= i < comp_len(s, verbatim) implies !separates(#[trigger] s[i], verbatim) by {
            if i > 0 {
                assert(s[i] == s.drop_first()[i - 1]);
            }
        }
    }
}

proof fn lemma_comp_len_is_first(s: Seq<char>, verbatim: bool, k: int)
    requires
        0 <= k <= s.len(),
        k < s.len() ==> separates(s[k], verbatim),
        forall|i: int| 0 <= i < k ==> !separates(#[trigger] s[i], verbatim),
    ensures
        comp_len(s, verbatim) == k,
    decreases s.len(),
{
    if k > 0 {
        assert(!separates(s[0], verbatim));
        let t = s.drop_first();
        assert forall|i: int| 0 <= i < k - 1 implies !separates(#[trigger] t[i], verbatim) by {
            assert(t[i] == s[i + 1]);
        }
        if k - 1 < t.len() {
            assert(t[k - 1] == s[k]);
        }
        lemma_comp_len_is_first(t, verbatim, k - 1);
    }
}

/// The position of the first separator at or after `from` (or the end).
fn sep_from(s: &str, from: usize, verbatim: bool) -> (r: usize)
    requires
        from <= s@.len(),
    ensures
        from <= r <= s@.len(),
        r - from == comp_len(s@.skip(from as int), verbatim),
{
    let n = s.unicode_len();
    let mut i = from;
    while i < n && !separates_exec(s.get_char(i), verbatim)
        invariant
            n == s@.len(),
            from <= i <= n,
            forall|k: int| from <= k < i ==> !separates(#[trigger] s@[k], verbatim),
        decreases n - i,
    {
        i = i + 1;
    }
    proof {
        let t = s@.skip(from as int);
        assert forall|k: int| 0 <= k < i - from implies !separates(#[trigger] t[k], verbatim) by {
            assert(t[k] == s@[k + from]);
        }
        if i < n {
            assert(t[i - from] == s@[i as int]);
        }
        lemma_comp_len_is_first(t, verbatim, i - from);
    }
    i
}

/// Whether `s` holds `lit` at character position `at`.
fn holds_at(s: &str, at: usize, lit: &str) -> (r: bool)
    requires
        at <= s@.len(),
    ensures
        r == begins(s@.skip(at as int), lit@),
{
    let (n, m) = (s.unicode_len(), lit.unicode_len());
    if m > n - at {
        return false;
    }
    let mut i: usize = 0;
    while i < m
        invariant
            n == s@.len(),
            m == lit@.len(),
            at + m <= n,
            i <= m,
            forall|k: int| 0 <= k < i ==> s@[at + k] == lit@[k],
        decreases m - i,
    {
        if s.get_char(at + i) != lit.get_char(i) {
            assert(s@.skip(at as int).take(m as int)[i as int] == s@[at + i]);
            assert(s@.skip(at as int).take(m as int) != lit@);
            return false;
        }
        i = i + 1;
    }
    assert(s@.skip(at as int).take(m as int) =~= lit@);
    true
}

fn is_letter(c: char) -> (r: bool)
    ensures
        r == (('a' <= c && c <= 'z') || ('A' <= c && c <= 'Z')),
{
    ('a' <= c && c <= 'z') || ('A' <= c && c <= 'Z')
}

/// The length of the volume prefix `s` starts with, if any.
pub fn volume_prefix_len(s: &str) -> (r: Option<usize>)
    ensures
        match r {
            Some(k) => prefix_len(s@) == Some(k as nat),
            None => prefix_len(s@) is None,
        },
{
    let n = s.unicode_len();
    proof {
        reveal_strlit("\\\\");
        reveal_strlit("?\\");
        reveal_strlit("UNC\\");
        reveal_strlit(".\\");
        assert("\\\\"@ =~= seq!['\\', '\\']);
        assert("?\\"@ =~= seq!['?', '\\']);
        assert("UNC\\"@ =~= seq!['U', 'N', 'C', '\\']);
        assert(".\\"@ =~= seq!['.', '\\']);
    }
    assert(s@.skip(0) =~= s@);
    if holds_at(s, 0, "\\\\") {
        let ghost p = s@.skip(2);
        if holds_at(s, 2, "?\\") {
            let ghost q = s@.skip(4);
            assert(p.skip(2) =~= q);
            if holds_at(s, 4, "UNC\\") {
                assert(s@.skip(4).skip(4) =~= s@.skip(8));
                let ghost r = s@.skip(8);
                assert(q.skip(4) =~= r);
                let a = sep_from(s, 8, true);
                proof {
                    lemma_comp_len_bound(r, true);
                }
                let server = a - 8;
                let b: usize = if a < n {
                    sep_from(s, a + 1, true)
                } else {
                    a
                };
                proof {
                    if a < n {
                        assert(after_comp(r, true) =~= s@.skip(a + 1));
                    } else {
                        assert(after_comp(r, true) =~= Seq::<char>::empty());
                    }
                }
                let share = if a < n {
                    b - (a + 1)
                } else {
                    0
                };
                return Some(8 + server + if share > 0 {
                    1 + share
                } else {
                    0
                });
            }
            let a = sep_from(s, 4, true);
            let k = a - 4;
            proof {
                lemma_comp_len_bound(q, true);
                assert(q.take(k as int) =~= s@.subrange(4, a as int));
            }
            let drive = k >= 2 && s.get_char(5) == ':' && is_letter(s.get_char(4));
            let sep2 = k == 2 || (k > 2 && (s.get_char(6) == '\\' || s.get_char(6) == '/'));
            proof {
                if k >= 2 {
                    assert(q.take(k as int)[0] == s@[4] && q.take(k as int)[1] == s@[5]);
                }
                if k > 2 {
                    assert(q[2] == s@[6]);
                }
            }
            if drive && sep2 {
                return Some(6);
            }
            return Some(4 + k);
        }
        if holds_at(s, 2, ".\\") {
            assert(p.skip(2) =~= s@.skip(4));
            let a = sep_from(s, 4, false);
            return Some(4 + (a - 4));
        }
        let a = sep_from(s, 2, false);
        proof {
            lemma_comp_len_bound(p, false);
        }
        let server = a - 2;
        if a >= n {
            proof {
                assert(after_comp(p, false) =~= Seq::<char>::empty());
            }
            return None;
        }
        let b = sep_from(s, a + 1, false);
        assert(after_comp(p, false) =~= s@.skip(a + 1));
        let share = b - (a + 1);
        if server > 0 && share > 0 {
            return Some(2 + server + 1 + share);
        }
        return None;
    }
    if n >= 2 && s.get_char(1) == ':' && is_letter(s.get_char(0)) {
        Some(2)
    } else {
        None
    }
}

/// The volume a path lives on, for disk messages: its volume prefix, such
/// as `E:`, by the Windows rules on every host; the whole path when it has
/// none.
pub fn volume_label(path: &str) -> (r: String)
    ensures
        r@ == volume_text(path@),
{
    match volume_prefix_len(path) {
        Some(k) => {
            proof {
                assert(k <= path@.len()) by {
                    lemma_prefix_len_bound(path@);
                }
            }
            String::from_str(path.substring_char(0, k))
        },
        None => String::from_str(path),
    }
}

proof fn lemma_prefix_len_bound(s: Seq<char>)
    ensures
        prefix_len(s) matches Some(k) ==> k <= s.len(),
{
    let p = s.skip(2);
    if begins(s, seq!['\\', '\\']) {
        if begins(p, seq!['?', '\\']) {
            let q = p.skip(2);
            if begins(q, seq!['U', 'N', 'C', '\\']) {
                let r = q.skip(4);
                lemma_comp_len_bound(r, true);
                lemma_comp_len_bound(after_comp(r, true), true);
            } else {
                lemma_comp_len_bound(q, true);
            }
        } else if begins(p, seq!['.', '\\']) {
            lemma_comp_len_bound(p.skip(2), false);
        } else {
            lemma_comp_len_bound(p, false);
            lemma_comp_len_bound(after_comp(p, false), false);
        }
    }
}

} // verus!
