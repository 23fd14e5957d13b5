//! Character-level text helpers shared by the rest of the library: Unicode
//! whitespace trimming, ASCII case folding, decimal rendering and the short
//! size labels (`"12.3 GB"`) user-facing messages carry.

use vstd::prelude::*;

verus! {

/// Unicode `White_Space` — the set `char::is_whitespace` and `str::trim` use.
pub open spec fn is_ws(c: char) -> bool {
    let u = c as u32;
    ||| (0x09 <= u && u <= 0x0d)
    ||| u == 0x20
    ||| u == 0x85
    ||| u == 0xa0
    ||| u == 0x1680
    ||| (0x2000 <= u && u <= 0x200a)
    ||| u == 0x2028
    ||| u == 0x2029
    ||| u == 0x202f
    ||| u == 0x205f
    ||| u == 0x3000
}

/// `s` without its leading whitespace.
pub open spec fn trim_start(s: Seq<char>) -> Seq<char>
    decreases s.len(),
{
    if s.len() > 0 && is_ws(s[0]) {
        trim_start(s.drop_first())
    } else {
        s
    }
}

/// `s` without its trailing whitespace.
pub open spec fn trim_end(s: Seq<char>) -> Seq<char>
    decreases s.len(),
{
    if s.len() > 0 && is_ws(s.last()) {
        trim_end(s.drop_last())
    } else {
        s
    }
}

/// `s` without leading and trailing whitespace (`str::trim`).
pub open spec fn trim(s: Seq<char>) -> Seq<char> {
    trim_end(trim_start(s))
}

/// ASCII upper case folded to lower case; every other character unchanged.
pub open spec fn lower_char(c: char) -> char {
    if 'A' <= c && c <= 'Z' {
        ((c as u32) + 32) as char
    } else {
        c
    }
}

/// `a` and `b` are equal up to ASCII case (`eq_ignore_ascii_case`).
pub open spec fn eq_ignore_case(a: Seq<char>, b: Seq<char>) -> bool {
    &&& a.len() == b.len()
    &&& forall|i: int| 0 <= i < a.len() ==> lower_char(#[trigger] a[i]) == lower_char(b[i])
}

/// The decimal digit character for `d < 10`.
pub open spec fn digit_char(d: nat) -> char {
    (48 + d) as char
}

/// The decimal rendering of `n`, most significant digit first, no padding.
pub open spec fn decimal(n: nat) -> Seq<char>
    decreases n,
{
    if n < 10 {
        seq![digit_char(n)]
    } else {
        decimal(n / 10) + seq![digit_char(n % 10)]
    }
}

/// `n` rendered with exactly `places` digits, zero padded on the left.
pub open spec fn padded(n: nat, places: nat) -> Seq<char>
    decreases places,
{
    if places == 0 {
        Seq::empty()
    } else {
        padded(n / 10, (places - 1) as nat) + seq![digit_char(n % 10)]
    }
}

/// `value / 2^10` rounded to `places` decimals, half to even — how a
/// binary fraction that is exact in `f64` prints with `{:.places$}`.
pub open spec fn scaled_rounded(value: nat, places: nat) -> nat {
    let scaled = value * pow10(places);
    let q = scaled / 1024;
    let r = scaled % 1024;
    if r > 512 || (r == 512 && q % 2 == 1) {
        q + 1
    } else {
        q
    }
}

pub open spec fn pow10(n: nat) -> nat
    decreases n,
{
    if n == 0 {
        1
    } else {
        10 * pow10((n - 1) as nat)
    }
}

/// `value / 1024` with `places` decimals: integer part, `.`, fraction.
pub open spec fn fixed_kib(value: nat, places: nat) -> Seq<char> {
    let v = scaled_rounded(value, places);
    decimal(v / pow10(places)) + seq!['.'] + padded(v % pow10(places), places)
}

/// A megabyte count as gigabytes with one decimal: `"12.3 GB"`.
pub open spec fn gb_label(mb: nat) -> Seq<char> {
    fixed_kib(mb, 1) + " GB"@
}

/// Whether `c` is Unicode whitespace.
pub fn is_whitespace(c: char) -> (r: bool)
    ensures
        r == is_ws(c),
{
    let u = c as u32;
    (0x09 <= u && u <= 0x0d) || u == 0x20 || u == 0x85 || u == 0xa0 || u == 0x1680 || (0x2000
        <= u && u <= 0x200a) || u == 0x2028 || u == 0x2029 || u == 0x202f || u == 0x205f || u
        == 0x3000
}

/// ASCII lower case of `c`.
pub fn to_lower(c: char) -> (r: char)
    ensures
        r == lower_char(c),
{
    if 'A' <= c && c <= 'Z' {
        let u = (c as u32) + 32;
        assert(0x61 <= u <= 0x7a);
        char_of(u)
    } else {
        c
    }
}

fn char_of(u: u32) -> (c: char)
    requires
        0x30 <= u <= 0x7a,
    ensures
        c as u32 == u,
{
    let b = u as u8;
    let c = b as char;
    c
}

proof fn lemma_trim_start_skip(s: Seq<char>, i: int)
    requires
        0 <= i < s.len(),
        is_ws(s[i]),
    ensures
        trim_start(s.subrange(i, s.len() as int)) == trim_start(s.subrange(i + 1, s.len() as int)),
{
    let t = s.subrange(i, s.len() as int);
    assert(t.drop_first() =~= s.subrange(i + 1, s.len() as int));
}

/// The character positions `(start, end)` of `s` without its surrounding
/// whitespace.
pub fn trim_bounds(s: &str) -> (r: (usize, usize))
    ensures
        r.0 <= r.1 <= s@.len(),
        s@.subrange(r.0 as int, r.1 as int) == trim(s@),
{
    let n = s.unicode_len();
    assert(s@.subrange(0, n as int) =~= s@);
    let mut i: usize = 0;
    while i < n && is_whitespace(s.get_char(i))
        invariant
            n == s@.len(),
            i <= n,
            trim_start(s@) == trim_start(s@.subrange(i as int, n as int)),
        decreases n - i,
    {
        proof {
            lemma_trim_start_skip(s@, i as int);
        }
        i = i + 1;
    }
    let ghost rest = s@.subrange(i as int, n as int);
    assert(trim_start(rest) == rest) by {
        if rest.len() > 0 {
            assert(rest[0] == s@[i as int]);
        }
    }
    let mut j: usize = n;
    while j > i && is_whitespace(s.get_char(j - 1))
        invariant
            n == s@.len(),
            i <= j <= n,
            trim_start(s@) == s@.subrange(i as int, n as int),
            trim(s@) == trim_end(s@.subrange(i as int, j as int)),
        decreases j,
    {
        proof {
            let t = s@.subrange(i as int, j as int);
            assert(t.drop_last() =~= s@.subrange(i as int, j - 1));
        }
        j = j - 1;
    }
    proof {
        let t = s@.subrange(i as int, j as int);
        if t.len() > 0 {
            assert(t.last() == s@[j - 1]);
        }
    }
    (i, j)
}

/// `s` without leading and trailing whitespace.
pub fn trim_str(s: &str) -> (r: &str)
    ensures
        r@ == trim(s@),
{
    let (i, j) = trim_bounds(s);
    s.substring_char(i, j)
}

/// Whether `a` equals `b` up to ASCII case.
pub fn eq_ci(a: &str, b: &str) -> (r: bool)
    ensures
        r == eq_ignore_case(a@, b@),
{
    let n = a.unicode_len();
    if n != b.unicode_len() {
        return false;
    }
    let mut i: usize = 0;
    while i < n
        invariant
            n == a@.len(),
            n == b@.len(),
            i <= n,
            forall|k: int| 0 <= k < i ==> lower_char(#[trigger] a@[k]) == lower_char(b@[k]),
        decreases n - i,
    {
        if to_lower(a.get_char(i)) != to_lower(b.get_char(i)) {
            return false;
        }
        i = i + 1;
    }
    true
}

/// The one-character string of decimal digit `d`.
fn digit_str(d: u64) -> (r: &'static str)
    requires
        d < 10,
    ensures
        r@ == seq![digit_char(d as nat)],
{
    proof {
        reveal_strlit("0");
        reveal_strlit("1");
        reveal_strlit("2");
        reveal_strlit("3");
        reveal_strlit("4");
        reveal_strlit("5");
        reveal_strlit("6");
        reveal_strlit("7");
        reveal_strlit("8");
        reveal_strlit("9");
    }
    let r = if d == 0 {
        "0"
    } else if d == 1 {
        "1"
    } else if d == 2 {
        "2"
    } else if d == 3 {
        "3"
    } else if d == 4 {
        "4"
    } else if d == 5 {
        "5"
    } else if d == 6 {
        "6"
    } else if d == 7 {
        "7"
    } else if d == 8 {
        "8"
    } else {
        "9"
    };
    assert(r@ =~= seq![digit_char(d as nat)]);
    r
}

/// Append the decimal rendering of `n` to `out`.
pub fn push_decimal(out: &mut String, n: u64)
    ensures
        final(out)@ == old(out)@ + decimal(n as nat),
    decreases n,
{
    if n >= 10 {
        push_decimal(out, n / 10);
    }
    out.append(digit_str(n % 10));
    proof {
        if n >= 10 {
            assert(old(out)@ + decimal(n as nat) =~= old(out)@ + decimal((n / 10) as nat) + seq![
                digit_char((n % 10) as nat),
            ]);
        } else {
            assert(old(out)@ + decimal(n as nat) =~= old(out)@ + seq![digit_char((n % 10) as nat)]);
        }
    }
}

/// Append `n` with exactly `places` digits, zero padded.
fn push_padded(out: &mut String, n: u64, places: u64)
    ensures
        final(out)@ == old(out)@ + padded(n as nat, places as nat),
    decreases places,
{
    if places > 0 {
        push_padded(out, n / 10, places - 1);
        out.append(digit_str(n % 10));
        assert(old(out)@ + padded(n as nat, places as nat) =~= old(out)@ + padded(
            (n / 10) as nat,
            (places - 1) as nat,
        ) + seq![digit_char((n % 10) as nat)]);
    } else {
        assert(old(out)@ + padded(n as nat, places as nat) =~= old(out)@);
    }
}

/// The decimal rendering of `n`.
pub fn decimal_string(n: u64) -> (r: String)
    ensures
        r@ == decimal(n as nat),
{
    let mut s = String::new();
    push_decimal(&mut s, n);
    assert(s@ =~= decimal(n as nat));
    s
}

proof fn lemma_pow10_values()
    ensures
        pow10(0) == 1,
        pow10(1) == 10,
        pow10(2) == 100,
{
    reveal_with_fuel(pow10, 3);
}

/// Append `value / 1024` with `places` (1 or 2) decimals.
pub fn push_fixed_kib(out: &mut String, value: u64, places: u64)
    requires
        places == 1 || places == 2,
    ensures
        final(out)@ == old(out)@ + fixed_kib(value as nat, places as nat),
{
    proof {
        lemma_pow10_values();
    }
    let p: u128 = if places == 1 {
        10
    } else {
        100
    };
    let scaled: u128 = (value as u128) * p;
    let q: u128 = scaled / 1024;
    let r: u128 = scaled % 1024;
    let v: u128 = if r > 512 || (r == 512 && q % 2 == 1) {
        q + 1
    } else {
        q
    };
    assert(v == scaled_rounded(value as nat, places as nat));
    let whole: u128 = v / p;
    let frac: u128 = v % p;
    assert(whole <= u64::MAX) by (nonlinear_arith)
        requires
            whole == v / p,
            v <= value * p / 1024 + 1,
            p == 10 || p == 100,
            value <= u64::MAX,
    ;
    push_decimal(out, whole as u64);
    out.append(".");
    push_padded(out, frac as u64, places);
    proof {
        reveal_strlit(".");
        assert(final(out)@ =~= old(out)@ + fixed_kib(value as nat, places as nat));
    }
}

/// Bytes in a gibibyte.
pub const GIB: u64 = 1_073_741_824;

/// `bytes / 2^30` in tenths, rounded half to even — how the exact binary
/// fraction prints with `{:.1}`.
pub open spec fn tenths_of_gib(bytes: nat) -> nat {
    let scaled = bytes * 10;
    let q = scaled / GIB as nat;
    let r = scaled % GIB as nat;
    if r > GIB / 2 || (r == GIB / 2 && q % 2 == 1) {
        q + 1
    } else {
        q
    }
}

/// A byte count as gigabytes with one decimal: `"12.3 GB"`.
pub open spec fn gib_label(bytes: nat) -> Seq<char> {
    let v = tenths_of_gib(bytes);
    decimal(v / 10) + seq!['.'] + padded(v % 10, 1) + " GB"@
}

/// A byte count as gigabytes with one decimal.
pub fn gib(bytes: u64) -> (r: String)
    ensures
        r@ == gib_label(bytes as nat),
{
    let scaled: u128 = (bytes as u128) * 10;
    let q: u128 = scaled / (GIB as u128);
    let r: u128 = scaled % (GIB as u128);
    let v: u128 = if r > 536_870_912 || (r == 536_870_912 && q % 2 == 1) {
        q + 1
    } else {
        q
    };
    assert(v == tenths_of_gib(bytes as nat));
    assert(v / 10 <= u64::MAX) by (nonlinear_arith)
        requires
            v <= scaled / 1_073_741_824 + 1,
            scaled == bytes * 10,
            bytes <= u64::MAX,
    ;
    let mut out = String::new();
    push_decimal(&mut out, (v / 10) as u64);
    out.append(".");
    push_padded(&mut out, (v % 10) as u64, 1);
    out.append(" GB");
    proof {
        reveal_strlit(".");
        assert(out@ =~= gib_label(bytes as nat));
    }
    out
}

/// A megabyte count as gigabytes with one decimal: `"12.3 GB"`.
pub fn gb(mb: u64) -> (r: String)
    ensures
        r@ == gb_label(mb as nat),
{
    let mut s = String::new();
    push_fixed_kib(&mut s, mb, 1);
    s.append(" GB");
    assert(s@ =~= gb_label(mb as nat));
    s
}

} // verus!

verus! {

/// What `format!("{:?}", s)` renders the text `s` as: quoted, with Rust's
/// debug escapes.
pub uninterp spec fn debug_quoted(s: Seq<char>) -> Seq<char>;

/// `<str as Debug>::fmt`, through `format!("{:?}", ..)`. Claims only that
/// the result is a function of the text alone, named [`debug_quoted`].
#[verifier::external_body]
pub(crate) fn debug_string(s: &str) -> (r: String)
    ensures
        r@ == debug_quoted(s@),
{
    format!("{:?}", s)
}

} // verus!

verus! {

/// The views of a sequence of strings.
pub open spec fn views(v: Seq<String>) -> Seq<Seq<char>> {
    v.map_values(|x: String| x@)
}

/// `str::split_whitespace` as a left fold: the words so far, and whether the
/// last one is still open.
pub open spec fn word_fold(s: Seq<char>) -> (Seq<Seq<char>>, bool)
    decreases s.len(),
{
    if s.len() == 0 {
        (Seq::empty(), false)
    } else {
        let (w, open) = word_fold(s.drop_last());
        let c = s.last();
        if is_ws(c) {
            (w, false)
        } else if open {
            (w.update(w.len() - 1, w.last().push(c)), true)
        } else {
            (w.push(seq![c]), true)
        }
    }
}

/// The whitespace-separated words of `s`.
pub open spec fn words(s: Seq<char>) -> Seq<Seq<char>> {
    word_fold(s).0
}

/// `str::split(sep)`: the pieces between separators, empty ones included.
pub open spec fn pieces(s: Seq<char>, sep: char) -> Seq<Seq<char>>
    decreases s.len(),
{
    if s.len() == 0 {
        seq![Seq::empty()]
    } else {
        let p = pieces(s.drop_last(), sep);
        if s.last() == sep {
            p.push(Seq::empty())
        } else {
            p.update(p.len() - 1, p.last().push(s.last()))
        }
    }
}

proof fn lemma_pieces_nonempty(s: Seq<char>, sep: char)
    ensures
        pieces(s, sep).len() >= 1,
    decreases s.len(),
{
    if s.len() > 0 {
        lemma_pieces_nonempty(s.drop_last(), sep);
    }
}

proof fn lemma_word_fold_open(s: Seq<char>)
    ensures
        word_fold(s).1 ==> word_fold(s).0.len() >= 1,
    decreases s.len(),
{
    if s.len() > 0 {
        lemma_word_fold_open(s.drop_last());
    }
}

/// The whitespace-separated words of `s` (`str::split_whitespace`).
pub fn split_words(s: &str) -> (r: Vec<String>)
    ensures
        views(r@) == words(s@),
{
    let n = s.unicode_len();
    let mut done: Vec<String> = Vec::new();
    let mut start: usize = 0;
    let mut open = false;
    let mut i: usize = 0;
    assert(s@.take(0) =~= Seq::<char>::empty());
    while i < n
        invariant
            n == s@.len(),
            i <= n,
            start <= i,
            word_fold(s@.take(i as int)).1 == open,
            open ==> word_fold(s@.take(i as int)).0 == views(done@).push(
                s@.subrange(start as int, i as int),
            ),
            !open ==> word_fold(s@.take(i as int)).0 == views(done@),
        decreases n - i,
    {
        let c = s.get_char(i);
        let ghost pre = s@.take(i as int);
        let ghost post = s@.take(i + 1);
        assert(post.drop_last() =~= pre);
        assert(post.last() == c);
        if is_whitespace(c) {
            if open {
                let w = String::from_str(s.substring_char(start, i));
                done.push(w);
                proof {
                    assert(views(done@) =~= views(done@.drop_last()).push(w@));
                }
                open = false;
            }
        } else {
            if !open {
                start = i;
                open = true;
                proof {
                    assert(s@.subrange(start as int, i + 1) =~= seq![c]);
                }
            } else {
                proof {
                    lemma_word_fold_open(pre);
                    assert(s@.subrange(start as int, i + 1) =~= s@.subrange(start as int, i as int).push(c));
                }
            }
        }
        i = i + 1;
        proof {
            if open {
                assert(word_fold(s@.take(i as int)).0 =~= views(done@).push(
                    s@.subrange(start as int, i as int),
                ));
            } else {
                assert(word_fold(s@.take(i as int)).0 =~= views(done@));
            }
        }
    }
    if open {
        let w = String::from_str(s.substring_char(start, n));
        done.push(w);
    }
    assert(s@.take(n as int) =~= s@);
    assert(views(done@) =~= words(s@));
    done
}

} // verus!

verus! {

pub open spec fn is_digit(c: char) -> bool {
    '0' <= c && c <= '9'
}

pub open spec fn digit_value(c: char) -> nat {
    ((c as u32) - 48) as nat
}

/// The value of a run of decimal digits.
pub open spec fn digits_value(d: Seq<char>) -> nat
    decreases d.len(),
{
    if d.len() == 0 {
        0
    } else {
        digits_value(d.drop_last()) * 10 + digit_value(d.last())
    }
}

/// `u16::from_str`: an optional `+`, then one or more ASCII digits whose
/// value fits; anything else (empty, a sign alone, a stray character,
/// overflow) is refused.
pub open spec fn parse_u16_spec(s: Seq<char>) -> Option<u16> {
    let d = unsigned_body(s);
    if d.len() == 0 || exists|i: int| 0 <= i < d.len() && !is_digit(#[trigger] d[i]) {
        None
    } else if digits_value(d) > u16::MAX {
        None
    } else {
        Some(digits_value(d) as u16)
    }
}

/// `s` without one leading `+`.
pub open spec fn unsigned_body(s: Seq<char>) -> Seq<char> {
    if s.len() > 0 && s[0] == '+' {
        s.drop_first()
    } else {
        s
    }
}

proof fn lemma_digits_prefix_le(d: Seq<char>, k: int)
    requires
        0 <= k <= d.len(),
        forall|i: int| 0 <= i < d.len() ==> is_digit(#[trigger] d[i]),
    ensures
        digits_value(d.take(k)) <= digits_value(d),
    decreases d.len(),
{
    if k < d.len() {
        let p = d.drop_last();
        assert(p.take(k) =~= d.take(k));
        assert forall|i: int| 0 <= i < p.len() implies is_digit(#[trigger] p[i]) by {
            assert(p[i] == d[i]);
        }
        lemma_digits_prefix_le(p, k);
    } else {
        assert(d.take(k) =~= d);
    }
}

/// Parse a port number the way `str::parse::<u16>` does.
pub fn parse_u16(s: &str) -> (r: Option<u16>)
    ensures
        r == parse_u16_spec(s@),
{
    let n = s.unicode_len();
    let first: usize = if n > 0 && s.get_char(0) == '+' {
        1
    } else {
        0
    };
    let ghost d = unsigned_body(s@);
    assert(d =~= s@.subrange(first as int, n as int));
    if first == n {
        assert(d.len() == 0);
        assert(parse_u16_spec(s@) is None);
        return None;
    }
    // Every character must be a digit.
    let mut i: usize = first;
    while i < n
        invariant
            n == s@.len(),
            first <= i <= n,
            d =~= s@.subrange(first as int, n as int),
            d == unsigned_body(s@),
            forall|k: int| first <= k < i ==> is_digit(#[trigger] s@[k]),
        decreases n - i,
    {
        let c = s.get_char(i);
        if !('0' <= c && c <= '9') {
            assert(!is_digit(d[i - first]));
            assert(d.len() > 0);
            assert(exists|k: int| 0 <= k < d.len() && !is_digit(#[trigger] d[k]));
            assert(parse_u16_spec(s@) is None);
            return None;
        }
        i = i + 1;
    }
    assert forall|k: int| 0 <= k < d.len() implies is_digit(#[trigger] d[k]) by {
        assert(d[k] == s@[k + first]);
    }
    let mut v: u32 = 0;
    let mut j: usize = first;
    assert(d.take(0) =~= Seq::<char>::empty());
    while j < n
        invariant
            n == s@.len(),
            first <= j <= n,
            d =~= s@.subrange(first as int, n as int),
            d == unsigned_body(s@),
            forall|k: int| 0 <= k < d.len() ==> is_digit(#[trigger] d[k]),
            v == digits_value(d.take(j - first)),
            v <= u16::MAX,
        decreases n - j,
    {
        let c = s.get_char(j);
        let ghost t = d.take(j - first + 1);
        assert(t.drop_last() =~= d.take(j - first));
        assert(t.last() == c);
        assert(is_digit(d[j - first]));
        let dv = (c as u32) - 48;
        assert(digits_value(t) == digits_value(d.take(j - first)) * 10 + digit_value(c));
        v = v * 10 + dv;
        j = j + 1;
        assert(v == digits_value(d.take(j - first)));
        if v > 65535 {
            proof {
                lemma_digits_prefix_le(d, j - first);
                assert(digits_value(d) > u16::MAX);
                assert(parse_u16_spec(s@) is None);
            }
            return None;
        }
    }
    assert(d.take(d.len() as int) =~= d);
    Some(v as u16)
}

} // verus!

verus! {

/// Whether `a` and `b` hold the same characters.
pub fn str_eq(a: &str, b: &str) -> (r: bool)
    ensures
        r == (a@ == b@),
{
    let n = a.unicode_len();
    if n != b.unicode_len() {
        return false;
    }
    let mut i: usize = 0;
    while i < n
        invariant
            n == a@.len(),
            n == b@.len(),
            i <= n,
            forall|k: int| 0 <= k < i ==> a@[k] == b@[k],
        decreases n - i,
    {
        if a.get_char(i) != b.get_char(i) {
            return false;
        }
        i = i + 1;
    }
    assert(a@ =~= b@);
    true
}

} // verus!

verus! {

/// `String::push`: the string with `c` appended.
#[verifier::external_body]
pub(crate) fn push_char(s: &mut String, c: char)
    ensures
        final(s)@ == old(s)@.push(c),
{
    s.push(c)
}

/// `s` with ASCII upper case folded to lower case (`to_ascii_lowercase`).
pub open spec fn lower(s: Seq<char>) -> Seq<char> {
    s.map_values(|c: char| lower_char(c))
}

/// `s` with ASCII upper case folded to lower case.
pub fn to_ascii_lower(s: &str) -> (r: String)
    ensures
        r@ == lower(s@),
{
    let n = s.unicode_len();
    let mut out = String::new();
    let mut i: usize = 0;
    while i < n
        invariant
            n == s@.len(),
            i <= n,
            out@ == lower(s@.take(i as int)),
        decreases n - i,
    {
        push_char(&mut out, to_lower(s.get_char(i)));
        assert(lower(s@.take(i + 1)) =~= lower(s@.take(i as int)).push(lower_char(s@[i as int])));
        i = i + 1;
    }
    assert(s@.take(n as int) =~= s@);
    out
}


/// A copy of a list of strings.
pub fn copy_strings(v: &Vec<String>) -> (r: Vec<String>)
    ensures
        r@ == v@,
{
    let mut out: Vec<String> = Vec::new();
    let mut i: usize = 0;
    while i < v.len()
        invariant
            i <= v@.len(),
            out@ == v@.take(i as int),
        decreases v@.len() - i,
    {
        out.push(v[i].clone());
        assert(v@.take(i + 1) =~= v@.take(i as int).push(v@[i as int]));
        i = i + 1;
    }
    assert(v@.take(i as int) =~= v@);
    out
}


/// `s` with every element after its first occurrence dropped.
pub open spec fn dedup_first(s: Seq<Seq<char>>) -> Seq<Seq<char>>
    decreases s.len(),
{
    if s.len() == 0 {
        s
    } else {
        let d = dedup_first(s.drop_last());
        if d.contains(s.last()) {
            d
        } else {
            d.push(s.last())
        }
    }
}


/// What `str::to_lowercase` makes of a text (Unicode case mapping).
pub uninterp spec fn lowercase_text(s: Seq<char>) -> Seq<char>;

/// `str::to_lowercase`. Claims only that the result is a function of the
/// text alone, named [`lowercase_text`].
#[verifier::external_body]
pub(crate) fn to_lowercase(s: &str) -> (r: String)
    ensures
        r@ == lowercase_text(s@),
{
    s.to_lowercase()
}

} // verus!
