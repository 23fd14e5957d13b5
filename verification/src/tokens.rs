//! Which host may see which API key. A key goes only to its own service's
//! hosts — never to a look-alike name, an unrelated host, or the signed CDN
//! a download redirects to.

use vstd::prelude::*;

use crate::text::{eq_ignore_case, lower, str_eq, to_ascii_lower};

verus! {

/// The user's API keys for the model hosts.
#[derive(Debug, Clone, PartialEq, Eq)]
pub struct HostTokens {
    /// Civitai API key.
    pub civitai: Option<String>,
    /// Hugging Face token.
    pub huggingface: Option<String>,
}

impl Default for HostTokens {
    fn default() -> (r: Self)
        ensures
            r.civitai is None,
            r.huggingface is None,
    {
        HostTokens { civitai: None, huggingface: None }
    }
}

/// The services that take a key.
#[derive(Debug, Clone, Copy, PartialEq, Eq)]
pub enum KeyedHost {
    Civitai,
    HuggingFace,
}

/// Characters that end a URL's authority.
pub open spec fn ends_authority(c: char) -> bool {
    c == '/' || c == '?' || c == '#'
}

/// How many characters of `s` come before the first `/`, `?` or `#`.
pub open spec fn authority_len(s: Seq<char>) -> nat
    decreases s.len(),
{
    if s.len() == 0 || ends_authority(s[0]) {
        0
    } else {
        1 + authority_len(s.drop_first())
    }
}

/// `a` without any `user:pass@` in front.
pub open spec fn after_userinfo(a: Seq<char>) -> Seq<char>
    decreases a.len(),
{
    if a.len() == 0 {
        a
    } else if a.last() == '@' {
        Seq::empty()
    } else {
        after_userinfo(a.drop_last()).push(a.last())
    }
}

/// `h` up to the first `:` (the port dropped).
pub open spec fn before_port(h: Seq<char>) -> Seq<char>
    decreases h.len(),
{
    if h.len() == 0 || h[0] == ':' {
        Seq::empty()
    } else {
        seq![h[0]] + before_port(h.drop_first())
    }
}

/// The host name of an `http(s)://` URL, lower case; `None` for anything
/// else.
pub open spec fn host_of(url: Seq<char>) -> Option<Seq<char>> {
    let rest = if url.len() >= 8 && eq_ignore_case(url.take(8), "https://"@) {
        Some(url.skip(8))
    } else if url.len() >= 7 && eq_ignore_case(url.take(7), "http://"@) {
        Some(url.skip(7))
    } else {
        None
    };
    match rest {
        Some(r) => {
            let h = lower(before_port(after_userinfo(r.take(authority_len(r) as int))));
            if h.len() > 0 {
                Some(h)
            } else {
                None
            }
        },
        None => None,
    }
}

/// `host` is `domain` or a subdomain of it.
pub open spec fn within(host: Seq<char>, domain: Seq<char>) -> bool {
    host == domain || (host.len() > domain.len() && host[host.len() - domain.len() - 1] == '.'
        && host.skip(host.len() - domain.len()) == domain)
}

/// The service a host belongs to.
pub open spec fn keyed_host(url: Seq<char>) -> Option<KeyedHost> {
    match host_of(url) {
        Some(h) => if within(h, "civitai.com"@) || within(h, "civitai.red"@) {
            Some(KeyedHost::Civitai)
        } else if within(h, "huggingface.co"@) || within(h, "hf.co"@) {
            Some(KeyedHost::HuggingFace)
        } else {
            None
        },
        None => None,
    }
}

fn scan_authority(s: &str, from: usize) -> (r: usize)
    requires
        from <= s@.len(),
    ensures
        from <= r <= s@.len(),
        r - from == authority_len(s@.skip(from as int)),
{
    let n = s.unicode_len();
    let mut i = from;
    while i < n && !(s.get_char(i) == '/' || s.get_char(i) == '?' || s.get_char(i) == '#')
        invariant
            n == s@.len(),
            from <= i <= n,
            authority_len(s@.skip(from as int)) == (i - from) + authority_len(s@.skip(i as int)),
        decreases n - i,
    {
        assert(s@.skip(i as int).drop_first() =~= s@.skip(i + 1));
        i = i + 1;
    }
    if i < n {
        assert(s@.skip(i as int)[0] == s@[i as int]);
    }
    i
}

proof fn lemma_after_userinfo_from(a: Seq<char>, k: int)
    requires
        0 <= k <= a.len(),
        k == 0 || a[k - 1] == '@',
        forall|j: int| k <= j < a.len() ==> a[j] != '@',
    ensures
        after_userinfo(a) == a.skip(k),
    decreases a.len(),
{
    if a.len() == k {
        if a.len() > 0 {
            assert(a.last() == '@');
        }
        assert(a.skip(k) =~= Seq::<char>::empty());
    } else {
        let p = a.drop_last();
        lemma_after_userinfo_from(p, k);
        assert(a.skip(k) =~= p.skip(k).push(a.last()));
    }
}

proof fn lemma_before_port_prefix(h: Seq<char>, k: int)
    requires
        0 <= k <= h.len(),
        k == h.len() || h[k] == ':',
        forall|j: int| 0 <= j < k ==> h[j] != ':',
    ensures
        before_port(h) == h.take(k),
    decreases h.len(),
{
    if k == 0 {
        assert(h.take(0) =~= Seq::<char>::empty());
    } else {
        lemma_before_port_prefix(h.drop_first(), k - 1);
        assert(h.take(k) =~= seq![h[0]] + h.drop_first().take(k - 1));
    }
}

/// The lower-case host of `url`, or `None` when it is not an `http(s)` URL
/// with a host.
pub fn url_host(url: &str) -> (r: Option<String>)
    ensures
        r matches Some(h) ==> host_of(url@) == Some(h@),
        r is None ==> host_of(url@) is None,
{
    let n = url.unicode_len();
    let start: usize = if n >= 8 && crate::text::eq_ci(url.substring_char(0, 8), "https://") {
        8
    } else if n >= 7 && crate::text::eq_ci(url.substring_char(0, 7), "http://") {
        7
    } else {
        proof {
            reveal_strlit("https://");
            reveal_strlit("http://");
        }
        return None;
    };
    proof {
        reveal_strlit("https://");
        reveal_strlit("http://");
    }
    let end = scan_authority(url, start);
    let ghost auth = url@.skip(start as int).take(authority_len(url@.skip(start as int)) as int);
    assert(auth =~= url@.subrange(start as int, end as int));
    // The host starts after the last `@` of the authority.
    let mut k = end;
    while k > start && url.get_char(k - 1) != '@'
        invariant
            start <= k <= end <= n,
            n == url@.len(),
            forall|j: int| k <= j < end ==> url@[j] != '@',
        decreases k,
    {
        k = k - 1;
    }
    proof {
        lemma_after_userinfo_from(auth, k - start);
        assert(auth.skip(k - start) =~= url@.subrange(k as int, end as int));
    }
    // ... and ends at the first `:` after that.
    let mut e = k;
    while e < end && url.get_char(e) != ':'
        invariant
            k <= e <= end <= n,
            n == url@.len(),
            forall|j: int| k <= j < e ==> url@[j] != ':',
        decreases end - e,
    {
        e = e + 1;
    }
    proof {
        let h = url@.subrange(k as int, end as int);
        lemma_before_port_prefix(h, e - k);
        assert(h.take(e - k) =~= url@.subrange(k as int, e as int));
    }
    if e == k {
        return None;
    }
    Some(to_ascii_lower(url.substring_char(k, e)))
}

fn is_within(host: &str, domain: &str) -> (r: bool)
    ensures
        r == within(host@, domain@),
{
    if str_eq(host, domain) {
        return true;
    }
    let n = host.unicode_len();
    let d = domain.unicode_len();
    if n <= d {
        return false;
    }
    let dot = host.get_char(n - d - 1) == '.';
    let tail = str_eq(host.substring_char(n - d, n), domain);
    dot && tail
}

fn host_kind(url: &str) -> (r: Option<KeyedHost>)
    ensures
        r == keyed_host(url@),
{
    match url_host(url) {
        Some(h) => {
            let h = h.as_str();
            if is_within(h, "civitai.com") || is_within(h, "civitai.red") {
                Some(KeyedHost::Civitai)
            } else if is_within(h, "huggingface.co") || is_within(h, "hf.co") {
                Some(KeyedHost::HuggingFace)
            } else {
                None
            }
        },
        None => None,
    }
}

impl HostTokens {
    /// The key `url` may carry: its own service's key, and only that.
    pub fn for_url(&self, url: &str) -> (r: Option<&str>)
        ensures
            keyed_host(url@) == Some(KeyedHost::Civitai) ==> (match self.civitai {
                Some(k) => r matches Some(t) && t@ == k@,
                None => r is None,
            }),
            keyed_host(url@) == Some(KeyedHost::HuggingFace) ==> (match self.huggingface {
                Some(k) => r matches Some(t) && t@ == k@,
                None => r is None,
            }),
            keyed_host(url@) is None ==> r is None,
    {
        match host_kind(url) {
            Some(KeyedHost::Civitai) => match &self.civitai {
                Some(k) => Some(k.as_str()),
                None => None,
            },
            Some(KeyedHost::HuggingFace) => match &self.huggingface {
                Some(k) => Some(k.as_str()),
                None => None,
            },
            None => None,
        }
    }

    /// Whether `url` is on a host that takes a key — with or without one
    /// configured — so a refusal can name the missing key.
    pub fn knows(&self, url: &str) -> (r: bool)
        ensures
            r == keyed_host(url@) is Some,
    {
        host_kind(url).is_some()
    }

    /// The name of the key `url`'s host takes, for messages.
    pub fn key_name(url: &str) -> (r: &'static str)
        ensures
            keyed_host(url@) == Some(KeyedHost::Civitai) ==> r@ == "Civitai API key"@,
            keyed_host(url@) == Some(KeyedHost::HuggingFace) ==> r@ == "Hugging Face token"@,
            keyed_host(url@) is None ==> r@ == "API key"@,
    {
        match host_kind(url) {
            Some(KeyedHost::Civitai) => "Civitai API key",
            Some(KeyedHost::HuggingFace) => "Hugging Face token",
            None => "API key",
        }
    }
}

} // verus!
