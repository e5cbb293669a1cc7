use vstd::prelude::*;
use vstd::string::StrSliceExecFns;
use vstd::string::StringExecFns;

verus! {

/// The canonical address prefix that rewritten internal links receive.
pub open spec fn wiki_base() -> Seq<char> {
    "https://en.wikipedia.org"@
}

/// The article prefix that marks a canonical URL as an internal page link,
/// eligible for follow-on crawling.
pub open spec fn wiki_article_prefix() -> Seq<char> {
    "https://en.wikipedia.org/wiki/"@
}

/// `p` is a prefix of `s`.
pub open spec fn starts_with_spec(s: Seq<char>, p: Seq<char>) -> bool {
    p.len() <= s.len() && s.subrange(0, p.len() as int) == p
}

/// The part of `s` before its first `#`, or all of `s` when it has none.
pub open spec fn before_fragment(s: Seq<char>) -> Seq<char> {
    match s.index_of_first('#') {
        Some(i) => s.subrange(0, i),
        None => s,
    }
}

/// What becomes of one raw hyperlink target: rejected (`None`), kept
/// verbatim (a target that does not start with `/` is external and is kept
/// only when `keep_external_links` is set), or rewritten to a canonical
/// absolute address with any fragment stripped.  A target holding a
/// namespace separator `:`, or lying under the reserved `/w` path outside
/// `/wiki`, is rejected.
pub open spec fn complete_url_spec(url: Seq<char>, keep_external_links: bool) -> Option<
    Seq<char>,
> {
    if !(url.len() > 0 && url[0] == '/') {
        if keep_external_links {
            Some(url)
        } else {
            None
        }
    } else if url.contains(':') {
        None
    } else if starts_with_spec(url, "/w"@) && !starts_with_spec(url, "/wiki"@) {
        None
    } else {
        Some(wiki_base() + before_fragment(url))
    }
}

/// Whether `p` is a prefix of `s`, compared character by character.
pub fn str_starts_with(s: &str, p: &str) -> (r: bool)
    ensures
        r == starts_with_spec(s@, p@),
{
    let n = s.unicode_len();
    let m = p.unicode_len();
    if m > n {
        return false;
    }
    let mut j: usize = 0;
    while j < m
        invariant
            m <= n,
            m == p@.len(),
            n == s@.len(),
            j <= m,
            forall|k: int| 0 <= k < j ==> s@[k] == p@[k],
        decreases m - j,
    {
        if s.get_char(j) != p.get_char(j) {
            assert(s@.subrange(0, p@.len() as int)[j as int] != p@[j as int]);
            return false;
        }
        j += 1;
    }
    assert(s@.subrange(0, p@.len() as int) =~= p@);
    true
}

/// The index of the first occurrence of `c` in `s`, if any.
pub fn str_find_char(s: &str, c: char) -> (r: Option<usize>)
    ensures
        match r {
            Some(i) => i < s@.len() && s@[i as int] == c && (forall|k: int|
                0 <= k < i ==> s@[k] != c),
            None => !s@.contains(c),
        },
{
    let n = s.unicode_len();
    let mut i: usize = 0;
    while i < n
        invariant
            n == s@.len(),
            i <= n,
            forall|k: int| 0 <= k < i ==> s@[k] != c,
        decreases n - i,
    {
        if s.get_char(i) == c {
            return Some(i);
        }
        i += 1;
    }
    None
}

/// Converts one raw hyperlink target into a canonical absolute address, or
/// rejects it.  Internal targets (those starting with `/`) are rewritten
/// onto the site's base address with any `#` fragment stripped; targets in
/// another namespace (holding `:`) or under the reserved `/w` path outside
/// `/wiki` are rejected; anything else is external and is kept verbatim
/// only when `keep_external_links` is set.
pub fn get_complete_url(url: &str, keep_external_links: bool) -> (r: Option<String>)
    ensures
        r.deep_view() == complete_url_spec(url@, keep_external_links),
{
    let n = url.unicode_len();
    if n == 0 || url.get_char(0) != '/' {
        if keep_external_links {
            return Some(url.to_owned());
        } else {
            return None;
        }
    }
    if let Some(_) = str_find_char(url, ':') {
        return None;
    }
    if str_starts_with(url, "/w") && !str_starts_with(url, "/wiki") {
        return None;
    }
    let base = "https://en.wikipedia.org".to_owned();
    match str_find_char(url, '#') {
        Some(i) => {
            proof {
                url@.index_of_first_ensures('#');
            }
            let stripped = url.substring_char(0, i);
            Some(base.concat(stripped))
        },
        None => {
            proof {
                url@.index_of_first_ensures('#');
                if url@.index_of_first('#') is Some {
                    let j = url@.index_of_first('#')->0;
                    assert(url@[j] == '#');
                    assert(url@.contains('#'));
                }
            }
            Some(base.concat(url))
        },
    }
}

} // verus!
