use vstd::prelude::*;
use vstd::string::StrSliceExecFns;

verus! {

/// What `str::to_lowercase` returns for a string with these characters.
pub uninterp spec fn lower_of(s: Seq<char>) -> Seq<char>;

/// Relies on str::to_lowercase: the result depends on the characters of
/// the input alone.
#[verifier::external_body]
fn to_lowercase_string(s: &str) -> (r: String)
    ensures
        r@ == lower_of(s@),
{
    s.to_lowercase()
}

/// `needle` occurs contiguously somewhere in `hay`.
pub open spec fn is_substring_of(needle: Seq<char>, hay: Seq<char>) -> bool {
    exists|i: int|
        0 <= i <= hay.len() - needle.len() && #[trigger] hay.subrange(i, i + needle.len())
            == needle
}

/// Whether `hay` matches `needle` at position `i`.
#[verifier::loop_isolation(false)]
fn matches_at(hay: &str, needle: &str, i: usize) -> (r: bool)
    requires
        i + needle@.len() <= hay@.len(),
    ensures
        r == (hay@.subrange(i as int, i + needle@.len()) == needle@),
{
    let n = hay.unicode_len();
    let m = needle.unicode_len();
    let mut j: usize = 0;
    while j < m
        invariant
            j <= m,
            forall|k: int| 0 <= k < j ==> hay@[i + k] == needle@[k],
        decreases m - j,
    {
        if hay.get_char(i + j) != needle.get_char(j) {
            proof {
                assert(hay@.subrange(i as int, i + needle@.len())[j as int] != needle@[j as int]);
            }
            return false;
        }
        j += 1;
    }
    proof {
        assert(hay@.subrange(i as int, i + needle@.len()) =~= needle@);
    }
    true
}

/// Whether `needle` occurs contiguously in `hay`, by characters.
#[verifier::loop_isolation(false)]
pub fn contains_substring(hay: &str, needle: &str) -> (r: bool)
    ensures
        r == is_substring_of(needle@, hay@),
{
    let n = hay.unicode_len();
    let m = needle.unicode_len();
    if m > n {
        return false;
    }
    if m == 0 {
        proof {
            assert(hay@.subrange(0, 0 + needle@.len() as int) =~= needle@);
        }
        return true;
    }
    let mut i: usize = 0;
    while i <= n - m
        invariant
            0 < m <= n,
            n == hay@.len(),
            m == needle@.len(),
            i <= n - m + 1,
            forall|k: int|
                0 <= k < i ==> #[trigger] hay@.subrange(k, k + needle@.len()) != needle@,
        decreases n - m + 1 - i,
    {
        if matches_at(hay, needle, i) {
            return true;
        }
        i += 1;
    }
    false
}

/// The keyword filter of the crawl: with no keyword set every page
/// passes; with a keyword set, a page passes exactly when some keyword
/// occurs in the page's content, both taken case-insensitively.
pub open spec fn keyword_filter_spec(content: Seq<char>, keywords: Option<Seq<Seq<char>>>) -> bool {
    match keywords {
        None => true,
        Some(ks) => exists|i: int|
            0 <= i < ks.len() && is_substring_of(#[trigger] lower_of(ks[i]), lower_of(content)),
    }
}

/// Decides whether a fetched page counts as found for indexing: pages
/// that fail the keyword filter are abandoned without being registered.
#[verifier::loop_isolation(false)]
pub fn passes_keyword_filter(content: &str, keywords: &Option<Vec<String>>) -> (r: bool)
    ensures
        r == keyword_filter_spec(content@, keywords.deep_view()),
{
    match keywords {
        None => true,
        Some(ks) => {
            let lower_content = to_lowercase_string(content);
            let mut i: usize = 0;
            while i < ks.len()
                invariant
                    i <= ks@.len(),
                    lower_content@ == lower_of(content@),
                    forall|k: int|
                        0 <= k < i ==> !is_substring_of(
                            lower_of(ks.deep_view()[k]),
                            lower_of(content@),
                        ),
                decreases ks@.len() - i,
            {
                let lower_keyword = to_lowercase_string(ks[i].as_str());
                if contains_substring(lower_content.as_str(), lower_keyword.as_str()) {
                    proof {
                        assert(keywords.deep_view() == Some(ks.deep_view()));
                        let ksv = keywords.deep_view()->0;
                        assert(ksv[i as int] == ks@[i as int]@);
                        assert(is_substring_of(lower_of(ksv[i as int]), lower_of(content@)));
                        assert(keyword_filter_spec(content@, keywords.deep_view()));
                    }
                    return true;
                }
                proof {
                    assert(ks.deep_view()[i as int] == ks@[i as int]@);
                }
                i += 1;
            }
            false
        },
    }
}

} // verus!
