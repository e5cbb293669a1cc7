use wikipedia_scraper::normalize::get_complete_url;

#[test]
fn internal_link_is_rewritten_to_absolute() {
    assert_eq!(
        get_complete_url("/wiki/Rust_(programming_language)", false),
        Some(String::from("https://en.wikipedia.org/wiki/Rust_(programming_language)"))
    );
}

#[test]
fn fragment_is_stripped() {
    assert_eq!(
        get_complete_url("/wiki/Rust#History", false),
        Some(String::from("https://en.wikipedia.org/wiki/Rust"))
    );
}

#[test]
fn namespace_link_is_rejected() {
    assert_eq!(get_complete_url("/wiki/Category:Programming", false), None);
    assert_eq!(get_complete_url("/wiki/Category:Programming", true), None);
}

#[test]
fn reserved_path_is_rejected() {
    assert_eq!(get_complete_url("/w/index.php?title=Foo", false), None);
}

#[test]
fn external_link_is_dropped_by_default() {
    assert_eq!(get_complete_url("https://example.com/page", false), None);
}

#[test]
fn external_link_is_kept_on_request() {
    assert_eq!(
        get_complete_url("https://example.com/page", true),
        Some(String::from("https://example.com/page"))
    );
}

#[test]
fn fragment_only_link_counts_as_external() {
    assert_eq!(get_complete_url("#cite_note-1", false), None);
    assert_eq!(get_complete_url("#cite_note-1", true), Some(String::from("#cite_note-1")));
}

#[test]
fn empty_target_counts_as_external() {
    assert_eq!(get_complete_url("", false), None);
    assert_eq!(get_complete_url("", true), Some(String::new()));
}

#[test]
fn leading_fragment_on_internal_link_yields_bare_base() {
    assert_eq!(
        get_complete_url("/#top", false),
        Some(String::from("https://en.wikipedia.org/"))
    );
}
