use wikipedia_scraper::filter::{contains_substring, passes_keyword_filter};
use wikipedia_scraper::graph::GraphStore;

#[test]
fn no_keyword_set_passes_everything() {
    assert!(passes_keyword_filter("anything at all", &None));
    assert!(passes_keyword_filter("", &None));
}

#[test]
fn keyword_found_case_insensitively() {
    let keywords = Some(vec![String::from("DRAGON")]);
    assert!(passes_keyword_filter("Here be dragons.", &keywords));
    let keywords = Some(vec![String::from("dragon")]);
    assert!(passes_keyword_filter("HERE BE DRAGONS", &keywords));
}

#[test]
fn page_without_keyword_is_filtered() {
    let keywords = Some(vec![String::from("dragon")]);
    assert!(!passes_keyword_filter("A page about knights only.", &keywords));
}

#[test]
fn any_of_several_keywords_suffices() {
    let keywords = Some(vec![String::from("castle"), String::from("dragon")]);
    assert!(passes_keyword_filter("A dragon appears.", &keywords));
    assert!(passes_keyword_filter("A castle appears.", &keywords));
    assert!(!passes_keyword_filter("Nothing of note.", &keywords));
}

#[test]
fn empty_keyword_list_filters_everything() {
    let keywords = Some(Vec::new());
    assert!(!passes_keyword_filter("any content", &keywords));
}

#[test]
fn filtered_seed_page_leaves_the_graph_empty() {
    // A worker abandons a page that fails the filter before registering
    // it, so a crawl whose seed page lacks the keyword ends empty.
    let keywords = Some(vec![String::from("dragon")]);
    let content = "<html><body><div id=\"bodyContent\"><a href=\"/wiki/B\">b</a></div></body></html>";
    assert!(!passes_keyword_filter(content, &keywords));
    let store = GraphStore::new();
    assert_eq!(store.num_pages(), 0);
    assert_eq!(store.num_links(), 0);
}

#[test]
fn substring_search_finds_needles() {
    assert!(contains_substring("abcdef", "cde"));
    assert!(contains_substring("abcdef", ""));
    assert!(contains_substring("abcdef", "abcdef"));
    assert!(!contains_substring("abcdef", "cdf"));
    assert!(!contains_substring("ab", "abc"));
}
