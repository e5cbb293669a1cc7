use wikipedia_scraper::graph::GraphStore;

#[test]
fn register_same_url_twice_yields_same_id() {
    let mut store = GraphStore::new();
    let url = String::from("https://en.wikipedia.org/wiki/Rust");
    let first = store.register_page(&url);
    let second = store.register_page(&url);
    assert_eq!(first, second);
    assert_eq!(store.num_pages(), 1);
}

#[test]
fn distinct_urls_get_distinct_ids() {
    let mut store = GraphStore::new();
    let a = String::from("https://en.wikipedia.org/wiki/A");
    let b = String::from("https://en.wikipedia.org/wiki/B");
    let c = String::from("https://en.wikipedia.org/wiki/C");
    let ia = store.register_page(&a);
    let ib = store.register_page(&b);
    let ic = store.register_page(&c);
    assert_ne!(ia, ib);
    assert_ne!(ib, ic);
    assert_ne!(ia, ic);
    assert_eq!(store.num_pages(), 3);
    assert_eq!(store.get_page_id(&a), Some(ia));
    assert_eq!(store.get_page_id(&b), Some(ib));
    assert_eq!(store.get_page_id(&c), Some(ic));
}

#[test]
fn unknown_url_has_no_id() {
    let store = GraphStore::new();
    let a = String::from("https://en.wikipedia.org/wiki/A");
    assert_eq!(store.get_page_id(&a), None);
    assert_eq!(store.num_pages(), 0);
    assert_eq!(store.num_links(), 0);
}

#[test]
fn duplicate_link_is_kept_once() {
    let mut store = GraphStore::new();
    let a = String::from("https://en.wikipedia.org/wiki/A");
    let b = String::from("https://en.wikipedia.org/wiki/B");
    let ia = store.register_page(&a);
    let ib = store.register_page(&b);
    store.add_link(ia, ib);
    store.add_link(ia, ib);
    store.add_link(ia, ib);
    assert_eq!(store.num_links(), 1);
    store.add_link(ib, ia);
    assert_eq!(store.num_links(), 2);
}

#[test]
fn record_page_links_registers_anchors_and_emits_tasks() {
    let mut store = GraphStore::new();
    let a = String::from("https://en.wikipedia.org/wiki/A");
    let anchors = vec![
        String::from("https://en.wikipedia.org/wiki/B"),
        String::from("https://example.com/outside"),
    ];
    let tasks = store.record_page_links(&a, 3, &anchors);
    assert_eq!(store.num_pages(), 3);
    assert_eq!(store.num_links(), 2);
    // only the internal anchor yields a follow-on task, one depth lower
    assert_eq!(tasks.len(), 1);
    assert_eq!(tasks[0].0, "https://en.wikipedia.org/wiki/B");
    assert_eq!(tasks[0].1, 2);
}

#[test]
fn record_page_links_at_depth_one_emits_no_tasks() {
    let mut store = GraphStore::new();
    let a = String::from("https://en.wikipedia.org/wiki/A");
    let anchors = vec![String::from("https://en.wikipedia.org/wiki/B")];
    let tasks = store.record_page_links(&a, 1, &anchors);
    assert_eq!(store.num_pages(), 2);
    assert_eq!(store.num_links(), 1);
    assert!(tasks.is_empty());
}

#[test]
fn record_page_links_known_anchor_adds_edge_only() {
    let mut store = GraphStore::new();
    let a = String::from("https://en.wikipedia.org/wiki/A");
    let b = String::from("https://en.wikipedia.org/wiki/B");
    store.register_page(&a);
    store.register_page(&b);
    let anchors = vec![b.clone()];
    let tasks = store.record_page_links(&a, 5, &anchors);
    // B was already registered, so no new page and no follow-on task
    assert_eq!(store.num_pages(), 2);
    assert_eq!(store.num_links(), 1);
    assert!(tasks.is_empty());
}

#[test]
fn two_sources_discover_same_page() {
    // Two workers race to discover C from A and B; under the store's
    // critical section their steps interleave as two sequential calls.
    let mut store = GraphStore::new();
    let a = String::from("https://en.wikipedia.org/wiki/A");
    let b = String::from("https://en.wikipedia.org/wiki/B");
    let c = String::from("https://en.wikipedia.org/wiki/C");
    let anchors_of_a = vec![c.clone()];
    let anchors_of_b = vec![c.clone()];
    store.record_page_links(&a, 2, &anchors_of_a);
    store.record_page_links(&b, 2, &anchors_of_b);
    let ia = store.get_page_id(&a).unwrap();
    let ib = store.get_page_id(&b).unwrap();
    let ic = store.get_page_id(&c).unwrap();
    // C got exactly one identifier, and both edges are present
    assert_eq!(store.num_pages(), 3);
    assert_eq!(store.num_links(), 2);
    let links = store.links();
    assert!(links.contains(&(ia, ic)));
    assert!(links.contains(&(ib, ic)));
}

#[test]
fn pages_listing_matches_registrations() {
    let mut store = GraphStore::new();
    let a = String::from("https://en.wikipedia.org/wiki/A");
    let b = String::from("https://en.wikipedia.org/wiki/B");
    let ia = store.register_page(&a);
    let ib = store.register_page(&b);
    let pages = store.pages();
    assert_eq!(pages.len(), 2);
    assert_eq!(pages[ia as usize], (a, ia));
    assert_eq!(pages[ib as usize], (b, ib));
}
