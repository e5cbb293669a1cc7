use wikipedia_scraper::graph::GraphStore;
use wikipedia_scraper::scraper::{
    edges_csv, nodes_csv, undirected_edges, undirected_nodes, WikipediaScraper,
};

fn scraper_with(depth: u64, undirected: bool) -> WikipediaScraper {
    WikipediaScraper::new(
        "https://en.wikipedia.org/wiki/A",
        depth,
        2,
        None,
        undirected,
        false,
    )
}

#[test]
fn zero_depth_and_zero_threads_are_raised_to_one() {
    let s = WikipediaScraper::new("https://en.wikipedia.org/wiki/A", 0, 0, None, false, false);
    assert_eq!(s.depth(), 1);
    assert_eq!(s.num_threads(), 1);
    let seed = s.seed_task();
    assert_eq!(seed, (String::from("https://en.wikipedia.org/wiki/A"), 1));
}

#[test]
fn configuration_is_kept() {
    let s = WikipediaScraper::new(
        "https://en.wikipedia.org/wiki/A",
        5,
        4,
        Some(vec![String::from("dragon")]),
        true,
        true,
    );
    assert_eq!(s.url().as_str(), "https://en.wikipedia.org/wiki/A");
    assert_eq!(s.depth(), 5);
    assert_eq!(s.num_threads(), 4);
    assert!(s.undirected());
    assert!(s.keep_external_links());
    assert_eq!(s.num_pages(), 0);
    assert_eq!(s.num_links(), 0);
}

#[test]
fn seeding_hands_the_task_to_the_channel() {
    let s = scraper_with(3, false);
    let (tx, rx) = crossbeam_channel::unbounded();
    s.seed(&tx).unwrap();
    assert_eq!(
        rx.try_recv().unwrap(),
        (String::from("https://en.wikipedia.org/wiki/A"), 3)
    );
}

#[test]
fn counts_follow_the_installed_store() {
    let mut s = scraper_with(2, false);
    let mut store = GraphStore::new();
    let a = String::from("https://en.wikipedia.org/wiki/A");
    let b = String::from("https://en.wikipedia.org/wiki/B");
    let ia = store.register_page(&a);
    let ib = store.register_page(&b);
    store.add_link(ia, ib);
    s.set_store(store);
    assert_eq!(s.num_pages(), 2);
    assert_eq!(s.num_links(), 1);
}

#[test]
fn directed_tables_list_every_page_and_link() {
    let mut s = scraper_with(2, false);
    let mut store = GraphStore::new();
    let a = String::from("https://en.wikipedia.org/wiki/A");
    let b = String::from("https://en.wikipedia.org/wiki/B");
    let ia = store.register_page(&a);
    let ib = store.register_page(&b);
    store.add_link(ia, ib);
    s.set_store(store);
    let (nodes, edges) = s.save_tables();
    assert_eq!(
        String::from_utf8(nodes).unwrap(),
        "node_id,url\n0,\"https://en.wikipedia.org/wiki/A\"\n1,\"https://en.wikipedia.org/wiki/B\"\n"
    );
    assert_eq!(String::from_utf8(edges).unwrap(), "source,target\n0,1\n");
}

#[test]
fn multi_digit_identifiers_are_printed_in_decimal() {
    let links = vec![(10u64, 234u64), (0u64, 5u64)];
    let table = edges_csv(&links);
    assert_eq!(
        String::from_utf8(table).unwrap(),
        "source,target\n10,234\n0,5\n"
    );
}

#[test]
fn the_largest_identifier_is_printed_in_full() {
    let links = vec![(u64::MAX, 0u64)];
    let table = edges_csv(&links);
    assert_eq!(
        String::from_utf8(table).unwrap(),
        "source,target\n18446744073709551615,0\n"
    );
}

#[test]
fn undirected_projection_keeps_only_reciprocated_links() {
    // links: A<->B reciprocated, A->C one-way
    let links = vec![(0u64, 1u64), (1u64, 0u64), (0u64, 2u64)];
    let kept = undirected_edges(&links);
    assert_eq!(kept, vec![(0u64, 1u64)]);
}

#[test]
fn undirected_projection_drops_untouched_pages() {
    let pages = vec![
        (String::from("https://en.wikipedia.org/wiki/A"), 0u64),
        (String::from("https://en.wikipedia.org/wiki/B"), 1u64),
        (String::from("https://en.wikipedia.org/wiki/C"), 2u64),
    ];
    let links = vec![(0u64, 1u64), (1u64, 0u64), (0u64, 2u64)];
    let kept_edges = undirected_edges(&links);
    let kept_pages = undirected_nodes(&pages, &kept_edges);
    assert_eq!(
        kept_pages,
        vec![
            (String::from("https://en.wikipedia.org/wiki/A"), 0u64),
            (String::from("https://en.wikipedia.org/wiki/B"), 1u64),
        ]
    );
}

#[test]
fn self_loop_counts_as_its_own_reverse() {
    let links = vec![(3u64, 3u64)];
    let kept = undirected_edges(&links);
    assert_eq!(kept, vec![(3u64, 3u64)]);
}

#[test]
fn undirected_tables_for_a_mutual_pair() {
    let mut s = scraper_with(2, true);
    let mut store = GraphStore::new();
    let a = String::from("https://en.wikipedia.org/wiki/A");
    let b = String::from("https://en.wikipedia.org/wiki/B");
    let anchors_of_a = vec![b.clone()];
    let anchors_of_b = vec![a.clone()];
    store.record_page_links(&a, 2, &anchors_of_a);
    store.record_page_links(&b, 1, &anchors_of_b);
    s.set_store(store);
    let (nodes, edges) = s.save_tables();
    assert_eq!(
        String::from_utf8(nodes).unwrap(),
        "node_id,url\n0,\"https://en.wikipedia.org/wiki/A\"\n1,\"https://en.wikipedia.org/wiki/B\"\n"
    );
    assert_eq!(String::from_utf8(edges).unwrap(), "source,target\n0,1\n");
}

#[test]
fn empty_graph_yields_bare_headers() {
    let s = scraper_with(1, false);
    let (nodes, edges) = s.save_tables();
    assert_eq!(String::from_utf8(nodes).unwrap(), "node_id,url\n");
    assert_eq!(String::from_utf8(edges).unwrap(), "source,target\n");
}

#[test]
fn nodes_table_quotes_urls() {
    let pages = vec![(String::from("https://en.wikipedia.org/wiki/Ünïcødé"), 0u64)];
    let table = nodes_csv(&pages);
    assert_eq!(
        String::from_utf8(table).unwrap(),
        "node_id,url\n0,\"https://en.wikipedia.org/wiki/Ünïcødé\"\n"
    );
}
