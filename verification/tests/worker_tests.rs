use wikipedia_scraper::errors::ScraperError;
use wikipedia_scraper::graph::GraphStore;
use wikipedia_scraper::worker::Worker;

fn channel() -> (
    crossbeam_channel::Sender<(String, u64)>,
    crossbeam_channel::Receiver<(String, u64)>,
) {
    crossbeam_channel::unbounded()
}

fn worker(keywords: Option<Vec<String>>, keep_external: bool) -> Worker {
    let (tx, rx) = channel();
    Worker::new(0, keywords, rx, tx, keep_external)
}

const PAGE_A: &str = "<html><body><div id=\"bodyContent\"><a href=\"/wiki/B\">b</a><a href=\"https://example.com/X\">x</a><a href=\"/wiki/Help:Contents\">help</a><a href=\"/w/index.php\">edit</a><a href=\"/wiki/C#Syntax\">c</a><a name=\"no-href\">plain</a></div></body></html>";

#[test]
fn anchor_list_is_extracted_and_normalized() {
    let w = worker(None, false);
    let anchors = w.get_anchor_list(PAGE_A).unwrap();
    assert_eq!(
        anchors,
        vec![
            String::from("https://en.wikipedia.org/wiki/B"),
            String::from("https://en.wikipedia.org/wiki/C"),
        ]
    );
}

#[test]
fn anchor_list_keeps_external_links_on_request() {
    let w = worker(None, true);
    let anchors = w.get_anchor_list(PAGE_A).unwrap();
    assert_eq!(
        anchors,
        vec![
            String::from("https://en.wikipedia.org/wiki/B"),
            String::from("https://example.com/X"),
            String::from("https://en.wikipedia.org/wiki/C"),
        ]
    );
}

#[test]
fn page_without_content_element_fails_extraction() {
    let w = worker(None, false);
    let r = w.get_anchor_list("<html><body><p>no content div</p></body></html>");
    match r {
        Err(ScraperError::NoContentFound(url)) => assert_eq!(url, ""),
        _ => panic!("expected a no-content error"),
    }
}

#[test]
fn error_messages_name_their_cause() {
    let e = ScraperError::NoContentFound(String::from("u"));
    assert_eq!(e.message(), "could not find any content in the page with url u");
    let e = ScraperError::ChannelError;
    assert_eq!(e.message(), "could not send data to internal channel");
    let e = ScraperError::RequestFailed(String::from("timed out"));
    assert_eq!(e.message(), "could not fetch data: timed out");
    let e = ScraperError::ReadError(String::from("broken pipe"));
    assert_eq!(e.message(), "could not read response: broken pipe");
}

#[test]
fn scrape_step_updates_store_and_enqueues_follow_on_tasks() {
    let (tx, rx) = channel();
    let w = Worker::new(0, None, rx.clone(), tx, false);
    let mut store = GraphStore::new();
    let a = String::from("https://en.wikipedia.org/wiki/A");
    w.scrape_with_depth(&mut store, &a, 2, PAGE_A).unwrap();
    // A, B and C are registered; the external and namespace links are not
    assert_eq!(store.num_pages(), 3);
    assert_eq!(store.num_links(), 2);
    // one follow-on task per newly found internal link, one depth lower
    let t1 = rx.try_recv().unwrap();
    let t2 = rx.try_recv().unwrap();
    assert_eq!(t1, (String::from("https://en.wikipedia.org/wiki/B"), 1));
    assert_eq!(t2, (String::from("https://en.wikipedia.org/wiki/C"), 1));
    assert!(rx.try_recv().is_err());
}

#[test]
fn scrape_step_at_depth_one_enqueues_nothing() {
    let (tx, rx) = channel();
    let w = Worker::new(0, None, rx.clone(), tx, false);
    let mut store = GraphStore::new();
    let a = String::from("https://en.wikipedia.org/wiki/A");
    w.scrape_with_depth(&mut store, &a, 1, PAGE_A).unwrap();
    assert_eq!(store.num_pages(), 3);
    assert_eq!(store.num_links(), 2);
    assert!(rx.try_recv().is_err());
}

#[test]
fn scrape_step_on_contentless_page_has_no_effect() {
    let (tx, rx) = channel();
    let w = Worker::new(0, None, rx.clone(), tx, false);
    let mut store = GraphStore::new();
    let a = String::from("https://en.wikipedia.org/wiki/A");
    w.scrape_with_depth(&mut store, &a, 2, "<html><body></body></html>")
        .unwrap();
    assert_eq!(store.num_pages(), 0);
    assert_eq!(store.num_links(), 0);
    assert!(rx.try_recv().is_err());
}

#[test]
fn mutual_links_build_a_reciprocal_pair() {
    let (tx, rx) = channel();
    let w = Worker::new(0, None, rx.clone(), tx, false);
    let mut store = GraphStore::new();
    let a = String::from("https://en.wikipedia.org/wiki/A");
    let b = String::from("https://en.wikipedia.org/wiki/B");
    let page_a = "<html><body><div id=\"bodyContent\"><a href=\"/wiki/B\">b</a></div></body></html>";
    let page_b = "<html><body><div id=\"bodyContent\"><a href=\"/wiki/A\">a</a></div></body></html>";
    w.scrape_with_depth(&mut store, &a, 2, page_a).unwrap();
    let task = rx.try_recv().unwrap();
    assert_eq!(task, (b.clone(), 1));
    w.scrape_with_depth(&mut store, &task.0, task.1, page_b).unwrap();
    assert_eq!(store.num_pages(), 2);
    assert_eq!(store.num_links(), 2);
    let ia = store.get_page_id(&a).unwrap();
    let ib = store.get_page_id(&b).unwrap();
    assert!(store.links().contains(&(ia, ib)));
    assert!(store.links().contains(&(ib, ia)));
}

#[test]
fn scrape_step_without_anchors_has_no_effect() {
    let (tx, rx) = channel();
    let w = Worker::new(0, None, rx.clone(), tx, false);
    let mut store = GraphStore::new();
    let a = String::from("https://en.wikipedia.org/wiki/A");
    let page = "<html><body><div id=\"bodyContent\"><p>plain text</p></div></body></html>";
    w.scrape_with_depth(&mut store, &a, 2, page).unwrap();
    assert_eq!(store.num_pages(), 0);
    assert_eq!(store.num_links(), 0);
    assert!(rx.try_recv().is_err());
}

#[test]
fn dead_task_channel_is_a_channel_error() {
    // the worker listens on one channel but sends follow-on tasks into a
    // channel whose last receiver is gone
    let (_tx_alive, rx_alive) = channel();
    let (tx_dead, rx_dead) = channel();
    drop(rx_dead);
    let w = Worker::new(0, None, rx_alive, tx_dead, false);
    let mut store = GraphStore::new();
    let a = String::from("https://en.wikipedia.org/wiki/A");
    let page = "<html><body><div id=\"bodyContent\"><a href=\"/wiki/B\">b</a></div></body></html>";
    let r = w.scrape_with_depth(&mut store, &a, 2, page);
    assert!(matches!(r, Err(ScraperError::ChannelError)));
    // the store keeps the step's effect; only the enqueue failed
    assert_eq!(store.num_pages(), 2);
    assert_eq!(store.num_links(), 1);
}

#[test]
fn try_next_task_polls_without_blocking() {
    let (tx, rx) = channel();
    let w = Worker::new(0, None, rx, tx.clone(), false);
    assert_eq!(w.try_next_task(), None);
    tx.send((String::from("https://en.wikipedia.org/wiki/A"), 3)).unwrap();
    assert_eq!(
        w.try_next_task(),
        Some((String::from("https://en.wikipedia.org/wiki/A"), 3))
    );
    assert_eq!(w.try_next_task(), None);
}

#[test]
fn worker_reports_its_configuration() {
    let keywords = Some(vec![String::from("dragon")]);
    let w = worker(keywords.clone(), true);
    assert_eq!(w.id(), 0);
    assert_eq!(w.keywords(), &keywords);
}
