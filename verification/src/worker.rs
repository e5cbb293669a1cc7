use crate::errors::ScraperError;
use crate::graph::{page_step, GraphStore};
use crate::normalize::{complete_url_spec, get_complete_url};
use vstd::prelude::*;

verus! {

#[verifier::external_type_specification]
#[verifier::external_body]
#[verifier::reject_recursive_types(T)]
/// The sending end of the crossbeam channel that carries crawl tasks.
pub struct ExSender<T>(crossbeam_channel::Sender<T>);

#[verifier::external_type_specification]
#[verifier::external_body]
#[verifier::reject_recursive_types(T)]
/// The receiving end of the crossbeam channel that carries crawl tasks.
pub struct ExReceiver<T>(crossbeam_channel::Receiver<T>);

#[verifier::external_type_specification]
#[verifier::external_body]
#[verifier::reject_recursive_types(T)]
/// The error a send returns when every receiver is gone; it carries the
/// undelivered message.
pub struct ExSendError<T>(crossbeam_channel::SendError<T>);

/// Relies on crossbeam_channel::Sender::send: on an unbounded channel it
/// never blocks, and it errs exactly when every receiver has been
/// dropped.  Whether that has happened depends on the other threads, so
/// nothing more can be promised of the outcome.
#[verifier::external_body]
pub(crate) fn send_task(
    tx: &crossbeam_channel::Sender<(String, u64)>,
    task: (String, u64),
) -> Result<(), crossbeam_channel::SendError<(String, u64)>> {
    tx.send(task)
}

/// Relies on crossbeam_channel::Receiver::try_recv: it returns a queued
/// task without blocking, or nothing when the channel is momentarily
/// empty or disconnected.  What is queued depends on the other threads,
/// so nothing more can be promised of the outcome.
#[verifier::external_body]
fn try_recv_task(rx: &crossbeam_channel::Receiver<(String, u64)>) -> Option<(String, u64)> {
    match rx.try_recv() {
        Ok(task) => Some(task),
        Err(crossbeam_channel::TryRecvError::Empty) => None,
        Err(crossbeam_channel::TryRecvError::Disconnected) => None,
    }
}

/// What the anchor extractor yields for a page with these characters: the
/// href of each anchor under the page's content element, in document
/// order, or nothing when the page has no content element.  Parsing is
/// pure, so this is a function of the document text alone.
pub uninterp spec fn anchor_hrefs_of(content: Seq<char>) -> Option<Seq<Seq<char>>>;

/// Relies on scraper::Html::parse_document and scraper's CSS selection:
/// the anchors under the `#bodyContent` element of the parsed document
/// are a function of the document text alone.
#[verifier::external_body]
fn body_content_hrefs(page_content: &str) -> (r: Option<Vec<String>>)
    ensures
        r.deep_view() == anchor_hrefs_of(page_content@),
{
    let document = ::scraper::Html::parse_document(page_content);
    let content_selector = ::scraper::Selector::parse("#bodyContent").expect(
        "static selector should be valid",
    );
    let anchor_selector = ::scraper::Selector::parse("a").expect("static selector should be valid");
    let content = document.select(&content_selector).next()?;
    let mut hrefs = Vec::new();
    for anchor in content.select(&anchor_selector) {
        if let Some(href) = anchor.value().attr("href") {
            hrefs.push(href.to_owned());
        }
    }
    Some(hrefs)
}

/// The normalized anchor list that a page's raw hrefs yield: each target
/// is rewritten or rejected by the URL normalizer, order kept.
pub open spec fn normalized_anchors(hrefs: Seq<Seq<char>>, keep_external_links: bool) -> Seq<
    Seq<char>,
> {
    hrefs.filter_map(|h: Seq<char>| complete_url_spec(h, keep_external_links))
}

/// One crawl worker: its index in the pool, the keyword set it crawls
/// under, its two ends of the shared task channel, and whether external
/// links are kept.
pub struct Worker {
    id: usize,
    keywords: Option<Vec<String>>,
    rx: crossbeam_channel::Receiver<(String, u64)>,
    tx: crossbeam_channel::Sender<(String, u64)>,
    keep_external_links: bool,
}

impl Worker {
    /// The worker's index in the pool.
    pub closed spec fn id_spec(&self) -> usize {
        self.id
    }

    /// The keyword set the worker crawls under.
    pub closed spec fn keywords_spec(&self) -> Option<Seq<Seq<char>>> {
        self.keywords.deep_view()
    }

    /// Whether the worker keeps external links.
    pub closed spec fn keep_external_spec(&self) -> bool {
        self.keep_external_links
    }

    /// A worker wired to the shared task channel.
    pub fn new(
        id: usize,
        keywords: Option<Vec<String>>,
        rx: crossbeam_channel::Receiver<(String, u64)>,
        tx: crossbeam_channel::Sender<(String, u64)>,
        keep_external_links: bool,
    ) -> (w: Worker)
        ensures
            w.id_spec() == id,
            w.keywords_spec() == keywords.deep_view(),
            w.keep_external_spec() == keep_external_links,
    {
        Worker { id, keywords, rx, tx, keep_external_links }
    }

    /// The worker's index in the pool.
    pub fn id(&self) -> (i: usize)
        ensures
            i == self.id_spec(),
    {
        self.id
    }

    /// The keyword set the worker crawls under.
    pub fn keywords(&self) -> (k: &Option<Vec<String>>)
        ensures
            k.deep_view() == self.keywords_spec(),
    {
        &self.keywords
    }

    /// Polls the shared channel: a queued task, or nothing when the
    /// channel is momentarily empty.
    pub fn try_next_task(&self) -> Option<(String, u64)> {
        try_recv_task(&self.rx)
    }

    /// Extracts the anchors of a fetched page and normalizes each target.
    /// Fails exactly when the page has no recognizable content element.
    #[verifier::loop_isolation(false)]
    pub fn get_anchor_list(&self, page_content: &str) -> (r: Result<Vec<String>, ScraperError>)
        ensures
            match r {
                Ok(list) => anchor_hrefs_of(page_content@) is Some && list.deep_view()
                    == normalized_anchors(
                    anchor_hrefs_of(page_content@)->0,
                    self.keep_external_spec(),
                ),
                Err(e) => anchor_hrefs_of(page_content@) is None && (e matches
                ScraperError::NoContentFound(u) && u@ == Seq::<char>::empty()),
            },
    {
        match body_content_hrefs(page_content) {
            None => Err(ScraperError::NoContentFound(String::new())),
            Some(hrefs) => {
                let ghost hseq = hrefs.deep_view();
                let mut list: Vec<String> = Vec::new();
                proof {
                    assert(hseq.take(0) =~= Seq::<Seq<char>>::empty());
                    assert(list.deep_view() =~= normalized_anchors(
                        hseq.take(0),
                        self.keep_external_links,
                    ));
                }
                let mut i: usize = 0;
                while i < hrefs.len()
                    invariant
                        i <= hrefs@.len(),
                        list.deep_view() == normalized_anchors(
                            hseq.take(i as int),
                            self.keep_external_links,
                        ),
                    decreases hrefs@.len() - i,
                {
                    proof {
                        assert(hseq.take(i as int + 1).drop_last() =~= hseq.take(i as int));
                        assert(hseq.take(i as int + 1).last() == hseq[i as int]);
                        assert(hseq[i as int] == hrefs@[i as int]@);
                    }
                    let ghost list_before = list.deep_view();
                    match get_complete_url(hrefs[i].as_str(), self.keep_external_links) {
                        Some(u) => {
                            let ghost uv = u@;
                            list.push(u);
                            proof {
                                assert(list.deep_view() =~= list_before + seq![uv]);
                            }
                        },
                        None => {},
                    }
                    i += 1;
                }
                proof {
                    assert(hseq.take(hrefs@.len() as int) =~= hseq);
                }
                Ok(list)
            },
        }
    }

    /// One full crawl step for a dequeued task, given the already-fetched
    /// page content: extracts and normalizes the anchors, updates the
    /// shared store under one critical section, and enqueues one
    /// follow-on task per newly discovered internal link while depth
    /// remains.  A page with no content element or no accepted anchors is
    /// abandoned with no effect, so a later task may re-attempt its URL.
    /// Fails only when the task channel has no live receivers left.
    #[verifier::loop_isolation(false)]
    pub fn scrape_with_depth(
        &self,
        store: &mut GraphStore,
        url: &String,
        depth: u64,
        page_content: &str,
    ) -> (r: Result<(), ScraperError>)
        requires
            old(store).wf(),
        ensures
            final(store).wf(),
            ({
                let found = anchor_hrefs_of(page_content@);
                let anchors = normalized_anchors(found->0, self.keep_external_spec());
                if found is None || anchors.len() == 0 {
                    &&& final(store).pages_seq() == old(store).pages_seq()
                    &&& final(store).links_seq() == old(store).links_seq()
                    &&& r is Ok
                } else {
                    let st = page_step(
                        old(store).pages_seq(),
                        old(store).links_seq(),
                        url@,
                        anchors,
                        depth,
                    );
                    &&& final(store).pages_seq() == st.0
                    &&& final(store).links_seq() == st.1
                    &&& (r is Ok || r == Err::<(), ScraperError>(ScraperError::ChannelError))
                }
            }),
    {
        let anchor_list = match self.get_anchor_list(page_content) {
            Ok(list) => list,
            Err(_) => {
                return Ok(());
            },
        };
        if anchor_list.len() == 0 {
            return Ok(());
        }
        let tasks = store.record_page_links(url, depth, &anchor_list);
        let mut i: usize = 0;
        while i < tasks.len()
            invariant
                i <= tasks@.len(),
            decreases tasks@.len() - i,
        {
            let task_url = tasks[i].0.clone();
            let task_depth = tasks[i].1;
            match send_task(&self.tx, (task_url, task_depth)) {
                Ok(_) => {},
                Err(_) => {
                    return Err(ScraperError::ChannelError);
                },
            }
            i += 1;
        }
        Ok(())
    }
}

} // verus!
