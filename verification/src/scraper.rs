use crate::errors::ScraperError;
use crate::graph::{links_contain, GraphStore};
use crate::worker::{send_task, Worker};
use vstd::prelude::*;
use vstd::string::StringSliceAdditionalSpecFns;
use vstd::utf8::encode_utf8;

pub use crate::graph::ID;

verus! {

/// The decimal digits of `n` as ASCII bytes, most significant first.
pub open spec fn dec_bytes(n: nat) -> Seq<u8>
    decreases n,
{
    if n < 10 {
        seq![(n + 48) as u8]
    } else {
        dec_bytes(n / 10).push((n % 10 + 48) as u8)
    }
}

/// The CSV row for one registered page: the identifier, a comma, the URL
/// in double quotes, and a newline.
pub open spec fn node_row_bytes(id: ID, url: Seq<char>) -> Seq<u8> {
    dec_bytes(id as nat) + seq![44u8, 34u8] + encode_utf8(url) + seq![34u8, 10u8]
}

/// The CSV row for one recorded link: source, a comma, target, newline.
pub open spec fn edge_row_bytes(e: (ID, ID)) -> Seq<u8> {
    dec_bytes(e.0 as nat) + seq![44u8] + dec_bytes(e.1 as nat) + seq![10u8]
}

/// The nodes table: a header line, then one row per page in order.
pub open spec fn nodes_csv_bytes(pages: Seq<(Seq<char>, ID)>) -> Seq<u8>
    decreases pages.len(),
{
    if pages.len() == 0 {
        encode_utf8("node_id,url\n"@)
    } else {
        nodes_csv_bytes(pages.drop_last()) + node_row_bytes(pages.last().1, pages.last().0)
    }
}

/// The edges table: a header line, then one row per link in order.
pub open spec fn edges_csv_bytes(links: Seq<(ID, ID)>) -> Seq<u8>
    decreases links.len(),
{
    if links.len() == 0 {
        encode_utf8("source,target\n"@)
    } else {
        edges_csv_bytes(links.drop_last()) + edge_row_bytes(links.last())
    }
}

/// Appends the decimal text of `n`.
fn push_dec_bytes(out: &mut Vec<u8>, n: u64)
    ensures
        final(out)@ == old(out)@ + dec_bytes(n as nat),
    decreases n,
{
    if n < 10 {
        out.push((n as u8) + 48);
        proof {
            assert(final(out)@ =~= old(out)@ + dec_bytes(n as nat));
        }
    } else {
        push_dec_bytes(out, n / 10);
        out.push(((n % 10) as u8) + 48);
        proof {
            assert(final(out)@ =~= old(out)@ + dec_bytes(n as nat));
        }
    }
}

/// Appends a slice of bytes.
#[verifier::loop_isolation(false)]
fn push_bytes(out: &mut Vec<u8>, bytes: &[u8])
    ensures
        final(out)@ == old(out)@ + bytes@,
{
    let n = bytes.len();
    let mut i: usize = 0;
    while i < n
        invariant
            i <= n,
            n == bytes@.len(),
            out@ == old(out)@ + bytes@.take(i as int),
        decreases n - i,
    {
        let ghost before = out@;
        out.push(bytes[i]);
        proof {
            assert(out@ =~= old(out)@ + bytes@.take(i as int + 1));
        }
        i += 1;
    }
    proof {
        assert(bytes@.take(n as int) =~= bytes@);
    }
}

/// The nodes table for these pages, as the bytes of a CSV file.
#[verifier::loop_isolation(false)]
pub fn nodes_csv(pages: &Vec<(String, ID)>) -> (out: Vec<u8>)
    ensures
        out@ == nodes_csv_bytes(pages.deep_view()),
{
    let ghost dv = pages.deep_view();
    let mut out: Vec<u8> = Vec::new();
    push_bytes(&mut out, "node_id,url\n".as_bytes());
    proof {
        assert(dv.take(0) =~= Seq::<(Seq<char>, ID)>::empty());
        assert(out@ =~= nodes_csv_bytes(dv.take(0)));
    }
    let mut i: usize = 0;
    while i < pages.len()
        invariant
            i <= pages@.len(),
            out@ == nodes_csv_bytes(dv.take(i as int)),
        decreases pages@.len() - i,
    {
        let ghost before = out@;
        push_dec_bytes(&mut out, pages[i].1);
        out.push(44u8);
        out.push(34u8);
        push_bytes(&mut out, pages[i].0.as_str().as_bytes());
        out.push(34u8);
        out.push(10u8);
        proof {
            assert(dv[i as int] == (pages@[i as int].0@, pages@[i as int].1));
            assert(out@ =~= before + node_row_bytes(dv[i as int].1, dv[i as int].0));
            assert(dv.take(i as int + 1).drop_last() =~= dv.take(i as int));
            assert(out@ =~= nodes_csv_bytes(dv.take(i as int + 1)));
        }
        i += 1;
    }
    proof {
        assert(dv.take(pages@.len() as int) =~= dv);
    }
    out
}

/// The edges table for these links, as the bytes of a CSV file.
#[verifier::loop_isolation(false)]
pub fn edges_csv(links: &Vec<(ID, ID)>) -> (out: Vec<u8>)
    ensures
        out@ == edges_csv_bytes(links@),
{
    let mut out: Vec<u8> = Vec::new();
    push_bytes(&mut out, "source,target\n".as_bytes());
    proof {
        assert(links@.take(0) =~= Seq::<(ID, ID)>::empty());
        assert(out@ =~= edges_csv_bytes(links@.take(0)));
    }
    let mut i: usize = 0;
    while i < links.len()
        invariant
            i <= links@.len(),
            out@ == edges_csv_bytes(links@.take(i as int)),
        decreases links@.len() - i,
    {
        let ghost before = out@;
        push_dec_bytes(&mut out, links[i].0);
        out.push(44u8);
        push_dec_bytes(&mut out, links[i].1);
        out.push(10u8);
        proof {
            assert(out@ =~= before + edge_row_bytes(links@[i as int]));
            assert(links@.take(i as int + 1).drop_last() =~= links@.take(i as int));
            assert(out@ =~= edges_csv_bytes(links@.take(i as int + 1)));
        }
        i += 1;
    }
    proof {
        assert(links@.take(links@.len() as int) =~= links@);
    }
    out
}

/// The reverse of a directed link.
pub open spec fn rev(e: (ID, ID)) -> (ID, ID) {
    (e.1, e.0)
}

/// What the undirected projection keeps of the recorded links: every
/// kept edge and its reverse are recorded; of each reciprocated pair
/// exactly one direction is kept; and every recorded link whose reverse
/// is also recorded is represented in one direction or the other.
pub open spec fn is_undirected_projection(links: Seq<(ID, ID)>, proj: Seq<(ID, ID)>) -> bool {
    &&& forall|k: int|
        0 <= k < proj.len() ==> links.contains(#[trigger] proj[k]) && links.contains(rev(proj[k]))
    &&& forall|a: int, b: int|
        0 <= a < b < proj.len() ==> #[trigger] proj[b] != #[trigger] proj[a] && rev(proj[b])
            != proj[a]
    &&& forall|k: int|
        0 <= k < links.len() && links.contains(rev(#[trigger] links[k])) ==> proj.contains(
            links[k],
        ) || proj.contains(rev(links[k]))
}

/// Keeps one direction of each reciprocated link pair: an edge is
/// retained only when its reverse is also recorded, and of the two
/// directions only the first encountered is kept.
#[verifier::loop_isolation(false)]
pub fn undirected_edges(links: &Vec<(ID, ID)>) -> (r: Vec<(ID, ID)>)
    ensures
        is_undirected_projection(links@, r@),
{
    broadcast use vstd::seq_lib::lemma_seq_contains_after_push;

    let mut r: Vec<(ID, ID)> = Vec::new();
    let mut i: usize = 0;
    while i < links.len()
        invariant
            i <= links@.len(),
            forall|k: int|
                0 <= k < r@.len() ==> links@.contains(#[trigger] r@[k]) && links@.contains(
                    rev(r@[k]),
                ),
            forall|a: int, b: int|
                0 <= a < b < r@.len() ==> #[trigger] r@[b] != #[trigger] r@[a] && rev(r@[b])
                    != r@[a],
            forall|k: int|
                0 <= k < i && links@.contains(rev(#[trigger] links@[k])) ==> r@.contains(
                    links@[k],
                ) || r@.contains(rev(links@[k])),
        decreases links@.len() - i,
    {
        let source = links[i].0;
        let target = links[i].1;
        proof {
            assert(links@[i as int] == (source, target));
            assert(links@.contains(links@[i as int]));
        }
        if !links_contain(&r, source, target) && !links_contain(&r, target, source) {
            if links_contain(links, target, source) {
                let ghost r_before = r@;
                r.push((source, target));
                proof {
                    assert(rev((source, target)) == (target, source));
                    assert forall|a: int, b: int|
                        0 <= a < b < r@.len() implies #[trigger] r@[b] != #[trigger] r@[a] && rev(
                        r@[b],
                    ) != r@[a] by {
                        if b == r@.len() - 1 {
                            assert(!r_before.contains((source, target)));
                            assert(!r_before.contains((target, source)));
                            assert(r@[a] == r_before[a]);
                        }
                    }
                }
            }
        }
        i += 1;
    }
    r
}

/// Whether `id` is an endpoint of some edge in `edges`.
pub open spec fn is_endpoint(id: ID, edges: Seq<(ID, ID)>) -> bool {
    exists|k: int| 0 <= k < edges.len() && ((#[trigger] edges[k]).0 == id || edges[k].1 == id)
}

/// The pages whose identifier is an endpoint of some kept edge, in
/// registration order.
pub open spec fn retained_nodes(pages: Seq<(Seq<char>, ID)>, proj: Seq<(ID, ID)>) -> Seq<
    (Seq<char>, ID),
> {
    pages.filter(|p: (Seq<char>, ID)| is_endpoint(p.1, proj))
}

/// Whether `id` is an endpoint of some edge in `edges`.
#[verifier::loop_isolation(false)]
fn endpoint_of(edges: &Vec<(ID, ID)>, id: ID) -> (r: bool)
    ensures
        r == is_endpoint(id, edges@),
{
    let mut i: usize = 0;
    while i < edges.len()
        invariant
            i <= edges@.len(),
            forall|k: int| 0 <= k < i ==> (#[trigger] edges@[k]).0 != id && edges@[k].1 != id,
        decreases edges@.len() - i,
    {
        if edges[i].0 == id || edges[i].1 == id {
            return true;
        }
        i += 1;
    }
    false
}

/// The node rows of the undirected projection: exactly the registered
/// pages that some kept edge touches, in registration order.
#[verifier::loop_isolation(false)]
pub fn undirected_nodes(pages: &Vec<(String, ID)>, edges: &Vec<(ID, ID)>) -> (r: Vec<
    (String, ID),
>)
    ensures
        r.deep_view() == retained_nodes(pages.deep_view(), edges@),
{
    let ghost dv = pages.deep_view();
    let ghost pred = |p: (Seq<char>, ID)| is_endpoint(p.1, edges@);
    let mut r: Vec<(String, ID)> = Vec::new();
    proof {
        reveal(Seq::filter);
        assert(dv.take(0) =~= Seq::<(Seq<char>, ID)>::empty());
        assert(r.deep_view() =~= dv.take(0).filter(pred));
    }
    let mut i: usize = 0;
    while i < pages.len()
        invariant
            i <= pages@.len(),
            r.deep_view() == dv.take(i as int).filter(pred),
        decreases pages@.len() - i,
    {
        proof {
            reveal(Seq::filter);
            assert(dv.take(i as int + 1).drop_last() =~= dv.take(i as int));
            assert(dv.take(i as int + 1).last() == dv[i as int]);
        }
        let ghost r_before = r.deep_view();
        if endpoint_of(edges, pages[i].1) {
            let url = pages[i].0.clone();
            r.push((url, pages[i].1));
            proof {
                assert(dv[i as int] == (pages@[i as int].0@, pages@[i as int].1));
                assert(r.deep_view() =~= r_before.push(dv[i as int]));
            }
        } else {
            proof {
                assert(dv[i as int] == (pages@[i as int].0@, pages@[i as int].1));
            }
        }
        i += 1;
    }
    proof {
        assert(dv.take(pages@.len() as int) =~= dv);
    }
    r
}

/// Undirected projection soundness: every edge the projection keeps is
/// recorded together with its reverse, and every page the projection
/// keeps is an endpoint of at least one kept edge.
pub proof fn lemma_projection_sound(
    links: Seq<(ID, ID)>,
    proj: Seq<(ID, ID)>,
    pages: Seq<(Seq<char>, ID)>,
)
    requires
        is_undirected_projection(links, proj),
    ensures
        forall|k: int|
            0 <= k < proj.len() ==> links.contains(#[trigger] proj[k]) && links.contains(
                rev(proj[k]),
            ),
        forall|k: int|
            0 <= k < retained_nodes(pages, proj).len() ==> is_endpoint(
                (#[trigger] retained_nodes(pages, proj)[k]).1,
                proj,
            ),
{
    broadcast use vstd::seq_lib::group_filter_ensures;

}

/// Clones a keyword set, keeping its contents.
#[verifier::loop_isolation(false)]
fn clone_keywords(keywords: &Option<Vec<String>>) -> (r: Option<Vec<String>>)
    ensures
        r.deep_view() == keywords.deep_view(),
{
    match keywords {
        None => None,
        Some(ks) => {
            let mut copy: Vec<String> = Vec::new();
            proof {
                assert(copy.deep_view() =~= ks.deep_view().take(0));
            }
            let mut i: usize = 0;
            while i < ks.len()
                invariant
                    i <= ks@.len(),
                    copy.deep_view() == ks.deep_view().take(i as int),
                decreases ks@.len() - i,
            {
                copy.push(ks[i].clone());
                proof {
                    assert(copy.deep_view() =~= ks.deep_view().take(i as int + 1));
                }
                i += 1;
            }
            proof {
                assert(ks.deep_view().take(ks@.len() as int) =~= ks.deep_view());
            }
            Some(copy)
        },
    }
}

/// The configuration and result of one crawl: the seed URL, the depth
/// bound, the keyword filter, the worker count, the export flavor, and
/// the graph store the workers fill.
pub struct WikipediaScraper {
    url: String,
    depth: u64,
    keywords: Option<Vec<String>>,
    num_threads: usize,
    undirected: bool,
    keep_external_links: bool,
    store: GraphStore,
}

impl WikipediaScraper {
    /// The seed URL.
    pub closed spec fn url_spec(&self) -> Seq<char> {
        self.url@
    }

    /// The crawl depth bound.
    pub closed spec fn depth_spec(&self) -> u64 {
        self.depth
    }

    /// The keyword set, if any.
    pub closed spec fn keywords_spec(&self) -> Option<Seq<Seq<char>>> {
        self.keywords.deep_view()
    }

    /// The worker count.
    pub closed spec fn num_threads_spec(&self) -> usize {
        self.num_threads
    }

    /// Whether the export keeps only reciprocated links.
    pub closed spec fn undirected_spec(&self) -> bool {
        self.undirected
    }

    /// Whether external links are kept.
    pub closed spec fn keep_external_spec(&self) -> bool {
        self.keep_external_links
    }

    /// The graph store.
    pub closed spec fn store_spec(&self) -> GraphStore {
        self.store
    }

    /// Well-formedness: the store is well-formed, and depth and worker
    /// count are at least one.
    pub open spec fn wf(&self) -> bool {
        &&& self.store_spec().wf()
        &&& self.depth_spec() >= 1
        &&& self.num_threads_spec() >= 1
    }

    /// A scraper for one crawl.  A depth or worker count of zero is
    /// raised to one.
    pub fn new(
        url: &str,
        depth: u64,
        num_threads: usize,
        keywords: Option<Vec<String>>,
        undirected: bool,
        keep_external_links: bool,
    ) -> (s: WikipediaScraper)
        ensures
            s.wf(),
            s.url_spec() == url@,
            s.depth_spec() == if depth == 0 { 1u64 } else { depth },
            s.num_threads_spec() == if num_threads == 0 { 1usize } else { num_threads },
            s.keywords_spec() == keywords.deep_view(),
            s.undirected_spec() == undirected,
            s.keep_external_spec() == keep_external_links,
            s.store_spec().pages_seq() == Seq::<(Seq<char>, ID)>::empty(),
            s.store_spec().links_seq() == Seq::<(ID, ID)>::empty(),
    {
        let d: u64 = if depth == 0 { 1 } else { depth };
        let t: usize = if num_threads == 0 { 1 } else { num_threads };
        WikipediaScraper {
            url: url.to_owned(),
            depth: d,
            keywords,
            num_threads: t,
            undirected,
            keep_external_links,
            store: GraphStore::new(),
        }
    }

    /// How many distinct links the crawl has recorded.
    pub fn num_links(&self) -> (n: usize)
        requires
            self.wf(),
        ensures
            n == self.store_spec().links_seq().len(),
            n == self.store_spec().link_set().len(),
    {
        self.store.num_links()
    }

    /// How many pages the crawl has registered.
    pub fn num_pages(&self) -> (n: usize)
        requires
            self.wf(),
        ensures
            n == self.store_spec().pages_seq().len(),
            n == self.store_spec().page_map().len(),
    {
        self.store.num_pages()
    }

    /// The worker for pool slot `thread_idx`, wired to the shared task
    /// channel and carrying this crawl's configuration.
    pub fn worker(
        &self,
        thread_idx: usize,
        rx: crossbeam_channel::Receiver<(String, u64)>,
        tx: crossbeam_channel::Sender<(String, u64)>,
    ) -> (w: Worker)
        ensures
            w.id_spec() == thread_idx,
            w.keywords_spec() == self.keywords_spec(),
            w.keep_external_spec() == self.keep_external_spec(),
    {
        let keywords = clone_keywords(&self.keywords);
        Worker::new(thread_idx, keywords, rx, tx, self.keep_external_links)
    }

    /// The crawl's seed task: the configured URL with the full depth.
    pub fn seed_task(&self) -> (t: (String, u64))
        ensures
            t.0@ == self.url_spec(),
            t.1 == self.depth_spec(),
    {
        (self.url.clone(), self.depth)
    }

    /// Hands the seed task to the task channel; fails only when the
    /// channel has no live receivers.
    pub fn seed(&self, tx: &crossbeam_channel::Sender<(String, u64)>) -> (r: Result<
        (),
        ScraperError,
    >)
        ensures
            r is Ok || r == Err::<(), ScraperError>(ScraperError::ChannelError),
    {
        match send_task(tx, self.seed_task()) {
            Ok(_) => Ok(()),
            Err(_) => Err(ScraperError::ChannelError),
        }
    }

    /// Read access to the graph store.
    pub fn store(&self) -> (s: &GraphStore)
        ensures
            *s == self.store_spec(),
    {
        &self.store
    }

    /// Installs the store a finished crawl produced, so that the counts
    /// and the export read it.  The crawl itself — fetching pages and
    /// driving the worker pool — runs outside this crate and mutates a
    /// shared store through [`Worker::scrape_with_depth`].
    pub fn set_store(&mut self, store: GraphStore)
        requires
            old(self).wf(),
            store.wf(),
        ensures
            final(self).wf(),
            final(self).store_spec() == store,
            final(self).url_spec() == old(self).url_spec(),
            final(self).depth_spec() == old(self).depth_spec(),
            final(self).keywords_spec() == old(self).keywords_spec(),
            final(self).num_threads_spec() == old(self).num_threads_spec(),
            final(self).undirected_spec() == old(self).undirected_spec(),
            final(self).keep_external_spec() == old(self).keep_external_spec(),
    {
        self.store = store;
    }

    /// The seed URL.
    pub fn url(&self) -> (u: &String)
        ensures
            u@ == self.url_spec(),
    {
        &self.url
    }

    /// The crawl depth bound.
    pub fn depth(&self) -> (d: u64)
        ensures
            d == self.depth_spec(),
    {
        self.depth
    }

    /// The worker count.
    pub fn num_threads(&self) -> (n: usize)
        ensures
            n == self.num_threads_spec(),
    {
        self.num_threads
    }

    /// Whether the export keeps only reciprocated links.
    pub fn undirected(&self) -> (u: bool)
        ensures
            u == self.undirected_spec(),
    {
        self.undirected
    }

    /// Whether external links are kept.
    pub fn keep_external_links(&self) -> (k: bool)
        ensures
            k == self.keep_external_spec(),
    {
        self.keep_external_links
    }

    /// The two CSV tables of the finished graph — nodes first, edges
    /// second.  With the undirected flavor, only reciprocated links are
    /// kept (one direction each) and only pages they touch appear.
    pub fn save_tables(&self) -> (r: (Vec<u8>, Vec<u8>))
        requires
            self.wf(),
        ensures
            !self.undirected_spec() ==> r.0@ == nodes_csv_bytes(self.store_spec().pages_seq())
                && r.1@ == edges_csv_bytes(self.store_spec().links_seq()),
            self.undirected_spec() ==> exists|proj: Seq<(ID, ID)>|
                {
                    &&& #[trigger] is_undirected_projection(self.store_spec().links_seq(), proj)
                    &&& r.0@ == nodes_csv_bytes(
                        retained_nodes(self.store_spec().pages_seq(), proj),
                    )
                    &&& r.1@ == edges_csv_bytes(proj)
                },
    {
        if !self.undirected {
            (nodes_csv(self.store.pages()), edges_csv(self.store.links()))
        } else {
            let kept_edges = undirected_edges(self.store.links());
            let kept_pages = undirected_nodes(self.store.pages(), &kept_edges);
            let nodes_table = nodes_csv(&kept_pages);
            let edges_table = edges_csv(&kept_edges);
            proof {
                assert(is_undirected_projection(self.store_spec().links_seq(), kept_edges@));
            }
            (nodes_table, edges_table)
        }
    }
}

} // verus!
