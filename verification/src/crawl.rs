use crate::graph::{lemma_step_pages, lemma_step_tasks, map_of, page_step, ID};
use vstd::multiset::Multiset;
use vstd::prelude::*;

verus! {

broadcast use {vstd::multiset::group_multiset_axioms, vstd::seq_lib::group_to_multiset_ensures};

/// `u` lies within `d` link-steps of the seed in the site graph that
/// `adj` describes, where `adj` gives each page's list of normalized
/// anchor targets.
pub open spec fn reach(
    adj: spec_fn(Seq<char>) -> Seq<Seq<char>>,
    seed: Seq<char>,
    d: nat,
    u: Seq<char>,
) -> bool
    decreases d,
{
    u == seed || (d > 0 && exists|v: Seq<char>|
        reach(adj, seed, (d - 1) as nat, v) && (#[trigger] adj(v)).contains(u))
}

/// Reachability within `d1` steps implies reachability within any larger
/// bound.
pub proof fn lemma_reach_monotone(
    adj: spec_fn(Seq<char>) -> Seq<Seq<char>>,
    seed: Seq<char>,
    d1: nat,
    d2: nat,
    u: Seq<char>,
)
    requires
        reach(adj, seed, d1, u),
        d1 <= d2,
    ensures
        reach(adj, seed, d2, u),
    decreases d1,
{
    if u != seed {
        let v = choose|v: Seq<char>|
            reach(adj, seed, (d1 - 1) as nat, v) && (#[trigger] adj(v)).contains(u);
        lemma_reach_monotone(adj, seed, (d1 - 1) as nat, (d2 - 1) as nat, v);
        assert(reach(adj, seed, (d2 - 1) as nat, v) && adj(v).contains(u));
    }
}

/// One state of the crawl pool, abstracted: the shared store's registry
/// and link list, and the multiset of tasks in flight — queued on the
/// channel or held by a worker between dequeue and completion.
pub struct CrawlState {
    pub pages: Seq<(Seq<char>, ID)>,
    pub links: Seq<(ID, ID)>,
    pub tasks: Multiset<(Seq<char>, u64)>,
}

/// The starting state: an empty store, and the seed task alone in
/// flight.
pub open spec fn crawl_init(seed: Seq<char>, depth0: u64) -> CrawlState {
    CrawlState {
        pages: Seq::empty(),
        links: Seq::empty(),
        tasks: Multiset::empty().insert((seed, depth0)),
    }
}

/// A worker completes a dequeued task: one crawl step is applied to the
/// store with the page's anchor list, and the step's follow-on tasks
/// enter the channel.  The store's critical section makes the step
/// atomic to the other workers, so every schedule of the pool is an
/// interleaving of these transitions.
pub open spec fn crawl_process(
    pre: CrawlState,
    post: CrawlState,
    url: Seq<char>,
    d: u64,
    anchors: Seq<Seq<char>>,
) -> bool {
    let st = page_step(pre.pages, pre.links, url, anchors, d);
    &&& pre.tasks.count((url, d)) > 0
    &&& post.pages == st.0
    &&& post.links == st.1
    &&& post.tasks == pre.tasks.remove((url, d)).add(st.2.to_multiset())
}

/// A worker abandons a dequeued task with no effect on the store: the
/// page was filtered out, or it had no content element or no accepted
/// anchors.
pub open spec fn crawl_skip(pre: CrawlState, post: CrawlState, url: Seq<char>, d: u64) -> bool {
    &&& pre.tasks.count((url, d)) > 0
    &&& post.pages == pre.pages
    &&& post.links == pre.links
    &&& post.tasks == pre.tasks.remove((url, d))
}

/// The crawl's depth-bound invariant for the site graph `adj`: every
/// task in flight has at least one step of budget left and names a page
/// within `depth0` minus that budget of the seed, and every registered
/// page lies within `depth0` of the seed.
pub open spec fn depth_bounded(
    s: CrawlState,
    adj: spec_fn(Seq<char>) -> Seq<Seq<char>>,
    seed: Seq<char>,
    depth0: u64,
) -> bool {
    &&& forall|t: (Seq<char>, u64)|
        (#[trigger] s.tasks.count(t)) > 0 ==> 1 <= t.1 <= depth0 && reach(
            adj,
            seed,
            (depth0 - t.1) as nat,
            t.0,
        )
    &&& forall|u: Seq<char>|
        #[trigger] map_of(s.pages).contains_key(u) ==> reach(adj, seed, depth0 as nat, u)
}

/// The starting state satisfies the depth-bound invariant.
pub proof fn lemma_init_depth_bounded(
    adj: spec_fn(Seq<char>) -> Seq<Seq<char>>,
    seed: Seq<char>,
    depth0: u64,
)
    requires
        depth0 >= 1,
    ensures
        depth_bounded(crawl_init(seed, depth0), adj, seed, depth0),
{
    let s = crawl_init(seed, depth0);
    assert forall|t: (Seq<char>, u64)| (#[trigger] s.tasks.count(t)) > 0 implies 1 <= t.1 <= depth0
        && reach(adj, seed, (depth0 - t.1) as nat, t.0) by {
        assert(t == (seed, depth0));
    }
}

/// Completing a task preserves the depth-bound invariant, whenever the
/// anchor list the worker extracted is the site's list for that page.
/// This is the heart of the depth bound: pages enter the registry only
/// through such steps, so no page beyond the configured depth is ever
/// registered, under any schedule of the pool.
pub proof fn lemma_process_depth_bounded(
    pre: CrawlState,
    post: CrawlState,
    adj: spec_fn(Seq<char>) -> Seq<Seq<char>>,
    seed: Seq<char>,
    depth0: u64,
    url: Seq<char>,
    d: u64,
    anchors: Seq<Seq<char>>,
)
    requires
        depth_bounded(pre, adj, seed, depth0),
        crawl_process(pre, post, url, d, anchors),
        anchors == adj(url),
    ensures
        depth_bounded(post, adj, seed, depth0),
{
    let st = page_step(pre.pages, pre.links, url, anchors, d);
    lemma_step_tasks(pre.pages, pre.links, url, anchors, d);
    assert(pre.tasks.count((url, d)) > 0);
    assert(1 <= d <= depth0 && reach(adj, seed, (depth0 - d) as nat, url));

    assert forall|t: (Seq<char>, u64)| (#[trigger] post.tasks.count(t)) > 0 implies 1 <= t.1
        <= depth0 && reach(adj, seed, (depth0 - t.1) as nat, t.0) by {
        if pre.tasks.remove((url, d)).count(t) > 0 {
            assert(pre.tasks.count(t) > 0);
        } else {
            assert(st.2.to_multiset().count(t) > 0);
            assert(st.2.contains(t));
            lemma_step_pages(pre.pages, pre.links, url, anchors, d, t.0);
            assert(anchors.contains(t.0));
            assert(t.1 + 1 == d && d > 1);
            assert((depth0 - t.1) as nat == (depth0 - d) as nat + 1);
            assert(reach(adj, seed, (depth0 - t.1) as nat, t.0));
        }
    }
    assert forall|u: Seq<char>| #[trigger] map_of(post.pages).contains_key(u) implies reach(
        adj,
        seed,
        depth0 as nat,
        u,
    ) by {
        lemma_step_pages(pre.pages, pre.links, url, anchors, d, u);
        if map_of(pre.pages).contains_key(u) {
        } else if u == url {
            lemma_reach_monotone(adj, seed, (depth0 - d) as nat, depth0 as nat, u);
        } else {
            assert(anchors.contains(u));
            assert((depth0 - d) as nat + 1 <= depth0 as nat);
            assert(reach(adj, seed, ((depth0 - d) as nat + 1) as nat, u));
            lemma_reach_monotone(adj, seed, ((depth0 - d) as nat + 1) as nat, depth0 as nat, u);
        }
    }
}

/// Abandoning a task preserves the depth-bound invariant.
pub proof fn lemma_skip_depth_bounded(
    pre: CrawlState,
    post: CrawlState,
    adj: spec_fn(Seq<char>) -> Seq<Seq<char>>,
    seed: Seq<char>,
    depth0: u64,
    url: Seq<char>,
    d: u64,
)
    requires
        depth_bounded(pre, adj, seed, depth0),
        crawl_skip(pre, post, url, d),
    ensures
        depth_bounded(post, adj, seed, depth0),
{
    assert forall|t: (Seq<char>, u64)| (#[trigger] post.tasks.count(t)) > 0 implies 1 <= t.1
        <= depth0 && reach(adj, seed, (depth0 - t.1) as nat, t.0) by {
        assert(pre.tasks.count(t) > 0);
    }
}

/// The depth bound read off the invariant: in any state a run reaches,
/// a page with an identifier lies within the configured depth of the
/// seed.
pub proof fn lemma_depth_bound(
    s: CrawlState,
    adj: spec_fn(Seq<char>) -> Seq<Seq<char>>,
    seed: Seq<char>,
    depth0: u64,
    u: Seq<char>,
)
    requires
        depth_bounded(s, adj, seed, depth0),
        map_of(s.pages).contains_key(u),
    ensures
        reach(adj, seed, depth0 as nat, u),
{
}

/// With no task in flight nothing further can happen: once the pool
/// detects quiescence — every idle flag set, and the channel empty by
/// the flags' protocol — the graph is final.
pub proof fn lemma_quiescent_state_is_final(
    pre: CrawlState,
    post: CrawlState,
    url: Seq<char>,
    d: u64,
    anchors: Seq<Seq<char>>,
)
    requires
        pre.tasks == Multiset::<(Seq<char>, u64)>::empty(),
    ensures
        !crawl_process(pre, post, url, d, anchors),
        !crawl_skip(pre, post, url, d),
{
    assert(pre.tasks.count((url, d)) == 0);
}

} // verus!
