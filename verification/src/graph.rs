use crate::normalize::{starts_with_spec, str_starts_with, wiki_article_prefix};
use vstd::prelude::*;
use vstd::seq_lib::*;

verus! {

/// A page identifier.
pub type ID = u64;

/// The URL-to-identifier map that a sequence of registry entries denotes.
/// Later entries win, though a well-formed registry never repeats a URL.
pub open spec fn map_of(s: Seq<(Seq<char>, ID)>) -> Map<Seq<char>, ID>
    decreases s.len(),
{
    if s.len() == 0 {
        Map::empty()
    } else {
        map_of(s.drop_last()).insert(s.last().0, s.last().1)
    }
}

/// No URL occurs twice in the registry.
pub open spec fn urls_distinct(s: Seq<(Seq<char>, ID)>) -> bool {
    forall|a: int, b: int|
        0 <= a < b < s.len() ==> (#[trigger] s[a]).0 != (#[trigger] s[b]).0
}

/// Each entry's identifier is its position in the registry.
pub open spec fn ids_are_indices(s: Seq<(Seq<char>, ID)>) -> bool {
    forall|i: int| 0 <= i < s.len() ==> (#[trigger] s[i]).1 == i as ID
}

pub proof fn lemma_map_of_contains(s: Seq<(Seq<char>, ID)>, u: Seq<char>)
    ensures
        map_of(s).contains_key(u) <==> exists|i: int| 0 <= i < s.len() && (#[trigger] s[i]).0 == u,
    decreases s.len(),
{
    if s.len() == 0 {
    } else {
        lemma_map_of_contains(s.drop_last(), u);
        if s.last().0 == u {
            assert(s[s.len() - 1].0 == u);
        } else if map_of(s).contains_key(u) {
            let i = choose|i: int| 0 <= i < s.drop_last().len() && (#[trigger] s.drop_last()[i]).0
                == u;
            assert(s[i].0 == u);
        } else if exists|i: int| 0 <= i < s.len() && (#[trigger] s[i]).0 == u {
            let i = choose|i: int| 0 <= i < s.len() && (#[trigger] s[i]).0 == u;
            assert(s.drop_last()[i].0 == u);
        }
    }
}

pub proof fn lemma_map_of_index(s: Seq<(Seq<char>, ID)>, i: int)
    requires
        0 <= i < s.len(),
        urls_distinct(s),
    ensures
        map_of(s).contains_key(s[i].0),
        map_of(s)[s[i].0] == s[i].1,
    decreases s.len(),
{
    if i == s.len() - 1 {
    } else {
        assert(s.drop_last()[i] == s[i]);
        lemma_map_of_index(s.drop_last(), i);
        assert(s.last().0 != s[i].0);
    }
}

pub proof fn lemma_map_of_len(s: Seq<(Seq<char>, ID)>)
    requires
        urls_distinct(s),
    ensures
        map_of(s).dom().finite(),
        map_of(s).len() == s.len(),
    decreases s.len(),
{
    if s.len() == 0 {
    } else {
        lemma_map_of_len(s.drop_last());
        lemma_map_of_contains(s.drop_last(), s.last().0);
        assert(forall|i: int|
            0 <= i < s.drop_last().len() ==> (#[trigger] s.drop_last()[i]).0 != s.last().0);
        assert(!map_of(s.drop_last()).contains_key(s.last().0));
    }
}

/// One link insertion at the model level: the pair is appended when absent.
pub open spec fn links_add(links: Seq<(ID, ID)>, e: (ID, ID)) -> Seq<(ID, ID)> {
    if links.contains(e) {
        links
    } else {
        links.push(e)
    }
}

/// One registration at the model level: an unseen URL is appended with the
/// next identifier; a known URL leaves the registry unchanged.
pub open spec fn pages_register(pages: Seq<(Seq<char>, ID)>, url: Seq<char>) -> (Seq<
    (Seq<char>, ID),
>, ID) {
    if map_of(pages).contains_key(url) {
        (pages, map_of(pages)[url])
    } else {
        (pages.push((url, pages.len() as ID)), pages.len() as ID)
    }
}

/// Processing one anchor of the page with identifier `src_id`: the link to
/// the anchor is recorded; an unseen anchor is registered first and, when
/// it is an internal page link and depth remains, yields one follow-on
/// task with the remaining depth decremented.
pub open spec fn anchor_step(
    pages: Seq<(Seq<char>, ID)>,
    links: Seq<(ID, ID)>,
    src_id: ID,
    anchor: Seq<char>,
    depth: u64,
) -> (Seq<(Seq<char>, ID)>, Seq<(ID, ID)>, Seq<(Seq<char>, u64)>) {
    if map_of(pages).contains_key(anchor) {
        (pages, links_add(links, (src_id, map_of(pages)[anchor])), Seq::empty())
    } else {
        let id = pages.len() as ID;
        let tasks: Seq<(Seq<char>, u64)> = if starts_with_spec(anchor, wiki_article_prefix())
            && depth > 1 {
            seq![(anchor, (depth - 1) as u64)]
        } else {
            Seq::empty()
        };
        (pages.push((anchor, id)), links_add(links, (src_id, id)), tasks)
    }
}

/// Processing a page's anchors left to right, carrying the registry and
/// link list along and concatenating the follow-on tasks in order.
pub open spec fn anchors_fold(
    pages: Seq<(Seq<char>, ID)>,
    links: Seq<(ID, ID)>,
    src_id: ID,
    anchors: Seq<Seq<char>>,
    depth: u64,
) -> (Seq<(Seq<char>, ID)>, Seq<(ID, ID)>, Seq<(Seq<char>, u64)>)
    decreases anchors.len(),
{
    if anchors.len() == 0 {
        (pages, links, Seq::empty())
    } else {
        let head = anchor_step(pages, links, src_id, anchors[0], depth);
        let rest = anchors_fold(head.0, head.1, src_id, anchors.drop_first(), depth);
        (rest.0, rest.1, head.2 + rest.2)
    }
}

/// The full effect of one crawl step on the store: the page itself is
/// registered, then each of its anchors is processed in order.
pub open spec fn page_step(
    pages: Seq<(Seq<char>, ID)>,
    links: Seq<(ID, ID)>,
    url: Seq<char>,
    anchors: Seq<Seq<char>>,
    depth: u64,
) -> (Seq<(Seq<char>, ID)>, Seq<(ID, ID)>, Seq<(Seq<char>, u64)>) {
    let r = pages_register(pages, url);
    anchors_fold(r.0, links, r.1, anchors, depth)
}

/// The shared graph built by a crawl: the page registry (canonical URL to
/// identifier, in registration order) and the deduplicated list of
/// directed links between identifiers.
pub struct GraphStore {
    pages: Vec<(String, ID)>,
    links: Vec<(ID, ID)>,
}

impl GraphStore {
    /// The registry as a sequence of (URL, identifier) entries, in
    /// registration order.
    pub closed spec fn pages_seq(&self) -> Seq<(Seq<char>, ID)> {
        self.pages.deep_view()
    }

    /// The registry as a map from canonical URL to identifier.
    pub open spec fn page_map(&self) -> Map<Seq<char>, ID> {
        map_of(self.pages_seq())
    }

    /// The recorded links, in recording order.
    pub closed spec fn links_seq(&self) -> Seq<(ID, ID)> {
        self.links@
    }

    /// The recorded links as a set of (source, target) pairs.
    pub open spec fn link_set(&self) -> Set<(ID, ID)> {
        self.links_seq().to_set()
    }

    /// Well-formedness: each page's identifier is its position in the
    /// registry (so identifiers are exactly the numbers below the page
    /// count and are never reused), no URL is registered twice, and no
    /// link is recorded twice.
    pub open spec fn wf(&self) -> bool {
        &&& ids_are_indices(self.pages_seq())
        &&& urls_distinct(self.pages_seq())
        &&& self.links_seq().no_duplicates()
    }

    /// An empty store.
    pub fn new() -> (s: GraphStore)
        ensures
            s.wf(),
            s.pages_seq() == Seq::<(Seq<char>, ID)>::empty(),
            s.links_seq() == Seq::<(ID, ID)>::empty(),
    {
        let s = GraphStore { pages: Vec::new(), links: Vec::new() };
        proof {
            assert(s.pages_seq() =~= Seq::<(Seq<char>, ID)>::empty());
        }
        s
    }

    /// The identifier of `url`, when it is registered.
    #[verifier::loop_isolation(false)]
    pub fn get_page_id(&self, url: &String) -> (r: Option<ID>)
        requires
            self.wf(),
        ensures
            match r {
                Some(id) => self.page_map().contains_key(url@) && self.page_map()[url@] == id,
                None => !self.page_map().contains_key(url@),
            },
    {
        let mut i: usize = 0;
        while i < self.pages.len()
            invariant
                i <= self.pages.len(),
                forall|k: int| 0 <= k < i ==> (#[trigger] self.pages_seq()[k]).0 != url@,
            decreases self.pages.len() - i,
        {
            if self.pages[i].0 == *url {
                proof {
                    assert(self.pages_seq()[i as int].0 == url@);
                    lemma_map_of_index(self.pages_seq(), i as int);
                }
                return Some(self.pages[i].1);
            }
            i += 1;
        }
        proof {
            lemma_map_of_contains(self.pages_seq(), url@);
        }
        None
    }

    /// Registers `url`, assigning the next identifier at first discovery.
    /// Registering an already-known URL returns its existing identifier
    /// and changes nothing.
    pub fn register_page(&mut self, url: &String) -> (id: ID)
        requires
            old(self).wf(),
        ensures
            final(self).wf(),
            final(self).links_seq() == old(self).links_seq(),
            (final(self).pages_seq(), id) == pages_register(old(self).pages_seq(), url@),
            final(self).page_map().contains_key(url@),
            final(self).page_map()[url@] == id,
            !old(self).page_map().contains_key(url@) ==> final(self).page_map() == old(
                self,
            ).page_map().insert(url@, id),
    {
        match self.get_page_id(url) {
            Some(id) => id,
            None => {
                let id = self.pages.len() as ID;
                let ghost old_pages = self.pages_seq();
                self.pages.push((url.clone(), id));
                proof {
                    assert(self.pages_seq() =~= old_pages.push((url@, id)));
                    assert(self.pages_seq().drop_last() =~= old_pages);
                    lemma_map_of_contains(old_pages, url@);
                    assert(forall|k: int|
                        0 <= k < old_pages.len() ==> (#[trigger] old_pages[k]).0 != url@);
                    assert forall|a: int, b: int|
                        0 <= a < b < self.pages_seq().len() implies (#[trigger] self.pages_seq()[a]).0
                        != (#[trigger] self.pages_seq()[b]).0 by {
                        if b == self.pages_seq().len() - 1 {
                            assert(self.pages_seq()[a] == old_pages[a]);
                        }
                    }
                }
                id
            },
        }
    }

    /// Records the link (source, target); recording a pair that is
    /// already present changes nothing.
    pub fn add_link(&mut self, source: ID, target: ID)
        requires
            old(self).wf(),
        ensures
            final(self).wf(),
            final(self).pages_seq() == old(self).pages_seq(),
            final(self).links_seq() == links_add(old(self).links_seq(), (source, target)),
            final(self).link_set() == old(self).link_set().insert((source, target)),
    {
        let present = links_contain(&self.links, source, target);
        if !present {
            self.links.push((source, target));
            proof {
                assert(forall|k: int|
                    0 <= k < old(self).links_seq().len() ==> #[trigger] old(self).links_seq()[k]
                        != (source, target));
                assert forall|a: int, b: int|
                    0 <= a <= b < self.links_seq().len() && a != b implies #[trigger] self.links_seq()[a]
                    != #[trigger] self.links_seq()[b] by {
                    if b == self.links_seq().len() - 1 {
                        assert(self.links_seq()[a] == old(self).links_seq()[a]);
                    }
                }
            }
        }
        proof {
            broadcast use vstd::seq_lib::lemma_seq_contains_after_push;

            assert(self.link_set() =~= old(self).link_set().insert((source, target)));
        }
    }

    /// How many pages are registered.
    pub fn num_pages(&self) -> (n: usize)
        requires
            self.wf(),
        ensures
            n == self.pages_seq().len(),
            n == self.page_map().len(),
    {
        proof {
            lemma_map_of_len(self.pages_seq());
        }
        self.pages.len()
    }

    /// How many distinct links are recorded.
    pub fn num_links(&self) -> (n: usize)
        requires
            self.wf(),
        ensures
            n == self.links_seq().len(),
            n == self.link_set().len(),
    {
        proof {
            self.links_seq().unique_seq_to_set();
        }
        self.links.len()
    }

    /// The registered pages, in registration order.
    pub fn pages(&self) -> (p: &Vec<(String, ID)>)
        ensures
            p.deep_view() == self.pages_seq(),
    {
        &self.pages
    }

    /// The recorded links, in recording order.
    pub fn links(&self) -> (l: &Vec<(ID, ID)>)
        ensures
            l@ == self.links_seq(),
    {
        &self.links
    }

    /// One crawl step over the store: registers `url`, records one link
    /// per anchor, registers anchors seen for the first time, and returns
    /// the follow-on tasks — one per newly discovered internal page link
    /// when depth remains, with the remaining depth decremented — in the
    /// order the anchors produced them.
    #[verifier::loop_isolation(false)]
    pub fn record_page_links(&mut self, url: &String, depth: u64, anchors: &Vec<String>) -> (tasks:
        Vec<(String, u64)>)
        requires
            old(self).wf(),
        ensures
            final(self).wf(),
            ({
                let r = page_step(
                    old(self).pages_seq(),
                    old(self).links_seq(),
                    url@,
                    anchors.deep_view(),
                    depth,
                );
                final(self).pages_seq() == r.0 && final(self).links_seq() == r.1
                    && tasks.deep_view() == r.2
            }),
    {
        let ghost all = anchors.deep_view();
        let ghost full = page_step(
            old(self).pages_seq(),
            old(self).links_seq(),
            url@,
            all,
            depth,
        );
        let src_id = self.register_page(url);
        let mut tasks: Vec<(String, u64)> = Vec::new();
        proof {
            assert(all.skip(0) =~= all);
            assert(tasks.deep_view() =~= Seq::<(Seq<char>, u64)>::empty());
            assert(tasks.deep_view() + anchors_fold(
                self.pages_seq(),
                self.links_seq(),
                src_id,
                all,
                depth,
            ).2 =~= anchors_fold(self.pages_seq(), self.links_seq(), src_id, all, depth).2);
        }
        let mut i: usize = 0;
        while i < anchors.len()
            invariant
                self.wf(),
                i <= anchors.len(),
                ({
                    let rest = anchors_fold(
                        self.pages_seq(),
                        self.links_seq(),
                        src_id,
                        all.skip(i as int),
                        depth,
                    );
                    full.0 == rest.0 && full.1 == rest.1 && full.2 == tasks.deep_view() + rest.2
                }),
            decreases anchors.len() - i,
        {
            let ghost pages_before = self.pages_seq();
            let ghost links_before = self.links_seq();
            let ghost tail = all.skip(i as int);
            proof {
                assert(tail[0] == all[i as int]);
                assert(tail.drop_first() =~= all.skip(i as int + 1));
                assert(anchors.deep_view()[i as int] == anchors@[i as int]@);
            }
            let anchor = &anchors[i];
            let ghost head = anchor_step(pages_before, links_before, src_id, anchor@, depth);
            match self.get_page_id(anchor) {
                Some(aid) => {
                    self.add_link(src_id, aid);
                },
                None => {
                    let aid = self.register_page(anchor);
                    self.add_link(src_id, aid);
                    if str_starts_with(anchor.as_str(), "https://en.wikipedia.org/wiki/") && depth
                        > 1 {
                        let ghost tasks_before = tasks.deep_view();
                        tasks.push((anchor.clone(), depth - 1));
                        proof {
                            assert(tasks.deep_view() =~= tasks_before.push(
                                (anchor@, (depth - 1) as u64),
                            ));
                            assert(head.2 =~= seq![(anchor@, (depth - 1) as u64)]);
                            assert(tasks.deep_view() =~= tasks_before + head.2);
                        }
                    } else {
                        proof {
                            assert(head.2 =~= Seq::<(Seq<char>, u64)>::empty());
                        }
                    }
                },
            }
            proof {
                let rest = anchors_fold(
                    self.pages_seq(),
                    self.links_seq(),
                    src_id,
                    all.skip(i as int + 1),
                    depth,
                );
                assert(full.2 == tasks.deep_view() + rest.2) by {
                    assert(tasks.deep_view() + (head.2 + rest.2) =~= (tasks.deep_view() + head.2)
                        + rest.2);
                }
            }
            i += 1;
        }
        proof {
            assert(all.skip(anchors.len() as int) =~= Seq::<Seq<char>>::empty());
            assert(tasks.deep_view() + Seq::<(Seq<char>, u64)>::empty() =~= tasks.deep_view());
        }
        tasks
    }
}

/// Registering the same URL twice yields the same identifier both times,
/// and the second registration leaves the registry exactly as the first
/// left it.
pub proof fn lemma_register_idempotent(pages: Seq<(Seq<char>, ID)>, url: Seq<char>)
    ensures
        ({
            let first = pages_register(pages, url);
            let second = pages_register(first.0, url);
            second.0 == first.0 && second.1 == first.1
        }),
{
    let first = pages_register(pages, url);
    if !map_of(pages).contains_key(url) {
        assert(first.0.drop_last() =~= pages);
    }
}

/// No identifier is shared by two distinct URLs: in a well-formed
/// registry the URL-to-identifier map is injective.
pub proof fn lemma_page_ids_injective(pages: Seq<(Seq<char>, ID)>, u1: Seq<char>, u2: Seq<char>)
    requires
        ids_are_indices(pages),
        urls_distinct(pages),
        pages.len() <= u64::MAX,
        map_of(pages).contains_key(u1),
        map_of(pages).contains_key(u2),
        map_of(pages)[u1] == map_of(pages)[u2],
    ensures
        u1 == u2,
{
    lemma_map_of_contains(pages, u1);
    lemma_map_of_contains(pages, u2);
    let i1 = choose|i: int| 0 <= i < pages.len() && (#[trigger] pages[i]).0 == u1;
    let i2 = choose|i: int| 0 <= i < pages.len() && (#[trigger] pages[i]).0 == u2;
    lemma_map_of_index(pages, i1);
    lemma_map_of_index(pages, i2);
    assert(pages[i1].1 == i1 as ID);
    assert(pages[i2].1 == i2 as ID);
    assert(i1 == i2);
}

/// Adding the same link any number of times leaves exactly one copy: a
/// second insertion of the pair changes nothing, and the insertion is
/// exactly set insertion on the recorded pairs.
pub proof fn lemma_add_link_idempotent(links: Seq<(ID, ID)>, e: (ID, ID))
    ensures
        links_add(links_add(links, e), e) == links_add(links, e),
        links_add(links, e).to_set() == links.to_set().insert(e),
{
    broadcast use vstd::seq_lib::lemma_seq_contains_after_push;

    assert(links_add(links, e).contains(e));
    assert(links_add(links, e).to_set() =~= links.to_set().insert(e));
}

/// A URL registered before a fold of anchor steps is still registered
/// afterwards: the registry only grows.
pub proof fn lemma_fold_pages_monotone(
    pages: Seq<(Seq<char>, ID)>,
    links: Seq<(ID, ID)>,
    src_id: ID,
    anchors: Seq<Seq<char>>,
    depth: u64,
    u: Seq<char>,
)
    requires
        map_of(pages).contains_key(u),
    ensures
        map_of(anchors_fold(pages, links, src_id, anchors, depth).0).contains_key(u),
    decreases anchors.len(),
{
    if anchors.len() > 0 {
        let head = anchor_step(pages, links, src_id, anchors[0], depth);
        if !map_of(pages).contains_key(anchors[0]) {
            assert(head.0.drop_last() =~= pages);
        }
        lemma_fold_pages_monotone(head.0, head.1, src_id, anchors.drop_first(), depth, u);
    }
}

proof fn lemma_fold_pages_from_anchors(
    pages: Seq<(Seq<char>, ID)>,
    links: Seq<(ID, ID)>,
    src_id: ID,
    anchors: Seq<Seq<char>>,
    depth: u64,
    u: Seq<char>,
)
    requires
        map_of(anchors_fold(pages, links, src_id, anchors, depth).0).contains_key(u),
    ensures
        map_of(pages).contains_key(u) || anchors.contains(u),
    decreases anchors.len(),
{
    if anchors.len() == 0 {
    } else {
        let head = anchor_step(pages, links, src_id, anchors[0], depth);
        lemma_fold_pages_from_anchors(head.0, head.1, src_id, anchors.drop_first(), depth, u);
        if map_of(head.0).contains_key(u) && !map_of(pages).contains_key(u) {
            assert(head.0.drop_last() =~= pages);
            assert(u == anchors[0]);
            assert(anchors.contains(u));
        }
        if anchors.drop_first().contains(u) {
            let j = choose|j: int| 0 <= j < anchors.drop_first().len() && anchors.drop_first()[j]
                == u;
            assert(anchors[j + 1] == u);
        }
    }
}

/// One crawl step registers no page out of thin air: everything in the
/// resulting registry was registered before, is the processed page's own
/// URL, or is one of its anchors.  With the task lemma below this bounds
/// each registered page's distance from the seed: pages enter the
/// registry only while some task for a neighboring page is processed.
pub proof fn lemma_step_pages(
    pages: Seq<(Seq<char>, ID)>,
    links: Seq<(ID, ID)>,
    url: Seq<char>,
    anchors: Seq<Seq<char>>,
    depth: u64,
    u: Seq<char>,
)
    requires
        map_of(page_step(pages, links, url, anchors, depth).0).contains_key(u),
    ensures
        map_of(pages).contains_key(u) || u == url || anchors.contains(u),
{
    let r0 = pages_register(pages, url);
    lemma_fold_pages_from_anchors(r0.0, links, r0.1, anchors, depth, u);
    if map_of(r0.0).contains_key(u) && !map_of(pages).contains_key(u) {
        assert(r0.0.drop_last() =~= pages);
    }
}

proof fn lemma_fold_tasks_complete(
    pages: Seq<(Seq<char>, ID)>,
    links: Seq<(ID, ID)>,
    src_id: ID,
    anchors: Seq<Seq<char>>,
    depth: u64,
    u: Seq<char>,
)
    requires
        depth > 1,
        starts_with_spec(u, wiki_article_prefix()),
        !map_of(pages).contains_key(u),
        map_of(anchors_fold(pages, links, src_id, anchors, depth).0).contains_key(u),
    ensures
        anchors_fold(pages, links, src_id, anchors, depth).2.contains((u, (depth - 1) as u64)),
    decreases anchors.len(),
{
    broadcast use vstd::seq_lib::group_seq_properties;

    let head = anchor_step(pages, links, src_id, anchors[0], depth);
    let rest = anchors_fold(head.0, head.1, src_id, anchors.drop_first(), depth);
    if !map_of(pages).contains_key(anchors[0]) {
        assert(head.0.drop_last() =~= pages);
    }
    if map_of(head.0).contains_key(u) {
        assert(u == anchors[0]);
        assert(head.2 == seq![(u, (depth - 1) as u64)]);
        assert(head.2.contains((u, (depth - 1) as u64)));
    } else {
        lemma_fold_tasks_complete(head.0, head.1, src_id, anchors.drop_first(), depth, u);
    }
}

/// The converse of the task lemma: while depth remains, every internal
/// page that one crawl step registered for the first time (other than the
/// processed page itself) gets its follow-on task, with the remaining
/// depth decremented.
pub proof fn lemma_step_tasks_complete(
    pages: Seq<(Seq<char>, ID)>,
    links: Seq<(ID, ID)>,
    url: Seq<char>,
    anchors: Seq<Seq<char>>,
    depth: u64,
    u: Seq<char>,
)
    requires
        depth > 1,
        starts_with_spec(u, wiki_article_prefix()),
        !map_of(pages).contains_key(u),
        u != url,
        map_of(page_step(pages, links, url, anchors, depth).0).contains_key(u),
    ensures
        page_step(pages, links, url, anchors, depth).2.contains((u, (depth - 1) as u64)),
{
    let r0 = pages_register(pages, url);
    if !map_of(pages).contains_key(url) {
        assert(r0.0.drop_last() =~= pages);
        lemma_map_of_contains(pages, u);
        lemma_map_of_contains(r0.0, u);
        assert(!map_of(r0.0).contains_key(u));
    }
    lemma_fold_tasks_complete(r0.0, links, r0.1, anchors, depth, u);
}

proof fn lemma_fold_tasks(
    pages: Seq<(Seq<char>, ID)>,
    links: Seq<(ID, ID)>,
    src_id: ID,
    anchors: Seq<Seq<char>>,
    depth: u64,
    t: (Seq<char>, u64),
)
    requires
        anchors_fold(pages, links, src_id, anchors, depth).2.contains(t),
    ensures
        t.1 + 1 == depth && depth > 1,
        starts_with_spec(t.0, wiki_article_prefix()),
        !map_of(pages).contains_key(t.0),
        map_of(anchors_fold(pages, links, src_id, anchors, depth).0).contains_key(t.0),
    decreases anchors.len(),
{
    broadcast use vstd::seq_lib::group_seq_properties;

    let head = anchor_step(pages, links, src_id, anchors[0], depth);
    let rest = anchors_fold(head.0, head.1, src_id, anchors.drop_first(), depth);
    if head.2.contains(t) {
        assert(t == (anchors[0], (depth - 1) as u64));
        assert(head.0.drop_last() =~= pages);
        lemma_map_of_contains(head.0, t.0);
        assert(head.0[head.0.len() - 1].0 == t.0);
        lemma_fold_pages_monotone(head.0, head.1, src_id, anchors.drop_first(), depth, t.0);
    } else {
        assert(rest.2.contains(t));
        lemma_fold_tasks(head.0, head.1, src_id, anchors.drop_first(), depth, t);
        if map_of(pages).contains_key(t.0) {
            if !map_of(pages).contains_key(anchors[0]) {
                assert(head.0.drop_last() =~= pages);
            }
            assert(map_of(head.0).contains_key(t.0));
        }
    }
}

/// Every follow-on task that one crawl step emits carries exactly one
/// less remaining depth (and is emitted only while depth remains), names
/// an internal page link that was not registered before the step, and
/// names a page that the step registered.  Together with the seed task's
/// depth this bounds every registered page's distance from the seed by
/// the configured depth.
pub proof fn lemma_step_tasks(
    pages: Seq<(Seq<char>, ID)>,
    links: Seq<(ID, ID)>,
    url: Seq<char>,
    anchors: Seq<Seq<char>>,
    depth: u64,
)
    ensures
        forall|t: (Seq<char>, u64)|
            #[trigger] page_step(pages, links, url, anchors, depth).2.contains(t) ==> {
                &&& t.1 + 1 == depth
                &&& depth > 1
                &&& starts_with_spec(t.0, wiki_article_prefix())
                &&& !map_of(pages).contains_key(t.0)
                &&& t.0 != url
                &&& map_of(page_step(pages, links, url, anchors, depth).0).contains_key(t.0)
            },
{
    let r0 = pages_register(pages, url);
    assert forall|t: (Seq<char>, u64)|
        #[trigger] page_step(pages, links, url, anchors, depth).2.contains(t) implies {
        &&& t.1 + 1 == depth
        &&& depth > 1
        &&& starts_with_spec(t.0, wiki_article_prefix())
        &&& !map_of(pages).contains_key(t.0)
        &&& t.0 != url
        &&& map_of(page_step(pages, links, url, anchors, depth).0).contains_key(t.0)
    } by {
        lemma_fold_tasks(r0.0, links, r0.1, anchors, depth, t);
        if !map_of(pages).contains_key(url) {
            assert(r0.0.drop_last() =~= pages);
            lemma_map_of_contains(pages, t.0);
            lemma_map_of_contains(r0.0, t.0);
        }
        assert(map_of(r0.0).contains_key(url));
    }
}

/// Whether the link list holds the pair (source, target).
#[verifier::loop_isolation(false)]
pub fn links_contain(links: &Vec<(ID, ID)>, source: ID, target: ID) -> (r: bool)
    ensures
        r == links@.contains((source, target)),
{
    let mut i: usize = 0;
    while i < links.len()
        invariant
            i <= links.len(),
            forall|k: int| 0 <= k < i ==> links@[k] != (source, target),
        decreases links.len() - i,
    {
        if links[i].0 == source && links[i].1 == target {
            assert(links@[i as int] == (source, target));
            return true;
        }
        i += 1;
    }
    false
}

} // verus!
