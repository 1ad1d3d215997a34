use vstd::prelude::*;

use crate::canon::{canon_of, canonicalize};
use crate::errors::CrawlError;
use crate::extract::{collect_links, get_page, get_urls, hrefs_of};
use crate::frontier::{
    admitted_list, canon_list, first_owner, in_scope, lemma_push_contains, views_of, Frontier,
};
use crate::page::Page;

verus! {

broadcast use vstd::set::group_set_axioms;

/// The body stored for `address` in a site given as parallel address and body
/// lists, or `None` when the site has no such address.
fn site_lookup<'a>(
    site_addrs: &Vec<String>,
    site_bodies: &'a Vec<String>,
    address: &String,
) -> (r: Option<&'a String>)
    requires
        site_addrs@.len() == site_bodies@.len(),
    ensures
        r is Some <==> views_of(site_addrs@).contains(address@),
{
    let mut i: usize = 0;
    while i < site_addrs.len()
        invariant
            i <= site_addrs@.len(),
            site_addrs@.len() == site_bodies@.len(),
            forall|j: int| 0 <= j < i ==> views_of(site_addrs@)[j] != address@,
        decreases site_addrs@.len() - i,
    {
        assert(views_of(site_addrs@)[i as int] == site_addrs@[i as int]@);
        let hit = site_addrs[i].eq(address);
        if hit {
            assert(views_of(site_addrs@)[i as int] == address@);
            return Some(&site_bodies[i]);
        }
        i += 1;
    }
    assert(forall|j: int| 0 <= j < site_addrs@.len() ==> views_of(site_addrs@)[j] != address@);
    None
}

/// Which storage sink a crawl writes to: one file per page under a directory
/// tree, or one record per page in a document store.
#[derive(Clone, Copy)]
pub enum SaveLocation {
    File,
    Database,
}

/// The crawl engine: the shared frontier and the chosen sink. The engine
/// decides which address to fetch next and what a fetched document yields;
/// fetching and storing themselves are its callers' work.
pub struct Crawler {
    pub frontier: Frontier,
    pub save_location: SaveLocation,
}

impl Crawler {
    /// A crawler with an empty frontier.
    pub fn new(save_location: SaveLocation) -> (c: Crawler)
        ensures
            c.frontier.wf(),
            c.frontier.pending_view().len() == 0,
            c.frontier.visited_view().len() == 0,
            c.frontier.claimed_view().len() == 0,
            c.frontier.seeds_view().len() == 0,
            c.save_location == save_location,
    {
        Crawler { frontier: Frontier::new(), save_location }
    }

    /// Normalizes an address to its canonical form: fragment and query
    /// removed, scheme, host and path kept. Fails with `MalformedAddress`
    /// exactly when the address does not parse; canonicalizing a returned
    /// address gives it back unchanged.
    pub fn sanitize_url(address: &str) -> (r: Result<String, CrawlError>)
        ensures
            r is Ok <==> canon_of(address@) is Some,
            r is Ok ==> r->Ok_0@ == canon_of(address@)->0,
            r is Ok ==> canon_of(r->Ok_0@) == Some(r->Ok_0@),
            r is Err ==> r->Err_0 is MalformedAddress,
    {
        canonicalize(address)
    }

    /// Registers each seed line that canonicalizes: its canonical address is
    /// recorded as a seed and queued for fetching; lines that do not parse
    /// are dropped. Called once, before workers start.
    pub fn read_seeds(&mut self, lines: Vec<String>)
        requires
            old(self).frontier.wf(),
        ensures
            final(self).frontier.wf(),
            final(self).save_location == old(self).save_location,
            final(self).frontier.visited_view() == old(self).frontier.visited_view(),
            final(self).frontier.claimed_view() == old(self).frontier.claimed_view(),
            final(self).frontier.pending_view() == old(self).frontier.pending_view() + canon_list(
                views_of(lines@),
            ),
            final(self).frontier.seed_addrs() == old(self).frontier.seed_addrs() + canon_list(
                views_of(lines@),
            ),
            forall|i: int|
                old(self).frontier.seeds_view().len() <= i
                    < final(self).frontier.seeds_view().len() ==> {
                    &&& final(self).frontier.seeds_view()[i].title@ == Seq::<char>::empty()
                    &&& final(self).frontier.seeds_view()[i].description@ == Seq::<char>::empty()
                    &&& final(self).frontier.seeds_view()[i].html@ == Seq::<char>::empty()
                },
    {
        self.frontier.seed(lines);
    }

    /// Claims the next address to fetch: one that lies in scope and was never
    /// fetched before; `None` once the queue is drained.
    pub fn next_task(&mut self) -> (r: Option<String>)
        requires
            old(self).frontier.wf(),
        ensures
            final(self).frontier.wf(),
            final(self).save_location == old(self).save_location,
            final(self).frontier.visited_view() == old(self).frontier.visited_view(),
            final(self).frontier.seeds_view() == old(self).frontier.seeds_view(),
            r is None ==> {
                &&& final(self).frontier.pending_view().len() == 0
                &&& final(self).frontier.claimed_view() == old(self).frontier.claimed_view()
                &&& forall|j: int|
                    0 <= j < old(self).frontier.pending_view().len() ==> (old(
                        self,
                    ).frontier.visited_view().contains(old(self).frontier.pending_view()[j]) || old(
                        self,
                    ).frontier.claimed_view().contains(old(self).frontier.pending_view()[j]))
            },
            r is Some ==> {
                &&& !old(self).frontier.visited_view().contains(r->0@)
                &&& !old(self).frontier.claimed_view().contains(r->0@)
                &&& final(self).frontier.claimed_view() == old(self).frontier.claimed_view().push(
                    r->0@,
                )
                &&& old(self).frontier.pending_view().contains(r->0@)
                &&& in_scope(r->0@, final(self).frontier.seed_addrs())
                &&& final(self).frontier.pending_view().len() < old(
                    self,
                ).frontier.pending_view().len()
                &&& forall|a: Seq<char>|
                    old(self).frontier.pending_view().contains(a) ==> {
                        ||| final(self).frontier.pending_view().contains(a)
                        ||| old(self).frontier.visited_view().contains(a)
                        ||| final(self).frontier.claimed_view().contains(a)
                    }
            },
    {
        let r = self.frontier.claim_next();
        proof {
            if r is Some {
                let k = choose|k: int|
                    0 <= k < old(self).frontier.pending_view().len() && old(
                        self,
                    ).frontier.pending_view()[k] == r->0@ && self.frontier.pending_view() == old(
                        self,
                    ).frontier.pending_view().subrange(
                        k + 1,
                        old(self).frontier.pending_view().len() as int,
                    );
                assert(self.frontier.pending_view().len() == old(
                    self,
                ).frontier.pending_view().len() - k - 1);
                assert forall|a: Seq<char>|
                    old(self).frontier.pending_view().contains(a) implies (
                self.frontier.pending_view().contains(a) || old(
                    self,
                ).frontier.visited_view().contains(a) || self.frontier.claimed_view().contains(
                    a,
                )) by {
                    let idx = choose|idx: int|
                        0 <= idx < old(self).frontier.pending_view().len() && old(
                            self,
                        ).frontier.pending_view()[idx] == a;
                    if idx <= k {
                        lemma_push_contains(old(self).frontier.claimed_view(), r->0@, a);
                    } else {
                        assert(self.frontier.pending_view()[idx - k - 1] == a);
                    }
                }
            }
        }
        r
    }

    /// What a fetched document yields: its `Page` record and the owning seed,
    /// or `None` when no registered seed owns the address (a defensive skip;
    /// a claimed address always lies in scope). Reads the frontier, never
    /// changes it.
    pub fn process_fetched(&self, address: &String, html: &str) -> (r: Option<(Page, Page)>)
        ensures
            r is Some <==> first_owner(self.frontier.seed_addrs(), address@) is Some,
            r is Some ==> {
                &&& r->Some_0.0.url@ == address@
                &&& r->Some_0.0.title@ == crate::extract::title_of(html@)
                &&& r->Some_0.0.description@ == crate::extract::description_of(html@)
                &&& r->Some_0.0.html@ == crate::extract::normalized_of(html@)
                &&& r->Some_0.1.url@ == first_owner(self.frontier.seed_addrs(), address@)->0
                &&& self.frontier.seeds_view().contains(r->Some_0.1)
            },
    {
        match self.frontier.find_owning_seed(address) {
            Some(seed) => Some((get_page(html, address), seed)),
            None => None,
        }
    }

    /// Finishes a claimed address after its document was handed to the sink:
    /// marks it visited (also on a storage failure, so that a failed write
    /// can never cause a re-fetch loop), extracts the document's in-scope
    /// outbound links and queues the new ones.
    pub fn complete(&mut self, address: String, html: &str)
        requires
            old(self).frontier.wf(),
            old(self).frontier.claimed_view().contains(address@),
        ensures
            final(self).frontier.wf(),
            final(self).save_location == old(self).save_location,
            final(self).frontier.seeds_view() == old(self).frontier.seeds_view(),
            final(self).frontier.claimed_view() == old(self).frontier.claimed_view(),
            final(self).frontier.visited_set() == old(self).frontier.visited_set().insert(
                address@,
            ),
            final(self).frontier.visited_view().contains(address@),
            final(self).frontier.visited_view().no_duplicates(),
            ({
                let seeds = old(self).frontier.seed_addrs();
                let visited_now = old(self).frontier.visited_set().insert(address@);
                match first_owner(seeds, address@) {
                    Some(seed) => final(self).frontier.pending_view() == old(
                        self,
                    ).frontier.pending_view() + admitted_list(
                        collect_links(hrefs_of(html@), address@, seed, visited_now),
                        seeds,
                        visited_now,
                        old(self).frontier.claimed_set(),
                    ),
                    None => final(self).frontier.pending_view() == old(
                        self,
                    ).frontier.pending_view(),
                }
            }),
    {
        let addr_copy = address.clone();
        self.frontier.mark_visited(address);
        match self.frontier.find_owning_seed(&addr_copy) {
            Some(seed) => {
                let links = get_urls(html, &addr_copy, &seed.url, &self.frontier);
                self.frontier.enqueue_if_new(links);
            }
            None => {}
        }
        proof {
            crate::frontier::lemma_no_double_fetch(&self.frontier);
        }
    }

    /// One whole crawl over a site given as data: parallel lists of canonical
    /// addresses and document bodies stand in for the network, an address
    /// missing from the lists for a failed fetch. Drains the frontier to
    /// exhaustion and returns the pages that were handed to the sink, in the
    /// order they were stored. The `decreases` measure proves that the crawl
    /// reaches the empty-queue condition in finitely many steps on any finite
    /// site.
    pub fn run_crawl(&mut self, site_addrs: &Vec<String>, site_bodies: &Vec<String>) -> (stored:
        Vec<Page>)
        requires
            old(self).frontier.wf(),
            old(self).frontier.visited_view().len() == 0,
            old(self).frontier.claimed_view().len() == 0,
            site_addrs@.len() == site_bodies@.len(),
        ensures
            final(self).frontier.wf(),
            final(self).frontier.pending_view().len() == 0,
            final(self).frontier.visited_view().no_duplicates(),
            forall|k: int|
                0 <= k < stored@.len() ==> final(self).frontier.visited_view().contains(
                    stored@[k].url@,
                ),
            forall|a: Seq<char>|
                final(self).frontier.visited_view().contains(a) ==> views_of(site_addrs@).contains(
                    a,
                ),
            forall|a: Seq<char>|
                old(self).frontier.pending_view().contains(a) && views_of(site_addrs@).contains(a)
                    ==> final(self).frontier.visited_view().contains(a),
    {
        let ghost site = views_of(site_addrs@);
        let mut stored: Vec<Page> = Vec::new();
        proof {
            crate::frontier::lemma_visited_bounded(&self.frontier, site);
        }
        loop
            invariant
                self.frontier.wf(),
                site_addrs@.len() == site_bodies@.len(),
                site == views_of(site_addrs@),
                forall|a: Seq<char>| self.frontier.visited_view().contains(a) ==> site.contains(a),
                forall|k: int|
                    0 <= k < stored@.len() ==> self.frontier.visited_view().contains(
                        stored@[k].url@,
                    ),
                self.frontier.visited_view().len() <= site.to_set().len(),
                forall|a: Seq<char>|
                    old(self).frontier.pending_view().contains(a) ==> {
                        ||| self.frontier.pending_view().contains(a)
                        ||| self.frontier.visited_view().contains(a)
                        ||| self.frontier.claimed_view().contains(a)
                    },
                forall|a: Seq<char>|
                    self.frontier.claimed_view().contains(a) ==> (
                    self.frontier.visited_view().contains(a) || !site.contains(a)),
            decreases
                    site.to_set().len() - self.frontier.visited_view().len(),
                    self.frontier.pending_view().len(),
        {
            let ghost before = self.frontier;
            let task = self.next_task();
            match task {
                None => {
                    proof {
                        crate::frontier::lemma_no_double_fetch(&self.frontier);
                        assert forall|a: Seq<char>|
                            old(self).frontier.pending_view().contains(a) && site.contains(
                                a,
                            ) implies self.frontier.visited_view().contains(a) by {
                            if before.pending_view().contains(a) {
                                let j = choose|j: int|
                                    0 <= j < before.pending_view().len()
                                        && before.pending_view()[j] == a;
                                assert(before.visited_view().contains(a)
                                    || before.claimed_view().contains(a));
                            }
                        }
                    }
                    return stored;
                }
                Some(address) => {
                    match site_lookup(site_addrs, site_bodies, &address) {
                        Some(body) => {
                            match self.process_fetched(&address, body.as_str()) {
                                Some((page, _seed)) => {
                                    let ghost mid = self.frontier;
                                    let ghost pre_stored = stored@;
                                    let ghost addr_chars = address@;
                                    stored.push(page);
                                    proof {
                                        assert(mid.claimed_view().last() == address@);
                                        assert(mid.claimed_view().contains(address@));
                                    }
                                    self.complete(address, body.as_str());
                                    proof {
                                        mid.lemma_sets_match_views();
                                        self.frontier.lemma_sets_match_views();
                                        crate::frontier::lemma_view_set_len(&mid);
                                        crate::frontier::lemma_view_set_len(&self.frontier);
                                        assert(self.frontier.visited_set()
                                            == mid.visited_set().insert(address@));
                                        assert(!mid.visited_set().contains(address@));
                                        assert(self.frontier.visited_view().len()
                                            == mid.visited_view().len() + 1);
                                        assert forall|a: Seq<char>|
                                            self.frontier.visited_view().contains(
                                                a,
                                            ) implies site.contains(a) by {
                                            if a != address@ {
                                                assert(self.frontier.visited_set().contains(a));
                                                assert(mid.visited_set().contains(a));
                                                assert(mid.visited_view().contains(a));
                                            }
                                        }
                                        crate::frontier::lemma_visited_bounded(
                                            &self.frontier,
                                            site,
                                        );
                                        assert forall|k: int|
                                            0 <= k < stored@.len() implies self.frontier.visited_view().contains(
                                            stored@[k].url@,
                                        ) by {
                                            if k < stored@.len() - 1 {
                                                assert(stored@[k] == pre_stored[k]);
                                                assert(mid.visited_view().contains(
                                                    stored@[k].url@,
                                                ));
                                                assert(mid.visited_set().contains(
                                                    stored@[k].url@,
                                                ));
                                                assert(self.frontier.visited_set().contains(
                                                    stored@[k].url@,
                                                ));
                                                assert(self.frontier.visited_view().contains(
                                                    stored@[k].url@,
                                                ));
                                            } else {
                                                assert(stored@ == pre_stored.push(page));
                                                assert(stored@[k] == page);
                                                assert(stored@[k].url@ == addr_chars);
                                            }
                                        }
                                        assert forall|a: Seq<char>|
                                            old(self).frontier.pending_view().contains(
                                                a,
                                            ) implies {
                                            ||| self.frontier.pending_view().contains(a)
                                            ||| self.frontier.visited_view().contains(a)
                                            ||| self.frontier.claimed_view().contains(a)
                                        } by {
                                            if mid.pending_view().contains(a) {
                                                let idx = choose|idx: int|
                                                    0 <= idx < mid.pending_view().len()
                                                        && mid.pending_view()[idx] == a;
                                                assert(self.frontier.pending_view()[idx] == a);
                                            }
                                            if before.visited_view().contains(a) {
                                                assert(mid.visited_view().contains(a));
                                                assert(mid.visited_set().contains(a));
                                                assert(self.frontier.visited_set().contains(a));
                                                assert(self.frontier.visited_view().contains(a));
                                            }
                                            if before.claimed_view().contains(a) {
                                                lemma_push_contains(
                                                    before.claimed_view(),
                                                    addr_chars,
                                                    a,
                                                );
                                            }
                                        }
                                        assert forall|a: Seq<char>|
                                            self.frontier.claimed_view().contains(a) implies (
                                        self.frontier.visited_view().contains(a) || !site.contains(
                                            a,
                                        )) by {
                                            lemma_push_contains(before.claimed_view(), addr_chars, a);
                                            if a != addr_chars && before.visited_view().contains(
                                                a,
                                            ) {
                                                assert(mid.visited_set().contains(a));
                                                assert(self.frontier.visited_set().contains(a));
                                                assert(self.frontier.visited_view().contains(a));
                                            }
                                        }
                                    }
                                }
                                None => {
                                    proof {
                                        crate::frontier::lemma_in_scope_first_owner(
                                            self.frontier.seed_addrs(),
                                            address@,
                                        );
                                        assert(false);
                                    }
                                }
                            }
                        }
                        None => {
                            proof {
                                assert forall|a: Seq<char>|
                                    self.frontier.claimed_view().contains(a) implies (
                                self.frontier.visited_view().contains(a) || !site.contains(
                                    a,
                                )) by {
                                    lemma_push_contains(before.claimed_view(), address@, a);
                                }
                                assert forall|a: Seq<char>|
                                    old(self).frontier.pending_view().contains(a) implies {
                                    ||| self.frontier.pending_view().contains(a)
                                    ||| self.frontier.visited_view().contains(a)
                                    ||| self.frontier.claimed_view().contains(a)
                                } by {
                                    if before.claimed_view().contains(a) {
                                        lemma_push_contains(before.claimed_view(), address@, a);
                                    }
                                }
                            }
                        }
                    }
                }
            }
        }
    }

    /// True when `address` has completed processing.
    pub fn is_visited(&self, address: &String) -> (r: bool)
        ensures
            r == self.frontier.visited_view().contains(address@),
    {
        self.frontier.is_visited(address)
    }

    /// How many addresses have completed processing.
    pub fn visited_count(&self) -> (n: usize)
        ensures
            n == self.frontier.visited_view().len(),
    {
        self.frontier.visited_len()
    }
}

} // verus!
