use vstd::prelude::*;

use crate::canon::{canon_of, canonicalize, is_prefix, starts_with_str};
use crate::page::Page;

verus! {

broadcast use vstd::set::group_set_axioms;

/// The character sequences held by a vector of strings.
pub open spec fn views_of(v: Seq<String>) -> Seq<Seq<char>> {
    v.map_values(|s: String| s@)
}

/// The canonical addresses of a seed registry.
pub open spec fn seed_urls(seeds: Seq<Page>) -> Seq<Seq<char>> {
    seeds.map_values(|p: Page| p.url@)
}

/// `a` lies in scope: some registered seed address is a prefix of it.
pub open spec fn in_scope(a: Seq<char>, seeds: Seq<Seq<char>>) -> bool {
    exists|i: int| 0 <= i < seeds.len() && is_prefix(seeds[i], a)
}

/// The canonical forms of the addresses in `addrs`, in order, keeping only
/// those that canonicalize.
pub open spec fn canon_list(addrs: Seq<Seq<char>>) -> Seq<Seq<char>>
    decreases addrs.len(),
{
    if addrs.len() == 0 {
        Seq::empty()
    } else {
        canon_list(addrs.drop_last()) + (match canon_of(addrs.last()) {
            Some(c) => seq![c],
            None => Seq::<Seq<char>>::empty(),
        })
    }
}

/// The first seed address in registration order that is a prefix of `a`,
/// or `None` when none is.
pub open spec fn first_owner(seeds: Seq<Seq<char>>, a: Seq<char>) -> Option<Seq<char>>
    decreases seeds.len(),
{
    if seeds.len() == 0 {
        None
    } else if is_prefix(seeds.first(), a) {
        Some(seeds.first())
    } else {
        first_owner(seeds.drop_first(), a)
    }
}

/// The first index whose seed owns `a` determines `first_owner`.
pub proof fn lemma_first_owner_at(seeds: Seq<Seq<char>>, a: Seq<char>, i: int)
    requires
        0 <= i < seeds.len(),
        is_prefix(seeds[i], a),
        forall|j: int| 0 <= j < i ==> !is_prefix(seeds[j], a),
    ensures
        first_owner(seeds, a) == Some(seeds[i]),
    decreases i,
{
    if i > 0 {
        lemma_first_owner_at(seeds.drop_first(), a, i - 1);
    }
}

/// When no seed owns `a`, `first_owner` is `None`.
pub proof fn lemma_first_owner_none(seeds: Seq<Seq<char>>, a: Seq<char>)
    requires
        forall|j: int| 0 <= j < seeds.len() ==> !is_prefix(seeds[j], a),
    ensures
        first_owner(seeds, a) is None,
    decreases seeds.len(),
{
    if seeds.len() > 0 {
        lemma_first_owner_none(seeds.drop_first(), a);
    }
}

/// Pushing a string onto a vector appends its characters to the view list.
pub proof fn lemma_views_push(v: Seq<String>, s: String)
    ensures
        views_of(v.push(s)) =~= views_of(v).push(s@),
{
    assert forall|k: int| 0 <= k < v.len() + 1 implies views_of(v.push(s))[k] == views_of(
        v,
    ).push(s@)[k] by {
        if k < v.len() {
            assert(v.push(s)[k] == v[k]);
        } else {
            assert(v.push(s)[k] == s);
        }
    }
}

/// Registering one more seed appends its address to the seed address list.
pub proof fn lemma_seed_urls_push(seeds: Seq<Page>, p: Page)
    ensures
        seed_urls(seeds.push(p)) =~= seed_urls(seeds).push(p.url@),
{
    assert forall|k: int| 0 <= k < seeds.len() + 1 implies seed_urls(seeds.push(p))[k] == seed_urls(
        seeds,
    ).push(p.url@)[k] by {
        if k < seeds.len() {
            assert(seeds.push(p)[k] == seeds[k]);
        } else {
            assert(seeds.push(p)[k] == p);
        }
    }
}

/// Membership in a sequence extended by one element.
pub proof fn lemma_push_contains<A>(s: Seq<A>, x: A, y: A)
    ensures
        s.push(x).contains(y) <==> (s.contains(y) || y == x),
{
    if s.push(x).contains(y) {
        let i = choose|i: int| 0 <= i < s.push(x).len() && s.push(x)[i] == y;
        if i < s.len() {
            assert(s[i] == y);
        }
    }
    if s.contains(y) {
        let i = choose|i: int| 0 <= i < s.len() && s[i] == y;
        assert(s.push(x)[i] == y);
    }
    if y == x {
        assert(s.push(x)[s.len() as int] == y);
    }
}

/// A sequence stays duplicate-free when a fresh element is appended.
pub proof fn lemma_push_no_duplicates<A>(s: Seq<A>, x: A)
    requires
        s.no_duplicates(),
        !s.contains(x),
    ensures
        s.push(x).no_duplicates(),
{
    assert forall|i: int, j: int|
        0 <= i < s.push(x).len() && 0 <= j < s.push(x).len() && i != j implies s.push(x)[i]
        != s.push(x)[j] by {
        if i < s.len() && j < s.len() {
            assert(s[i] == s.push(x)[i] && s[j] == s.push(x)[j]);
        } else if i < s.len() {
            assert(!s.contains(x) ==> s[i] != x);
        } else if j < s.len() {
            assert(!s.contains(x) ==> s[j] != x);
        }
    }
}

/// Every address is a prefix of itself.
pub proof fn lemma_is_prefix_refl(s: Seq<char>)
    ensures
        is_prefix(s, s),
{
    assert(s.subrange(0, s.len() as int) =~= s);
}

/// An address in scope of a seed list stays in scope when a seed is added.
pub proof fn lemma_in_scope_push(a: Seq<char>, seeds: Seq<Seq<char>>, x: Seq<char>)
    requires
        in_scope(a, seeds),
    ensures
        in_scope(a, seeds.push(x)),
{
    let i = choose|i: int| 0 <= i < seeds.len() && is_prefix(seeds[i], a);
    assert(seeds.push(x)[i] == seeds[i]);
}

/// True when `v` holds a string whose characters are `target`.
pub fn contains_address(v: &Vec<String>, target: &String) -> (r: bool)
    ensures
        r == views_of(v@).contains(target@),
{
    let mut i: usize = 0;
    while i < v.len()
        invariant
            i <= v@.len(),
            forall|j: int| 0 <= j < i ==> views_of(v@)[j] != target@,
        decreases v@.len() - i,
    {
        assert(views_of(v@)[i as int] == v@[i as int]@);
        let hit = v[i].eq(target);
        if hit {
            assert(views_of(v@)[i as int] == target@);
            return true;
        }
        i += 1;
    }
    assert(forall|j: int| 0 <= j < v@.len() ==> views_of(v@)[j] != target@);
    false
}

/// The shared crawl state: the pending queue (head at index 0), the set of
/// completed addresses, the set of addresses ever handed to a fetch, and the
/// seed registry. Workers reach it only through the operations below.
pub struct Frontier {
    pending: Vec<String>,
    visited: Vec<String>,
    claimed: Vec<String>,
    seeds: Vec<Page>,
}

impl Frontier {
    pub closed spec fn pending_view(&self) -> Seq<Seq<char>> {
        views_of(self.pending@)
    }

    pub closed spec fn visited_view(&self) -> Seq<Seq<char>> {
        views_of(self.visited@)
    }

    pub closed spec fn claimed_view(&self) -> Seq<Seq<char>> {
        views_of(self.claimed@)
    }

    pub closed spec fn seeds_view(&self) -> Seq<Page> {
        self.seeds@
    }

    pub closed spec fn seed_addrs(&self) -> Seq<Seq<char>> {
        seed_urls(self.seeds@)
    }

    /// The completed addresses, as a set.
    pub closed spec fn visited_set(&self) -> Set<Seq<char>> {
        self.visited_view().to_set()
    }

    /// The addresses ever handed to a fetch, as a set.
    pub closed spec fn claimed_set(&self) -> Set<Seq<char>> {
        self.claimed_view().to_set()
    }

    /// Set membership in the two record sets coincides with membership in
    /// the underlying lists.
    pub proof fn lemma_sets_match_views(&self)
        ensures
            forall|a: Seq<char>| #[trigger]
                self.visited_set().contains(a) == self.visited_view().contains(a),
            forall|a: Seq<char>| #[trigger]
                self.claimed_set().contains(a) == self.claimed_view().contains(a),
    {
    }

    /// Well-formedness: no address is recorded as completed or as claimed
    /// twice, every completed address was claimed first, and everything in
    /// the pending queue lies in scope of some registered seed.
    pub closed spec fn wf(&self) -> bool {
        &&& self.visited_view().no_duplicates()
        &&& self.claimed_view().no_duplicates()
        &&& forall|a: Seq<char>|
            self.visited_view().contains(a) ==> self.claimed_view().contains(a)
        &&& forall|i: int|
            0 <= i < self.pending_view().len() ==> in_scope(self.pending_view()[i], self.seed_addrs())
    }

    /// A fresh, empty frontier.
    pub fn new() -> (f: Frontier)
        ensures
            f.wf(),
            f.pending_view().len() == 0,
            f.visited_view().len() == 0,
            f.claimed_view().len() == 0,
            f.seeds_view().len() == 0,
    {
        Frontier { pending: Vec::new(), visited: Vec::new(), claimed: Vec::new(), seeds: Vec::new() }
    }

    /// Registers each address that canonicalizes as a seed and appends its
    /// canonical form to the pending queue; addresses that do not parse are
    /// dropped. Called once, before workers start.
    pub fn seed(&mut self, addresses: Vec<String>)
        requires
            old(self).wf(),
        ensures
            final(self).wf(),
            final(self).visited_view() == old(self).visited_view(),
            final(self).claimed_view() == old(self).claimed_view(),
            final(self).visited_set() == old(self).visited_set(),
            final(self).claimed_set() == old(self).claimed_set(),
            final(self).pending_view() == old(self).pending_view() + canon_list(
                views_of(addresses@),
            ),
            final(self).seed_addrs() == old(self).seed_addrs() + canon_list(views_of(addresses@)),
            forall|i: int|
                old(self).seeds_view().len() <= i < final(self).seeds_view().len() ==> {
                    &&& final(self).seeds_view()[i].title@ == Seq::<char>::empty()
                    &&& final(self).seeds_view()[i].description@ == Seq::<char>::empty()
                    &&& final(self).seeds_view()[i].html@ == Seq::<char>::empty()
                },
    {
        let addr_count = addresses.len();
        let mut i: usize = 0;
        while i < addr_count
            invariant
                i <= addr_count,
                addr_count == addresses@.len(),
                self.wf(),
                self.visited_view() == old(self).visited_view(),
                self.claimed_view() == old(self).claimed_view(),
                self.pending_view() == old(self).pending_view() + canon_list(
                    views_of(addresses@).take(i as int),
                ),
                self.seed_addrs() == old(self).seed_addrs() + canon_list(
                    views_of(addresses@).take(i as int),
                ),
                old(self).seeds_view().len() <= self.seeds_view().len(),
                forall|j: int|
                    old(self).seeds_view().len() <= j < self.seeds_view().len() ==> {
                        &&& self.seeds_view()[j].title@ == Seq::<char>::empty()
                        &&& self.seeds_view()[j].description@ == Seq::<char>::empty()
                        &&& self.seeds_view()[j].html@ == Seq::<char>::empty()
                    },
            decreases addr_count - i,
        {
            proof {
                assert(views_of(addresses@).take(i + 1).drop_last() =~= views_of(addresses@).take(
                    i as int,
                ));
                assert(views_of(addresses@).take(i + 1).last() == views_of(addresses@)[i as int]);
            }
            let ghost pre_seeds = self.seeds@;
            let ghost pre_pending = self.pending@;
            match canonicalize(addresses[i].as_str()) {
                Ok(c) => {
                    let seed_addr = c.clone();
                    let record = Page::seed_record(c);
                    proof {
                        lemma_seed_urls_push(pre_seeds, record);
                    }
                    self.seeds.push(record);
                    proof {
                        assert(self.seed_addrs() == seed_urls(pre_seeds).push(seed_addr@));
                        assert(self.seed_addrs() =~= old(self).seed_addrs() + canon_list(
                            views_of(addresses@).take(i + 1),
                        ));
                        assert forall|k: int|
                            0 <= k < self.pending_view().len() implies in_scope(
                            self.pending_view()[k],
                            self.seed_addrs(),
                        ) by {
                            lemma_in_scope_push(
                                self.pending_view()[k],
                                seed_urls(pre_seeds),
                                seed_addr@,
                            );
                        }
                        lemma_views_push(pre_pending, seed_addr);
                    }
                    self.pending.push(seed_addr);
                    proof {
                        assert(self.pending_view() == views_of(pre_pending).push(seed_addr@));
                        assert(self.pending_view() =~= old(self).pending_view() + canon_list(
                            views_of(addresses@).take(i + 1),
                        ));
                        lemma_is_prefix_refl(seed_addr@);
                        let n = self.seed_addrs().len() - 1;
                        assert(self.seed_addrs()[n] == seed_addr@);
                        assert forall|k: int|
                            0 <= k < self.pending_view().len() implies in_scope(
                            self.pending_view()[k],
                            self.seed_addrs(),
                        ) by {
                            if k == self.pending_view().len() - 1 {
                                assert(self.pending_view()[k] == seed_addr@);
                                assert(is_prefix(self.seed_addrs()[n], seed_addr@));
                            } else {
                                assert(self.pending_view()[k] == views_of(pre_pending)[k]);
                            }
                        }
                    }
                }
                Err(_) => {
                    proof {
                        assert(canon_list(views_of(addresses@).take(i + 1)) =~= canon_list(
                            views_of(addresses@).take(i as int),
                        ));
                    }
                }
            }
            i += 1;
        }
        proof {
            assert(views_of(addresses@).take(addr_count as int) =~= views_of(addresses@));
        }
    }

    /// How many addresses have completed processing.
    pub fn visited_len(&self) -> (n: usize)
        ensures
            n == self.visited_view().len(),
    {
        self.visited.len()
    }

    /// How many addresses are waiting in the queue.
    pub fn pending_len(&self) -> (n: usize)
        ensures
            n == self.pending_view().len(),
    {
        self.pending.len()
    }

    /// True when `address` has completed processing.
    pub fn is_visited(&self, address: &String) -> (r: bool)
        ensures
            r == self.visited_view().contains(address@),
    {
        contains_address(&self.visited, address)
    }

    /// Records `address` as completed. Idempotent; requires that the address
    /// was claimed, so that completion can never outrun a fetch.
    pub fn mark_visited(&mut self, address: String)
        requires
            old(self).wf(),
            old(self).claimed_view().contains(address@),
        ensures
            final(self).wf(),
            final(self).pending_view() == old(self).pending_view(),
            final(self).claimed_view() == old(self).claimed_view(),
            final(self).claimed_set() == old(self).claimed_set(),
            final(self).seeds_view() == old(self).seeds_view(),
            final(self).seed_addrs() == old(self).seed_addrs(),
            final(self).visited_view().contains(address@),
            forall|a: Seq<char>|
                final(self).visited_view().contains(a) <==> (old(self).visited_view().contains(a)
                    || a == address@),
            final(self).visited_set() == old(self).visited_set().insert(address@),
    {
        if !contains_address(&self.visited, &address) {
            let ghost pre = self.visited@;
            let ghost a_chars = address@;
            proof {
                lemma_views_push(pre, address);
                lemma_push_no_duplicates(views_of(pre), a_chars);
            }
            self.visited.push(address);
            proof {
                assert(self.visited_view() == views_of(pre).push(a_chars));
                assert forall|a: Seq<char>|
                    self.visited_view().contains(a) <==> (views_of(pre).contains(a) || a
                        == a_chars) by {
                    lemma_push_contains(views_of(pre), a_chars, a);
                }
                assert(self.visited_view().contains(a_chars));
                assert forall|a: Seq<char>|
                    self.visited_view().contains(a) implies self.claimed_view().contains(a) by {
                    lemma_push_contains(views_of(pre), a_chars, a);
                }
                assert forall|i: int| 0 <= i < self.pending_view().len() implies in_scope(
                    self.pending_view()[i],
                    self.seed_addrs(),
                ) by {
                    assert(self.pending_view() == old(self).pending_view());
                    assert(self.seed_addrs() == old(self).seed_addrs());
                    assert(in_scope(old(self).pending_view()[i], old(self).seed_addrs()));
                }
                assert(self.visited_set() =~= old(self).visited_set().insert(a_chars));
            }
        } else {
            proof {
                assert(self.visited_set() =~= old(self).visited_set().insert(address@));
            }
        }
    }

    /// Pops addresses from the head of the queue until one is found that was
    /// neither completed nor already handed to a fetch, records it as claimed
    /// and returns it; returns `None` after draining the queue. An address is
    /// returned by this operation at most once per run, which is what keeps
    /// any address from being fetched twice.
    pub fn claim_next(&mut self) -> (r: Option<String>)
        requires
            old(self).wf(),
        ensures
            final(self).wf(),
            final(self).visited_view() == old(self).visited_view(),
            final(self).visited_set() == old(self).visited_set(),
            final(self).seeds_view() == old(self).seeds_view(),
            final(self).seed_addrs() == old(self).seed_addrs(),
            r is None ==> {
                &&& final(self).pending_view().len() == 0
                &&& final(self).claimed_view() == old(self).claimed_view()
                &&& final(self).claimed_set() == old(self).claimed_set()
                &&& forall|j: int|
                    0 <= j < old(self).pending_view().len() ==> (old(self).visited_view().contains(
                        old(self).pending_view()[j],
                    ) || old(self).claimed_view().contains(old(self).pending_view()[j]))
            },
            r is Some ==> {
                &&& !old(self).visited_view().contains(r->0@)
                &&& !old(self).claimed_view().contains(r->0@)
                &&& final(self).claimed_view() == old(self).claimed_view().push(r->0@)
                &&& final(self).claimed_set() == old(self).claimed_set().insert(r->0@)
                &&& old(self).pending_view().contains(r->0@)
                &&& in_scope(r->0@, final(self).seed_addrs())
                &&& exists|k: int|
                    0 <= k < old(self).pending_view().len() && old(self).pending_view()[k] == r->0@
                        && final(self).pending_view() == old(self).pending_view().subrange(
                        k + 1,
                        old(self).pending_view().len() as int,
                    ) && (forall|j: int|
                        0 <= j < k ==> old(self).visited_view().contains(old(self).pending_view()[j])
                            || old(self).claimed_view().contains(old(self).pending_view()[j]))
            },
    {
        proof {
            assert(self.pending_view() =~= old(self).pending_view().subrange(
                0,
                old(self).pending_view().len() as int,
            ));
        }
        let ghost mut skipped: int = 0;
        loop
            invariant
                self.wf(),
                self.visited_view() == old(self).visited_view(),
                self.claimed_view() == old(self).claimed_view(),
                self.seeds_view() == old(self).seeds_view(),
                0 <= skipped <= old(self).pending_view().len(),
                self.pending_view() == old(self).pending_view().subrange(
                    skipped,
                    old(self).pending_view().len() as int,
                ),
                forall|j: int|
                    0 <= j < skipped ==> old(self).visited_view().contains(
                        old(self).pending_view()[j],
                    ) || old(self).claimed_view().contains(old(self).pending_view()[j]),
            decreases self.pending_view().len(),
        {
            if self.pending.len() == 0 {
                return None;
            }
            let ghost pre_pending = self.pending@;
            let address = self.pending.remove(0);
            proof {
                assert(views_of(pre_pending.remove(0)) =~= views_of(pre_pending).subrange(
                    1,
                    pre_pending.len() as int,
                ));
                assert(self.pending_view() =~= old(self).pending_view().subrange(
                    skipped + 1,
                    old(self).pending_view().len() as int,
                ));
                assert(address@ == views_of(pre_pending)[0]);
                assert(address@ == old(self).pending_view()[skipped]);
                skipped = skipped + 1;
                assert forall|k: int| 0 <= k < self.pending_view().len() implies in_scope(
                    self.pending_view()[k],
                    self.seed_addrs(),
                ) by {
                    assert(self.pending_view()[k] == views_of(pre_pending)[k + 1]);
                }
            }
            let seen = contains_address(&self.visited, &address) || contains_address(
                &self.claimed,
                &address,
            );
            if !seen {
                let ghost pre_claimed = self.claimed@;
                let ghost a_chars = address@;
                let result = address.clone();
                proof {
                    lemma_views_push(pre_claimed, address);
                    lemma_push_no_duplicates(views_of(pre_claimed), a_chars);
                }
                self.claimed.push(address);
                proof {
                    assert(self.claimed_view() == views_of(pre_claimed).push(a_chars));
                    assert forall|a: Seq<char>|
                        self.visited_view().contains(a) implies self.claimed_view().contains(
                        a,
                    ) by {
                        lemma_push_contains(views_of(pre_claimed), a_chars, a);
                    }
                    assert(in_scope(result@, self.seed_addrs())) by {
                        assert(views_of(pre_pending)[0] == result@);
                    }
                    assert forall|x: Seq<char>|
                        self.claimed_set().contains(x) == old(self).claimed_set().insert(
                            a_chars,
                        ).contains(x) by {
                        lemma_push_contains(views_of(pre_claimed), a_chars, x);
                    }
                    assert(self.claimed_set() =~= old(self).claimed_set().insert(a_chars));
                    let k_wit = skipped - 1;
                    assert(0 <= k_wit < old(self).pending_view().len() && old(
                        self,
                    ).pending_view()[k_wit] == result@ && self.pending_view() == old(
                        self,
                    ).pending_view().subrange(k_wit + 1, old(self).pending_view().len() as int));
                    assert(old(self).pending_view().contains(result@));
                }
                return Some(result);
            } else {
                proof {
                    assert(old(self).visited_view().contains(
                        old(self).pending_view()[skipped - 1],
                    ) || old(self).claimed_view().contains(old(self).pending_view()[skipped - 1]));
                }
            }
        }
    }

    /// Pushes each candidate that lies in scope and was neither completed nor
    /// claimed; everything else is dropped. A duplicate that survives this
    /// best-effort check is discarded later, when a claim re-checks it.
    pub fn enqueue_if_new(&mut self, addresses: Vec<String>)
        requires
            old(self).wf(),
        ensures
            final(self).wf(),
            final(self).visited_view() == old(self).visited_view(),
            final(self).claimed_view() == old(self).claimed_view(),
            final(self).visited_set() == old(self).visited_set(),
            final(self).claimed_set() == old(self).claimed_set(),
            final(self).seeds_view() == old(self).seeds_view(),
            final(self).seed_addrs() == old(self).seed_addrs(),
            final(self).pending_view() == old(self).pending_view() + admitted_list(
                views_of(addresses@),
                old(self).seed_addrs(),
                old(self).visited_set(),
                old(self).claimed_set(),
            ),
    {
        let addr_count = addresses.len();
        let mut i: usize = 0;
        while i < addr_count
            invariant
                i <= addr_count,
                addr_count == addresses@.len(),
                self.wf(),
                self.visited_view() == old(self).visited_view(),
                self.claimed_view() == old(self).claimed_view(),
                self.seeds_view() == old(self).seeds_view(),
                self.pending_view() == old(self).pending_view() + admitted_list(
                    views_of(addresses@).take(i as int),
                    old(self).seed_addrs(),
                    old(self).visited_set(),
                    old(self).claimed_set(),
                ),
            decreases addr_count - i,
        {
            proof {
                assert(views_of(addresses@).take(i + 1).drop_last() =~= views_of(addresses@).take(
                    i as int,
                ));
                assert(views_of(addresses@).take(i + 1).last() == views_of(addresses@)[i as int]);
            }
            let candidate = addresses[i].clone();
            let admitted = self.find_owning_seed(&candidate).is_some() && !contains_address(
                &self.visited,
                &candidate,
            ) && !contains_address(&self.claimed, &candidate);
            if admitted {
                let ghost pre_pending = self.pending@;
                let ghost c_chars = candidate@;
                proof {
                    lemma_views_push(pre_pending, candidate);
                }
                self.pending.push(candidate);
                proof {
                    assert(self.pending_view() == views_of(pre_pending).push(c_chars));
                    assert(self.pending_view() =~= old(self).pending_view() + admitted_list(
                        views_of(addresses@).take(i + 1),
                        old(self).seed_addrs(),
                        old(self).visited_set(),
                        old(self).claimed_set(),
                    ));
                    assert forall|k: int| 0 <= k < self.pending_view().len() implies in_scope(
                        self.pending_view()[k],
                        self.seed_addrs(),
                    ) by {
                        if k < self.pending_view().len() - 1 {
                            assert(self.pending_view()[k] == views_of(pre_pending)[k]);
                        } else {
                            assert(self.pending_view()[k] == c_chars);
                        }
                    }
                }
            } else {
                proof {
                    assert(admitted_list(
                        views_of(addresses@).take(i + 1),
                        old(self).seed_addrs(),
                        old(self).visited_set(),
                        old(self).claimed_set(),
                    ) =~= admitted_list(
                        views_of(addresses@).take(i as int),
                        old(self).seed_addrs(),
                        old(self).visited_set(),
                        old(self).claimed_set(),
                    ));
                }
            }
            i += 1;
        }
        proof {
            assert(views_of(addresses@).take(addr_count as int) =~= views_of(addresses@));
        }
    }

    /// The first registered seed whose canonical address is a prefix of
    /// `address`, or `None` when the address lies out of scope.
    pub fn find_owning_seed(&self, address: &String) -> (r: Option<Page>)
        ensures
            r is Some <==> in_scope(address@, self.seed_addrs()),
            r is Some <==> first_owner(self.seed_addrs(), address@) is Some,
            r is Some ==> r->0.url@ == first_owner(self.seed_addrs(), address@)->0,
            r is Some ==> self.seeds_view().contains(r->0),
    {
        let mut i: usize = 0;
        while i < self.seeds.len()
            invariant
                i <= self.seeds@.len(),
                forall|j: int| 0 <= j < i ==> !is_prefix(self.seed_addrs()[j], address@),
            decreases self.seeds@.len() - i,
        {
            if starts_with_str(address.as_str(), self.seeds[i].url.as_str()) {
                let found = self.seeds[i].duplicate();
                proof {
                    let wit = i as int;
                    assert(self.seed_addrs()[wit] == self.seeds_view()[wit].url@);
                    lemma_first_owner_at(self.seed_addrs(), address@, wit);
                    assert(self.seeds_view().contains(found)) by {
                        assert(self.seeds_view()[wit] == found);
                    }
                    assert(in_scope(address@, self.seed_addrs())) by {
                        assert(is_prefix(self.seed_addrs()[wit], address@));
                    }
                }
                return Some(found);
            }
            i += 1;
        }
        proof {
            assert(!in_scope(address@, self.seed_addrs()));
            lemma_first_owner_none(self.seed_addrs(), address@);
        }
        None
    }
}

/// The candidates of `addrs`, in order, that lie in scope of `seeds` and
/// stand neither in `visited` nor in `claimed`: exactly those that
/// `Frontier::enqueue_if_new` pushes.
pub open spec fn admitted_list(
    addrs: Seq<Seq<char>>,
    seeds: Seq<Seq<char>>,
    visited: Set<Seq<char>>,
    claimed: Set<Seq<char>>,
) -> Seq<Seq<char>>
    decreases addrs.len(),
{
    if addrs.len() == 0 {
        Seq::empty()
    } else {
        admitted_list(addrs.drop_last(), seeds, visited, claimed) + (if in_scope(
            addrs.last(),
            seeds,
        ) && !visited.contains(addrs.last()) && !claimed.contains(addrs.last()) {
            seq![addrs.last()]
        } else {
            Seq::<Seq<char>>::empty()
        })
    }
}

/// An address in scope of a seed list always has a first owner.
pub proof fn lemma_in_scope_first_owner(seeds: Seq<Seq<char>>, a: Seq<char>)
    requires
        in_scope(a, seeds),
    ensures
        first_owner(seeds, a) is Some,
    decreases seeds.len(),
{
    if !is_prefix(seeds.first(), a) {
        let i = choose|i: int| 0 <= i < seeds.len() && is_prefix(seeds[i], a);
        assert(seeds.drop_first()[i - 1] == seeds[i]);
        assert(in_scope(a, seeds.drop_first()));
        lemma_in_scope_first_owner(seeds.drop_first(), a);
    }
}

/// In a well-formed frontier the completed list has exactly as many entries
/// as there are distinct completed addresses, and that set is finite.
pub proof fn lemma_view_set_len(f: &Frontier)
    requires
        f.wf(),
    ensures
        f.visited_view().len() == f.visited_set().len(),
        f.visited_set().finite(),
{
    broadcast use vstd::seq_lib::seq_to_set_is_finite;

    f.visited_view().unique_seq_to_set();
}

/// When every completed address lies in `site`, the completed list is no
/// longer than the count of distinct addresses in `site`.
pub proof fn lemma_visited_bounded(f: &Frontier, site: Seq<Seq<char>>)
    requires
        f.wf(),
        forall|a: Seq<char>| f.visited_view().contains(a) ==> site.contains(a),
    ensures
        f.visited_view().len() <= site.to_set().len(),
        site.to_set().finite(),
{
    broadcast use vstd::seq_lib::seq_to_set_is_finite;

    lemma_view_set_len(f);
    assert(f.visited_set().subset_of(site.to_set()));
    vstd::set_lib::lemma_len_subset(f.visited_set(), site.to_set());
}

/// Scope containment: in a well-formed frontier, every address that stands in
/// the pending queue has some registered seed's canonical address as a
/// prefix. Addresses enter the queue only through `seed`, which pushes a seed
/// address itself, and `enqueue_if_new`, which drops out-of-scope candidates,
/// so the property holds over every run.
pub proof fn lemma_scope_containment(f: &Frontier, i: int)
    requires
        f.wf(),
        0 <= i < f.pending_view().len(),
    ensures
        in_scope(f.pending_view()[i], f.seed_addrs()),
{
}

/// Two prefixes of one address are nested: the shorter prefixes the longer.
pub proof fn lemma_prefixes_nest(a: Seq<char>, p: Seq<char>, q: Seq<char>)
    requires
        is_prefix(p, a),
        is_prefix(q, a),
        p.len() <= q.len(),
    ensures
        is_prefix(p, q),
{
    assert(q.subrange(0, p.len() as int) =~= a.subrange(0, p.len() as int));
}

/// Scope containment, the uniqueness half: when no registered seed address is
/// a prefix of another (the usual configuration of unrelated seeds), an
/// address has at most one owning seed, so every pending address is owned by
/// exactly one seed.
pub proof fn lemma_owner_unique(seeds: Seq<Seq<char>>, a: Seq<char>, i: int, j: int)
    requires
        forall|p: int, q: int|
            0 <= p < seeds.len() && 0 <= q < seeds.len() && p != q ==> !is_prefix(
                seeds[p],
                seeds[q],
            ),
        0 <= i < seeds.len(),
        0 <= j < seeds.len(),
        is_prefix(seeds[i], a),
        is_prefix(seeds[j], a),
    ensures
        i == j,
{
    if i != j {
        if seeds[i].len() <= seeds[j].len() {
            lemma_prefixes_nest(a, seeds[i], seeds[j]);
        } else {
            lemma_prefixes_nest(a, seeds[j], seeds[i]);
        }
    }
}

/// No double fetch: in a well-formed frontier no address is recorded as
/// claimed twice or as completed twice, and every completed address was
/// claimed first. Together with `claim_next`, which hands out only addresses
/// it has never claimed, a fetch is invoked at most once per address.
pub proof fn lemma_no_double_fetch(f: &Frontier)
    requires
        f.wf(),
    ensures
        f.visited_view().no_duplicates(),
        f.claimed_view().no_duplicates(),
        forall|a: Seq<char>|
            f.visited_view().contains(a) ==> f.claimed_view().contains(a),
{
}

} // verus!
