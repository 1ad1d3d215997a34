use vstd::prelude::*;

use crate::errors::CrawlError;

verus! {

// A canonical address is an address with fragment and query removed. It is the
// identity key for scope checks and deduplication: two addresses differing
// only by fragment or query are the same page for crawl purposes.

/// The canonical form of an address: the address parsed, its fragment and
/// query removed, and the rest serialized back; `None` when the address does
/// not parse as an absolute address.
pub uninterp spec fn canon_of(s: Seq<char>) -> Option<Seq<char>>;

/// The absolute address that `href` denotes when resolved against `base`;
/// `None` when `base` does not parse or `href` cannot be resolved against it.
pub uninterp spec fn resolved_of(base: Seq<char>, href: Seq<char>) -> Option<Seq<char>>;

/// `p` is a prefix of `s`.
pub open spec fn is_prefix(p: Seq<char>, s: Seq<char>) -> bool {
    p.len() <= s.len() && s.subrange(0, p.len() as int) == p
}

/// Relies on url::Url::parse, Url::set_fragment, Url::set_query and
/// Url::as_str: parsing depends on the address characters alone; removing the
/// fragment and the query of a parsed address and serializing it again yields
/// its canonical form. A parsed-and-serialized address re-parses to the same
/// value and carries no fragment and no query, so canonicalizing a canonical
/// address returns it unchanged.
#[verifier::external_body]
fn canon_raw(address: &str) -> (r: Option<String>)
    ensures
        r is Some <==> canon_of(address@) is Some,
        r is Some ==> r->0@ == canon_of(address@)->0,
        r is Some ==> canon_of(r->0@) == Some(r->0@),
{
    match url::Url::parse(address) {
        Ok(mut u) => {
            u.set_fragment(None);
            u.set_query(None);
            Some(u.as_str().to_owned())
        }
        Err(_) => None,
    }
}

/// Relies on url::Url::parse and Url::join: the resolved address depends on
/// the two argument strings alone.
#[verifier::external_body]
fn resolve_raw(base: &str, href: &str) -> (r: Option<String>)
    ensures
        r is Some <==> resolved_of(base@, href@) is Some,
        r is Some ==> r->0@ == resolved_of(base@, href@)->0,
{
    match url::Url::parse(base) {
        Ok(b) => match b.join(href) {
            Ok(u) => Some(u.as_str().to_owned()),
            Err(_) => None,
        },
        Err(_) => None,
    }
}

/// Normalizes an address to its canonical form, the identity key used for
/// scope checks and deduplication. Fails with `MalformedAddress` exactly when
/// the address does not parse; callers treat that as a skip, never as fatal.
/// Canonicalization is idempotent: canonicalizing a returned address gives it
/// back unchanged.
pub fn canonicalize(address: &str) -> (r: Result<String, CrawlError>)
    ensures
        r is Ok <==> canon_of(address@) is Some,
        r is Ok ==> r->Ok_0@ == canon_of(address@)->0,
        r is Ok ==> canon_of(r->Ok_0@) == Some(r->Ok_0@),
        r is Err ==> r->Err_0 is MalformedAddress,
{
    match canon_raw(address) {
        Some(c) => Ok(c),
        None => Err(CrawlError::MalformedAddress),
    }
}

/// Resolves `href` against `base` and canonicalizes the result: the identity
/// of the page an outbound link points at. Fails with `MalformedAddress`
/// exactly when resolution or canonicalization fails.
pub fn resolve_and_canonicalize(base: &str, href: &str) -> (r: Result<String, CrawlError>)
    ensures
        r is Ok <==> (resolved_of(base@, href@) is Some && canon_of(
            resolved_of(base@, href@)->0,
        ) is Some),
        r is Ok ==> r->Ok_0@ == canon_of(resolved_of(base@, href@)->0)->0,
        r is Ok ==> canon_of(r->Ok_0@) == Some(r->Ok_0@),
        r is Err ==> r->Err_0 is MalformedAddress,
{
    match resolve_raw(base, href) {
        Some(abs) => canonicalize(abs.as_str()),
        None => Err(CrawlError::MalformedAddress),
    }
}

/// `p` is a prefix of `s`, decided character by character.
pub fn starts_with_str(s: &str, p: &str) -> (r: bool)
    ensures
        r == is_prefix(p@, s@),
{
    let pl = p.unicode_len();
    let sl = s.unicode_len();
    if pl > sl {
        return false;
    }
    let mut i: usize = 0;
    while i < pl
        invariant
            i <= pl,
            pl == p@.len(),
            pl <= sl,
            sl == s@.len(),
            forall|j: int| 0 <= j < i ==> p@[j] == s@[j],
        decreases pl - i,
    {
        if p.get_char(i) != s.get_char(i) {
            assert(!is_prefix(p@, s@)) by {
                assert(p@[i as int] != s@[i as int]);
                assert(s@.subrange(0, pl as int)[i as int] == s@[i as int]);
            }
            return false;
        }
        i += 1;
    }
    assert(s@.subrange(0, pl as int) =~= p@);
    true
}

} // verus!
