use vstd::prelude::*;

use crate::errors::StoreError;
use crate::page::Page;

verus! {

/// The host component of an address: `None` when the address does not parse
/// or has no host.
pub uninterp spec fn host_of(s: Seq<char>) -> Option<Seq<char>>;

/// The path component of an address: `None` when the address does not parse.
pub uninterp spec fn path_of(s: Seq<char>) -> Option<Seq<char>>;

/// `s` with every occurrence of `from` replaced by `to`.
pub open spec fn replaced(s: Seq<char>, from: char, to: char) -> Seq<char> {
    s.map_values(|c: char| if c == from { to } else { c })
}

/// Relies on url::Url::parse and Url::host_str: the host component depends on
/// the address characters alone.
#[verifier::external_body]
fn host_of_address(address: &str) -> (r: Option<String>)
    ensures
        r is Some <==> host_of(address@) is Some,
        r is Some ==> r->0@ == host_of(address@)->0,
{
    match url::Url::parse(address) {
        Ok(u) => u.host_str().map(|h| h.to_owned()),
        Err(_) => None,
    }
}

/// Relies on url::Url::parse and Url::path: the path component depends on the
/// address characters alone.
#[verifier::external_body]
fn path_of_address(address: &str) -> (r: Option<String>)
    ensures
        r is Some <==> path_of(address@) is Some,
        r is Some ==> r->0@ == path_of(address@)->0,
{
    match url::Url::parse(address) {
        Ok(u) => Some(u.path().to_owned()),
        Err(_) => None,
    }
}

/// Relies on String::from_iter: builds the string holding exactly the given
/// characters.
#[verifier::external_body]
fn chars_to_string(chars: &Vec<char>) -> (r: String)
    ensures
        r@ == chars@,
{
    chars.iter().collect()
}

/// `s` with every occurrence of `from` replaced by `to`.
pub fn replace_char(s: &str, from: char, to: char) -> (r: String)
    ensures
        r@ == replaced(s@, from, to),
{
    let len = s.unicode_len();
    let mut out: Vec<char> = Vec::new();
    let mut i: usize = 0;
    while i < len
        invariant
            i <= len,
            len == s@.len(),
            out@ == replaced(s@.take(i as int), from, to),
        decreases len - i,
    {
        let c = s.get_char(i);
        let replacement = if c == from {
            to
        } else {
            c
        };
        out.push(replacement);
        proof {
            assert(out@ =~= replaced(s@.take(i + 1), from, to));
        }
        i += 1;
    }
    proof {
        assert(s@.take(len as int) =~= s@);
    }
    chars_to_string(&out)
}

/// Where the file sink stores a page: the directory named after the owning
/// seed's host with dots replaced by underscores, and the file named after
/// the page's path with slashes replaced by underscores. Fails exactly when
/// the seed address has no host or the page address does not parse.
pub fn sink_file_name(page: &Page, seed: &Page) -> (r: Result<(String, String), StoreError>)
    ensures
        r is Ok <==> (host_of(seed.url@) is Some && path_of(page.url@) is Some),
        r is Ok ==> r->Ok_0.0@ == replaced(host_of(seed.url@)->0, '.', '_'),
        r is Ok ==> r->Ok_0.1@ == replaced(path_of(page.url@)->0, '/', '_'),
{
    let host = match host_of_address(seed.url.as_str()) {
        Some(h) => h,
        None => {
            return Err(
                StoreError { cause: String::from_str("seed address has no usable host") },
            );
        }
    };
    let path = match path_of_address(page.url.as_str()) {
        Some(p) => p,
        None => {
            return Err(StoreError { cause: String::from_str("page address does not parse") });
        }
    };
    let directory = replace_char(host.as_str(), '.', '_');
    let file = replace_char(path.as_str(), '/', '_');
    Ok((directory, file))
}

/// Sink idempotence, the engine's half: the storage target is a function of
/// the page's and the owning seed's addresses alone, so storing a page twice
/// for the same address aims at the same directory and file, which the file
/// sink overwrites in place rather than duplicating.
pub proof fn lemma_store_target_deterministic(p1: &Page, p2: &Page, s1: &Page, s2: &Page)
    requires
        p1.url@ == p2.url@,
        s1.url@ == s2.url@,
    ensures
        host_of(s1.url@) == host_of(s2.url@),
        path_of(p1.url@) == path_of(p2.url@),
        host_of(s1.url@) is Some ==> replaced(host_of(s1.url@)->0, '.', '_') == replaced(
            host_of(s2.url@)->0,
            '.',
            '_',
        ),
        path_of(p1.url@) is Some ==> replaced(path_of(p1.url@)->0, '/', '_') == replaced(
            path_of(p2.url@)->0,
            '/',
            '_',
        ),
{
}

} // verus!
