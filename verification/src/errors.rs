use vstd::prelude::*;

verus! {

/// Why an address could not become part of the crawl.
#[derive(Debug)]
pub enum CrawlError {
    /// The address could not be parsed as an absolute or resolvable address.
    MalformedAddress,
}

/// Why a fetch of one address failed. The address is skipped for this run.
#[derive(Debug)]
pub enum FetchError {
    /// Connection, name-resolution or timeout failure; the message is carried through.
    Transport(String),
    /// The server answered with a non-success status; its text is carried through.
    HttpStatus(String),
}

/// Why storing a page failed. The crawl continues; the address is still
/// marked visited so that a storage failure cannot cause a re-fetch loop.
#[derive(Debug)]
pub struct StoreError {
    pub cause: String,
}

} // verus!
