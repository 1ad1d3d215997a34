use vstd::prelude::*;

use crate::canon::{canon_of, is_prefix, resolve_and_canonicalize, resolved_of, starts_with_str};
use crate::frontier::{views_of, Frontier, lemma_push_no_duplicates, lemma_views_push};
use crate::page::Page;

verus! {

/// The text of the first `<title>` element of the document that the markup
/// parses to, its text nodes joined by single spaces; the empty sequence when
/// the document has no title.
pub uninterp spec fn title_of(html: Seq<char>) -> Seq<char>;

/// The `content` attribute of the first `<meta name="description">` element
/// of the document; the empty sequence when the element or the attribute is
/// absent.
pub uninterp spec fn description_of(html: Seq<char>) -> Seq<char>;

/// The parser's serialized reconstruction of the document: equivalent markup,
/// not necessarily byte-identical to the input.
pub uninterp spec fn normalized_of(html: Seq<char>) -> Seq<char>;

/// The `href` attribute values of the document's anchor elements, in document
/// order.
pub uninterp spec fn hrefs_of(html: Seq<char>) -> Seq<Seq<char>>;

/// Relies on scraper::Html::parse_document, Html::select with a `title`
/// selector and ElementRef::text: the title text depends on the markup alone.
#[verifier::external_body]
fn extract_title(html: &str) -> (r: String)
    ensures
        r@ == title_of(html@),
{
    let document = scraper::Html::parse_document(html);
    let selector = scraper::Selector::parse("title").unwrap();
    match document.select(&selector).next() {
        Some(title) => title.text().collect::<Vec<_>>().join(" "),
        None => String::new(),
    }
}

/// Relies on scraper::Html::parse_document, Html::select with a
/// `meta[name=description]` selector and Element::attr: the description
/// depends on the markup alone.
#[verifier::external_body]
fn extract_description(html: &str) -> (r: String)
    ensures
        r@ == description_of(html@),
{
    let document = scraper::Html::parse_document(html);
    let selector = scraper::Selector::parse("meta[name=description]").unwrap();
    match document.select(&selector).next() {
        Some(meta) => meta.value().attr("content").unwrap_or("").to_owned(),
        None => String::new(),
    }
}

/// Relies on scraper::Html::parse_document and Html::html: the serialized
/// reconstruction depends on the markup alone.
#[verifier::external_body]
fn normalize_document(html: &str) -> (r: String)
    ensures
        r@ == normalized_of(html@),
{
    scraper::Html::parse_document(html).html()
}

/// Relies on scraper::Html::parse_document, Html::select with an `a[href]`
/// selector and Element::attr: the anchor href values, in document order,
/// depend on the markup alone.
#[verifier::external_body]
fn extract_hrefs(html: &str) -> (r: Vec<String>)
    ensures
        views_of(r@) == hrefs_of(html@),
{
    let document = scraper::Html::parse_document(html);
    let selector = scraper::Selector::parse("a[href]").unwrap();
    document.select(&selector).filter_map(|element| element.value().attr("href")).map(
        |href| href.to_owned(),
    ).collect()
}

/// The page a link points at: `None` for a pure in-page fragment reference
/// (leading `#`) and for a link that cannot be resolved against the page's
/// address or whose resolution does not canonicalize; otherwise the canonical
/// form of the resolved address.
pub open spec fn link_target(base: Seq<char>, href: Seq<char>) -> Option<Seq<char>> {
    if href.len() > 0 && href[0] == '#' {
        None
    } else {
        match resolved_of(base, href) {
            Some(abs) => canon_of(abs),
            None => None,
        }
    }
}

/// The outbound link identities of a page: each href's target, kept when it
/// lies in the owning seed's scope and is not yet visited, deduplicated,
/// first occurrence first.
pub open spec fn collect_links(
    hrefs: Seq<Seq<char>>,
    base: Seq<char>,
    seed: Seq<char>,
    visited: Set<Seq<char>>,
) -> Seq<Seq<char>>
    decreases hrefs.len(),
{
    if hrefs.len() == 0 {
        Seq::empty()
    } else {
        let prev = collect_links(hrefs.drop_last(), base, seed, visited);
        match link_target(base, hrefs.last()) {
            Some(c) => if is_prefix(seed, c) && !visited.contains(c) && !prev.contains(c) {
                prev.push(c)
            } else {
                prev
            },
            None => prev,
        }
    }
}

/// Builds the `Page` record for a document fetched from `url`.
pub fn get_page(html: &str, url: &String) -> (p: Page)
    ensures
        p.url@ == url@,
        p.title@ == title_of(html@),
        p.description@ == description_of(html@),
        p.html@ == normalized_of(html@),
{
    Page {
        url: url.clone(),
        title: extract_title(html),
        description: extract_description(html),
        html: normalize_document(html),
    }
}

/// The in-scope outbound link identities of a document fetched from `base`,
/// owned by the seed address `seed`: every anchor href except pure fragment
/// references, resolved against `base`, canonicalized, filtered to those the
/// seed address prefixes and that `frontier` has not recorded as visited,
/// deduplicated. Reads the frontier, never changes it.
pub fn get_urls(html: &str, base: &String, seed: &String, frontier: &Frontier) -> (links: Vec<
    String,
>)
    ensures
        views_of(links@) == collect_links(hrefs_of(html@), base@, seed@, frontier.visited_set()),
        views_of(links@).no_duplicates(),
{
    let hrefs = extract_hrefs(html);
    let mut links: Vec<String> = Vec::new();
    let href_count = hrefs.len();
    let mut i: usize = 0;
    while i < href_count
        invariant
            i <= href_count,
            href_count == hrefs@.len(),
            views_of(hrefs@) == hrefs_of(html@),
            views_of(links@) == collect_links(
                hrefs_of(html@).take(i as int),
                base@,
                seed@,
                frontier.visited_set(),
            ),
            views_of(links@).no_duplicates(),
        decreases href_count - i,
    {
        proof {
            assert(hrefs_of(html@).take(i + 1).drop_last() =~= hrefs_of(html@).take(i as int));
            assert(hrefs_of(html@).take(i + 1).last() == hrefs_of(html@)[i as int]);
            assert(views_of(hrefs@)[i as int] == hrefs@[i as int]@);
        }
        let href = &hrefs[i];
        let fragment_only = href.as_str().unicode_len() > 0 && href.as_str().get_char(0) == '#';
        if !fragment_only {
            match resolve_and_canonicalize(base.as_str(), href.as_str()) {
                Ok(target) => {
                    proof {
                        assert(link_target(base@, href@) == Some(target@));
                    }
                    let in_seed_scope = starts_with_str(target.as_str(), seed.as_str());
                    let fresh = in_seed_scope && !frontier.is_visited(&target)
                        && !crate::frontier::contains_address(&links, &target);
                    if fresh {
                        let ghost pre_links = links@;
                        proof {
                            frontier.lemma_sets_match_views();
                            lemma_views_push(pre_links, target);
                            lemma_push_no_duplicates(views_of(pre_links), target@);
                        }
                        links.push(target);
                        proof {
                            assert(views_of(links@) == collect_links(
                                hrefs_of(html@).take(i + 1),
                                base@,
                                seed@,
                                frontier.visited_set(),
                            ));
                        }
                    } else {
                        proof {
                            frontier.lemma_sets_match_views();
                            assert(collect_links(
                                hrefs_of(html@).take(i + 1),
                                base@,
                                seed@,
                                frontier.visited_set(),
                            ) == views_of(links@));
                        }
                    }
                }
                Err(_) => {
                    proof {
                        assert(link_target(base@, href@) is None);
                        assert(collect_links(
                            hrefs_of(html@).take(i + 1),
                            base@,
                            seed@,
                            frontier.visited_set(),
                        ) == views_of(links@));
                    }
                }
            }
        } else {
            proof {
                assert(link_target(base@, href@) is None);
                assert(collect_links(
                    hrefs_of(html@).take(i + 1),
                    base@,
                    seed@,
                    frontier.visited_set(),
                ) == views_of(links@));
            }
        }
        i += 1;
    }
    proof {
        assert(hrefs_of(html@).take(href_count as int) =~= hrefs_of(html@));
    }
    links
}

} // verus!
