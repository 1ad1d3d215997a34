use vstd::prelude::*;

verus! {

/// One fetched page, immutable once constructed. `url` is the canonical
/// address it was fetched from; `title` and `description` default to the
/// empty string when absent from the document; `html` is the parser's
/// serialized reconstruction of the document.
pub struct Page {
    pub url: String,
    pub title: String,
    pub description: String,
    pub html: String,
}

impl Page {
    /// A `Page`-shaped record used as a scope anchor: `url` holds the seed
    /// address, every other field is empty.
    pub fn seed_record(url: String) -> (p: Page)
        ensures
            p.url == url,
            p.title@ == Seq::<char>::empty(),
            p.description@ == Seq::<char>::empty(),
            p.html@ == Seq::<char>::empty(),
    {
        Page { url, title: String::new(), description: String::new(), html: String::new() }
    }

    /// An exact copy, field by field.
    pub fn duplicate(&self) -> (p: Page)
        ensures
            p == *self,
    {
        let p = Page {
            url: self.url.clone(),
            title: self.title.clone(),
            description: self.description.clone(),
            html: self.html.clone(),
        };
        assert(p == *self);
        p
    }
}

} // verus!
