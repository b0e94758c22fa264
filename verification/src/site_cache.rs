//! The store of compiled documents and of the directories that their assets
//! live in. Both maps have upsert semantics: the last write wins.

use vstd::prelude::*;
use vstd::string::StringExecFns;
use crate::string_map::{upserted, StringMap};
use crate::tokens::{SiteContent, SiteContentView};

verus! {

/// The compiled documents by file name, and the root directories by
/// document identifier.
pub struct SiteCache {
    pub pages: StringMap<SiteContent>,
    pub links: StringMap<String>,
}

impl SiteCache {
    /// A cache that holds nothing.
    pub fn new() -> (cache: Self)
        ensures
            cache.pages@ == Map::<Seq<char>, SiteContentView>::empty(),
            cache.links@ == Map::<Seq<char>, Seq<char>>::empty(),
            cache.pages.entries() == Seq::<(Seq<char>, SiteContentView)>::empty(),
            cache.links.entries() == Seq::<(Seq<char>, Seq<char>)>::empty(),
    {
        SiteCache { pages: StringMap::new(), links: StringMap::new() }
    }
}

/// Registers the directory `path` as the root of the document `name`.
pub fn create_link(cache: &mut SiteCache, name: &String, path: &str)
    ensures
        final(cache).links@ == old(cache).links@.insert(name@, path@),
        upserted(old(cache).links.entries(), final(cache).links.entries(), name@, path@),
        final(cache).pages == old(cache).pages,
{
    let http_name = name.clone();
    let os_path = String::from_str(path);
    cache.links.insert(http_name, os_path);
}

/// The root directory of the document `page_id`, if one is registered.
pub fn get_page_root(cache: &SiteCache, page_id: &String) -> (r: Option<String>)
    ensures
        match r {
            Some(root) => cache.links@.contains_key(page_id@) && root@ == cache.links@[page_id@],
            None => !cache.links@.contains_key(page_id@),
        },
{
    match cache.links.get(page_id.as_str()) {
        Some(page_path_str) => Some(page_path_str.clone()),
        None => None,
    }
}

/// Stores the document `content` under `name`, in place of what was there.
pub fn cache_page(cache: &mut SiteCache, name: String, content: SiteContent)
    ensures
        final(cache).pages@ == old(cache).pages@.insert(name@, content@),
        upserted(old(cache).pages.entries(), final(cache).pages.entries(), name@, content@),
        final(cache).links == old(cache).links,
{
    cache.pages.insert(name, content);
}

/// A copy of every stored document, in the order in which their names
/// first came.
pub fn get_all_site_content(cache: &SiteCache) -> (ret: Vec<SiteContent>)
    ensures
        ret.deep_view() == cache.pages.values(),
        ret.len() == cache.pages@.dom().len(),
        forall|i: int|
            0 <= i < ret.len() ==> {
                let entry = #[trigger] cache.pages.entries()[i];
                cache.pages@.contains_key(entry.0) && cache.pages@[entry.0] == ret[i]@
            },
{
    let n = cache.pages.len();
    let mut ret: Vec<SiteContent> = Vec::new();
    let mut i: usize = 0;
    while i < n
        invariant
            n == cache.pages.entries().len(),
            0 <= i <= n,
            ret.len() == i,
            forall|j: int|
                0 <= j < i ==> {
                    let entry = #[trigger] cache.pages.entries()[j];
                    &&& ret[j]@ == entry.1
                    &&& cache.pages@.contains_key(entry.0)
                    &&& cache.pages@[entry.0] == ret[j]@
                },
        decreases n - i,
    {
        let page = cache.pages.value_at(i);
        ret.push(page.clone());
        i += 1;
    }
    assert(ret.deep_view() =~= cache.pages.values());
    ret
}

} // verus!
