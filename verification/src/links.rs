//! The asset link resolver: relative image references become paths under
//! the site's content namespace.

use vstd::prelude::*;
use vstd::string::StringExecFns;
use crate::text::{contains, contains_seq};
use crate::tokens::{PageToken, PageTokenView};

verus! {

/// Whether a value is a fully qualified URI already: it holds `://`.
pub open spec fn is_qualified_uri(value: Seq<char>) -> bool {
    contains_seq(value, "://"@)
}

/// The site-addressable path of a relative path in the document `id`.
pub open spec fn site_path(id: Seq<char>, relative: Seq<char>) -> Seq<char> {
    "site-content/"@ + id + "/"@ + relative
}

/// Whether the link of this page token has to be rewritten: it is an image
/// whose `image` attribute is no fully qualified URI.
pub open spec fn has_local_image(token: PageTokenView) -> bool {
    &&& token.token_type == "image"@
    &&& token.meta.contains_key("image"@)
    &&& !is_qualified_uri(token.meta["image"@])
}

/// The page token with its local image reference, if it has one, rewritten
/// for the document `id`.
pub open spec fn resolve_token(token: PageTokenView, id: Seq<char>) -> PageTokenView {
    if has_local_image(token) {
        PageTokenView {
            token_type: token.token_type,
            meta: token.meta.insert("image"@, site_path(id, token.meta["image"@])),
        }
    } else {
        token
    }
}

/// The page tokens, each with its links resolved for the document `id`.
pub open spec fn resolve_links(tokens: Seq<PageTokenView>, id: Seq<char>) -> Seq<PageTokenView> {
    Seq::new(tokens.len(), |i: int| resolve_token(tokens[i], id))
}

/// Link resolution keeps every attribute, and leaves each value that holds
/// `://` as it is.
pub proof fn lemma_qualified_values_unchanged(token: PageTokenView, id: Seq<char>, key: Seq<char>)
    requires
        token.meta.contains_key(key),
    ensures
        resolve_token(token, id).token_type == token.token_type,
        resolve_token(token, id).meta.contains_key(key),
        is_qualified_uri(token.meta[key]) ==> resolve_token(token, id).meta[key] == token.meta[key],
{
}

/// The site-addressable path of `url_path` in the document `title_hash`.
fn make_site_path(title_hash: &str, url_path: &str) -> (path: String)
    ensures
        path@ == site_path(title_hash@, url_path@),
{
    let mut path = String::from_str("site-content/");
    path.append(title_hash);
    path.append("/");
    path.append(url_path);
    path
}

/// The rewritten `image` attribute of `token`, if it has to be rewritten.
fn resolved_image(token: &PageToken, title_hash: &str) -> (r: Option<String>)
    ensures
        match r {
            Some(path) => has_local_image(token@) && path@ == site_path(
                title_hash@,
                token@.meta["image"@],
            ),
            None => !has_local_image(token@),
        },
{
    if *token.token_type.as_str() != *"image" {
        return None;
    }
    match token.meta.get("image") {
        Some(url_path) => {
            // leave fully qualified uris alone
            if contains(url_path.as_str(), "://") {
                None
            } else {
                Some(make_site_path(title_hash, url_path.as_str()))
            }
        },
        None => None,
    }
}

/// Rewrites the `image` attribute of every image token into
/// `site-content/{title_hash}/{path}`, unless it holds `://`. Everything
/// else passes through as it is. The result does not depend on `root`.
#[allow(unused_variables)]
pub fn create_file_links(tokens: Vec<PageToken>, root: &str, title_hash: &String) -> (r: Vec<PageToken>)
    ensures
        r.deep_view() == resolve_links(tokens.deep_view(), title_hash@),
        r.len() == tokens.len(),
        forall|i: int, key: Seq<char>|
            #![trigger r[i]@.meta[key]]
            0 <= i < tokens.len() && tokens[i]@.meta.contains_key(key) && is_qualified_uri(
                tokens[i]@.meta[key],
            ) ==> r[i]@.meta.contains_key(key) && r[i]@.meta[key] == tokens[i]@.meta[key],
{
    let ghost s = tokens.deep_view();
    let n = tokens.len();
    let mut new_tokens = tokens;
    let mut i: usize = 0;
    while i < n
        invariant
            n == new_tokens.len(),
            n == s.len(),
            0 <= i <= n,
            forall|j: int| 0 <= j < i ==> (#[trigger] new_tokens[j])@ == resolve_token(s[j], title_hash@),
            forall|j: int| i <= j < n ==> (#[trigger] new_tokens[j])@ == s[j],
        decreases n - i,
    {
        match resolved_image(&new_tokens[i], title_hash.as_str()) {
            Some(site_path) => {
                new_tokens[i].meta.insert(String::from_str("image"), site_path);
            },
            None => {},
        }
        i += 1;
    }
    assert(new_tokens.deep_view() =~= resolve_links(s, title_hash@));
    proof {
        assert forall|i: int, key: Seq<char>|
            #![trigger new_tokens[i]@.meta[key]]
            0 <= i < tokens.len() && tokens[i]@.meta.contains_key(key) && is_qualified_uri(
                tokens[i]@.meta[key],
            ) implies new_tokens[i]@.meta.contains_key(key) && new_tokens[i]@.meta[key] == tokens[i]@.meta[key] by {
            assert(s[i] == tokens[i]@);
            lemma_qualified_values_unchanged(s[i], title_hash@, key);
        }
    }
    new_tokens
}

} // verus!
