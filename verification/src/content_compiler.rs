//! The document assembler and the compilation driver: one source file
//! becomes one compiled document, and a batch of files fills the cache.

use std::collections::hash_map::DefaultHasher;
use std::hash::{BuildHasher, BuildHasherDefault};
use vstd::prelude::*;
use crate::error::CompileError;
use crate::lexer::{lex, lex_content};
use crate::links::{create_file_links, resolve_links};
use crate::normalizer::{
    collapse_newlines,
    create_paragraphs,
    merge_adjacent_spans,
    merge_spans,
    remove_redundant_newlines,
    with_paragraphs,
};
use crate::projector::{convert_to_page_tokens, page_tokens_of};
use crate::site_cache::{cache_page, create_link, SiteCache};
use crate::text::{decimal, parse_u128, parse_unsigned, u64_to_string};
use crate::tokens::{PageToken, PageTokenView, SiteContent, SiteContentView, TokenView};

verus! {

/// Whether a page token is a title that carries a timestamp.
pub open spec fn carries_timestamp(token: PageTokenView) -> bool {
    token.token_type == "title"@ && token.meta.contains_key("timestamp"@)
}

/// The timestamp attribute of the first title, from `from` on, that carries one.
pub open spec fn title_timestamp_from(tokens: Seq<PageTokenView>, from: int) -> Option<Seq<char>>
    decreases tokens.len() - from,
{
    if from >= tokens.len() {
        None
    } else if carries_timestamp(tokens[from]) {
        Some(tokens[from].meta["timestamp"@])
    } else {
        title_timestamp_from(tokens, from + 1)
    }
}

/// The timestamp attribute of the first title that carries one.
pub open spec fn title_timestamp(tokens: Seq<PageTokenView>) -> Option<Seq<char>> {
    title_timestamp_from(tokens, 0)
}

/// The publish timestamp of a document: the timestamp of its title if it
/// carries one, which then has to be an unsigned integer; else the time at
/// which its file was created, if that is known.
pub open spec fn resolve_timestamp(tokens: Seq<PageTokenView>, created_ms: Option<u128>) -> Result<
    u128,
    CompileError,
> {
    match title_timestamp(tokens) {
        Some(text) => match parse_unsigned(text) {
            Some(timestamp) => Ok(timestamp),
            None => Err(CompileError::InvalidTimestamp),
        },
        None => match created_ms {
            Some(timestamp) => Ok(timestamp),
            None => Err(CompileError::MissingTimestamp),
        },
    }
}

/// A title's timestamp is preferred to the file's creation time: where the
/// title carries a timestamp, the creation time makes no difference.
pub proof fn lemma_title_timestamp_preferred(
    tokens: Seq<PageTokenView>,
    created_ms: Option<u128>,
    other_created_ms: Option<u128>,
)
    requires
        title_timestamp(tokens) is Some,
    ensures
        resolve_timestamp(tokens, created_ms) == resolve_timestamp(tokens, other_created_ms),
        parse_unsigned(title_timestamp(tokens)->0) matches Some(timestamp) ==> resolve_timestamp(
            tokens,
            created_ms,
        ) == Ok::<u128, CompileError>(timestamp),
{
}

/// Decides the publish timestamp of a document from its page tokens and
/// from the time, in milliseconds since the epoch, at which its file was
/// created, where that is known.
pub fn decide_timestamp(tokens: &Vec<PageToken>, created_ms: Option<u128>) -> (r: Result<
    u128,
    CompileError,
>)
    ensures
        r == resolve_timestamp(tokens.deep_view(), created_ms),
        title_timestamp(tokens.deep_view()) is Some ==> r == resolve_timestamp(
            tokens.deep_view(),
            None,
        ),
{
    let ghost s = tokens.deep_view();
    let n = tokens.len();
    let mut i: usize = 0;
    while i < n
        invariant
            n == tokens.len(),
            s == tokens.deep_view(),
            0 <= i <= n,
            title_timestamp(s) == title_timestamp_from(s, i as int),
        decreases n - i,
    {
        let x = &tokens[i];
        assert(s[i as int] == x@);
        if *x.token_type.as_str() == *"title" {
            match x.meta.get("timestamp") {
                Some(ts) => {
                    return match parse_u128(ts.as_str()) {
                        Some(timestamp) => Ok(timestamp),
                        None => Err(CompileError::InvalidTimestamp),
                    };
                },
                None => {},
            }
        }
        i += 1;
    }
    match created_ms {
        Some(ts) => Ok(ts),
        None => Err(CompileError::MissingTimestamp),
    }
}

/// One source file, as read from disk: its path, the directory it lies in,
/// its text, and its creation time in milliseconds since the epoch, where
/// the file system tells it.
#[derive(Debug)]
pub struct SourceFile {
    pub path: String,
    pub root: String,
    pub contents: String,
    pub created_ms: Option<u128>,
}

/// What a [`SourceFile`] is, with its strings as sequences of characters.
pub ghost struct SourceFileView {
    pub path: Seq<char>,
    pub root: Seq<char>,
    pub contents: Seq<char>,
    pub created_ms: Option<u128>,
}

impl View for SourceFile {
    type V = SourceFileView;

    open spec fn view(&self) -> SourceFileView {
        SourceFileView {
            path: self.path@,
            root: self.root@,
            contents: self.contents@,
            created_ms: self.created_ms,
        }
    }
}

impl DeepView for SourceFile {
    type V = SourceFileView;

    open spec fn deep_view(&self) -> SourceFileView {
        self@
    }
}

/// The tokens after the three normalizer passes: newline collapse, span
/// merging, paragraph insertion.
pub open spec fn normalize(tokens: Seq<TokenView>) -> Seq<TokenView> {
    with_paragraphs(merge_adjacent_spans(collapse_newlines(tokens)))
}

/// The page tokens of a document with this text, with its links resolved
/// for the identifier `id`.
pub open spec fn page_tokens_for(contents: Seq<char>, id: Seq<char>) -> Result<
    Seq<PageTokenView>,
    CompileError,
> {
    match lex(contents) {
        None => Err(CompileError::UnexpectedEof),
        Some(tokens) => match page_tokens_of(normalize(tokens)) {
            Ok(page_tokens) => Ok(resolve_links(page_tokens, id)),
            Err(e) => Err(e),
        },
    }
}

/// The document that a source file compiles to under the identifier `id`,
/// or the reason why it does not compile.
pub open spec fn compiled_document(file: SourceFileView, id: Seq<char>) -> Result<
    SiteContentView,
    CompileError,
> {
    match page_tokens_for(file.contents, id) {
        Err(e) => Err(e),
        Ok(page_tokens) => match resolve_timestamp(page_tokens, file.created_ms) {
            Err(e) => Err(e),
            Ok(timestamp) => Ok(
                SiteContentView { file_name: file.path, title: file.path, timestamp, page_tokens },
            ),
        },
    }
}

/// What compiling gave, by its view.
pub open spec fn outcome_view(r: Result<SiteContent, CompileError>) -> Result<
    SiteContentView,
    CompileError,
> {
    match r {
        Ok(document) => Ok(document@),
        Err(e) => Err(e),
    }
}

/// Compiles one source file under the identifier `title_hash`: lexes it,
/// normalizes and projects its tokens, resolves its asset links, registers
/// its root directory under the identifier, and decides its timestamp.
///
/// The root is registered as soon as the page tokens stand, also where the
/// timestamp cannot be decided afterwards. No document is ever stored here.
pub fn compile_with_identifier(cache: &mut SiteCache, file: &SourceFile, title_hash: &String) -> (r:
    Result<SiteContent, CompileError>)
    ensures
        outcome_view(r) == compiled_document(file@, title_hash@),
        final(cache).pages == old(cache).pages,
        page_tokens_for(file@.contents, title_hash@) is Ok ==> final(cache).links@ == old(
            cache,
        ).links@.insert(title_hash@, file@.root),
        page_tokens_for(file@.contents, title_hash@) is Err ==> final(cache).links == old(cache).links,
{
    // lex it
    let tokens = match lex_content(file.contents.clone()) {
        Ok(tokens) => tokens,
        Err(e) => {
            return Err(e);
        },
    };

    // a few passes bring the tokens into shape
    let tokens = remove_redundant_newlines(tokens);
    let tokens = merge_spans(tokens);
    let tokens = create_paragraphs(tokens);

    let page_tokens = match convert_to_page_tokens(tokens) {
        Ok(page_tokens) => page_tokens,
        Err(e) => {
            return Err(e);
        },
    };
    let page_tokens = create_file_links(page_tokens, file.root.as_str(), title_hash);

    create_link(cache, title_hash, file.root.as_str());

    let timestamp = match decide_timestamp(&page_tokens, file.created_ms) {
        Ok(timestamp) => timestamp,
        Err(e) => {
            return Err(e);
        },
    };
    Ok(SiteContent { timestamp, file_name: file.path.clone(), title: file.path.clone(), page_tokens })
}

/// The hash that the standard library's default hasher, in its initial
/// state, gives to a string.
pub uninterp spec fn path_hash(path: Seq<char>) -> u64;

/// Calls `BuildHasher::hash_one` on a builder of `DefaultHasher`s. Each of
/// its hashers starts in the one state of `DefaultHasher::new`, which no
/// process seeds, so that the hash depends on the characters of the string
/// alone. Nothing more is claimed of it.
#[verifier::external_body]
fn hash_path(path: &String) -> (h: u64)
    ensures
        h == path_hash(path@),
{
    BuildHasherDefault::<DefaultHasher>::default().hash_one(path)
}

/// The identifier of the document at `path`: the hash of the path, in
/// decimal notation.
pub open spec fn identifier_of(path: Seq<char>) -> Seq<char> {
    decimal(path_hash(path) as nat)
}

/// Computes the stable identifier of the document at `path`.
pub fn document_identifier(path: &String) -> (id: String)
    ensures
        id@ == identifier_of(path@),
{
    u64_to_string(hash_path(path))
}

/// Compiles one source file under the identifier that its path gives.
pub fn compile_content(cache: &mut SiteCache, file: &SourceFile) -> (r: Result<SiteContent, CompileError>)
    ensures
        outcome_view(r) == compiled_document(file@, identifier_of(file@.path)),
        final(cache).pages == old(cache).pages,
        page_tokens_for(file@.contents, identifier_of(file@.path)) is Ok ==> final(cache).links@ == old(
            cache,
        ).links@.insert(identifier_of(file@.path), file@.root),
        page_tokens_for(file@.contents, identifier_of(file@.path)) is Err ==> final(cache).links == old(
            cache,
        ).links,
{
    let title_hash = document_identifier(&file.path);
    compile_with_identifier(cache, file, &title_hash)
}

/// What became of one file of a batch.
#[derive(Debug)]
pub struct CompileOutcome {
    pub file_name: String,
    pub result: Result<SiteContent, CompileError>,
}

/// The root directories that are registered after the first `n` files of a
/// batch: those of the files whose page tokens stand.
pub open spec fn links_after(
    links: Map<Seq<char>, Seq<char>>,
    files: Seq<SourceFileView>,
    n: int,
) -> Map<Seq<char>, Seq<char>>
    decreases n,
{
    if n <= 0 {
        links
    } else {
        let file = files[n - 1];
        let front = links_after(links, files, n - 1);
        if page_tokens_for(file.contents, identifier_of(file.path)) is Ok {
            front.insert(identifier_of(file.path), file.root)
        } else {
            front
        }
    }
}

/// The documents that are stored after the first `n` files of a batch:
/// those of the files that compile, each under its file name.
pub open spec fn pages_after(
    pages: Map<Seq<char>, SiteContentView>,
    files: Seq<SourceFileView>,
    n: int,
) -> Map<Seq<char>, SiteContentView>
    decreases n,
{
    if n <= 0 {
        pages
    } else {
        let file = files[n - 1];
        let front = pages_after(pages, files, n - 1);
        match compiled_document(file, identifier_of(file.path)) {
            Ok(document) => front.insert(document.file_name, document),
            Err(_) => front,
        }
    }
}

/// Compiles a batch of source files, each on its own: a file that fails
/// leaves the others as they are. Every document that compiles is stored in
/// the cache under its file name; a file that fails stores nothing. The
/// outcomes come in the order of the files.
pub fn load_site_content(cache: &mut SiteCache, files: &Vec<SourceFile>) -> (results: Vec<CompileOutcome>)
    ensures
        results.len() == files.len(),
        forall|i: int|
            0 <= i < files.len() ==> {
                let file = #[trigger] files[i];
                &&& results[i].file_name@ == file@.path
                &&& outcome_view(results[i].result) == compiled_document(
                    file@,
                    identifier_of(file@.path),
                )
            },
        final(cache).pages@ == pages_after(old(cache).pages@, files.deep_view(), files.len() as int),
        final(cache).links@ == links_after(old(cache).links@, files.deep_view(), files.len() as int),
{
    let ghost s = files.deep_view();
    let n = files.len();
    let mut results: Vec<CompileOutcome> = Vec::new();
    let mut i: usize = 0;
    while i < n
        invariant
            n == files.len(),
            s == files.deep_view(),
            0 <= i <= n,
            results.len() == i,
            forall|j: int|
                0 <= j < i ==> {
                    let file = #[trigger] files[j];
                    &&& results[j].file_name@ == file@.path
                    &&& outcome_view(results[j].result) == compiled_document(
                        file@,
                        identifier_of(file@.path),
                    )
                },
            cache.pages@ == pages_after(old(cache).pages@, s, i as int),
            cache.links@ == links_after(old(cache).links@, s, i as int),
        decreases n - i,
    {
        let file = &files[i];
        assert(s[i as int] == file@);
        let result = compile_content(cache, file);
        match &result {
            Ok(page) => {
                cache_page(cache, page.file_name.clone(), page.clone());
            },
            Err(_) => {},
        }
        results.push(CompileOutcome { file_name: file.path.clone(), result });
        i += 1;
    }
    results
}

} // verus!
