use std::collections::hash_map::DefaultHasher;
use std::hash::{Hash, Hasher};

use sitegen::content_compiler::{
    compile_content, compile_with_identifier, decide_timestamp, document_identifier,
    load_site_content, SourceFile,
};
use sitegen::content_monitor::{next_action, MonitorAction, WatchEvent};
use sitegen::error::CompileError;
use sitegen::site::{archive_list, footer, index_tokens, sort_newest_first};
use sitegen::site_cache::{
    cache_page, create_link, get_all_site_content, get_page_root, SiteCache,
};
use sitegen::string_map::StringMap;
use sitegen::tokens::{PageToken, SiteContent};

fn source(path: &str, contents: &str, created_ms: Option<u128>) -> SourceFile {
    SourceFile {
        path: path.to_string(),
        root: "./content".to_string(),
        contents: contents.to_string(),
        created_ms,
    }
}

fn token(token_type: &str, pairs: &[(&str, &str)]) -> PageToken {
    let mut meta = StringMap::new();
    for (key, value) in pairs {
        meta.insert(key.to_string(), value.to_string());
    }
    PageToken { token_type: token_type.to_string(), meta }
}

fn document(name: &str, timestamp: u128) -> SiteContent {
    SiteContent {
        file_name: name.to_string(),
        title: name.to_string(),
        timestamp,
        page_tokens: vec![token("span", &[("text", name)])],
    }
}

fn types(tokens: &[PageToken]) -> Vec<&str> {
    tokens.iter().map(|t| t.token_type.as_str()).collect()
}

#[test]
fn the_timestamp_of_the_title_is_preferred() {
    let tokens = vec![
        token("span", &[("timestamp", "1")]),
        token("title", &[("title", "T")]),
        token("title", &[("title", "T"), ("timestamp", "1612137600000")]),
        token("title", &[("timestamp", "3")]),
    ];
    assert_eq!(decide_timestamp(&tokens, Some(99)), Ok(1612137600000));
    assert_eq!(decide_timestamp(&tokens, None), Ok(1612137600000));
}

#[test]
fn the_creation_time_is_the_fallback() {
    let tokens = vec![token("title", &[("title", "T")]), token("span", &[("timestamp", "1")])];
    assert_eq!(decide_timestamp(&tokens, Some(99)), Ok(99));
    assert_eq!(decide_timestamp(&tokens, None), Err(CompileError::MissingTimestamp));
    assert_eq!(decide_timestamp(&Vec::new(), None), Err(CompileError::MissingTimestamp));
}

#[test]
fn a_timestamp_that_is_no_number_is_refused() {
    let tokens = vec![
        token("title", &[("timestamp", "yesterday")]),
        token("title", &[("timestamp", "5")]),
    ];
    assert_eq!(decide_timestamp(&tokens, Some(99)), Err(CompileError::InvalidTimestamp));
}

#[test]
fn compiling_one_document() {
    let mut cache = SiteCache::new();
    let file = source(
        "./content/first.hmm",
        "#[title:First|timestamp:42]\nHello\nworld\n\n#[image:photo.png]\n#[image]\n",
        None,
    );
    let document = compile_with_identifier(&mut cache, &file, &"abc123".to_string()).unwrap();
    assert_eq!(document.file_name, "./content/first.hmm");
    assert_eq!(document.title, "./content/first.hmm");
    assert_eq!(document.timestamp, 42);
    assert_eq!(
        types(&document.page_tokens),
        vec!["title", "para_start", "span", "para_end", "para_start", "image", "image", "para_end"]
    );
    assert_eq!(document.page_tokens[0].meta.get("title").unwrap(), "First");
    assert_eq!(document.page_tokens[2].meta.get("text").unwrap(), "Hello world");
    assert_eq!(
        document.page_tokens[5].meta.get("image").unwrap(),
        "site-content/abc123/photo.png"
    );
    assert_eq!(
        document.page_tokens[6].meta.get("image").unwrap(),
        "site-content/abc123/<empty>"
    );
    assert_eq!(get_page_root(&cache, &"abc123".to_string()), Some("./content".to_string()));
    assert_eq!(get_all_site_content(&cache).len(), 0);
}

#[test]
fn what_fails_and_what_it_leaves_behind() {
    let mut cache = SiteCache::new();
    let id = "id".to_string();

    let r = compile_with_identifier(&mut cache, &source("a", "text #[open", Some(1)), &id);
    assert_eq!(r.err(), Some(CompileError::UnexpectedEof));
    assert_eq!(get_page_root(&cache, &id), None);

    let r = compile_with_identifier(&mut cache, &source("a", "#[image:a:b]", Some(1)), &id);
    assert_eq!(r.err(), Some(CompileError::MalformedTag));
    assert_eq!(get_page_root(&cache, &id), None);

    let r = compile_with_identifier(&mut cache, &source("a", "#[title:T|timestamp:x]", Some(1)), &id);
    assert_eq!(r.err(), Some(CompileError::InvalidTimestamp));
    assert_eq!(get_page_root(&cache, &id), Some("./content".to_string()));

    let r = compile_with_identifier(&mut cache, &source("a", "text", None), &"other".to_string());
    assert_eq!(r.err(), Some(CompileError::MissingTimestamp));
    assert_eq!(get_page_root(&cache, &"other".to_string()), Some("./content".to_string()));
}

#[test]
fn the_identifier_is_the_hash_of_the_path() {
    for path in ["./content/first.hmm", "", "ä/ö.hmm"] {
        let file_name = path.to_string();
        let mut s = DefaultHasher::new();
        file_name.hash(&mut s);
        assert_eq!(document_identifier(&file_name), s.finish().to_string());
    }
    assert_ne!(
        document_identifier(&"./content/a.hmm".to_string()),
        document_identifier(&"./content/b.hmm".to_string())
    );
}

#[test]
fn compiling_under_the_identifier_of_the_path() {
    let mut cache = SiteCache::new();
    let file = source("./content/a.hmm", "#[image:b.png]", Some(7));
    let id = document_identifier(&file.path);
    let document = compile_content(&mut cache, &file).unwrap();
    assert_eq!(document.timestamp, 7);
    let mut expected = String::from("site-content/");
    expected.push_str(&id);
    expected.push_str("/b.png");
    assert_eq!(document.page_tokens[1].meta.get("image").unwrap(), &expected);
    assert_eq!(get_page_root(&cache, &id), Some("./content".to_string()));
}

#[test]
fn a_file_without_timestamp_fails_alone() {
    let mut cache = SiteCache::new();
    let files = vec![
        source("./content/undated.hmm", "No date here\n", None),
        source("./content/dated.hmm", "#[title:Dated|timestamp:5]\nText\n", None),
        source("./content/broken.hmm", "#[title", Some(3)),
        source("./content/created.hmm", "Text\n", Some(9)),
    ];
    let results = load_site_content(&mut cache, &files);
    assert_eq!(results.len(), 4);
    assert_eq!(results[0].file_name, "./content/undated.hmm");
    assert_eq!(results[0].result.as_ref().err(), Some(&CompileError::MissingTimestamp));
    assert_eq!(results[1].file_name, "./content/dated.hmm");
    assert_eq!(results[1].result.as_ref().unwrap().timestamp, 5);
    assert_eq!(results[2].result.as_ref().err(), Some(&CompileError::UnexpectedEof));
    assert_eq!(results[3].result.as_ref().unwrap().timestamp, 9);

    let stored = get_all_site_content(&cache);
    assert_eq!(stored.len(), 2);
    assert_eq!(stored[0].file_name, "./content/dated.hmm");
    assert_eq!(stored[1].file_name, "./content/created.hmm");
    assert!(get_page_root(&cache, &document_identifier(&files[0].path)).is_some());
    assert!(get_page_root(&cache, &document_identifier(&files[2].path)).is_none());
}

#[test]
fn compiling_again_replaces_the_documents() {
    let mut cache = SiteCache::new();
    load_site_content(&mut cache, &vec![source("a.hmm", "old", Some(1)), source("b.hmm", "b", Some(2))]);
    load_site_content(&mut cache, &vec![source("a.hmm", "new", Some(3))]);
    let stored = get_all_site_content(&cache);
    assert_eq!(stored.len(), 2);
    assert_eq!(stored[0].file_name, "a.hmm");
    assert_eq!(stored[0].timestamp, 3);
    assert_eq!(stored[0].page_tokens[1].meta.get("text").unwrap(), "new");
    assert_eq!(stored[1].file_name, "b.hmm");
}

#[test]
fn the_cache_keeps_the_last_write() {
    let mut cache = SiteCache::new();
    assert_eq!(get_all_site_content(&cache).len(), 0);
    assert_eq!(get_page_root(&cache, &"1".to_string()), None);

    create_link(&mut cache, &"1".to_string(), "./content");
    create_link(&mut cache, &"2".to_string(), "./other");
    create_link(&mut cache, &"1".to_string(), "./moved");
    assert_eq!(get_page_root(&cache, &"1".to_string()), Some("./moved".to_string()));
    assert_eq!(get_page_root(&cache, &"2".to_string()), Some("./other".to_string()));
    assert_eq!(get_page_root(&cache, &"3".to_string()), None);

    cache_page(&mut cache, "a".to_string(), document("a", 1));
    cache_page(&mut cache, "b".to_string(), document("b", 2));
    cache_page(&mut cache, "a".to_string(), document("a", 3));
    let stored = get_all_site_content(&cache);
    assert_eq!(stored.len(), 2);
    assert_eq!(stored[0].timestamp, 3);
    assert_eq!(stored[1].timestamp, 2);
}

#[test]
fn documents_come_newest_first() {
    let sorted = sort_newest_first(vec![
        document("a", 5),
        document("b", 9),
        document("c", 5),
        document("d", 1),
        document("e", 9),
    ]);
    let names: Vec<&str> = sorted.iter().map(|d| d.file_name.as_str()).collect();
    assert_eq!(names, vec!["b", "e", "a", "c", "d"]);
    for pair in sorted.windows(2) {
        assert!(pair[0].timestamp >= pair[1].timestamp);
    }
    assert_eq!(sort_newest_first(Vec::new()).len(), 0);
}

#[test]
fn documents_compare_by_name_and_time() {
    let newer = document("a", 9);
    let older = document("a", 1);
    assert!(newer < older);
    assert!(older > newer);
    assert!(!(newer < document("b", 9)));
    assert!(!(newer > document("b", 9)));
    assert!(newer <= document("b", 9));
    assert!(newer == document("a", 9));
    assert!(newer != document("b", 9));
    assert!(newer != older);
}

#[test]
fn the_index_puts_the_footer_between_the_documents() {
    let tokens = index_tokens(vec![document("old", 1), document("new", 3), document("mid", 2)]);
    assert_eq!(types(&tokens), vec!["span", "footer", "span", "footer", "span"]);
    assert_eq!(tokens[0].meta.get("text").unwrap(), "new");
    assert_eq!(tokens[1].meta.len(), 0);
    assert_eq!(tokens[2].meta.get("text").unwrap(), "mid");
    assert_eq!(tokens[4].meta.get("text").unwrap(), "old");

    assert_eq!(index_tokens(Vec::new()).len(), 0);
    assert_eq!(types(&index_tokens(vec![document("only", 1)])), vec!["span"]);
}

#[test]
fn the_footer_and_the_archive() {
    let tokens = footer();
    assert_eq!(tokens.len(), 1);
    assert_eq!(tokens[0].token_type, "footer");
    assert_eq!(tokens[0].meta.len(), 0);
    assert_eq!(archive_list(), "list all entries");
}

#[test]
fn what_the_monitor_does() {
    assert_eq!(next_action(WatchEvent::Write), MonitorAction::Recompile);
    assert_eq!(next_action(WatchEvent::Failed), MonitorAction::Report);
    assert_eq!(next_action(WatchEvent::Other), MonitorAction::Wait);
}

#[test]
fn every_error_has_its_message() {
    assert_eq!(CompileError::UnexpectedEof.message(), "unexpected end of input inside a tag");
    assert_eq!(CompileError::MalformedTag.message(), "too many ':'s in tag component");
    assert_eq!(
        CompileError::MissingTimestamp.message(),
        "couldn't figure out a good timestamp for this post"
    );
    assert_ne!(CompileError::InvalidTimestamp.message(), CompileError::UnreadableFile.message());
}
