use sitegen::error::CompileError;
use sitegen::links::create_file_links;
use sitegen::projector::{convert_to_page_tokens, parse_attributes};
use sitegen::string_map::StringMap;
use sitegen::tokens::PageToken;
use sitegen::tokens::Token::{EndParagraph, Newline, Span, StartParagraph, Tag, EOF};

fn projected(tokens: Vec<sitegen::tokens::Token>) -> Vec<PageToken> {
    match convert_to_page_tokens(tokens) {
        Ok(page_tokens) => page_tokens,
        Err(e) => panic!("{:?}", e),
    }
}

#[test]
fn test_url_mapping() {
    let mut meta = StringMap::new();
    meta.insert("image".to_string(), "image.png".to_string());
    let page_tokens = vec![PageToken { token_type: "image".into(), meta }];

    let page_tokens = create_file_links(page_tokens, "test", &"hash".to_string());

    assert_eq!(
        "site-content/hash/image.png",
        page_tokens.get(0).unwrap().meta.get("image").unwrap()
    )
}

#[test]
fn an_image_tag_projects_and_resolves() {
    let page_tokens = projected(vec![Tag("image".into(), "image:photo.png".into()), EOF]);
    assert_eq!(page_tokens.len(), 1);
    assert_eq!(page_tokens[0].token_type, "image");
    assert_eq!(page_tokens[0].meta.len(), 1);
    assert_eq!(page_tokens[0].meta.get("image").unwrap(), "photo.png");

    let page_tokens = create_file_links(page_tokens, "content", &"abc123".to_string());
    assert_eq!(page_tokens[0].token_type, "image");
    assert_eq!(page_tokens[0].meta.len(), 1);
    assert_eq!(page_tokens[0].meta.get("image").unwrap(), "site-content/abc123/photo.png");
}

#[test]
fn a_qualified_uri_is_left_alone() {
    let mut meta = StringMap::new();
    meta.insert("image".to_string(), "https://example.com/x.png".to_string());
    meta.insert("alt".to_string(), "ftp://elsewhere".to_string());
    let page_tokens = vec![PageToken { token_type: "image".into(), meta }];
    let page_tokens = create_file_links(page_tokens, "content", &"abc123".to_string());
    assert_eq!(page_tokens[0].meta.get("image").unwrap(), "https://example.com/x.png");
    assert_eq!(page_tokens[0].meta.get("alt").unwrap(), "ftp://elsewhere");
    assert_eq!(page_tokens[0].meta.len(), 2);
}

#[test]
fn only_the_image_of_an_image_is_rewritten() {
    let mut image = StringMap::new();
    image.insert("image".to_string(), "a/b.png".to_string());
    image.insert("alt".to_string(), "a/b.png".to_string());
    let mut link = StringMap::new();
    link.insert("image".to_string(), "c.png".to_string());
    let mut bare = StringMap::new();
    bare.insert("alt".to_string(), "d.png".to_string());
    let page_tokens = vec![
        PageToken { token_type: "image".into(), meta: image },
        PageToken { token_type: "link".into(), meta: link },
        PageToken { token_type: "image".into(), meta: bare },
    ];
    let page_tokens = create_file_links(page_tokens, "root", &"7".to_string());
    assert_eq!(page_tokens.len(), 3);
    assert_eq!(page_tokens[0].meta.get("image").unwrap(), "site-content/7/a/b.png");
    assert_eq!(page_tokens[0].meta.get("alt").unwrap(), "a/b.png");
    assert_eq!(page_tokens[1].token_type, "link");
    assert_eq!(page_tokens[1].meta.get("image").unwrap(), "c.png");
    assert_eq!(page_tokens[2].meta.get("alt").unwrap(), "d.png");
    assert!(page_tokens[2].meta.get("image").is_none());
}

#[test]
fn every_kind_of_token_projects_as_it_should() {
    let page_tokens = projected(vec![
        StartParagraph,
        Span("Hello: world | again".into()),
        Newline,
        EndParagraph,
        Tag("header".into(), "header:Intro|level|header:Outro".into()),
        EOF,
    ]);
    assert_eq!(page_tokens.len(), 4);
    assert_eq!(page_tokens[0].token_type, "para_start");
    assert_eq!(page_tokens[0].meta.len(), 0);
    assert_eq!(page_tokens[1].token_type, "span");
    assert_eq!(page_tokens[1].meta.len(), 1);
    assert_eq!(page_tokens[1].meta.get("text").unwrap(), "Hello: world | again");
    assert_eq!(page_tokens[2].token_type, "para_end");
    assert_eq!(page_tokens[2].meta.len(), 0);
    assert_eq!(page_tokens[3].token_type, "header");
    assert_eq!(page_tokens[3].meta.len(), 2);
    assert_eq!(page_tokens[3].meta.get("header").unwrap(), "Outro");
    assert_eq!(page_tokens[3].meta.get("level").unwrap(), "<empty>");
}

#[test]
fn the_type_of_a_tag_is_its_name() {
    let page_tokens = projected(vec![Tag("named".into(), "other:value".into())]);
    assert_eq!(page_tokens[0].token_type, "named");
    assert_eq!(page_tokens[0].meta.get("other").unwrap(), "value");
}

#[test]
fn too_many_colons_are_refused() {
    let r = convert_to_page_tokens(vec![
        Span("fine".into()),
        Tag("image".into(), "image:a:b".into()),
        EOF,
    ]);
    assert_eq!(r.err(), Some(CompileError::MalformedTag));
    let r = convert_to_page_tokens(vec![
        Tag("image".into(), "image:https://example.com/x.png".into()),
        EOF,
    ]);
    assert_eq!(r.err(), Some(CompileError::MalformedTag));
    assert!(parse_attributes("a:b|c:d:e|f").is_none());
    assert!(parse_attributes("::").is_none());
}

#[test]
fn attributes_of_odd_arguments() {
    let meta = parse_attributes("").unwrap();
    assert_eq!(meta.len(), 1);
    assert_eq!(meta.get("").unwrap(), "<empty>");

    let meta = parse_attributes("a:|:b||c").unwrap();
    assert_eq!(meta.len(), 3);
    assert_eq!(meta.get("a").unwrap(), "");
    assert_eq!(meta.get("").unwrap(), "<empty>");
    assert_eq!(meta.get("c").unwrap(), "<empty>");
}
