use sitegen::error::CompileError;
use sitegen::lexer::{finish_span, lex_content, lex_tag};
use sitegen::normalizer::{create_paragraphs, merge_spans, remove_redundant_newlines};
use sitegen::tokens::{has_eof_token, Token};
use sitegen::tokens::Token::{EndParagraph, Newline, Span, StartParagraph, Tag, EOF};

fn lexed(text: &str) -> Vec<Token> {
    match lex_content(text.to_string()) {
        Ok(tokens) => tokens,
        Err(e) => panic!("{:?}", e),
    }
}

#[test]
fn lexing_a_small_document() {
    let tokens = lexed("Hello world\n\n#[header:Intro]\nMore text\n");
    assert_eq!(
        tokens,
        vec![
            Span("Hello world".into()),
            Newline,
            Newline,
            Tag("header".into(), "header:Intro".into()),
            Newline,
            Span("More text".into()),
            Newline,
            EOF,
        ]
    );
}

#[test]
fn full_normalization_of_a_small_document() {
    let tokens = lexed("Hello world\n\n#[header:Intro]\nMore text\n");
    let tokens = create_paragraphs(merge_spans(remove_redundant_newlines(tokens)));
    assert_eq!(
        tokens,
        vec![
            StartParagraph,
            Span("Hello world".into()),
            EndParagraph,
            Tag("header".into(), "header:Intro".into()),
            StartParagraph,
            Span("More text".into()),
            EndParagraph,
            EOF,
        ]
    );
}

#[test]
fn lexing_nothing_gives_the_sentinel() {
    assert_eq!(lexed(""), vec![EOF]);
    assert!(has_eof_token(&lexed("")));
    assert!(!has_eof_token(&Vec::new()));
    assert!(!has_eof_token(&vec![EOF, Newline]));
}

#[test]
fn carriage_returns_are_dropped() {
    assert_eq!(lexed("a\r\nb\r"), vec![Span("a".into()), Newline, Span("b".into()), EOF]);
}

#[test]
fn a_blank_span_is_kept_for_the_text_that_follows() {
    assert_eq!(lexed("  \nabc"), vec![Newline, Span("  abc".into()), EOF]);
    assert_eq!(lexed(" \t\u{a0}\u{3000}"), vec![EOF]);
}

#[test]
fn a_marker_without_bracket_is_dropped_with_its_follower() {
    assert_eq!(lexed("a#bc"), vec![Span("ac".into()), EOF]);
    assert_eq!(lexed("a#\nb"), vec![Span("ab".into()), EOF]);
    assert_eq!(lexed("##[x]"), vec![Span("[x]".into()), EOF]);
}

#[test]
fn tag_names_stop_at_the_first_separator() {
    assert_eq!(
        lexed("#[image:a.png|alt:An image]"),
        vec![Tag("image".into(), "image:a.png|alt:An image".into()), EOF]
    );
    assert_eq!(lexed("#[break|x:y]"), vec![Tag("break".into(), "break|x:y".into()), EOF]);
    assert_eq!(lexed("#[]"), vec![Tag("".into(), "".into()), EOF]);
    assert_eq!(lexed("#[:v]"), vec![Tag("".into(), ":v".into()), EOF]);
}

#[test]
fn a_tag_ends_the_span_before_it_and_takes_everything_up_to_the_bracket() {
    assert_eq!(
        lexed("text#[a:[b\n#c]more"),
        vec![Span("text".into()), Tag("a".into(), "a:[b\n#c".into()), Span("more".into()), EOF]
    );
}

#[test]
fn input_that_ends_in_a_tag_is_refused() {
    assert_eq!(lex_content("abc#".to_string()), Err(CompileError::UnexpectedEof));
    assert_eq!(lex_content("abc#[".to_string()), Err(CompileError::UnexpectedEof));
    assert_eq!(lex_content("abc#[header:x".to_string()), Err(CompileError::UnexpectedEof));
    assert_eq!(lex_content("#[a]#[b".to_string()), Err(CompileError::UnexpectedEof));
}

#[test]
fn finishing_a_span() {
    let mut tokens = vec![Newline];
    let mut span = String::from(" word ");
    finish_span(&mut span, &mut tokens);
    assert_eq!(tokens, vec![Newline, Span(" word ".into())]);
    assert_eq!(span, "");

    let mut span = String::from(" \t ");
    finish_span(&mut span, &mut tokens);
    assert_eq!(tokens.len(), 2);
    assert_eq!(span, " \t ");
}

#[test]
fn lexing_one_tag() {
    let input: Vec<char> = "#[title:T|timestamp:5]rest".chars().collect();
    let mut tokens = Vec::new();
    let mut span = String::from("before");
    let next = lex_tag(&mut span, &input, 1, &mut tokens);
    assert_eq!(next, Ok(22));
    assert_eq!(tokens, vec![Span("before".into()), Tag("title".into(), "title:T|timestamp:5".into())]);
    assert_eq!(span, "");

    let input: Vec<char> = "#x".chars().collect();
    let next = lex_tag(&mut span, &input, 1, &mut tokens);
    assert_eq!(next, Ok(2));
    assert_eq!(tokens.len(), 2);

    let next = lex_tag(&mut span, &input, 2, &mut tokens);
    assert_eq!(next, Err(CompileError::UnexpectedEof));
}
