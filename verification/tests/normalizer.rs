use sitegen::normalizer::{create_paragraphs, merge_spans, remove_redundant_newlines};
use sitegen::tokens::Token;
use sitegen::tokens::Token::{EndParagraph, Newline, Span, StartParagraph, Tag, EOF};

#[test]
fn redundant_lines_are_removed() {
    let tokens = remove_redundant_newlines(vec![Newline, Newline, Newline, EOF]);
    assert_eq!(tokens.len(), 2);
}

#[test]
fn single_newline_is_removed() {
    let tokens: Vec<_> = remove_redundant_newlines(vec![
        Newline,
        Span("ignored".to_string()),
        Newline,
        Span("ignored".to_string()),
        Newline,
        EOF,
    ])
    .into_iter()
    .filter(|x| *x == Newline)
    .collect();
    assert_eq!(tokens.len(), 0);
}

#[test]
fn contiguous_spans_get_merged() {
    let tokens: Vec<_> = merge_spans(vec![
        Span("Greetings to".into()),
        Span("the".into()),
        Span("world!".into()),
        EOF,
    ]);
    println!("tokens: {:?}", tokens);
    assert_eq!(tokens.len(), 2);
}

#[test]
fn paragraph_creation() {
    let tokens: Vec<_> = create_paragraphs(vec![
        Tag("header".into(), "ignored".into()),
        Span("This is a paragraph!".into()),
        Newline,
        Span("This is another paragraph".into()),
        Tag("url".into(), "ignored".into()),
        Span("This is another paragraph".into()),
        EOF,
    ]);

    assert!(matches!(tokens[0], Tag { .. }));
    assert!(matches!(tokens[1], StartParagraph));
    assert!(matches!(tokens[2], Span(_)));
    assert!(matches!(tokens[3], EndParagraph));
    assert!(matches!(tokens[4], StartParagraph));
    assert!(matches!(tokens[5], Span(_)));
    assert!(matches!(tokens[6], Tag { .. }));
    assert!(matches!(tokens[7], Span(_)));
    assert!(matches!(tokens[8], EndParagraph));
}

#[test]
fn paragraph_creation_keeps_the_sentinel() {
    let tokens = create_paragraphs(vec![Span("text".into()), EOF]);
    assert_eq!(tokens, vec![StartParagraph, Span("text".into()), EndParagraph, EOF]);
}

#[test]
fn three_newlines_collapse_to_one() {
    let tokens = remove_redundant_newlines(vec![Newline, Newline, Newline, EOF]);
    assert_eq!(tokens, vec![Newline, EOF]);
}

#[test]
fn collapse_leaves_no_adjacent_newlines() {
    let tokens = remove_redundant_newlines(vec![
        Newline,
        Newline,
        Span("a".into()),
        Newline,
        Span("b".into()),
        Newline,
        Newline,
        Newline,
        Newline,
        Tag("header".into(), "header:x".into()),
        Newline,
        EOF,
    ]);
    assert_eq!(
        tokens,
        vec![
            Newline,
            Span("a".into()),
            Span("b".into()),
            Newline,
            Tag("header".into(), "header:x".into()),
            EOF,
        ]
    );
    for pair in tokens.windows(2) {
        assert!(!(pair[0] == Newline && pair[1] == Newline));
        assert!(!(pair[0] == Newline && pair[1] == EOF));
    }
}

#[test]
fn collapse_of_nothing_is_nothing() {
    let tokens = remove_redundant_newlines(Vec::new());
    assert_eq!(tokens.len(), 0);
    let tokens = remove_redundant_newlines(vec![Newline]);
    assert_eq!(tokens.len(), 0);
}

#[test]
fn spans_are_joined_with_single_spaces() {
    let tokens = merge_spans(vec![
        Span("Greetings to".into()),
        Span("the".into()),
        Span("world!".into()),
        Newline,
        Span("alone".into()),
        Tag("image".into(), "image:x.png".into()),
        Span("a".into()),
        Span("b".into()),
        EOF,
    ]);
    assert_eq!(
        tokens,
        vec![
            Span("Greetings to the world!".into()),
            Newline,
            Span("alone".into()),
            Tag("image".into(), "image:x.png".into()),
            Span("a b".into()),
            EOF,
        ]
    );
}

#[test]
fn merging_spans_twice_changes_nothing_more() {
    let input = vec![
        Span("one".into()),
        Span("two".into()),
        Newline,
        Newline,
        Span("three".into()),
        Span(" ".into()),
        Span("four".into()),
        EOF,
    ];
    let once = merge_spans(input);
    let twice = merge_spans(once.clone());
    assert_eq!(once, twice);
    assert_eq!(once.len(), 5);
}

fn depth_after(tokens: &[Token]) -> i32 {
    let mut depth = 0;
    for token in tokens {
        match token {
            StartParagraph => depth += 1,
            EndParagraph => depth -= 1,
            _ => {}
        }
    }
    depth
}

#[test]
fn paragraphs_are_balanced_and_hold_every_span() {
    let tokens = create_paragraphs(vec![
        Tag("title".into(), "title:T".into()),
        Span("a".into()),
        Tag("image".into(), "image:x.png".into()),
        Newline,
        Tag("image".into(), "image:y.png".into()),
        Tag("header".into(), "header:H".into()),
        Span("b".into()),
        EOF,
    ]);
    assert_eq!(
        tokens,
        vec![
            Tag("title".into(), "title:T".into()),
            StartParagraph,
            Span("a".into()),
            Tag("image".into(), "image:x.png".into()),
            EndParagraph,
            StartParagraph,
            Tag("image".into(), "image:y.png".into()),
            EndParagraph,
            Tag("header".into(), "header:H".into()),
            StartParagraph,
            Span("b".into()),
            EndParagraph,
            EOF,
        ]
    );
    for n in 0..=tokens.len() {
        let depth = depth_after(&tokens[..n]);
        assert!(depth == 0 || depth == 1);
        if n < tokens.len() && matches!(tokens[n], Span(_)) {
            assert_eq!(depth, 1);
        }
    }
    assert_eq!(depth_after(&tokens), 0);
}

#[test]
fn paragraph_marks_in_the_input_pass_through() {
    let tokens = create_paragraphs(vec![StartParagraph, EndParagraph, EOF]);
    assert_eq!(tokens, vec![StartParagraph, EndParagraph, EOF]);
}
