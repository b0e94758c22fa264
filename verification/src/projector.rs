//! The semantic projector: from normalized primitive tokens to page tokens.

use vstd::prelude::*;
use vstd::string::StringExecFns;
use crate::error::CompileError;
use crate::string_map::StringMap;
use crate::text::{split, split_seq};
use crate::tokens::{PageToken, PageTokenView, Token, TokenView};

verus! {

/// The key and the value that one segment of a tag's arguments gives: the
/// components on either side of its `:`, with `<empty>` for a value that is
/// not there. A segment with more than one `:` gives nothing.
pub open spec fn segment_pair(segment: Seq<char>) -> Option<(Seq<char>, Seq<char>)> {
    let components = split_seq(segment, ':');
    if components.len() > 2 {
        None
    } else if components.len() == 2 {
        Some((components[0], components[1]))
    } else {
        Some((components[0], "<empty>"@))
    }
}

/// The attributes that the first `n` segments give, a later segment
/// overriding an earlier one with the same key; nothing if one of them is
/// malformed.
pub open spec fn segment_attributes(segments: Seq<Seq<char>>, n: int) -> Option<
    Map<Seq<char>, Seq<char>>,
>
    decreases n,
{
    if n <= 0 {
        Some(Map::empty())
    } else {
        match (segment_attributes(segments, n - 1), segment_pair(segments[n - 1])) {
            (Some(attributes), Some(pair)) => Some(attributes.insert(pair.0, pair.1)),
            _ => None,
        }
    }
}

/// The attributes of a tag with these arguments.
pub open spec fn tag_attributes(args: Seq<char>) -> Option<Map<Seq<char>, Seq<char>>> {
    let segments = split_seq(args, '|');
    segment_attributes(segments, segments.len() as int)
}

/// The page token that a primitive token projects to, if it projects to one.
pub open spec fn project_token(token: TokenView) -> Result<Option<PageTokenView>, CompileError> {
    match token {
        TokenView::Tag(name, args) => match tag_attributes(args) {
            Some(meta) => Ok(Some(PageTokenView { token_type: name, meta })),
            None => Err(CompileError::MalformedTag),
        },
        TokenView::Span(text) => Ok(
            Some(
                PageTokenView {
                    token_type: "span"@,
                    meta: Map::<Seq<char>, Seq<char>>::empty().insert("text"@, text),
                },
            ),
        ),
        TokenView::StartParagraph => Ok(
            Some(PageTokenView { token_type: "para_start"@, meta: Map::empty() }),
        ),
        TokenView::EndParagraph => Ok(
            Some(PageTokenView { token_type: "para_end"@, meta: Map::empty() }),
        ),
        TokenView::Newline => Ok(None),
        TokenView::EOF => Ok(None),
    }
}

/// The page tokens of the first `n` tokens of `s`, in order.
pub open spec fn project_prefix(s: Seq<TokenView>, n: int) -> Result<Seq<PageTokenView>, CompileError>
    decreases n,
{
    if n <= 0 {
        Ok(Seq::empty())
    } else {
        match project_prefix(s, n - 1) {
            Ok(front) => match project_token(s[n - 1]) {
                Ok(Some(page_token)) => Ok(front.push(page_token)),
                Ok(None) => Ok(front),
                Err(e) => Err(e),
            },
            Err(e) => Err(e),
        }
    }
}

/// The page tokens of `s`, or the error of its first malformed tag.
pub open spec fn page_tokens_of(s: Seq<TokenView>) -> Result<Seq<PageTokenView>, CompileError> {
    project_prefix(s, s.len() as int)
}

/// Once a prefix fails, every longer prefix fails in the same way.
pub proof fn lemma_project_error_stays(s: Seq<TokenView>, n: int, m: int)
    requires
        0 <= n <= m,
        project_prefix(s, n) is Err,
    ensures
        project_prefix(s, m) == project_prefix(s, n),
    decreases m - n,
{
    if n < m {
        lemma_project_error_stays(s, n, m - 1);
    }
}

/// Reads the attributes of a tag from its raw arguments.
pub fn parse_attributes(args: &str) -> (r: Option<StringMap<String>>)
    ensures
        match r {
            Some(meta) => tag_attributes(args@) == Some(meta@),
            None => tag_attributes(args@) is None,
        },
{
    let splits = split(args, '|');
    let ghost segments = splits.deep_view();
    let n = splits.len();
    let mut meta: StringMap<String> = StringMap::new();
    let mut i: usize = 0;
    while i < n
        invariant
            n == splits.len(),
            segments == splits.deep_view(),
            segments == split_seq(args@, '|'),
            0 <= i <= n,
            segment_attributes(segments, i as int) == Some(meta@),
        decreases n - i,
    {
        let components = split(splits[i].as_str(), ':');
        if components.len() > 2 {
            proof {
                assert(segment_pair(segments[i as int]) is None);
                assert(segment_attributes(segments, i + 1) is None);
                lemma_attributes_error_stays(segments, i + 1, n as int);
            }
            return None;
        }
        let key = components[0].clone();
        let val = if components.len() == 2 {
            components[1].clone()
        } else {
            String::from_str("<empty>")
        };
        meta.insert(key, val);
        i += 1;
    }
    Some(meta)
}

/// Once a segment is malformed, the attributes of every longer list of
/// segments are malformed.
pub proof fn lemma_attributes_error_stays(segments: Seq<Seq<char>>, n: int, m: int)
    requires
        0 <= n <= m,
        segment_attributes(segments, n) is None,
    ensures
        segment_attributes(segments, m) is None,
    decreases m - n,
{
    if n < m {
        lemma_attributes_error_stays(segments, n, m - 1);
    }
}

/// Projects primitive tokens to page tokens, in order: each tag, span and
/// paragraph boundary gives one page token; newlines and the terminal
/// sentinel give none. Fails on the first tag with a malformed argument.
pub fn convert_to_page_tokens(tokens: Vec<Token>) -> (r: Result<Vec<PageToken>, CompileError>)
    ensures
        match r {
            Ok(page_tokens) => page_tokens_of(tokens.deep_view()) == Ok::<
                Seq<PageTokenView>,
                CompileError,
            >(page_tokens.deep_view()),
            Err(e) => page_tokens_of(tokens.deep_view()) == Err::<Seq<PageTokenView>, CompileError>(e),
        },
{
    let ghost s = tokens.deep_view();
    let n = tokens.len();
    let mut page_tokens: Vec<PageToken> = Vec::new();
    let mut i: usize = 0;
    assert(page_tokens.deep_view() =~= Seq::<PageTokenView>::empty());
    while i < n
        invariant
            n == tokens.len(),
            s == tokens.deep_view(),
            0 <= i <= n,
            project_prefix(s, i as int) == Ok::<Seq<PageTokenView>, CompileError>(
                page_tokens.deep_view(),
            ),
        decreases n - i,
    {
        let ghost before = page_tokens.deep_view();
        match &tokens[i] {
            Token::Tag(tag_type, tag_string) => {
                match parse_attributes(tag_string.as_str()) {
                    Some(meta) => {
                        let page_token = PageToken { token_type: tag_type.clone(), meta };
                        let ghost view = page_token@;
                        page_tokens.push(page_token);
                        assert(page_tokens.deep_view() =~= before.push(view));
                    },
                    None => {
                        proof {
                            lemma_project_error_stays(s, i + 1, n as int);
                        }
                        return Err(CompileError::MalformedTag);
                    },
                }
            },
            Token::Span(text) => {
                let mut meta: StringMap<String> = StringMap::new();
                meta.insert(String::from_str("text"), text.clone());
                let page_token = PageToken { token_type: String::from_str("span"), meta };
                let ghost view = page_token@;
                page_tokens.push(page_token);
                assert(page_tokens.deep_view() =~= before.push(view));
            },
            Token::StartParagraph => {
                let page_token = PageToken {
                    token_type: String::from_str("para_start"),
                    meta: StringMap::new(),
                };
                let ghost view = page_token@;
                page_tokens.push(page_token);
                assert(page_tokens.deep_view() =~= before.push(view));
            },
            Token::EndParagraph => {
                let page_token = PageToken {
                    token_type: String::from_str("para_end"),
                    meta: StringMap::new(),
                };
                let ghost view = page_token@;
                page_tokens.push(page_token);
                assert(page_tokens.deep_view() =~= before.push(view));
            },
            _ => {},
        }
        i += 1;
    }
    Ok(page_tokens)
}

} // verus!
