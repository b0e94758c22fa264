//! The lexer: from the text of a document to its primitive tokens.

use vstd::prelude::*;
use crate::error::CompileError;
use crate::text::{is_blank, split, split_seq, str_is_blank, string_chars};
use crate::tokens::{is_valid, Token, TokenView};

verus! {

/// What the lexer is in the middle of.
pub ghost enum LexMode {
    /// Plain text.
    Text,
    /// A `#` was read; the next character decides whether a tag opens.
    Marker,
    /// Inside the brackets of a tag, with the arguments read so far.
    Tag(Seq<char>),
}

/// The lexer's state: the tokens emitted, the span being gathered, and the mode.
pub ghost struct LexState {
    pub out: Seq<TokenView>,
    pub span: Seq<char>,
    pub mode: LexMode,
}

/// The state in which lexing starts.
pub open spec fn lex_start() -> LexState {
    LexState { out: Seq::empty(), span: Seq::empty(), mode: LexMode::Text }
}

/// `out` followed by the span as a token, unless the span is blank.
pub open spec fn flushed(out: Seq<TokenView>, span: Seq<char>) -> Seq<TokenView> {
    if is_blank(span) {
        out
    } else {
        out.push(TokenView::Span(span))
    }
}

/// What is left of the span after a flush: a blank span stays as it is.
pub open spec fn after_flush(span: Seq<char>) -> Seq<char> {
    if is_blank(span) {
        span
    } else {
        Seq::empty()
    }
}

/// The name of a tag with these arguments: the first `:`-separated component
/// of the first `|`-separated segment.
pub open spec fn tag_name(args: Seq<char>) -> Seq<char> {
    split_seq(split_seq(args, '|')[0], ':')[0]
}

/// The lexer's state after one more character.
pub open spec fn lex_step(st: LexState, c: char) -> LexState {
    match st.mode {
        LexMode::Text => if c == '\n' {
            LexState {
                out: flushed(st.out, st.span).push(TokenView::Newline),
                span: after_flush(st.span),
                mode: LexMode::Text,
            }
        } else if c == '#' {
            LexState { mode: LexMode::Marker, ..st }
        } else if c == '\r' {
            st
        } else {
            LexState { span: st.span.push(c), ..st }
        },
        LexMode::Marker => if c == '[' {
            LexState {
                out: flushed(st.out, st.span),
                span: after_flush(st.span),
                mode: LexMode::Tag(Seq::empty()),
            }
        } else {
            LexState { mode: LexMode::Text, ..st }
        },
        LexMode::Tag(args) => if c == ']' {
            LexState {
                out: st.out.push(TokenView::Tag(tag_name(args), args)),
                span: st.span,
                mode: LexMode::Text,
            }
        } else {
            LexState { mode: LexMode::Tag(args.push(c)), ..st }
        },
    }
}

/// The lexer's state after the characters of `text`, read from `st` on.
pub open spec fn lex_steps(st: LexState, text: Seq<char>) -> LexState
    decreases text.len(),
{
    if text.len() == 0 {
        st
    } else {
        lex_step(lex_steps(st, text.drop_last()), text.last())
    }
}

/// The tokens of `text`, or nothing where the text ends right after a `#` or
/// inside a tag.
pub open spec fn lex(text: Seq<char>) -> Option<Seq<TokenView>> {
    let st = lex_steps(lex_start(), text);
    if st.mode is Text {
        Some(flushed(st.out, st.span).push(TokenView::EOF))
    } else {
        None
    }
}

/// Reading `a` and then `b` is reading `a + b`.
pub proof fn lemma_lex_steps_concat(st: LexState, a: Seq<char>, b: Seq<char>)
    ensures
        lex_steps(st, a + b) == lex_steps(lex_steps(st, a), b),
    decreases b.len(),
{
    if b.len() == 0 {
        assert(a + b =~= a);
    } else {
        lemma_lex_steps_concat(st, a, b.drop_last());
        assert((a + b).drop_last() =~= a + b.drop_last());
        assert((a + b).last() == b.last());
    }
}

/// Reading one more character of `text` is one step.
pub proof fn lemma_lex_steps_next(st: LexState, text: Seq<char>, from: int, to: int)
    requires
        0 <= from <= to < text.len(),
    ensures
        lex_steps(st, text.subrange(from, to + 1)) == lex_step(
            lex_steps(st, text.subrange(from, to)),
            text[to],
        ),
{
    assert(text.subrange(from, to + 1).drop_last() =~= text.subrange(from, to));
}

/// The terminal sentinel stands at the end of `tokens` and nowhere else.
pub open spec fn ends_in_one_sentinel(tokens: Seq<TokenView>) -> bool {
    &&& is_valid(tokens)
    &&& forall|i: int| 0 <= i < tokens.len() - 1 ==> !(#[trigger] tokens[i] is EOF)
}

/// No step of the lexer emits the terminal sentinel.
proof fn lemma_lex_steps_emit_no_sentinel(st: LexState, text: Seq<char>)
    requires
        forall|i: int| 0 <= i < st.out.len() ==> !(#[trigger] st.out[i] is EOF),
    ensures
        forall|i: int|
            0 <= i < lex_steps(st, text).out.len() ==> !(#[trigger] lex_steps(st, text).out[i] is EOF),
    decreases text.len(),
{
    if text.len() > 0 {
        lemma_lex_steps_emit_no_sentinel(st, text.drop_last());
    }
}

/// Every token sequence that lexing yields ends in the terminal sentinel,
/// and holds it once.
pub proof fn lemma_lex_valid(text: Seq<char>)
    ensures
        lex(text) matches Some(tokens) ==> ends_in_one_sentinel(tokens),
{
    lemma_lex_steps_emit_no_sentinel(lex_start(), text);
}

/// Ends the span that is being gathered: unless it is blank, it becomes a
/// token and the span starts anew. A blank span stays as it is.
pub fn finish_span(span: &mut String, tokens: &mut Vec<Token>)
    ensures
        final(tokens).deep_view() == flushed(old(tokens).deep_view(), old(span)@),
        final(span)@ == after_flush(old(span)@),
{
    if !str_is_blank(span.as_str()) {
        let ghost before = tokens.deep_view();
        tokens.push(Token::Span(span.clone()));
        assert(tokens.deep_view() =~= before.push(TokenView::Span(span@)));
        *span = String::new();
    }
}

/// The state right after a `#`, with these tokens emitted and this span gathered.
pub open spec fn marker_state(out: Seq<TokenView>, span: Seq<char>) -> LexState {
    LexState { out, span, mode: LexMode::Marker }
}

/// Lexes what follows a `#`, which stands right before `input[pos]`.
///
/// If the next character is `[`, the span is ended and the characters up to
/// the next `]` become the arguments of a tag. Any other character is
/// dropped together with the `#`. The result is the position after what was
/// read. If the input ends first, that is an error.
pub fn lex_tag(span: &mut String, input: &Vec<char>, pos: usize, tokens: &mut Vec<Token>) -> (r: Result<
    usize,
    CompileError,
>)
    requires
        pos <= input.len(),
    ensures
        ({
            let start = marker_state(old(tokens).deep_view(), old(span)@);
            let end = match r {
                Ok(next) => next as int,
                Err(_) => input.len() as int,
            };
            let st = lex_steps(start, input@.subrange(pos as int, end));
            &&& pos <= end <= input.len()
            &&& st.out == final(tokens).deep_view()
            &&& st.span == final(span)@
            &&& r is Ok <==> st.mode is Text
            &&& r is Ok ==> pos < end
            &&& r is Err ==> r == Err::<usize, CompileError>(CompileError::UnexpectedEof)
            &&& forall|k: int|
                pos <= k < end ==> !(lex_steps(start, #[trigger] input@.subrange(pos as int, k)).mode is Text)
        }),
{
    let ghost start = marker_state(tokens.deep_view(), span@);
    let n = input.len();
    if pos >= n {
        return Err(CompileError::UnexpectedEof);
    }
    let next_ch = input[pos];
    proof {
        lemma_lex_steps_next(start, input@, pos as int, pos as int);
    }
    if next_ch != '[' {
        assert forall|k: int| pos <= k < pos + 1 implies !(lex_steps(
            start,
            #[trigger] input@.subrange(pos as int, k),
        ).mode is Text) by {}
        return Ok(pos + 1);
    }
    finish_span(span, tokens);

    let mut value = String::new();
    let mut i: usize = pos + 1;
    loop
        invariant_except_break
            lex_steps(start, input@.subrange(pos as int, i as int)) == (LexState {
                out: tokens.deep_view(),
                span: span@,
                mode: LexMode::Tag(value@),
            }),
        invariant
            n == input.len(),
            pos < i <= n,
            start == marker_state(old(tokens).deep_view(), old(span)@),
            forall|k: int|
                pos <= k < i ==> !(lex_steps(start, #[trigger] input@.subrange(pos as int, k)).mode is Text),
        ensures
            lex_steps(start, input@.subrange(pos as int, i as int)) == (LexState {
                out: tokens.deep_view().push(TokenView::Tag(tag_name(value@), value@)),
                span: span@,
                mode: LexMode::Text,
            }),
        decreases n - i,
    {
        if i >= n {
            return Err(CompileError::UnexpectedEof);
        }
        let next_ch = input[i];
        proof {
            lemma_lex_steps_next(start, input@, pos as int, i as int);
        }
        i += 1;
        if next_ch == ']' {
            break;
        }
        value.push(next_ch);
    }

    let segments = split(value.as_str(), '|');
    let components = split(segments[0].as_str(), ':');
    let tag_val = components[0].clone();
    let ghost before = tokens.deep_view();
    let ghost args = value@;
    tokens.push(Token::Tag(tag_val, value));
    assert(tokens.deep_view() =~= before.push(TokenView::Tag(tag_name(args), args)));
    Ok(i)
}

/// Lexes the text of a document into primitive tokens that end in the
/// terminal sentinel. Fails where the text ends right after a `#` or inside
/// a tag that no `]` closes.
pub fn lex_content(contents: String) -> (r: Result<Vec<Token>, CompileError>)
    ensures
        match r {
            Ok(tokens) => lex(contents@) == Some(tokens.deep_view()) && ends_in_one_sentinel(
                tokens.deep_view(),
            ),
            Err(e) => lex(contents@) is None && e == CompileError::UnexpectedEof,
        },
{
    let input = string_chars(contents.as_str());
    let ghost text = input@;
    proof {
        lemma_lex_valid(text);
    }
    let n = input.len();
    let mut tokens: Vec<Token> = Vec::new();
    let mut current_span = String::new();
    let mut i: usize = 0;
    assert(tokens.deep_view() =~= Seq::<TokenView>::empty());
    while i < n
        invariant
            n == input.len(),
            text == input@,
            text == contents@,
            0 <= i <= n,
            lex_steps(lex_start(), text.take(i as int)) == (LexState {
                out: tokens.deep_view(),
                span: current_span@,
                mode: LexMode::Text,
            }),
        decreases n - i,
    {
        let ch = input[i];
        let ghost st = lex_steps(lex_start(), text.take(i as int));
        proof {
            assert(text.take(i as int) =~= text.subrange(0, i as int));
            assert(text.take(i + 1) =~= text.subrange(0, i + 1));
            lemma_lex_steps_next(lex_start(), text, 0, i as int);
        }
        if ch == '\n' {
            finish_span(&mut current_span, &mut tokens);
            let ghost before = tokens.deep_view();
            tokens.push(Token::Newline);
            assert(tokens.deep_view() =~= before.push(TokenView::Newline));
            i += 1;
        } else if ch == '#' {
            let ghost marker = marker_state(tokens.deep_view(), current_span@);
            assert(lex_steps(lex_start(), text.take(i + 1)) == marker);
            match lex_tag(&mut current_span, &input, i + 1, &mut tokens) {
                Ok(next) => {
                    proof {
                        lemma_lex_steps_concat(lex_start(), text.take(i + 1), text.subrange(i + 1, next as int));
                        assert(text.take(i + 1) + text.subrange(i + 1, next as int) =~= text.take(
                            next as int,
                        ));
                    }
                    i = next;
                },
                Err(e) => {
                    proof {
                        lemma_lex_steps_concat(lex_start(), text.take(i + 1), text.subrange(i + 1, n as int));
                        assert(text.take(i + 1) + text.subrange(i + 1, n as int) =~= text);
                    }
                    return Err(e);
                },
            }
        } else {
            if ch != '\r' {
                current_span.push(ch);
            }
            i += 1;
        }
    }
    proof {
        assert(text.take(n as int) =~= text);
    }
    finish_span(&mut current_span, &mut tokens);
    let ghost before = tokens.deep_view();
    tokens.push(Token::EOF);
    assert(tokens.deep_view() =~= before.push(TokenView::EOF));
    Ok(tokens)
}

} // verus!
