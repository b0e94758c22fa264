//! The three normalizer passes over primitive tokens: collapsing redundant
//! newlines, merging adjacent spans, and inserting paragraph boundaries.

use vstd::prelude::*;
use vstd::string::StringExecFns;
use crate::tokens::{is_valid, Token, TokenView};

verus! {

/// Whether the token at `i` outlives the newline collapse. Every token but a
/// newline does. A newline does only if it opens a run of two or more.
pub open spec fn survives_collapse(s: Seq<TokenView>, i: int) -> bool {
    s[i] is Newline ==> {
        &&& i == 0 || !(s[i - 1] is Newline)
        &&& i + 1 < s.len() && s[i + 1] is Newline
    }
}

/// The survivors among the first `n` tokens of `s`, in order.
pub open spec fn collapse_prefix(s: Seq<TokenView>, n: int) -> Seq<TokenView>
    decreases n,
{
    if n <= 0 {
        Seq::empty()
    } else if survives_collapse(s, n - 1) {
        collapse_prefix(s, n - 1).push(s[n - 1])
    } else {
        collapse_prefix(s, n - 1)
    }
}

/// `s` with each run of two or more newlines collapsed to one newline, and
/// each isolated newline removed.
pub open spec fn collapse_newlines(s: Seq<TokenView>) -> Seq<TokenView> {
    collapse_prefix(s, s.len() as int)
}

/// No newline of `s` is directly followed by another newline.
pub open spec fn no_adjacent_newlines(s: Seq<TokenView>) -> bool {
    forall|k: int| 0 <= k && k + 1 < s.len() ==> !(#[trigger] s[k] is Newline && s[k + 1] is Newline)
}

/// No newline of `s` is directly followed by the terminal sentinel.
pub open spec fn no_newline_before_eof(s: Seq<TokenView>) -> bool {
    forall|k: int| 0 <= k && k + 1 < s.len() ==> !(#[trigger] s[k] is Newline && s[k + 1] is EOF)
}

/// No terminal sentinel of `s` directly follows two newlines.
pub open spec fn no_blank_line_before_eof(s: Seq<TokenView>) -> bool {
    forall|i: int|
        2 <= i < s.len() ==> !(s[i - 2] is Newline && s[i - 1] is Newline && #[trigger] s[i] is EOF)
}

/// Whether the first `n` tokens of `s` end in a newline that belongs to a
/// run of two or more.
spec fn ends_in_blank_line(s: Seq<TokenView>, n: int) -> bool {
    &&& n >= 1 && s[n - 1] is Newline
    &&& (n >= 2 && s[n - 2] is Newline) || (n < s.len() && s[n] is Newline)
}

/// The survivors among the first `n` tokens end in a newline exactly where
/// the tokens end in a run of two or more newlines; they end in any other
/// token exactly where the tokens do.
proof fn lemma_collapse_prefix_end(s: Seq<TokenView>, n: int)
    requires
        0 <= n <= s.len(),
    ensures
        collapse_prefix(s, n).len() <= n,
        collapse_prefix(s, n).len() > 0 && collapse_prefix(s, n).last() is Newline
            <==> ends_in_blank_line(s, n),
        n > 0 && !(s[n - 1] is Newline) ==> collapse_prefix(s, n).len() > 0 && collapse_prefix(
            s,
            n,
        ).last() == s[n - 1],
    decreases n,
{
    if n > 0 {
        lemma_collapse_prefix_end(s, n - 1);
    }
}

/// The survivors among fewer tokens are the first survivors among more.
proof fn lemma_collapse_prefix_grows(s: Seq<TokenView>, n: int, m: int)
    requires
        0 <= n <= m <= s.len(),
    ensures
        collapse_prefix(s, n).len() <= collapse_prefix(s, m).len(),
        collapse_prefix(s, m).take(collapse_prefix(s, n).len() as int) == collapse_prefix(s, n),
    decreases m - n,
{
    if n < m {
        lemma_collapse_prefix_grows(s, n, m - 1);
        let short = collapse_prefix(s, n);
        let front = collapse_prefix(s, m - 1);
        assert(collapse_prefix(s, m).take(short.len() as int) =~= front.take(short.len() as int));
    } else {
        assert(collapse_prefix(s, n).take(collapse_prefix(s, n).len() as int) =~= collapse_prefix(s, n));
    }
}

/// Among the survivors of a prefix no newline follows a newline; and none
/// stands before a sentinel unless a blank line stood before one.
proof fn lemma_collapse_prefix(s: Seq<TokenView>, n: int)
    requires
        0 <= n <= s.len(),
    ensures
        no_adjacent_newlines(collapse_prefix(s, n)),
        no_blank_line_before_eof(s) ==> no_newline_before_eof(collapse_prefix(s, n)),
    decreases n,
{
    if n > 0 {
        lemma_collapse_prefix(s, n - 1);
        lemma_collapse_prefix_end(s, n - 1);
        let before = collapse_prefix(s, n - 1);
        let after = collapse_prefix(s, n);
        if survives_collapse(s, n - 1) {
            assert(after == before.push(s[n - 1]));
            assert forall|k: int| 0 <= k && k + 1 < after.len() implies !(#[trigger] after[k] is Newline
                && after[k + 1] is Newline) by {
                if k + 1 < before.len() {
                    assert(after[k] == before[k] && after[k + 1] == before[k + 1]);
                }
            }
            if no_blank_line_before_eof(s) {
                assert forall|k: int| 0 <= k && k + 1 < after.len() implies !(#[trigger] after[k] is Newline
                    && after[k + 1] is EOF) by {
                    if k + 1 < before.len() {
                        assert(after[k] == before[k] && after[k + 1] == before[k + 1]);
                    } else if after[k] is Newline && s[n - 1] is EOF {
                        assert(before.last() is Newline);
                        assert(s[n - 1] is EOF);
                    }
                }
            }
        }
    }
}

/// Collapsing newlines leaves no two adjacent newlines, and keeps a
/// sequence that ends in the terminal sentinel ending in it.
pub proof fn lemma_collapse_newlines(s: Seq<TokenView>)
    ensures
        no_adjacent_newlines(collapse_newlines(s)),
        is_valid(s) ==> is_valid(collapse_newlines(s)),
        collapse_newlines(s).len() <= s.len(),
{
    lemma_collapse_prefix(s, s.len() as int);
    lemma_collapse_prefix_end(s, s.len() as int);
}

/// Collapsing newlines leaves a newline directly before a terminal sentinel
/// exactly where a blank line, two newlines, stood directly before one.
pub proof fn lemma_collapse_newline_before_eof(s: Seq<TokenView>)
    ensures
        no_newline_before_eof(collapse_newlines(s)) <==> no_blank_line_before_eof(s),
{
    let n = s.len() as int;
    lemma_collapse_prefix(s, n);
    if !no_blank_line_before_eof(s) {
        let i = choose|i: int|
            2 <= i < s.len() && s[i - 2] is Newline && s[i - 1] is Newline && #[trigger] s[i] is EOF;
        lemma_collapse_prefix_end(s, i);
        lemma_collapse_prefix_grows(s, i + 1, n);
        let front = collapse_prefix(s, i);
        let upto = collapse_prefix(s, i + 1);
        let all = collapse_newlines(s);
        let k = front.len() - 1;
        assert(upto == front.push(s[i]));
        assert(all.take(upto.len() as int)[k] == upto[k]);
        assert(all.take(upto.len() as int)[k + 1] == upto[k + 1]);
        assert(all[k] is Newline && all[k + 1] is EOF);
    }
}

/// Collapses every run of two or more newlines into one newline and removes
/// every isolated newline. All other tokens pass through in order.
pub fn remove_redundant_newlines(tokens: Vec<Token>) -> (r: Vec<Token>)
    ensures
        r.deep_view() == collapse_newlines(tokens.deep_view()),
        no_adjacent_newlines(r.deep_view()),
        no_newline_before_eof(r.deep_view()) <==> no_blank_line_before_eof(tokens.deep_view()),
        is_valid(tokens.deep_view()) ==> is_valid(r.deep_view()),
{
    let ghost s = tokens.deep_view();
    let n = tokens.len();
    let mut new_tokens: Vec<Token> = Vec::new();
    let mut newline = false;
    let mut i: usize = 0;
    while i < n
        invariant
            n == tokens.len(),
            s == tokens.deep_view(),
            0 <= i <= n,
            newline == (i > 0 && s[i - 1] is Newline),
            new_tokens.deep_view() == collapse_prefix(s, i as int),
        decreases n - i,
    {
        let ghost before = new_tokens.deep_view();
        match &tokens[i] {
            Token::Newline => {
                if !newline {
                    newline = true;
                    if i + 1 < n && matches!(tokens[i + 1], Token::Newline) {
                        new_tokens.push(Token::Newline);
                        assert(new_tokens.deep_view() =~= before.push(TokenView::Newline));
                    }
                }
            },
            token => {
                newline = false;
                new_tokens.push(token.clone());
                assert(new_tokens.deep_view() =~= before.push(s[i as int]));
            },
        }
        i += 1;
    }
    proof {
        lemma_collapse_newlines(s);
        lemma_collapse_newline_before_eof(s);
    }
    new_tokens
}

/// The state of span merging after some tokens: what has been emitted, and
/// the text of the run of spans that is still open, if one is.
pub ghost struct MergeState {
    pub out: Seq<TokenView>,
    pub pending: Option<Seq<char>>,
}

/// `text` joined to the open run with a single space.
pub open spec fn join_span(pending: Option<Seq<char>>, text: Seq<char>) -> Seq<char> {
    match pending {
        Some(joined) => joined.push(' ') + text,
        None => text,
    }
}

/// `out`, followed by the open run as one span, if one is open.
pub open spec fn flush_span(out: Seq<TokenView>, pending: Option<Seq<char>>) -> Seq<TokenView> {
    match pending {
        Some(joined) => out.push(TokenView::Span(joined)),
        None => out,
    }
}

/// The state of span merging after the first `n` tokens of `s`.
pub open spec fn merge_prefix(s: Seq<TokenView>, n: int) -> MergeState
    decreases n,
{
    if n <= 0 {
        MergeState { out: Seq::empty(), pending: None }
    } else {
        let st = merge_prefix(s, n - 1);
        match s[n - 1] {
            TokenView::Span(text) => MergeState {
                out: st.out,
                pending: Some(join_span(st.pending, text)),
            },
            other => MergeState { out: flush_span(st.out, st.pending).push(other), pending: None },
        }
    }
}

/// `s` with every maximal run of spans replaced by one span, whose text is
/// the texts of the run joined with single spaces.
pub open spec fn merge_adjacent_spans(s: Seq<TokenView>) -> Seq<TokenView> {
    let st = merge_prefix(s, s.len() as int);
    flush_span(st.out, st.pending)
}

/// No span of `s` is directly followed by another span.
pub open spec fn no_adjacent_spans(s: Seq<TokenView>) -> bool {
    forall|k: int| 0 <= k && k + 1 < s.len() ==> !(#[trigger] s[k] is Span && s[k + 1] is Span)
}

/// What span merging has emitted after a prefix holds no adjacent spans
/// and does not end in a span.
proof fn lemma_merge_prefix_separates(s: Seq<TokenView>, n: int)
    requires
        0 <= n <= s.len(),
    ensures
        no_adjacent_spans(merge_prefix(s, n).out),
        merge_prefix(s, n).out.len() > 0 ==> !(merge_prefix(s, n).out.last() is Span),
        n > 0 && !(s[n - 1] is Span) ==> merge_prefix(s, n).pending is None && merge_prefix(
            s,
            n,
        ).out.len() > 0 && merge_prefix(s, n).out.last() == s[n - 1],
    decreases n,
{
    if n > 0 {
        lemma_merge_prefix_separates(s, n - 1);
        let st = merge_prefix(s, n - 1);
        let after = merge_prefix(s, n).out;
        if !(s[n - 1] is Span) {
            let flushed = flush_span(st.out, st.pending);
            assert(no_adjacent_spans(flushed)) by {
                assert forall|k: int| 0 <= k && k + 1 < flushed.len() implies !(#[trigger] flushed[k] is Span
                    && flushed[k + 1] is Span) by {
                    if k + 1 < st.out.len() {
                        assert(flushed[k] == st.out[k] && flushed[k + 1] == st.out[k + 1]);
                    }
                }
            }
            assert(after == flushed.push(s[n - 1]));
            assert forall|k: int| 0 <= k && k + 1 < after.len() implies !(#[trigger] after[k] is Span
                && after[k + 1] is Span) by {
                if k + 1 < flushed.len() {
                    assert(after[k] == flushed[k] && after[k + 1] == flushed[k + 1]);
                }
            }
        }
    }
}

/// Without adjacent spans, span merging has emitted the prefix as it is,
/// but for a span at its end, which is the open run.
proof fn lemma_merge_prefix_fixed(s: Seq<TokenView>, n: int)
    requires
        0 <= n <= s.len(),
        no_adjacent_spans(s),
    ensures
        n > 0 && s[n - 1] is Span ==> merge_prefix(s, n) == (MergeState {
            out: s.take(n - 1),
            pending: Some(s[n - 1]->Span_0),
        }),
        !(n > 0 && s[n - 1] is Span) ==> merge_prefix(s, n) == (MergeState {
            out: s.take(n),
            pending: None,
        }),
    decreases n,
{
    if n > 0 {
        lemma_merge_prefix_fixed(s, n - 1);
        let st = merge_prefix(s, n - 1);
        if s[n - 1] is Span {
            if n > 1 {
                assert(!(s[n - 2] is Span && s[n - 2 + 1] is Span));
            }
            assert(st.out =~= s.take(n - 1));
        } else {
            assert(flush_span(st.out, st.pending) =~= s.take(n - 1));
            assert(s.take(n - 1).push(s[n - 1]) =~= s.take(n));
        }
    } else {
        assert(s.take(0) =~= Seq::<TokenView>::empty());
    }
}

/// Span merging leaves no two adjacent spans, and keeps a sequence that ends
/// in the terminal sentinel ending in it.
pub proof fn lemma_merge_separates(s: Seq<TokenView>)
    ensures
        no_adjacent_spans(merge_adjacent_spans(s)),
        is_valid(s) ==> is_valid(merge_adjacent_spans(s)),
        is_valid(s) ==> merge_adjacent_spans(s) == merge_prefix(s, s.len() as int).out,
{
    lemma_merge_prefix_separates(s, s.len() as int);
    let st = merge_prefix(s, s.len() as int);
    let r = merge_adjacent_spans(s);
    assert forall|k: int| 0 <= k && k + 1 < r.len() implies !(#[trigger] r[k] is Span && r[k + 1] is Span) by {
        if k + 1 < st.out.len() {
            assert(r[k] == st.out[k] && r[k + 1] == st.out[k + 1]);
        }
    }
}

/// Span merging changes nothing in a sequence without adjacent spans.
pub proof fn lemma_merge_fixed_point(s: Seq<TokenView>)
    requires
        no_adjacent_spans(s),
    ensures
        merge_adjacent_spans(s) == s,
{
    let n = s.len() as int;
    lemma_merge_prefix_fixed(s, n);
    if n > 0 && s[n - 1] is Span {
        assert(s.take(n - 1).push(s[n - 1]) =~= s);
    } else {
        assert(s.take(n) =~= s);
    }
}

/// Span merging is idempotent: merging twice gives what merging once gives.
pub proof fn lemma_merge_idempotent(s: Seq<TokenView>)
    ensures
        merge_adjacent_spans(merge_adjacent_spans(s)) == merge_adjacent_spans(s),
{
    lemma_merge_separates(s);
    lemma_merge_fixed_point(merge_adjacent_spans(s));
}

/// Merges every maximal run of consecutive spans into one span, whose text
/// is the texts of the run joined with single spaces. All other tokens pass
/// through in order.
pub fn merge_spans(tokens: Vec<Token>) -> (r: Vec<Token>)
    requires
        is_valid(tokens.deep_view()),
    ensures
        r.deep_view() == merge_adjacent_spans(tokens.deep_view()),
        no_adjacent_spans(r.deep_view()),
        is_valid(r.deep_view()),
{
    let ghost s = tokens.deep_view();
    let n = tokens.len();
    let mut new_tokens: Vec<Token> = Vec::new();
    let mut combined_spans: Option<String> = None;
    let mut i: usize = 0;
    while i < n
        invariant
            n == tokens.len(),
            s == tokens.deep_view(),
            0 <= i <= n,
            new_tokens.deep_view() == merge_prefix(s, i as int).out,
            match combined_spans {
                Some(joined) => merge_prefix(s, i as int).pending == Some(joined@),
                None => merge_prefix(s, i as int).pending is None,
            },
        decreases n - i,
    {
        let ghost before = new_tokens.deep_view();
        match &tokens[i] {
            Token::Span(current_span_text) => {
                match combined_spans {
                    Some(prev_text) => {
                        let mut joined = prev_text;
                        joined.push(' ');
                        joined.append(current_span_text.as_str());
                        combined_spans = Some(joined);
                    },
                    None => {
                        combined_spans = Some(current_span_text.clone());
                    },
                }
            },
            token => {
                match combined_spans {
                    Some(joined) => {
                        let ghost text = joined@;
                        new_tokens.push(Token::Span(joined));
                        assert(new_tokens.deep_view() =~= before.push(TokenView::Span(text)));
                    },
                    None => {},
                }
                combined_spans = None;
                let ghost flushed = new_tokens.deep_view();
                new_tokens.push(token.clone());
                assert(new_tokens.deep_view() =~= flushed.push(s[i as int]));
            },
        }
        i += 1;
    }
    proof {
        lemma_merge_separates(s);
    }
    new_tokens
}

/// Whether a tag of this name stands outside paragraphs: headers and titles do.
pub open spec fn is_non_paragraph_tag(name: Seq<char>) -> bool {
    name == "header"@ || name == "title"@
}

/// Tells whether a tag of this name stands outside paragraphs.
pub fn non_paragraph_tag(name: &str) -> (r: bool)
    ensures
        r == is_non_paragraph_tag(name@),
{
    *name == *"header" || *name == *"title"
}

/// The state of paragraph insertion after some tokens: what has been
/// emitted, and whether a paragraph is open.
pub ghost struct ParagraphState {
    pub out: Seq<TokenView>,
    pub open: bool,
}

/// `st.out`, with the open paragraph closed, if one is open.
pub open spec fn close_paragraph(st: ParagraphState) -> Seq<TokenView> {
    if st.open {
        st.out.push(TokenView::EndParagraph)
    } else {
        st.out
    }
}

/// `st.out`, with a paragraph opened, unless one is open.
pub open spec fn open_paragraph(st: ParagraphState) -> Seq<TokenView> {
    if st.open {
        st.out
    } else {
        st.out.push(TokenView::StartParagraph)
    }
}

/// The state of paragraph insertion after one more token.
pub open spec fn paragraph_step(st: ParagraphState, token: TokenView) -> ParagraphState {
    match token {
        TokenView::Span(_) => ParagraphState { out: open_paragraph(st).push(token), open: true },
        TokenView::Tag(name, _) => if is_non_paragraph_tag(name) {
            ParagraphState { out: close_paragraph(st).push(token), open: false }
        } else {
            ParagraphState { out: open_paragraph(st).push(token), open: true }
        },
        TokenView::Newline => ParagraphState { out: close_paragraph(st), open: false },
        TokenView::EOF => ParagraphState { out: close_paragraph(st).push(token), open: false },
        _ => ParagraphState { out: st.out.push(token), open: st.open },
    }
}

/// The state of paragraph insertion after the first `n` tokens of `s`.
pub open spec fn paragraph_prefix(s: Seq<TokenView>, n: int) -> ParagraphState
    decreases n,
{
    if n <= 0 {
        ParagraphState { out: Seq::empty(), open: false }
    } else {
        paragraph_step(paragraph_prefix(s, n - 1), s[n - 1])
    }
}

/// `s` with paragraph boundaries inserted and its newlines dropped.
pub open spec fn with_paragraphs(s: Seq<TokenView>) -> Seq<TokenView> {
    paragraph_prefix(s, s.len() as int).out
}

/// `s` holds no paragraph boundary.
pub open spec fn free_of_paragraph_marks(s: Seq<TokenView>) -> bool {
    forall|i: int| 0 <= i < s.len() ==> !(#[trigger] s[i] is StartParagraph) && !(s[i] is EndParagraph)
}

/// How many paragraphs are open after the first `n` tokens of `s`: the
/// paragraph starts among them, less the paragraph ends.
pub open spec fn paragraph_depth(s: Seq<TokenView>, n: int) -> int
    decreases n,
{
    if n <= 0 {
        0
    } else {
        paragraph_depth(s, n - 1) + match s[n - 1] {
            TokenView::StartParagraph => 1int,
            TokenView::EndParagraph => -1int,
            _ => 0int,
        }
    }
}

/// The paragraph boundaries of the first `n` tokens of `s` pair up without
/// nesting, and every span among them lies inside a paragraph.
pub open spec fn paragraphs_nest(s: Seq<TokenView>, n: int) -> bool {
    &&& forall|m: int| 0 <= m <= n ==> 0 <= #[trigger] paragraph_depth(s, m) <= 1
    &&& forall|i: int| 0 <= i < n && #[trigger] s[i] is Span ==> paragraph_depth(s, i) == 1
}

/// The paragraph boundaries of `s` are balanced pairs, and every span of `s`
/// lies inside such a pair.
pub open spec fn paragraphs_balanced(s: Seq<TokenView>) -> bool {
    &&& paragraphs_nest(s, s.len() as int)
    &&& paragraph_depth(s, s.len() as int) == 0
}

/// A token that is appended leaves the depth of every prefix as it was.
proof fn lemma_depth_push(s: Seq<TokenView>, token: TokenView, n: int)
    requires
        0 <= n <= s.len(),
    ensures
        paragraph_depth(s.push(token), n) == paragraph_depth(s, n),
    decreases n,
{
    if n > 0 {
        lemma_depth_push(s, token, n - 1);
        assert(s.push(token)[n - 1] == s[n - 1]);
    }
}

/// Appending a token keeps the boundaries nested, where a start comes only
/// outside a paragraph, and an end or a span only inside one.
proof fn lemma_nest_push(s: Seq<TokenView>, open: bool, token: TokenView)
    requires
        paragraphs_nest(s, s.len() as int),
        paragraph_depth(s, s.len() as int) == if open { 1int } else { 0int },
        token is StartParagraph ==> !open,
        token is EndParagraph ==> open,
        token is Span ==> open,
    ensures
        paragraphs_nest(s.push(token), s.len() as int + 1),
        paragraph_depth(s.push(token), s.len() as int + 1) == if token is StartParagraph {
            1int
        } else if token is EndParagraph {
            0int
        } else if open {
            1int
        } else {
            0int
        },
{
    let t = s.push(token);
    let n = s.len() as int;
    lemma_depth_push(s, token, n);
    assert(t[n] == token);
    assert forall|m: int| 0 <= m <= n + 1 implies 0 <= #[trigger] paragraph_depth(t, m) <= 1 by {
        if m <= n {
            lemma_depth_push(s, token, m);
        }
    }
    assert forall|i: int| 0 <= i < n + 1 && #[trigger] t[i] is Span implies paragraph_depth(t, i) == 1 by {
        lemma_depth_push(s, token, i);
        if i < n {
            assert(t[i] == s[i]);
        }
    }
}

/// After every prefix the emitted boundaries nest, and one paragraph is
/// open exactly if the state says so.
proof fn lemma_paragraph_prefix(s: Seq<TokenView>, n: int)
    requires
        0 <= n <= s.len(),
        free_of_paragraph_marks(s),
    ensures
        paragraphs_nest(paragraph_prefix(s, n).out, paragraph_prefix(s, n).out.len() as int),
        paragraph_depth(paragraph_prefix(s, n).out, paragraph_prefix(s, n).out.len() as int) == if paragraph_prefix(
            s,
            n,
        ).open {
            1int
        } else {
            0int
        },
    decreases n,
{
    if n > 0 {
        lemma_paragraph_prefix(s, n - 1);
        let st = paragraph_prefix(s, n - 1);
        let token = s[n - 1];
        assert(!(token is StartParagraph) && !(token is EndParagraph));
        match token {
            TokenView::Span(_) => {
                if !st.open {
                    lemma_nest_push(st.out, false, TokenView::StartParagraph);
                }
                lemma_nest_push(open_paragraph(st), true, token);
            },
            TokenView::Tag(name, _) => {
                if is_non_paragraph_tag(name) {
                    if st.open {
                        lemma_nest_push(st.out, true, TokenView::EndParagraph);
                    }
                    lemma_nest_push(close_paragraph(st), false, token);
                } else {
                    if !st.open {
                        lemma_nest_push(st.out, false, TokenView::StartParagraph);
                    }
                    lemma_nest_push(open_paragraph(st), true, token);
                }
            },
            TokenView::Newline => {
                if st.open {
                    lemma_nest_push(st.out, true, TokenView::EndParagraph);
                }
            },
            TokenView::EOF => {
                if st.open {
                    lemma_nest_push(st.out, true, TokenView::EndParagraph);
                }
                lemma_nest_push(close_paragraph(st), false, token);
            },
            _ => {},
        }
    }
}

/// Paragraph insertion keeps a sequence that ends in the terminal sentinel
/// ending in it, with no paragraph left open.
pub proof fn lemma_paragraphs_keep_validity(s: Seq<TokenView>)
    requires
        is_valid(s),
    ensures
        is_valid(with_paragraphs(s)),
        !paragraph_prefix(s, s.len() as int).open,
{
}

/// On a sequence that ends in the terminal sentinel and holds no paragraph
/// boundary yet, paragraph insertion yields balanced pairs of boundaries,
/// and every span lies inside such a pair.
pub proof fn lemma_paragraphs_balanced(s: Seq<TokenView>)
    requires
        is_valid(s),
        free_of_paragraph_marks(s),
    ensures
        paragraphs_balanced(with_paragraphs(s)),
{
    lemma_paragraph_prefix(s, s.len() as int);
    lemma_paragraphs_keep_validity(s);
}

/// Inserts paragraph boundaries: spans and paragraph-compatible tags open a
/// paragraph when none is open; header and title tags, newlines and the
/// terminal sentinel close the open one. Newlines are dropped.
pub fn create_paragraphs(tokens: Vec<Token>) -> (r: Vec<Token>)
    requires
        is_valid(tokens.deep_view()),
    ensures
        r.deep_view() == with_paragraphs(tokens.deep_view()),
        is_valid(r.deep_view()),
        free_of_paragraph_marks(tokens.deep_view()) ==> paragraphs_balanced(r.deep_view()),
{
    let ghost s = tokens.deep_view();
    let n = tokens.len();
    let mut new_tokens: Vec<Token> = Vec::new();
    let mut is_paragraph = false;
    let mut i: usize = 0;
    while i < n
        invariant
            n == tokens.len(),
            s == tokens.deep_view(),
            0 <= i <= n,
            new_tokens.deep_view() == paragraph_prefix(s, i as int).out,
            is_paragraph == paragraph_prefix(s, i as int).open,
        decreases n - i,
    {
        let ghost st = paragraph_prefix(s, i as int);
        let token = &tokens[i];
        let closes = match token {
            Token::Tag(tag_type, _) => non_paragraph_tag(tag_type.as_str()),
            Token::Newline => true,
            Token::EOF => true,
            _ => false,
        };
        let opens = match token {
            Token::Span(_) => true,
            Token::Tag(_, _) => !closes,
            _ => false,
        };
        if is_paragraph && closes {
            new_tokens.push(Token::EndParagraph);
            is_paragraph = false;
            assert(new_tokens.deep_view() =~= close_paragraph(st));
        } else if !is_paragraph && opens {
            new_tokens.push(Token::StartParagraph);
            is_paragraph = true;
            assert(new_tokens.deep_view() =~= open_paragraph(st));
        }
        let ghost marked = new_tokens.deep_view();
        match token {
            Token::Newline => {},
            _ => {
                new_tokens.push(token.clone());
                assert(new_tokens.deep_view() =~= marked.push(s[i as int]));
            },
        }
        i += 1;
    }
    proof {
        lemma_paragraphs_keep_validity(s);
        if free_of_paragraph_marks(s) {
            lemma_paragraphs_balanced(s);
        }
    }
    new_tokens
}

} // verus!
