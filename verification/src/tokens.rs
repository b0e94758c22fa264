//! The token types that flow through the compiler, and their mathematical views.

use std::cmp::Ordering;
use vstd::prelude::*;
use crate::string_map::StringMap;

verus! {

/// A primitive token, as the lexer and the normalizer passes see it.
#[derive(Debug)]
pub enum Token {
    /// A structural directive: its name and its raw argument string.
    Tag(String, String),
    /// Literal prose text.
    Span(String),
    /// A single line break of the source.
    Newline,
    /// Start of a paragraph; only the normalizer makes these.
    StartParagraph,
    /// End of a paragraph; only the normalizer makes these.
    EndParagraph,
    /// The terminal sentinel.
    EOF,
}

/// What a [`Token`] is, with its strings as sequences of characters.
pub ghost enum TokenView {
    Tag(Seq<char>, Seq<char>),
    Span(Seq<char>),
    Newline,
    StartParagraph,
    EndParagraph,
    EOF,
}

impl View for Token {
    type V = TokenView;

    open spec fn view(&self) -> TokenView {
        match *self {
            Token::Tag(name, args) => TokenView::Tag(name@, args@),
            Token::Span(text) => TokenView::Span(text@),
            Token::Newline => TokenView::Newline,
            Token::StartParagraph => TokenView::StartParagraph,
            Token::EndParagraph => TokenView::EndParagraph,
            Token::EOF => TokenView::EOF,
        }
    }
}

impl DeepView for Token {
    type V = TokenView;

    open spec fn deep_view(&self) -> TokenView {
        self@
    }
}

impl Clone for Token {
    fn clone(&self) -> (r: Self)
        ensures
            r@ == self@,
    {
        match self {
            Token::Tag(name, args) => Token::Tag(name.clone(), args.clone()),
            Token::Span(text) => Token::Span(text.clone()),
            Token::Newline => Token::Newline,
            Token::StartParagraph => Token::StartParagraph,
            Token::EndParagraph => Token::EndParagraph,
            Token::EOF => Token::EOF,
        }
    }
}

impl PartialEq for Token {
    fn eq(&self, other: &Self) -> (r: bool) {
        match (self, other) {
            (Token::Tag(n1, a1), Token::Tag(n2, a2)) => *n1 == *n2 && *a1 == *a2,
            (Token::Span(t1), Token::Span(t2)) => *t1 == *t2,
            (Token::Newline, Token::Newline) => true,
            (Token::StartParagraph, Token::StartParagraph) => true,
            (Token::EndParagraph, Token::EndParagraph) => true,
            (Token::EOF, Token::EOF) => true,
            _ => false,
        }
    }
}

impl vstd::std_specs::cmp::PartialEqSpecImpl for Token {
    open spec fn obeys_eq_spec() -> bool {
        true
    }

    open spec fn eq_spec(&self, other: &Self) -> bool {
        self@ == other@
    }
}

/// A page token: one renderable unit, with a type name and its attributes.
#[derive(Debug)]
pub struct PageToken {
    pub token_type: String,
    pub meta: StringMap<String>,
}

/// What a [`PageToken`] is: its type name and its attributes as a map.
#[verifier::ext_equal]
pub ghost struct PageTokenView {
    pub token_type: Seq<char>,
    pub meta: Map<Seq<char>, Seq<char>>,
}

impl View for PageToken {
    type V = PageTokenView;

    open spec fn view(&self) -> PageTokenView {
        PageTokenView { token_type: self.token_type@, meta: self.meta@ }
    }
}

impl DeepView for PageToken {
    type V = PageTokenView;

    open spec fn deep_view(&self) -> PageTokenView {
        self@
    }
}

impl Clone for PageToken {
    fn clone(&self) -> (r: Self)
        ensures
            r@ == self@,
    {
        PageToken { token_type: self.token_type.clone(), meta: self.meta.clone() }
    }
}

/// A copy of `tokens`, token by token.
pub fn clone_page_tokens(tokens: &Vec<PageToken>) -> (r: Vec<PageToken>)
    ensures
        r.deep_view() == tokens.deep_view(),
{
    let n = tokens.len();
    let mut r: Vec<PageToken> = Vec::new();
    let mut i: usize = 0;
    while i < n
        invariant
            n == tokens.len(),
            0 <= i <= n,
            r.len() == i,
            forall|j: int| 0 <= j < i ==> (#[trigger] r[j])@ == tokens[j]@,
        decreases n - i,
    {
        r.push(tokens[i].clone());
        i += 1;
    }
    assert(r.deep_view() =~= tokens.deep_view());
    r
}

/// A compiled document: where it came from, when it was published, and the
/// page tokens to render.
#[derive(Debug)]
pub struct SiteContent {
    pub file_name: String,
    pub title: String,
    pub timestamp: u128,
    pub page_tokens: Vec<PageToken>,
}

/// What a [`SiteContent`] is, with its strings as sequences of characters
/// and its page tokens by their views.
#[verifier::ext_equal]
pub ghost struct SiteContentView {
    pub file_name: Seq<char>,
    pub title: Seq<char>,
    pub timestamp: u128,
    pub page_tokens: Seq<PageTokenView>,
}

impl View for SiteContent {
    type V = SiteContentView;

    open spec fn view(&self) -> SiteContentView {
        SiteContentView {
            file_name: self.file_name@,
            title: self.title@,
            timestamp: self.timestamp,
            page_tokens: self.page_tokens.deep_view(),
        }
    }
}

impl DeepView for SiteContent {
    type V = SiteContentView;

    open spec fn deep_view(&self) -> SiteContentView {
        self@
    }
}

impl Clone for SiteContent {
    fn clone(&self) -> (r: Self)
        ensures
            r@ == self@,
    {
        SiteContent {
            file_name: self.file_name.clone(),
            title: self.title.clone(),
            timestamp: self.timestamp,
            page_tokens: clone_page_tokens(&self.page_tokens),
        }
    }
}

/// Two documents are equal when they have the same file name and timestamp.
impl PartialEq for SiteContent {
    fn eq(&self, other: &Self) -> (r: bool) {
        self.file_name == other.file_name && self.timestamp == other.timestamp
    }
}

impl vstd::std_specs::cmp::PartialEqSpecImpl for SiteContent {
    open spec fn obeys_eq_spec() -> bool {
        true
    }

    open spec fn eq_spec(&self, other: &Self) -> bool {
        self.file_name@ == other.file_name@ && self.timestamp == other.timestamp
    }
}

impl Eq for SiteContent {

}

/// Documents are ordered newest first: the one with the greater timestamp
/// is the lesser document.
impl PartialOrd for SiteContent {
    fn partial_cmp(&self, other: &Self) -> (r: Option<Ordering>) {
        if self.timestamp > other.timestamp {
            Some(Ordering::Less)
        } else if self.timestamp < other.timestamp {
            Some(Ordering::Greater)
        } else {
            Some(Ordering::Equal)
        }
    }
}

impl vstd::std_specs::cmp::PartialOrdSpecImpl for SiteContent {
    open spec fn obeys_partial_cmp_spec() -> bool {
        true
    }

    open spec fn partial_cmp_spec(&self, other: &Self) -> Option<Ordering> {
        if self.timestamp > other.timestamp {
            Some(Ordering::Less)
        } else if self.timestamp < other.timestamp {
            Some(Ordering::Greater)
        } else {
            Some(Ordering::Equal)
        }
    }
}

/// Whether a sequence of primitive tokens ends in the terminal sentinel.
pub open spec fn is_valid(tokens: Seq<TokenView>) -> bool {
    tokens.len() > 0 && tokens.last() is EOF
}

/// Tells whether `tokens` ends in the terminal sentinel.
pub fn has_eof_token(tokens: &Vec<Token>) -> (r: bool)
    ensures
        r == is_valid(tokens.deep_view()),
{
    let n = tokens.len();
    if n == 0 {
        return false;
    }
    match &tokens[n - 1] {
        Token::EOF => true,
        _ => false,
    }
}

} // verus!
