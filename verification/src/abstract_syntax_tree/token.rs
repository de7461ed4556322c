//! Token kinds, spans and tokens, with their mathematical views.

use vstd::prelude::*;

verus! {

/// The closed set of classifications a token can have.
///
/// `BadToken` marks a scan step that could not consume any character and
/// `Unimplemented` a character that was consumed but has no meaning in the
/// grammar. Both are ordinary tokens: the lexer never fails.
#[derive(Debug, Copy, Clone, PartialEq, Eq, Structural)]
pub enum TokenKind {
    Number,
    Plus,
    Minus,
    Star,
    Slash,
    OpenParenthesis,
    CloseParenthesis,
    Whitespace,
    BadToken,
    Unimplemented,
    EOF,
}

impl TokenKind {
    /// The printed name of the kind: the name of the variant.
    pub open spec fn name(self) -> Seq<char> {
        match self {
            TokenKind::Number => "Number"@,
            TokenKind::Plus => "Plus"@,
            TokenKind::Minus => "Minus"@,
            TokenKind::Star => "Star"@,
            TokenKind::Slash => "Slash"@,
            TokenKind::OpenParenthesis => "OpenParenthesis"@,
            TokenKind::CloseParenthesis => "CloseParenthesis"@,
            TokenKind::Whitespace => "Whitespace"@,
            TokenKind::BadToken => "BadToken"@,
            TokenKind::Unimplemented => "Unimplemented"@,
            TokenKind::EOF => "EOF"@,
        }
    }

    /// Renders the kind as text, for display.
    pub fn to_string(&self) -> (text: String)
        ensures
            text@ == self.name(),
    {
        let name: &str = match self {
            TokenKind::Number => "Number",
            TokenKind::Plus => "Plus",
            TokenKind::Minus => "Minus",
            TokenKind::Star => "Star",
            TokenKind::Slash => "Slash",
            TokenKind::OpenParenthesis => "OpenParenthesis",
            TokenKind::CloseParenthesis => "CloseParenthesis",
            TokenKind::Whitespace => "Whitespace",
            TokenKind::BadToken => "BadToken",
            TokenKind::Unimplemented => "Unimplemented",
            TokenKind::EOF => "EOF",
        };
        name.to_owned()
    }
}

/// What a [`TextSpan`] stands for: a range of character offsets and the text it covers.
pub struct TextSpanView {
    pub start: nat,
    pub end: nat,
    pub literal: Seq<char>,
}

/// A half-open range `[start, end)` of character offsets into the source,
/// with its own copy of the text found there.
#[derive(Debug)]
pub struct TextSpan {
    pub start: usize,
    pub end: usize,
    pub literal: String,
}

impl View for TextSpan {
    type V = TextSpanView;

    open spec fn view(&self) -> TextSpanView {
        TextSpanView { start: self.start as nat, end: self.end as nat, literal: self.literal@ }
    }
}

impl DeepView for TextSpan {
    type V = TextSpanView;

    open spec fn deep_view(&self) -> TextSpanView {
        self@
    }
}

impl TextSpanView {
    /// The range is not reversed.
    pub open spec fn is_ordered(self) -> bool {
        self.start <= self.end
    }

    /// The range is not reversed and is exactly as long as the text it carries.
    pub open spec fn is_exact(self) -> bool {
        self.start + self.literal.len() == self.end
    }
}

impl TextSpan {
    /// A span with exactly these fields. Nothing is asked of them: the
    /// end-of-input marker carries a text longer than its range.
    pub fn new(start: usize, end: usize, literal: String) -> (span: Self)
        ensures
            span.start == start,
            span.end == end,
            span.literal == literal,
    {
        Self { start, end, literal }
    }

    /// The number of characters in the range, which must not be reversed.
    pub fn length(&self) -> (length: usize)
        requires
            self@.is_ordered(),
        ensures
            length == self.end - self.start,
    {
        self.end - self.start
    }
}

impl PartialEq for TextSpan {
    fn eq(&self, other: &Self) -> (equal: bool) {
        self.start == other.start && self.end == other.end && self.literal == other.literal
    }
}

impl vstd::std_specs::cmp::PartialEqSpecImpl for TextSpan {
    open spec fn obeys_eq_spec() -> bool {
        true
    }

    open spec fn eq_spec(&self, other: &Self) -> bool {
        self@ == other@
    }
}

/// What a [`Token`] stands for.
pub struct TokenView {
    pub kind: TokenKind,
    pub span: TextSpanView,
}

/// A span of the source together with its classification.
#[derive(Debug)]
pub struct Token {
    pub kind: TokenKind,
    pub span: TextSpan,
}

impl View for Token {
    type V = TokenView;

    open spec fn view(&self) -> TokenView {
        TokenView { kind: self.kind, span: self.span@ }
    }
}

impl DeepView for Token {
    type V = TokenView;

    open spec fn deep_view(&self) -> TokenView {
        self@
    }
}

impl Token {
    /// A token of kind `kind` over `span`.
    pub fn new(kind: TokenKind, span: TextSpan) -> (token: Self)
        ensures
            token.kind == kind,
            token.span == span,
    {
        Self { kind, span }
    }
}

impl PartialEq for Token {
    fn eq(&self, other: &Self) -> (equal: bool) {
        self.kind == other.kind && self.span == other.span
    }
}

impl vstd::std_specs::cmp::PartialEqSpecImpl for Token {
    open spec fn obeys_eq_spec() -> bool {
        true
    }

    open spec fn eq_spec(&self, other: &Self) -> bool {
        self@ == other@
    }
}

} // verus!
