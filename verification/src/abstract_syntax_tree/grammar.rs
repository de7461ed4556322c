//! The mathematical model of tokenization.
//!
//! Source text is a sequence of characters and every offset counts
//! characters. The functions here say, without any cursor or mutation, where
//! each token ends, what it is, and what the whole token stream of a source
//! looks like. The lexer's contracts are stated over them.

use super::token::{TextSpanView, TokenKind, TokenView};
use vstd::prelude::*;

verus! {

/// A decimal digit, `0` to `9`.
pub open spec fn is_digit(c: char) -> bool {
    '0' <= c && c <= '9'
}

/// The number a decimal digit stands for.
pub open spec fn digit_value(c: char) -> nat
    recommends
        is_digit(c),
{
    (c as int - '0' as int) as nat
}

/// The number written by a run of decimal digits, most significant first.
pub open spec fn decimal_value(digits: Seq<char>) -> nat
    decreases digits.len(),
{
    if digits.len() == 0 {
        0
    } else {
        decimal_value(digits.drop_last()) * 10 + digit_value(digits.last())
    }
}

/// The value `value` as an `i64`, held at `i64::MAX` where it does not fit.
pub open spec fn saturated(value: nat) -> i64 {
    if value <= i64::MAX {
        value as i64
    } else {
        i64::MAX
    }
}

/// The fixed symbol table: the kind of a token made of the single character `c`.
/// Whatever is not in the table is `Unimplemented`.
pub open spec fn symbol_kind(c: char) -> TokenKind {
    if c == '+' {
        TokenKind::Plus
    } else if c == '-' {
        TokenKind::Minus
    } else if c == '*' {
        TokenKind::Star
    } else if c == '/' {
        TokenKind::Slash
    } else if c == '(' {
        TokenKind::OpenParenthesis
    } else if c == ')' {
        TokenKind::CloseParenthesis
    } else if c == ' ' {
        TokenKind::Whitespace
    } else {
        TokenKind::Unimplemented
    }
}

/// The first offset at or after `from` that is not the offset of a digit:
/// the end of the longest run of digits that starts at `from`.
pub open spec fn digit_run_end(source: Seq<char>, from: int) -> int
    decreases source.len() - from,
{
    if 0 <= from < source.len() && is_digit(source[from]) {
        digit_run_end(source, from + 1)
    } else {
        from
    }
}

/// The text of the longest run of digits that starts at `from`; empty where
/// `from` is no offset of the source.
pub open spec fn digit_run(source: Seq<char>, from: int) -> Seq<char> {
    if 0 <= from <= source.len() {
        source.subrange(from, digit_run_end(source, from))
    } else {
        Seq::empty()
    }
}

/// The offset just past the token that starts at `start`: a digit starts a
/// longest run of digits, any other character stands alone.
pub open spec fn token_end(source: Seq<char>, start: int) -> int
    recommends
        0 <= start < source.len(),
{
    if is_digit(source[start]) {
        digit_run_end(source, start + 1)
    } else {
        start + 1
    }
}

/// The kind of the token that starts at `start`.
pub open spec fn token_kind(source: Seq<char>, start: int) -> TokenKind
    recommends
        0 <= start < source.len(),
{
    if is_digit(source[start]) {
        TokenKind::Number
    } else {
        symbol_kind(source[start])
    }
}

/// The token that starts at `start`: its kind, its range, and the slice of
/// the source in that range as its text.
pub open spec fn token_at(source: Seq<char>, start: int) -> TokenView
    recommends
        0 <= start < source.len(),
{
    let end = token_end(source, start);
    TokenView {
        kind: token_kind(source, start),
        span: TextSpanView {
            start: start as nat,
            end: end as nat,
            literal: source.subrange(start, end),
        },
    }
}

/// The marker emitted once when the source is used up. Its range is always
/// `[0, 0)` and its text the null character, whatever the source's length.
pub open spec fn end_of_input_token() -> TokenView {
    TokenView {
        kind: TokenKind::EOF,
        span: TextSpanView { start: 0, end: 0, literal: seq!['\0'] },
    }
}

/// One scan step from `cursor`: the token emitted, if any, and the cursor after it.
///
/// Inside the source a content token is emitted and the cursor moves to its
/// end. Exactly at the end the end-of-input marker is emitted and the cursor
/// moves one past the end. Past the end nothing is emitted and nothing moves.
pub open spec fn scan_step(source: Seq<char>, cursor: nat) -> (Option<TokenView>, nat) {
    if cursor > source.len() {
        (None, cursor)
    } else if cursor == source.len() {
        (Some(end_of_input_token()), cursor + 1)
    } else {
        (Some(token_at(source, cursor as int)), token_end(source, cursor as int) as nat)
    }
}

/// The content tokens of the source from offset `from` to its end, in order.
pub open spec fn content_tokens(source: Seq<char>, from: int) -> Seq<TokenView>
    decreases source.len() - from,
    via content_tokens_decreases
{
    if 0 <= from < source.len() {
        seq![token_at(source, from)] + content_tokens(source, token_end(source, from))
    } else {
        seq![]
    }
}

#[via_fn]
proof fn content_tokens_decreases(source: Seq<char>, from: int) {
    if 0 <= from < source.len() {
        lemma_digit_run_end_bounds(source, from + 1);
    }
}

/// Everything a lexer whose cursor stands at `cursor` still emits: the
/// content tokens from there on and then the end-of-input marker, or nothing
/// at all once the cursor is beyond the end.
pub open spec fn tokens_from(source: Seq<char>, cursor: nat) -> Seq<TokenView> {
    if cursor <= source.len() {
        content_tokens(source, cursor as int).push(end_of_input_token())
    } else {
        seq![]
    }
}

/// Everything the lexer emits for `source`: its content tokens, then the
/// end-of-input marker.
pub open spec fn token_stream(source: Seq<char>) -> Seq<TokenView> {
    tokens_from(source, 0)
}

/// A run of digits ends at or after its start and inside the source.
pub proof fn lemma_digit_run_end_bounds(source: Seq<char>, from: int)
    requires
        0 <= from <= source.len(),
    ensures
        from <= digit_run_end(source, from) <= source.len(),
    decreases source.len() - from,
{
    if from < source.len() && is_digit(source[from]) {
        lemma_digit_run_end_bounds(source, from + 1);
    }
}

/// A token is at least one character long and ends inside the source.
pub proof fn lemma_token_end_bounds(source: Seq<char>, start: int)
    requires
        0 <= start < source.len(),
    ensures
        start < token_end(source, start) <= source.len(),
{
    lemma_digit_run_end_bounds(source, start + 1);
}

/// What is still to be emitted is what one scan step emits, followed by
/// what is still to be emitted after that step.
pub proof fn lemma_tokens_from_unfold(source: Seq<char>, cursor: nat)
    ensures
        match scan_step(source, cursor).0 {
            Some(token) => tokens_from(source, cursor) == seq![token] + tokens_from(
                source,
                scan_step(source, cursor).1,
            ),
            None => tokens_from(source, cursor) == Seq::<TokenView>::empty(),
        },
        cursor <= source.len() ==> cursor < scan_step(source, cursor).1 <= source.len() + 1,
{
    if cursor < source.len() {
        lemma_token_end_bounds(source, cursor as int);
        let next = token_end(source, cursor as int);
        let head = seq![token_at(source, cursor as int)];
        let tail = content_tokens(source, next);
        assert((head + tail).push(end_of_input_token()) =~= head + tail.push(
            end_of_input_token(),
        ));
    } else if cursor == source.len() {
        assert(tokens_from(source, cursor) =~= seq![end_of_input_token()] + tokens_from(
            source,
            cursor + 1,
        ));
    }
}

} // verus!
