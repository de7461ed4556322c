//! What holds of every source text: the laws of the token stream.
//!
//! Each law is stated over the model of [`super::grammar`], which is what
//! the contracts of the lexer speak of, so each holds of the tokens that
//! the lexer hands out.

use super::grammar::{
    content_tokens, digit_run_end, end_of_input_token, is_digit, lemma_token_end_bounds,
    lemma_tokens_from_unfold, scan_step, token_at, token_end, token_kind, token_stream,
    tokens_from,
};
use super::lexer::Lexer;
use super::token::{TokenKind, TokenView};
use vstd::prelude::*;

verus! {

/// The texts of `tokens`, one after the other.
pub open spec fn literals(tokens: Seq<TokenView>) -> Seq<char>
    decreases tokens.len(),
{
    if tokens.len() == 0 {
        seq![]
    } else {
        tokens[0].span.literal + literals(tokens.skip(1))
    }
}

/// Where the cursor of a lexer stands after `calls` scan steps from the start of `source`.
pub open spec fn cursor_after(source: Seq<char>, calls: nat) -> nat
    decreases calls,
{
    if calls == 0 {
        0
    } else {
        scan_step(source, cursor_after(source, (calls - 1) as nat)).1
    }
}

/// What scan step number `n`, counted from zero, of a fresh lexer over `source` emits.
pub open spec fn nth_result(source: Seq<char>, n: nat) -> Option<TokenView> {
    scan_step(source, cursor_after(source, n)).0
}

/// A run of digits holds digits only, and what follows it is not a digit.
pub proof fn lemma_digit_run_is_longest(source: Seq<char>, from: int)
    requires
        0 <= from <= source.len(),
    ensures
        from <= digit_run_end(source, from) <= source.len(),
        forall|i: int| from <= i < digit_run_end(source, from) ==> is_digit(#[trigger] source[i]),
        digit_run_end(source, from) < source.len() ==> !is_digit(
            source[digit_run_end(source, from)],
        ),
    decreases source.len() - from,
{
    if from < source.len() && is_digit(source[from]) {
        lemma_digit_run_is_longest(source, from + 1);
    }
}

/// Maximal munch: a token that starts with a digit is a `Number`, is made
/// of digits throughout, and stops only at the end of the source or before
/// a character that is not a digit. Any other token is one character long.
pub proof fn lemma_token_is_longest_match(source: Seq<char>, start: int)
    requires
        0 <= start < source.len(),
    ensures
        start < token_end(source, start) <= source.len(),
        is_digit(source[start]) ==> {
            &&& token_kind(source, start) == TokenKind::Number
            &&& forall|i: int|
                start <= i < token_end(source, start) ==> is_digit(#[trigger] source[i])
            &&& token_end(source, start) < source.len() ==> !is_digit(
                source[token_end(source, start)],
            )
        },
        !is_digit(source[start]) ==> {
            &&& token_kind(source, start) != TokenKind::Number
            &&& token_end(source, start) == start + 1
        },
{
    lemma_digit_run_is_longest(source, start + 1);
}

/// The texts of the content tokens from `from` on spell the source from `from` on.
pub proof fn lemma_literals_from(source: Seq<char>, from: int)
    requires
        0 <= from <= source.len(),
    ensures
        literals(content_tokens(source, from)) == source.subrange(from, source.len() as int),
    decreases source.len() - from,
{
    let tokens = content_tokens(source, from);
    if from < source.len() {
        let end = token_end(source, from);
        lemma_token_end_bounds(source, from);
        lemma_literals_from(source, end);
        assert(tokens.skip(1) =~= content_tokens(source, end));
        assert(source.subrange(from, end) + source.subrange(end, source.len() as int)
            =~= source.subrange(from, source.len() as int));
    } else {
        assert(source.subrange(from, source.len() as int) =~= Seq::<char>::empty());
    }
}

/// Coverage: the token stream ends with the end-of-input marker, and the
/// texts of all tokens before it, put together, are the source.
pub proof fn lemma_literals_reproduce_source(source: Seq<char>)
    ensures
        token_stream(source).last() == end_of_input_token(),
        token_stream(source).drop_last() == content_tokens(source, 0),
        literals(token_stream(source).drop_last()) == source,
{
    lemma_literals_from(source, 0);
    assert(token_stream(source).drop_last() =~= content_tokens(source, 0));
    assert(source.subrange(0, source.len() as int) =~= source);
}

/// `token` is a content token over `source`: it covers at least one
/// character, lies inside the source, carries exactly the text of its range,
/// and is neither the end-of-input marker nor `BadToken`.
pub open spec fn is_content_token(source: Seq<char>, token: TokenView) -> bool {
    &&& token.span.start < token.span.end <= source.len()
    &&& token.span.is_exact()
    &&& token.span.literal == source.subrange(token.span.start as int, token.span.end as int)
    &&& token.kind != TokenKind::EOF
    &&& token.kind != TokenKind::BadToken
}

/// The spans of `tokens` lie end to start and cover `[from, to)`: the first
/// starts at `from`, each ends where the next starts, the last ends at `to`.
/// No token at all covers the empty range only.
pub open spec fn spans_tile(tokens: Seq<TokenView>, from: int, to: int) -> bool {
    &&& tokens.len() == 0 ==> from == to
    &&& tokens.len() > 0 ==> tokens[0].span.start == from && tokens.last().span.end == to
    &&& forall|i: int, j: int|
        0 <= i && j == i + 1 && j < tokens.len() ==> (#[trigger] tokens[i]).span.end == (
        #[trigger] tokens[j]).span.start
}

/// The content tokens from `from` on tile the source from `from` to its
/// end, and each of them is a content token over the source. There are no
/// more of them than characters.
pub proof fn lemma_spans_tile_from(source: Seq<char>, from: int)
    requires
        0 <= from <= source.len(),
    ensures
        content_tokens(source, from).len() <= source.len() - from,
        spans_tile(content_tokens(source, from), from, source.len() as int),
        forall|i: int|
            0 <= i < content_tokens(source, from).len() ==> is_content_token(
                source,
                #[trigger] content_tokens(source, from)[i],
            ),
    decreases source.len() - from,
{
    let tokens = content_tokens(source, from);
    if from < source.len() {
        let end = token_end(source, from);
        let rest = content_tokens(source, end);
        lemma_token_end_bounds(source, from);
        lemma_spans_tile_from(source, end);
        assert(tokens[0] == token_at(source, from));
        assert(tokens.len() == rest.len() + 1);
        assert forall|i: int| 1 <= i < tokens.len() implies #[trigger] tokens[i] == rest[i - 1] by {}
        assert forall|i: int, j: int| 0 <= i && j == i + 1 && j < tokens.len() implies (
        #[trigger] tokens[i]).span.end == (#[trigger] tokens[j]).span.start by {
            assert(tokens[j] == rest[j - 1]);
            if i > 0 {
                assert(tokens[i] == rest[i - 1]);
            }
        }
        assert forall|i: int| 0 <= i < tokens.len() implies is_content_token(
            source,
            #[trigger] tokens[i],
        ) by {
            if i > 0 {
                assert(tokens[i] == rest[i - 1]);
            }
        }
        if rest.len() > 0 {
            assert(tokens.last() == rest.last());
        }
    }
}

/// Span tiling: of the tokens before the end-of-input marker the first
/// starts at offset 0, each ends where the next starts and the last ends at
/// the end of the source. Each of them is a content token, so none is an
/// end-of-input marker.
pub proof fn lemma_spans_tile_source(source: Seq<char>)
    ensures
        ({
            let tokens = token_stream(source).drop_last();
            &&& tokens.len() <= source.len()
            &&& spans_tile(tokens, 0, source.len() as int)
            &&& forall|i: int|
                0 <= i < tokens.len() ==> is_content_token(source, #[trigger] tokens[i])
        }),
{
    lemma_spans_tile_from(source, 0);
    assert(token_stream(source).drop_last() =~= content_tokens(source, 0));
}

/// After `calls` scan steps from the start, what is still to be emitted
/// is the token stream without its first `calls` tokens; once the whole
/// stream is out the cursor is beyond the end of the source.
pub proof fn lemma_cursor_after(source: Seq<char>, calls: nat)
    ensures
        calls < token_stream(source).len() ==> {
            &&& cursor_after(source, calls) <= source.len()
            &&& tokens_from(source, cursor_after(source, calls)) == token_stream(source).skip(
                calls as int,
            )
        },
        calls >= token_stream(source).len() ==> cursor_after(source, calls) > source.len(),
    decreases calls,
{
    let stream = token_stream(source);
    if calls == 0 {
        assert(stream.skip(0) =~= stream);
    } else {
        let before = (calls - 1) as nat;
        let cursor = cursor_after(source, before);
        lemma_cursor_after(source, before);
        lemma_tokens_from_unfold(source, cursor);
        if before < stream.len() {
            let next = scan_step(source, cursor).1;
            assert(stream.skip(calls as int) =~= stream.skip(before as int).skip(1));
            assert(stream.skip(before as int).skip(1) =~= tokens_from(source, next));
            assert(tokens_from(source, next).len() == stream.len() - calls);
        }
    }
}

/// Termination: a fresh lexer over `source` hands out the tokens of the
/// token stream, one per call and in order. The stream is finite, at most
/// one token longer than the source has characters, and never empty: its
/// last token is the end-of-input marker and no token before it is one.
/// Every call after that returns `None`.
pub proof fn lemma_scanning_terminates(source: Seq<char>)
    ensures
        1 <= token_stream(source).len() <= source.len() + 1,
        forall|n: nat|
            n < token_stream(source).len() ==> #[trigger] nth_result(source, n) == Some(
                token_stream(source)[n as int],
            ),
        forall|n: nat|
            n >= token_stream(source).len() ==> #[trigger] nth_result(source, n) is None,
        token_stream(source).last() == end_of_input_token(),
        forall|i: int|
            0 <= i < token_stream(source).len() - 1 ==> (#[trigger] token_stream(
                source,
            )[i]).kind != TokenKind::EOF,
{
    let stream = token_stream(source);
    lemma_spans_tile_from(source, 0);
    assert forall|n: nat| n < stream.len() implies #[trigger] nth_result(source, n) == Some(
        stream[n as int],
    ) by {
        lemma_cursor_after(source, n);
        lemma_tokens_from_unfold(source, cursor_after(source, n));
        assert(stream.skip(n as int)[0] == stream[n as int]);
    }
    assert forall|n: nat| n >= stream.len() implies #[trigger] nth_result(source, n) is None by {
        lemma_cursor_after(source, n);
    }
    assert forall|i: int| 0 <= i < stream.len() - 1 implies (#[trigger] stream[i]).kind
        != TokenKind::EOF by {
        assert(stream[i] == content_tokens(source, 0)[i]);
    }
}

/// Construction is repeatable: two lexers over the same text that stand at
/// the same offset, as two fresh ones do, emit the same token at the next
/// call, move to the same offset, and have the same tokens still to emit.
pub proof fn lemma_equal_lexers_scan_alike(first: Lexer, second: Lexer)
    requires
        first@.source == second@.source,
        first@.cursor == second@.cursor,
    ensures
        scan_step(first@.source, first@.cursor) == scan_step(second@.source, second@.cursor),
        tokens_from(first@.source, first@.cursor) == tokens_from(second@.source, second@.cursor),
        first@.cursor == 0 ==> forall|n: nat|
            nth_result(first@.source, n) == nth_result(second@.source, n),
{
}

} // verus!
