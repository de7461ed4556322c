//! The lexer: a cursor over the source text that emits one token per call.

use super::grammar::{
    decimal_value, digit_run, digit_run_end, is_digit, lemma_digit_run_end_bounds,
    lemma_tokens_from_unfold, saturated, scan_step, symbol_kind, token_stream, tokens_from,
};
pub use super::token::{TextSpan, TextSpanView, Token, TokenKind, TokenView};
use vstd::prelude::*;

verus! {

/// What a [`Lexer`] stands for: the text it scans and the offset of the next
/// character to read. A cursor beyond the length of the source means that
/// the end-of-input marker has been emitted and nothing is left.
pub struct LexerView {
    pub source: Seq<char>,
    pub cursor: nat,
}

/// A scanner over a borrowed source text. Each call of
/// [`next_token`](Lexer::next_token) emits the token under the cursor and
/// moves the cursor to its end.
pub struct Lexer<'a> {
    input: &'a str,
    /// The number of characters in `input`.
    length: usize,
    /// The offset of the next character, never beyond `length`.
    current_pos: usize,
    /// Set once the end-of-input marker is out: the cursor then stands at `length + 1`.
    finished: bool,
}

impl<'a> View for Lexer<'a> {
    type V = LexerView;

    closed spec fn view(&self) -> LexerView {
        LexerView {
            source: self.input@,
            cursor: if self.finished {
                (self.length + 1) as nat
            } else {
                self.current_pos as nat
            },
        }
    }
}

impl<'a> Lexer<'a> {
    #[verifier::type_invariant]
    spec fn well_formed(self) -> bool {
        &&& self.length == self.input@.len()
        &&& self.current_pos <= self.length
        &&& self.finished ==> self.current_pos == self.length
    }

    /// A lexer at the start of `input`.
    pub fn new(input: &'a str) -> (lexer: Self)
        ensures
            lexer@.source == input@,
            lexer@.cursor == 0,
    {
        Self { input, length: input.unicode_len(), current_pos: 0, finished: false }
    }

    /// Emits the next token, or `None` once the end-of-input marker is out.
    ///
    /// Inside the source the token is the longest run of digits under the
    /// cursor, or else the single character under it, classified by the
    /// symbol table. At the end of the source the marker is emitted, once.
    /// The call never fails: what has no meaning is a token as well.
    pub fn next_token(&mut self) -> (token: Option<Token>)
        ensures
            final(self)@.source == old(self)@.source,
            token.deep_view() == scan_step(old(self)@.source, old(self)@.cursor).0,
            final(self)@.cursor == scan_step(old(self)@.source, old(self)@.cursor).1,
    {
        if self.is_file_ended() {
            return None;
        }
        if self.is_last_char_of_file() {
            proof {
                use_type_invariant(&*self);
            }
            self.finished = true;
            let literal = "\0".to_owned();
            proof {
                reveal_strlit("\0");
                assert(literal@ =~= seq!['\0']);
            }
            let span = TextSpan::new(0, 0, literal);
            return Some(Token::new(TokenKind::EOF, span));
        }
        proof {
            use_type_invariant(&*self);
        }
        let start_idx = self.current_pos;
        let current_char = self.get_current_indexed_char();
        let kind: TokenKind;

        if Self::is_number(&current_char) {
            let _number = self.parse_number();
            kind = TokenKind::Number;
        } else {
            kind = self.parse_arthmatic_symbols();
        }
        proof {
            use_type_invariant(&*self);
            lemma_digit_run_end_bounds(self@.source, start_idx + 1);
        }
        let end_index = self.current_pos;
        let literal = self.input.substring_char(start_idx, end_index).to_owned();
        let span = TextSpan::new(start_idx, end_index, literal);
        let token = Token::new(kind, span);
        Some(token)
    }

    fn is_number(c: &char) -> (digit: bool)
        ensures
            digit == is_digit(*c),
    {
        '0' <= *c && *c <= '9'
    }

    /// Whether the cursor is beyond the one-past-the-end position.
    fn is_file_ended(&self) -> (ended: bool)
        ensures
            ended == (self@.cursor > self@.source.len()),
    {
        proof {
            use_type_invariant(self);
        }
        self.finished
    }

    /// Whether the cursor is exactly at the one-past-the-end position.
    fn is_last_char_of_file(&self) -> (last: bool)
        ensures
            last == (self@.cursor == self@.source.len()),
    {
        proof {
            use_type_invariant(self);
        }
        !self.finished && self.current_pos == self.length
    }

    fn get_current_indexed_char(&self) -> (current: char)
        requires
            self@.cursor < self@.source.len(),
        ensures
            current == self@.source[self@.cursor as int],
    {
        proof {
            use_type_invariant(self);
        }
        self.input.get_char(self.current_pos)
    }

    /// Reads the character under the cursor and steps over it, if there is one.
    fn consume_character(&mut self) -> (consumed: Option<char>)
        ensures
            final(self)@.source == old(self)@.source,
            old(self)@.cursor < old(self)@.source.len() ==> {
                &&& consumed == Some(old(self)@.source[old(self)@.cursor as int])
                &&& final(self)@.cursor == old(self)@.cursor + 1
            },
            old(self)@.cursor >= old(self)@.source.len() ==> {
                &&& consumed is None
                &&& final(self)@.cursor == old(self)@.cursor
            },
    {
        if self.is_file_ended() || self.is_last_char_of_file() {
            return None;
        }
        proof {
            use_type_invariant(&*self);
        }
        let c = self.get_current_indexed_char();
        self.current_pos += 1;
        Some(c)
    }

    /// Consumes the longest run of digits under the cursor and returns the
    /// number it writes, held at `i64::MAX` where the run writes a larger one.
    ///
    /// Characters are consumed one by one; the first that is not a digit is
    /// given back by stepping the cursor back once.
    pub fn parse_number(&mut self) -> (number: i64)
        ensures
            final(self)@.source == old(self)@.source,
            final(self)@.cursor == digit_run_end(old(self)@.source, old(self)@.cursor as int),
            number == saturated(
                decimal_value(digit_run(old(self)@.source, old(self)@.cursor as int)),
            ),
    {
        let ghost source = self@.source;
        let ghost start = self@.cursor as int;
        let mut number: i64 = 0;
        proof {
            assert(scanned(source, start, start) =~= Seq::<char>::empty());
        }
        loop
            invariant_except_break
                self@.source == source,
                0 <= start <= self@.cursor,
                start <= source.len() ==> self@.cursor <= source.len(),
                digit_run_end(source, self@.cursor as int) == digit_run_end(source, start),
                number == saturated(decimal_value(scanned(source, start, self@.cursor as int))),
            ensures
                self@.source == source,
                self@.cursor == digit_run_end(source, start),
                number == saturated(decimal_value(scanned(source, start, self@.cursor as int))),
            decreases source.len() - self@.cursor,
        {
            let ghost before = self@.cursor as int;
            match self.consume_character() {
                None => {
                    break ;
                },
                Some(c) => {
                    if Self::is_number(&c) {
                        let digit: i64 = (c as u32 - '0' as u32) as i64;
                        proof {
                            let run = scanned(source, start, before + 1);
                            assert(run.drop_last() =~= scanned(source, start, before));
                            assert(run.last() == c);
                        }
                        if number > (i64::MAX - digit) / 10 {
                            number = i64::MAX;
                        } else {
                            number = number * 10 + digit;
                        }
                    } else {
                        proof {
                            use_type_invariant(&*self);
                        }
                        self.current_pos -= 1;
                        break ;
                    }
                },
            }
        }
        proof {
            if start <= source.len() {
                lemma_digit_run_end_bounds(source, start);
            }
        }
        number
    }

    /// Consumes one character and classifies it by the symbol table. Where
    /// there is no character to consume the result is `BadToken`.
    fn parse_arthmatic_symbols(&mut self) -> (kind: TokenKind)
        ensures
            final(self)@.source == old(self)@.source,
            old(self)@.cursor < old(self)@.source.len() ==> {
                &&& kind == symbol_kind(old(self)@.source[old(self)@.cursor as int])
                &&& final(self)@.cursor == old(self)@.cursor + 1
            },
            old(self)@.cursor >= old(self)@.source.len() ==> {
                &&& kind == TokenKind::BadToken
                &&& final(self)@.cursor == old(self)@.cursor
            },
    {
        match self.consume_character() {
            None => TokenKind::BadToken,
            Some(c) => match c {
                '+' => TokenKind::Plus,
                '-' => TokenKind::Minus,
                '*' => TokenKind::Star,
                '/' => TokenKind::Slash,
                '(' => TokenKind::OpenParenthesis,
                ')' => TokenKind::CloseParenthesis,
                ' ' => TokenKind::Whitespace,
                _ => TokenKind::Unimplemented,
            },
        }
    }
}

/// Scans the whole of `input`: every token the lexer emits for it, in order,
/// the end-of-input marker last.
pub fn tokenize(input: &str) -> (tokens: Vec<Token>)
    ensures
        tokens.deep_view() == token_stream(input@),
{
    let mut lexer = Lexer::new(input);
    let mut tokens: Vec<Token> = Vec::new();
    proof {
        assert(tokens.deep_view() =~= Seq::<TokenView>::empty());
    }
    loop
        invariant_except_break
            lexer@.source == input@,
            lexer@.cursor <= input@.len() + 1,
            tokens.deep_view() + tokens_from(input@, lexer@.cursor) == token_stream(input@),
        ensures
            tokens.deep_view() == token_stream(input@),
        decreases input@.len() + 1 - lexer@.cursor,
    {
        let ghost cursor = lexer@.cursor;
        let ghost emitted = tokens.deep_view();
        proof {
            lemma_tokens_from_unfold(input@, cursor);
        }
        match lexer.next_token() {
            Some(token) => {
                let ghost view = token@;
                tokens.push(token);
                proof {
                    assert(tokens.deep_view() =~= emitted.push(view));
                    let rest = tokens_from(input@, lexer@.cursor);
                    assert(emitted.push(view) + rest =~= emitted + (seq![view] + rest));
                }
            },
            None => {
                proof {
                    assert(emitted + Seq::<TokenView>::empty() =~= emitted);
                }
                break ;
            },
        }
    }
    tokens
}

/// The characters between `start` and `cursor`, where those are offsets of the source.
spec fn scanned(source: Seq<char>, start: int, cursor: int) -> Seq<char> {
    if 0 <= start <= cursor <= source.len() {
        source.subrange(start, cursor)
    } else {
        Seq::empty()
    }
}

} // verus!
