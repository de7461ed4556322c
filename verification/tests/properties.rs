use arith_lexer::abstract_syntax_tree::lexer::{tokenize, Lexer, Token, TokenKind};

const SAMPLES: [&str; 12] = [
    "",
    " ",
    "0",
    "7 + 4 - 5",
    "(1*2)/0",
    "123abc",
    "12 34",
    "((((",
    "1+2*3-4/5",
    "x = 10 @ 3",
    "é+12√3",
    "000123456789012345678901234567890",
];

fn pull_all(input: &str) -> Vec<Token> {
    let mut lexer = Lexer::new(input);
    let mut tokens = Vec::new();
    while let Some(token) = lexer.next_token() {
        tokens.push(token);
    }
    tokens
}

#[test]
fn literals_before_the_marker_spell_the_input() {
    for input in SAMPLES {
        let tokens = tokenize(input);
        let (marker, content) = tokens.split_last().unwrap();
        assert_eq!(marker.kind, TokenKind::EOF);
        let mut text = String::new();
        for token in content {
            text.push_str(&token.span.literal);
        }
        assert_eq!(text, input);
    }
}

#[test]
fn spans_lie_end_to_start_from_offset_zero() {
    for input in SAMPLES {
        let tokens = tokenize(input);
        let content = &tokens[..tokens.len() - 1];
        let mut expected_start = 0;
        for token in content {
            assert_ne!(token.kind, TokenKind::EOF);
            assert_ne!(token.kind, TokenKind::BadToken);
            assert_eq!(token.span.start, expected_start);
            assert!(token.span.start < token.span.end);
            assert_eq!(token.span.length(), token.span.literal.chars().count());
            expected_start = token.span.end;
        }
        assert_eq!(expected_start, input.chars().count());
    }
}

#[test]
fn the_marker_comes_once_and_last() {
    for input in SAMPLES {
        let mut lexer = Lexer::new(input);
        let mut calls = 0;
        let mut markers = 0;
        let mut last_kind = None;
        while let Some(token) = lexer.next_token() {
            calls += 1;
            assert!(calls <= input.chars().count() + 1);
            if token.kind == TokenKind::EOF {
                markers += 1;
            }
            last_kind = Some(token.kind);
        }
        assert_eq!(markers, 1);
        assert_eq!(last_kind, Some(TokenKind::EOF));
        assert_eq!(lexer.next_token(), None);
    }
}

#[test]
fn the_marker_has_the_same_span_whatever_the_input() {
    for input in SAMPLES {
        let tokens = tokenize(input);
        let marker = tokens.last().unwrap();
        assert_eq!(marker.kind, TokenKind::EOF);
        assert_eq!(marker.span.start, 0);
        assert_eq!(marker.span.end, 0);
        assert_eq!(marker.span.literal, "\0");
        assert_eq!(marker.span.length(), 0);
    }
}

#[test]
fn two_lexers_over_one_input_agree() {
    for input in SAMPLES {
        let copy = input.to_string();
        assert_eq!(pull_all(input), pull_all(&copy));
        let mut first = Lexer::new(input);
        let mut second = Lexer::new(&copy);
        loop {
            let from_first = first.next_token();
            let from_second = second.next_token();
            assert_eq!(from_first, from_second);
            if from_first.is_none() {
                break;
            }
        }
    }
}

#[test]
fn number_tokens_are_whole_runs_of_digits() {
    for input in SAMPLES {
        let characters: Vec<char> = input.chars().collect();
        for token in tokenize(input) {
            if token.kind == TokenKind::Number {
                assert!(token.span.literal.chars().all(|c| c.is_digit(10)));
                assert!(token.span.start == 0 || !characters[token.span.start - 1].is_digit(10));
                assert!(
                    token.span.end == characters.len() || !characters[token.span.end].is_digit(10)
                );
            } else if token.kind != TokenKind::EOF {
                assert_eq!(token.span.length(), 1);
                assert!(!characters[token.span.start].is_digit(10));
            }
        }
    }
}
