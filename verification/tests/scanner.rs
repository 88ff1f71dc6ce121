use lox::number::Number;
use lox::scanner::{classify, continues_word, LexError, Position, Scanner, Start};
use lox::token::{Literal, Token, TokenKind};

fn scan(src: &str) -> (Vec<Token>, Result<(), LexError>) {
    let mut scanner = Scanner::new(src.to_string());
    let r = scanner.scan_tokens();
    (scanner.into_tokens(), r)
}

fn kinds(src: &str) -> Vec<TokenKind> {
    let (tokens, r) = scan(src);
    assert!(r.is_ok());
    tokens.iter().map(|t| t.kind).collect()
}

fn number(written: &[u8], places: usize) -> Literal {
    Literal::Number(Number::from_decimal(&written.to_vec(), places))
}

#[test]
fn punctuation_and_operators() {
    assert_eq!(
        kinds("(){},.-+;*/ ! != = == < <= > >="),
        vec![
            TokenKind::LeftParen,
            TokenKind::RightParen,
            TokenKind::LeftBrace,
            TokenKind::RightBrace,
            TokenKind::Comma,
            TokenKind::Dot,
            TokenKind::Minus,
            TokenKind::Plus,
            TokenKind::Semicolon,
            TokenKind::Star,
            TokenKind::Slash,
            TokenKind::Bang,
            TokenKind::BangEqual,
            TokenKind::Equal,
            TokenKind::EqualEqual,
            TokenKind::Less,
            TokenKind::LessEqual,
            TokenKind::Greater,
            TokenKind::GreaterEqual,
            TokenKind::Eof,
        ]
    );
}

#[test]
fn doubled_operator_at_end_of_text() {
    assert_eq!(kinds("!"), vec![TokenKind::Bang, TokenKind::Eof]);
    assert_eq!(kinds("=="), vec![TokenKind::EqualEqual, TokenKind::Eof]);
    assert_eq!(kinds("==="), vec![TokenKind::EqualEqual, TokenKind::Equal, TokenKind::Eof]);
}

#[test]
fn empty_text_is_only_eof() {
    let (tokens, r) = scan("");
    assert!(r.is_ok());
    assert_eq!(tokens.len(), 1);
    assert_eq!(tokens[0].kind, TokenKind::Eof);
    assert_eq!(tokens[0].lexeme, "");
    assert!(tokens[0].literal.is_none());
    assert_eq!(tokens[0].line, 1);
}

#[test]
fn keywords_are_recognised() {
    assert_eq!(
        kinds("and class else false func if nil or print return super this true var while"),
        vec![
            TokenKind::And,
            TokenKind::Class,
            TokenKind::Else,
            TokenKind::False,
            TokenKind::Func,
            TokenKind::If,
            TokenKind::Nil,
            TokenKind::Or,
            TokenKind::Print,
            TokenKind::Return,
            TokenKind::Super,
            TokenKind::This,
            TokenKind::True,
            TokenKind::Var,
            TokenKind::While,
            TokenKind::Eof,
        ]
    );
}

#[test]
fn identifiers_keep_their_text() {
    let (tokens, r) = scan("variable _under a1 with_2 orchid");
    assert!(r.is_ok());
    let words: Vec<&str> = tokens.iter().map(|t| t.lexeme.as_str()).collect();
    assert_eq!(words, vec!["variable", "_under", "a1", "with_2", "orchid", ""]);
    for t in &tokens[..5] {
        assert_eq!(t.kind, TokenKind::Identifier);
        assert!(t.literal.is_none());
    }
}

#[test]
fn letters_outside_ascii_make_identifiers() {
    let (tokens, r) = scan("h\u{e9}llo = \u{3c0}2;");
    assert!(r.is_ok());
    assert_eq!(tokens[0].kind, TokenKind::Identifier);
    assert_eq!(tokens[0].lexeme, "h\u{e9}llo");
    assert_eq!(tokens[2].kind, TokenKind::Identifier);
    assert_eq!(tokens[2].lexeme, "\u{3c0}2");
}

#[test]
fn white_space_gives_no_token() {
    assert_eq!(kinds(" \t\r\u{a0} ; \u{2003}"), vec![TokenKind::Semicolon, TokenKind::Eof]);
}

#[test]
fn newlines_count_lines() {
    let (tokens, r) = scan("a\nb\n\nc");
    assert!(r.is_ok());
    let lines: Vec<usize> = tokens.iter().map(|t| t.line).collect();
    assert_eq!(lines, vec![1, 2, 4, 4]);
}

#[test]
fn line_comment_runs_to_end_of_line() {
    let (tokens, r) = scan("1 // two three\n4 // five");
    assert!(r.is_ok());
    assert_eq!(tokens.len(), 3);
    assert_eq!(tokens[0].lexeme, "1");
    assert_eq!(tokens[1].lexeme, "4");
    assert_eq!(tokens[1].line, 2);
    assert_eq!(tokens[2].kind, TokenKind::Eof);
}

#[test]
fn nested_comment_is_skipped() {
    assert_eq!(
        kinds("/* a /* b */ c */ print 1;"),
        vec![TokenKind::Print, TokenKind::Number, TokenKind::Semicolon, TokenKind::Eof]
    );
}

#[test]
fn comment_that_ends_the_text_is_closed() {
    assert_eq!(kinds("1 /* a /* b */ c */"), vec![TokenKind::Number, TokenKind::Eof]);
    assert_eq!(kinds("/**/"), vec![TokenKind::Eof]);
}

#[test]
fn unterminated_nested_comment() {
    let (tokens, r) = scan("/* a /* b */");
    assert_eq!(r, Err(LexError::UnterminatedComment(Position { line: 1, column: 0 })));
    assert!(tokens.is_empty());
}

#[test]
fn opening_star_does_not_close_the_comment() {
    let (_, r) = scan("/*/");
    assert_eq!(r, Err(LexError::UnterminatedComment(Position { line: 1, column: 0 })));
}

#[test]
fn unterminated_comment_names_its_first_line() {
    let (tokens, r) = scan("1;\n  /* open\n\n");
    assert_eq!(r, Err(LexError::UnterminatedComment(Position { line: 2, column: 5 })));
    assert_eq!(tokens.len(), 2);
}

#[test]
fn comment_lines_are_counted() {
    let (tokens, r) = scan("/* one\n two\n */ x");
    assert!(r.is_ok());
    assert_eq!(tokens[0].lexeme, "x");
    assert_eq!(tokens[0].line, 3);
}

#[test]
fn trailing_dot_is_not_part_of_the_number() {
    let (tokens, r) = scan("3.");
    assert!(r.is_ok());
    assert_eq!(tokens.len(), 3);
    assert_eq!(tokens[0].kind, TokenKind::Number);
    assert_eq!(tokens[0].lexeme, "3");
    assert!(tokens[0].literal.as_ref().unwrap().equals(&number(&[3], 0)));
    assert_eq!(tokens[1].kind, TokenKind::Dot);
    assert_eq!(tokens[2].kind, TokenKind::Eof);
}

#[test]
fn number_with_fraction() {
    let (tokens, r) = scan("12.50 .5 007");
    assert!(r.is_ok());
    assert_eq!(
        tokens.iter().map(|t| t.kind).collect::<Vec<_>>(),
        vec![
            TokenKind::Number,
            TokenKind::Dot,
            TokenKind::Number,
            TokenKind::Number,
            TokenKind::Eof
        ]
    );
    assert_eq!(tokens[0].lexeme, "12.50");
    assert!(tokens[0].literal.as_ref().unwrap().equals(&number(&[1, 2, 5], 1)));
    assert!(!tokens[0].literal.as_ref().unwrap().equals(&number(&[1, 2, 5], 0)));
    assert!(tokens[2].literal.as_ref().unwrap().equals(&number(&[5], 0)));
    assert!(tokens[3].literal.as_ref().unwrap().equals(&number(&[7], 0)));
}

#[test]
fn long_number_is_exact() {
    let (tokens, r) = scan("123456789012345678901234567890.5");
    assert!(r.is_ok());
    let (negative, numer, denom) = match tokens[0].literal.as_ref().unwrap() {
        Literal::Number(n) => n.parts(),
        _ => panic!(),
    };
    assert!(!negative);
    let digits: String = numer.iter().map(|d| (b'0' + d) as char).collect();
    assert_eq!(digits, "1234567890123456789012345678905");
    assert_eq!(denom, vec![1, 0]);
}

#[test]
fn string_literal() {
    let (tokens, r) = scan("\"hello world\"");
    assert!(r.is_ok());
    assert_eq!(tokens.len(), 2);
    assert_eq!(tokens[0].kind, TokenKind::String);
    assert_eq!(tokens[0].lexeme, "\"hello world\"");
    match tokens[0].literal.as_ref().unwrap() {
        Literal::String(s) => assert_eq!(s, "hello world"),
        _ => panic!(),
    }
}

#[test]
fn string_may_span_lines() {
    let (tokens, r) = scan("\"a\nb\" c");
    assert!(r.is_ok());
    match tokens[0].literal.as_ref().unwrap() {
        Literal::String(s) => assert_eq!(s, "a\nb"),
        _ => panic!(),
    }
    assert_eq!(tokens[0].line, 2);
    assert_eq!(tokens[1].line, 2);
}

#[test]
fn unterminated_string() {
    let (tokens, r) = scan("x = \"open\n");
    assert_eq!(r, Err(LexError::UnterminatedString(Position { line: 1, column: 4 })));
    assert_eq!(tokens.len(), 2);
    assert_eq!(tokens[1].kind, TokenKind::Equal);
}

#[test]
fn unexpected_character() {
    let (tokens, r) = scan("a\n @");
    assert_eq!(r, Err(LexError::UnexpectedCharacter(Position { line: 2, column: 3 })));
    assert_eq!(tokens.len(), 1);
    assert_eq!(tokens[0].lexeme, "a");
}

#[test]
fn literal_tokens_scan_again_to_themselves() {
    let (tokens, r) = scan("var x = 12.5 + 7; print \"two\nlines\";");
    assert!(r.is_ok());
    let mut literals = 0;
    for t in &tokens {
        if t.kind == TokenKind::Eof {
            continue;
        }
        let (again, r) = scan(&t.lexeme);
        assert!(r.is_ok());
        assert_eq!(again.len(), 2);
        assert_eq!(again[0].kind, t.kind);
        assert_eq!(again[0].lexeme, t.lexeme);
        match (&again[0].literal, &t.literal) {
            (Some(a), Some(b)) => {
                literals += 1;
                assert!(a.equals(b));
            }
            (None, None) => {}
            _ => panic!(),
        }
        assert_eq!(again[1].kind, TokenKind::Eof);
    }
    assert_eq!(literals, 3);
}

#[test]
fn scanning_goes_on_from_where_it_is() {
    let mut scanner = Scanner::new("1".to_string());
    assert!(scanner.scan_tokens().is_ok());
    assert!(scanner.scan_tokens().is_ok());
    let tokens = scanner.into_tokens();
    assert_eq!(
        tokens.iter().map(|t| t.kind).collect::<Vec<_>>(),
        vec![TokenKind::Number, TokenKind::Eof, TokenKind::Eof]
    );
}

#[test]
fn classes_of_first_characters() {
    assert_eq!(classify('(', false, false), Start::Single(TokenKind::LeftParen));
    assert_eq!(classify('*', false, false), Start::Single(TokenKind::Star));
    assert_eq!(classify('!', false, false), Start::Doubled(TokenKind::Bang, TokenKind::BangEqual));
    assert_eq!(classify('>', false, false), Start::Doubled(TokenKind::Greater, TokenKind::GreaterEqual));
    assert_eq!(classify('/', false, false), Start::Slash);
    assert_eq!(classify('\n', true, false), Start::Newline);
    assert_eq!(classify('"', false, false), Start::Quote);
    assert_eq!(classify('7', false, false), Start::Digit);
    assert_eq!(classify(' ', true, false), Start::Space);
    assert_eq!(classify('a', false, true), Start::Word);
    assert_eq!(classify('_', false, false), Start::Word);
    assert_eq!(classify('a', false, false), Start::Other);
    assert_eq!(classify('@', false, false), Start::Other);
    assert_eq!(classify('x', true, true), Start::Space);
}

#[test]
fn characters_that_continue_a_word() {
    assert!(continues_word('a', true));
    assert!(continues_word('_', false));
    assert!(!continues_word('-', false));
}

#[test]
fn scanner_stands_where_the_scan_ended() {
    let mut scanner = Scanner::new("ab  + 12\n ".to_string());
    assert_eq!((scanner.start, scanner.current, scanner.line), (0, 0, 1));
    assert!(scanner.tokens.is_empty());
    assert!(scanner.scan_tokens().is_ok());
    assert_eq!((scanner.start, scanner.current, scanner.line), (9, 10, 2));
    assert_eq!(scanner.tokens.len(), 4);
    assert_eq!(scanner.chars.len(), 10);
}

#[test]
fn scanner_stands_behind_what_it_could_not_scan() {
    let mut scanner = Scanner::new("a\n @ b".to_string());
    assert!(scanner.scan_tokens().is_err());
    assert_eq!((scanner.start, scanner.current, scanner.line), (3, 4, 2));
    assert_eq!(scanner.tokens.len(), 1);
}

#[test]
fn scanner_stands_at_the_end_after_an_open_string_or_comment() {
    let mut scanner = Scanner::new("x = \"open\nmore".to_string());
    assert!(scanner.scan_tokens().is_err());
    assert_eq!((scanner.start, scanner.current, scanner.line), (4, 14, 2));
    assert_eq!(scanner.tokens.len(), 2);
    let mut scanner = Scanner::new("1 /* a\n/* b */\n".to_string());
    assert!(scanner.scan_tokens().is_err());
    assert_eq!((scanner.start, scanner.current, scanner.line), (2, 15, 3));
    assert_eq!(scanner.tokens.len(), 1);
    let mut scanner = Scanner::new("\"".to_string());
    assert!(scanner.scan_tokens().is_err());
    assert_eq!((scanner.start, scanner.current, scanner.line), (0, 1, 1));
}

#[test]
fn scanner_that_has_nothing_to_scan_keeps_its_start() {
    let mut scanner = Scanner::new("ab".to_string());
    assert!(scanner.scan_tokens().is_ok());
    assert_eq!((scanner.start, scanner.current), (0, 2));
    assert!(scanner.scan_tokens().is_ok());
    assert_eq!((scanner.start, scanner.current), (0, 2));
    assert_eq!(scanner.tokens.len(), 3);
}
