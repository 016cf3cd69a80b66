//! The scanner: tokens, lexemes, lines and errors.
use gejang::shared::scanner::{scan, Class, Precedence, Scanner, ScannerError, Token, TokenType};

fn token(typ: TokenType, lexeme: &str, line: usize) -> Result<Token, ScannerError> {
    Ok(Token { typ, lexeme: lexeme.to_string(), line })
}

#[test]
fn scans_an_addition() {
    assert_eq!(
        scan("1 + 2"),
        vec![
            token(TokenType::Number, "1", 0),
            token(TokenType::Plus, "+", 0),
            token(TokenType::Number, "2", 0),
        ]
    );
}

#[test]
fn scans_strings() {
    assert_eq!(scan("\"foo"), vec![Err(ScannerError::UnterminatedString { line: 0 })]);
    assert_eq!(scan("\"foo\""), vec![token(TokenType::String, "\"foo\"", 0)]);
    assert_eq!(
        scan("\"foo\"\n\"bar\""),
        vec![token(TokenType::String, "\"foo\"", 0), token(TokenType::String, "\"bar\"", 1)]
    );
    assert_eq!(scan("\"λ\""), vec![token(TokenType::String, "\"λ\"", 0)]);
    assert_eq!(scan("\"a\nb\" x"), vec![
        token(TokenType::String, "\"a\nb\"", 1),
        token(TokenType::Identifier, "x", 1),
    ]);
    assert_eq!(scan("\"a\n\nb"), vec![Err(ScannerError::UnterminatedString { line: 2 })]);
}

#[test]
fn scans_numbers() {
    assert_eq!(scan("123"), vec![token(TokenType::Number, "123", 0)]);
    assert_eq!(scan("123.123"), vec![token(TokenType::Number, "123.123", 0)]);
    assert_eq!(
        scan("123."),
        vec![token(TokenType::Number, "123", 0), token(TokenType::Dot, ".", 0)]
    );
    assert_eq!(
        scan("123.foo"),
        vec![
            token(TokenType::Number, "123", 0),
            token(TokenType::Dot, ".", 0),
            token(TokenType::Identifier, "foo", 0),
        ]
    );
    assert_eq!(
        scan("1.2.3"),
        vec![
            token(TokenType::Number, "1.2", 0),
            token(TokenType::Dot, ".", 0),
            token(TokenType::Number, "3", 0),
        ]
    );
}

#[test]
fn scans_words() {
    assert_eq!(scan("printfoo"), vec![token(TokenType::Identifier, "printfoo", 0)]);
    assert_eq!(
        scan("print foo"),
        vec![token(TokenType::Print, "print", 0), token(TokenType::Identifier, "foo", 0)]
    );
    assert_eq!(scan("안녕하세요"), vec![token(TokenType::Identifier, "안녕하세요", 0)]);
    assert_eq!(scan("λ"), vec![token(TokenType::Identifier, "λ", 0)]);
    assert_eq!(
        scan("λ + bar"),
        vec![
            token(TokenType::Identifier, "λ", 0),
            token(TokenType::Plus, "+", 0),
            token(TokenType::Identifier, "bar", 0),
        ]
    );
    assert_eq!(
        scan("λ.bar"),
        vec![
            token(TokenType::Identifier, "λ", 0),
            token(TokenType::Dot, ".", 0),
            token(TokenType::Identifier, "bar", 0),
        ]
    );
    assert_eq!(scan("a_b2"), vec![token(TokenType::Identifier, "a_b2", 0)]);
    assert_eq!(scan("_a"), vec![
        Err(ScannerError::UnexpectedCharacter { line: 0, char: '_' }),
        token(TokenType::Identifier, "a", 0),
    ]);
}

#[test]
fn scans_every_keyword() {
    let words = [
        ("and", TokenType::And),
        ("break", TokenType::Break),
        ("class", TokenType::Class),
        ("else", TokenType::Else),
        ("false", TokenType::False),
        ("for", TokenType::For),
        ("fun", TokenType::Fun),
        ("if", TokenType::If),
        ("nil", TokenType::Nil),
        ("or", TokenType::Or),
        ("print", TokenType::Print),
        ("return", TokenType::Return),
        ("super", TokenType::Super),
        ("this", TokenType::This),
        ("true", TokenType::True),
        ("var", TokenType::Var),
        ("while", TokenType::While),
    ];
    for (word, typ) in words {
        assert_eq!(scan(word), vec![token(typ, word, 0)]);
    }
}

#[test]
fn scans_operators() {
    let kinds: Vec<TokenType> =
        scan("( ) { } , . - + ; / * ! != = == > >= < <=").into_iter().map(|t| t.unwrap().typ).collect();
    assert_eq!(
        kinds,
        vec![
            TokenType::LeftParen,
            TokenType::RightParen,
            TokenType::LeftBrace,
            TokenType::RightBrace,
            TokenType::Comma,
            TokenType::Dot,
            TokenType::Minus,
            TokenType::Plus,
            TokenType::Semicolon,
            TokenType::Slash,
            TokenType::Star,
            TokenType::Bang,
            TokenType::BangEqual,
            TokenType::Equal,
            TokenType::EqualEqual,
            TokenType::Greater,
            TokenType::GreaterEqual,
            TokenType::Less,
            TokenType::LessEqual,
        ]
    );
    assert_eq!(scan("!=="), vec![token(TokenType::BangEqual, "!=", 0), token(TokenType::Equal, "=", 0)]);
}

#[test]
fn scans_comments_as_tokens() {
    assert_eq!(
        scan("1 // one\n2"),
        vec![
            token(TokenType::Number, "1", 0),
            token(TokenType::Comment, "// one", 0),
            token(TokenType::Number, "2", 1),
        ]
    );
    assert_eq!(scan("//"), vec![token(TokenType::Comment, "//", 0)]);
}

#[test]
fn counts_lines_from_zero() {
    let lines: Vec<usize> = scan("a\nb\n\nc d").into_iter().map(|t| t.unwrap().line).collect();
    assert_eq!(lines, vec![0, 1, 3, 3]);
}

#[test]
fn goes_on_after_an_error() {
    assert_eq!(
        scan("1 @ 2\n#"),
        vec![
            token(TokenType::Number, "1", 0),
            Err(ScannerError::UnexpectedCharacter { line: 0, char: '@' }),
            token(TokenType::Number, "2", 0),
            Err(ScannerError::UnexpectedCharacter { line: 1, char: '#' }),
        ]
    );
}

#[test]
fn nothing_and_white_space_give_no_token() {
    assert_eq!(scan(""), vec![]);
    assert_eq!(scan(" \t\r\n "), vec![]);
}

#[test]
fn scanner_errors_have_messages() {
    assert_eq!(
        ScannerError::UnexpectedCharacter { line: 3, char: '@' }.to_string(),
        "Unexpected character on line 3: @"
    );
    assert_eq!(ScannerError::UnterminatedString { line: 12 }.to_string(), "Unterminated string on line 12");
    assert_eq!(
        ScannerError::InvalidNumber { line: 0, number: "1x".to_string() }.to_string(),
        "Invalid number on line 0: 1x"
    );
}

#[test]
fn scanner_reads_by_hand() {
    let mut scanner = Scanner::new("ab  c");
    assert_eq!(scanner.peek(), Some('a'));
    assert_eq!(scanner.peek_peek(), Some('b'));
    assert_eq!(scanner.advance(), Some('a'));
    assert!(!scanner.advance_if_match('x'));
    assert!(scanner.advance_if_match('b'));
    assert_eq!(scanner.lexeme(), "ab");
    scanner.advance_while(Class::Whitespace);
    assert_eq!(scanner.peek(), Some('c'));
    assert_eq!(scanner.peek_peek(), None);
    assert_eq!(scanner.next_token(), Some(token(TokenType::Identifier, "c", 0)));
    assert_eq!(scanner.next_token(), None);
    assert_eq!(scanner.advance(), None);
}

#[test]
fn character_classes() {
    assert!(Class::Digit.has('7'));
    assert!(!Class::Digit.has('a'));
    assert!(!Class::Digit.has('٣'));
    assert!(Class::Whitespace.has('\u{a0}'));
    assert!(!Class::Whitespace.has('x'));
    assert!(Class::Word.has('_'));
    assert!(Class::Word.has('é'));
    assert!(Class::Word.has('٣'));
    assert!(!Class::Word.has('-'));
    assert!(Class::NotNewline.has('x'));
    assert!(!Class::NotNewline.has('\n'));
    assert!(!Class::NotQuote.has('"'));
}

#[test]
fn token_kinds_have_texts() {
    assert_eq!(TokenType::LeftParen.as_str(), "(");
    assert_eq!(TokenType::GreaterEqual.as_str(), ">=");
    assert_eq!(TokenType::Identifier.as_str(), "an identifier");
    assert_eq!(TokenType::String.as_str(), "a string");
    assert_eq!(TokenType::Number.as_str(), "a number");
    assert_eq!(TokenType::Comment.as_str(), "a comment");
    assert_eq!(TokenType::While.as_str(), "while");
}

#[test]
fn precedence_climbs() {
    assert_eq!(Precedence::Lowest.next(), Precedence::Assignment);
    assert_eq!(Precedence::Assignment.next(), Precedence::Or);
    assert_eq!(Precedence::Or.next(), Precedence::And);
    assert_eq!(Precedence::And.next(), Precedence::Equality);
    assert_eq!(Precedence::Equality.next(), Precedence::Comparison);
    assert_eq!(Precedence::Comparison.next(), Precedence::Term);
    assert_eq!(Precedence::Term.next(), Precedence::Factor);
    assert_eq!(Precedence::Factor.next(), Precedence::Unary);
    assert_eq!(Precedence::Unary.next(), Precedence::Call);
    assert_eq!(Precedence::Call.next(), Precedence::Primary);
    assert_eq!(Precedence::Primary.level(), 10);
    assert_eq!(TokenType::Plus.precedence(), Precedence::Term);
    assert_eq!(TokenType::Minus.precedence(), Precedence::Term);
    assert_eq!(TokenType::Star.precedence(), Precedence::Factor);
    assert_eq!(TokenType::Slash.precedence(), Precedence::Factor);
    assert_eq!(TokenType::Bang.precedence(), Precedence::Lowest);
}

#[test]
fn a_copied_token_is_the_same() {
    let t = Token::new(TokenType::Identifier, "name", 4);
    assert_eq!(t.copy(), t);
    assert_eq!(t.lexeme, "name");
}
