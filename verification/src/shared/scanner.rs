//! Tokens, and the scanner that cuts source text into them.
use crate::shared::text::{chars_of, push_decimal, string_of, decimal};
use vstd::prelude::*;

verus! {

/// The kind of a token.
#[derive(Clone, Copy, PartialEq, Eq, Debug, Structural)]
pub enum TokenType {
    LeftParen,
    RightParen,
    LeftBrace,
    RightBrace,
    Comma,
    Dot,
    Minus,
    Plus,
    Semicolon,
    Slash,
    Star,
    Bang,
    BangEqual,
    Equal,
    EqualEqual,
    Greater,
    GreaterEqual,
    Less,
    LessEqual,
    Identifier,
    String,
    Number,
    And,
    Break,
    Class,
    Else,
    False,
    For,
    Fun,
    If,
    Nil,
    Or,
    Print,
    Return,
    Super,
    This,
    True,
    Var,
    Comment,
    While,
}

impl TokenType {
    /// How the kind is written in a message: a fixed token as in the source,
    /// the others by a short description.
    pub open spec fn text(self) -> Seq<char> {
        match self {
            TokenType::LeftParen => "("@,
            TokenType::RightParen => ")"@,
            TokenType::LeftBrace => "{"@,
            TokenType::RightBrace => "}"@,
            TokenType::Comma => ","@,
            TokenType::Dot => "."@,
            TokenType::Minus => "-"@,
            TokenType::Plus => "+"@,
            TokenType::Semicolon => ";"@,
            TokenType::Slash => "/"@,
            TokenType::Star => "*"@,
            TokenType::Bang => "!"@,
            TokenType::BangEqual => "!="@,
            TokenType::Equal => "="@,
            TokenType::EqualEqual => "=="@,
            TokenType::Greater => ">"@,
            TokenType::GreaterEqual => ">="@,
            TokenType::Less => "<"@,
            TokenType::LessEqual => "<="@,
            TokenType::Identifier => "an identifier"@,
            TokenType::String => "a string"@,
            TokenType::Number => "a number"@,
            TokenType::And => "and"@,
            TokenType::Break => "break"@,
            TokenType::Class => "class"@,
            TokenType::Else => "else"@,
            TokenType::False => "false"@,
            TokenType::For => "for"@,
            TokenType::Fun => "fun"@,
            TokenType::If => "if"@,
            TokenType::Nil => "nil"@,
            TokenType::Or => "or"@,
            TokenType::Print => "print"@,
            TokenType::Return => "return"@,
            TokenType::Super => "super"@,
            TokenType::This => "this"@,
            TokenType::True => "true"@,
            TokenType::Var => "var"@,
            TokenType::Comment => "a comment"@,
            TokenType::While => "while"@,
        }
    }

    /// The kind as it is written in a message.
    pub fn as_str(&self) -> (r: &'static str)
        ensures
            r@ == self.text(),
    {
        match self {
            TokenType::LeftParen => "(",
            TokenType::RightParen => ")",
            TokenType::LeftBrace => "{",
            TokenType::RightBrace => "}",
            TokenType::Comma => ",",
            TokenType::Dot => ".",
            TokenType::Minus => "-",
            TokenType::Plus => "+",
            TokenType::Semicolon => ";",
            TokenType::Slash => "/",
            TokenType::Star => "*",
            TokenType::Bang => "!",
            TokenType::BangEqual => "!=",
            TokenType::Equal => "=",
            TokenType::EqualEqual => "==",
            TokenType::Greater => ">",
            TokenType::GreaterEqual => ">=",
            TokenType::Less => "<",
            TokenType::LessEqual => "<=",
            TokenType::Identifier => "an identifier",
            TokenType::String => "a string",
            TokenType::Number => "a number",
            TokenType::And => "and",
            TokenType::Break => "break",
            TokenType::Class => "class",
            TokenType::Else => "else",
            TokenType::False => "false",
            TokenType::For => "for",
            TokenType::Fun => "fun",
            TokenType::If => "if",
            TokenType::Nil => "nil",
            TokenType::Or => "or",
            TokenType::Print => "print",
            TokenType::Return => "return",
            TokenType::Super => "super",
            TokenType::This => "this",
            TokenType::True => "true",
            TokenType::Var => "var",
            TokenType::Comment => "a comment",
            TokenType::While => "while",
        }
    }

    /// How tightly the kind binds as an infix operator of arithmetic.
    pub fn precedence(&self) -> (r: Precedence)
        ensures
            r == match *self {
                TokenType::Plus | TokenType::Minus => Precedence::Term,
                TokenType::Star | TokenType::Slash => Precedence::Factor,
                _ => Precedence::Lowest,
            },
    {
        match self {
            TokenType::Plus | TokenType::Minus => Precedence::Term,
            TokenType::Star | TokenType::Slash => Precedence::Factor,
            _ => Precedence::Lowest,
        }
    }
}

/// The binding strengths of the expression grammar, weakest first.
#[derive(Clone, Copy, PartialEq, Eq, Debug, Structural)]
pub enum Precedence {
    Lowest,
    Assignment,
    Or,
    And,
    Equality,
    Comparison,
    Term,
    Factor,
    Unary,
    Call,
    Primary,
}

impl Precedence {
    /// The place of a strength in the order, from 0 for the weakest.
    pub open spec fn rank(self) -> nat {
        match self {
            Precedence::Lowest => 0,
            Precedence::Assignment => 1,
            Precedence::Or => 2,
            Precedence::And => 3,
            Precedence::Equality => 4,
            Precedence::Comparison => 5,
            Precedence::Term => 6,
            Precedence::Factor => 7,
            Precedence::Unary => 8,
            Precedence::Call => 9,
            Precedence::Primary => 10,
        }
    }

    /// The place of a strength in the order, from 0 for the weakest.
    pub fn level(&self) -> (r: u8)
        ensures
            r == self.rank(),
    {
        match self {
            Precedence::Lowest => 0,
            Precedence::Assignment => 1,
            Precedence::Or => 2,
            Precedence::And => 3,
            Precedence::Equality => 4,
            Precedence::Comparison => 5,
            Precedence::Term => 6,
            Precedence::Factor => 7,
            Precedence::Unary => 8,
            Precedence::Call => 9,
            Precedence::Primary => 10,
        }
    }

    /// The next stronger strength. Nothing binds more tightly than `Primary`.
    pub fn next(&self) -> (r: Self)
        requires
            *self != Precedence::Primary,
        ensures
            r.rank() == self.rank() + 1,
    {
        match self {
            Precedence::Lowest => Precedence::Assignment,
            Precedence::Assignment => Precedence::Or,
            Precedence::Or => Precedence::And,
            Precedence::And => Precedence::Equality,
            Precedence::Equality => Precedence::Comparison,
            Precedence::Comparison => Precedence::Term,
            Precedence::Term => Precedence::Factor,
            Precedence::Factor => Precedence::Unary,
            Precedence::Unary => Precedence::Call,
            _ => Precedence::Primary,
        }
    }
}

/// The order of the strengths is the order of their ranks: two strengths of
/// one rank are the same strength.
pub proof fn lemma_rank_is_injective(a: Precedence, b: Precedence)
    requires
        a.rank() == b.rank(),
    ensures
        a == b,
{
}

/// A token: its kind, the text it was cut from, and the line it ends on.
#[derive(Clone, Debug, PartialEq, Eq)]
pub struct Token {
    pub typ: TokenType,
    pub lexeme: String,
    pub line: usize,
}

/// A token with its text as a sequence of characters.
pub struct Lexeme {
    pub typ: TokenType,
    pub text: Seq<char>,
    pub line: usize,
}

impl View for Token {
    type V = Lexeme;

    open spec fn view(&self) -> Lexeme {
        Lexeme { typ: self.typ, text: self.lexeme@, line: self.line }
    }
}

impl Token {
    /// A token of kind `typ` with the text `lexeme`.
    pub fn new(typ: TokenType, lexeme: &str, line: usize) -> (r: Token)
        ensures
            r.typ == typ,
            r.lexeme@ == lexeme@,
            r.line == line,
    {
        Token { typ, lexeme: String::from_str(lexeme), line }
    }

    /// A second token like this one.
    pub fn copy(&self) -> (r: Token)
        ensures
            r == *self,
    {
        Token { typ: self.typ, lexeme: self.lexeme.clone(), line: self.line }
    }
}

/// Why a piece of the source is no token.
#[derive(Clone, Debug, PartialEq, Eq)]
pub enum ScannerError {
    UnexpectedCharacter { line: usize, char: char },
    UnterminatedString { line: usize },
    InvalidNumber { line: usize, number: String },
}

impl ScannerError {
    /// The message that reports the error.
    pub open spec fn text(self) -> Seq<char> {
        match self {
            ScannerError::UnexpectedCharacter { line, char } => ("Unexpected character on line "@
                + decimal(line as nat) + ": "@).push(char),
            ScannerError::UnterminatedString { line } => "Unterminated string on line "@ + decimal(
                line as nat,
            ),
            ScannerError::InvalidNumber { line, number } => "Invalid number on line "@ + decimal(
                line as nat,
            ) + ": "@ + number@,
        }
    }

    /// The message that reports the error.
    pub fn to_string(&self) -> (r: String)
        ensures
            r@ == self.text(),
    {
        match self {
            ScannerError::UnexpectedCharacter { line, char } => {
                let mut out = String::from_str("Unexpected character on line ");
                push_decimal(&mut out, *line);
                out.append(": ");
                out.push(*char);
                out
            },
            ScannerError::UnterminatedString { line } => {
                let mut out = String::from_str("Unterminated string on line ");
                push_decimal(&mut out, *line);
                out
            },
            ScannerError::InvalidNumber { line, number } => {
                let mut out = String::from_str("Invalid number on line ");
                push_decimal(&mut out, *line);
                out.append(": ");
                out.append(number.as_str());
                out
            },
        }
    }
}

/// Whether `char::is_whitespace` holds of the character.
pub uninterp spec fn whitespace(c: char) -> bool;

/// Whether `char::is_alphabetic` holds of the character.
pub uninterp spec fn alphabetic(c: char) -> bool;

/// Whether `char::is_alphanumeric` holds of the character.
pub uninterp spec fn alphanumeric(c: char) -> bool;

/// `char::is_whitespace` says whether the character has the Unicode property
/// `White_Space`. It depends on the character alone.
pub assume_specification[ char::is_whitespace ](c: char) -> (r: bool)
    ensures
        r == whitespace(c),
;

/// `char::is_alphabetic` says whether the character has the Unicode property
/// `Alphabetic`. It depends on the character alone.
pub assume_specification[ char::is_alphabetic ](c: char) -> (r: bool)
    ensures
        r == alphabetic(c),
;

/// `char::is_alphanumeric` says whether the character is alphabetic or
/// numeric in Unicode's sense. It depends on the character alone.
pub assume_specification[ char::is_alphanumeric ](c: char) -> (r: bool)
    ensures
        r == alphanumeric(c),
;

/// The kinds of character that the scanner reads runs of.
#[derive(Clone, Copy, Debug, PartialEq, Eq, Structural)]
pub enum Class {
    /// White space.
    Whitespace,
    /// The decimal digits `0` to `9`.
    Digit,
    /// All but the line feed.
    NotNewline,
    /// All but the double quote.
    NotQuote,
    /// What an identifier goes on with: letters, digits, the underscore.
    Word,
}

/// Whether the character is a decimal digit.
pub open spec fn digit(c: char) -> bool {
    '0' <= c <= '9'
}

impl Class {
    /// Whether the character is of the kind.
    pub open spec fn holds(self, c: char) -> bool {
        match self {
            Class::Whitespace => whitespace(c),
            Class::Digit => digit(c),
            Class::NotNewline => c != '\n',
            Class::NotQuote => c != '"',
            Class::Word => alphanumeric(c) || c == '_',
        }
    }

    /// Whether the character is of the kind.
    pub fn has(&self, c: char) -> (r: bool)
        ensures
            r == self.holds(c),
    {
        match self {
            Class::Whitespace => c.is_whitespace(),
            Class::Digit => '0' <= c && c <= '9',
            Class::NotNewline => c != '\n',
            Class::NotQuote => c != '"',
            Class::Word => c.is_alphanumeric() || c == '_',
        }
    }
}

/// The end of the run of characters of the kind `class` that begins at `from`.
pub open spec fn skip(source: Seq<char>, from: int, class: Class) -> int
    decreases source.len() - from,
{
    if 0 <= from < source.len() && class.holds(source[from]) {
        skip(source, from + 1, class)
    } else {
        from
    }
}

/// The number of the line on which the character at `at` stands, counted from
/// 0: the number of line feeds before it.
pub open spec fn line_at(source: Seq<char>, at: int) -> nat
    decreases at,
{
    if at <= 0 || at > source.len() {
        0
    } else if source[at - 1] == '\n' {
        line_at(source, at - 1) + 1
    } else {
        line_at(source, at - 1)
    }
}

/// The kind of the token whose text is the word `lexeme`: a keyword, or an
/// identifier.
pub open spec fn keyword(lexeme: Seq<char>) -> TokenType {
    if lexeme == "and"@ {
        TokenType::And
    } else if lexeme == "break"@ {
        TokenType::Break
    } else if lexeme == "class"@ {
        TokenType::Class
    } else if lexeme == "else"@ {
        TokenType::Else
    } else if lexeme == "false"@ {
        TokenType::False
    } else if lexeme == "for"@ {
        TokenType::For
    } else if lexeme == "fun"@ {
        TokenType::Fun
    } else if lexeme == "if"@ {
        TokenType::If
    } else if lexeme == "nil"@ {
        TokenType::Nil
    } else if lexeme == "or"@ {
        TokenType::Or
    } else if lexeme == "print"@ {
        TokenType::Print
    } else if lexeme == "return"@ {
        TokenType::Return
    } else if lexeme == "super"@ {
        TokenType::Super
    } else if lexeme == "this"@ {
        TokenType::This
    } else if lexeme == "true"@ {
        TokenType::True
    } else if lexeme == "var"@ {
        TokenType::Var
    } else if lexeme == "while"@ {
        TokenType::While
    } else {
        TokenType::Identifier
    }
}

/// What is wrong with a piece of the source.
pub enum Flaw {
    /// Its first character begins no token.
    UnexpectedCharacter,
    /// It begins a string that no quote ends.
    UnterminatedString,
}

/// A piece of the source, `source[start..end]`, and what it is: a token of
/// some kind, or an error.
pub struct Item {
    pub kind: Result<TokenType, Flaw>,
    pub start: int,
    pub end: int,
}

/// The piece `source[start..end]` as a token of the kind `typ`.
pub open spec fn piece(typ: TokenType, start: int, end: int) -> Item {
    Item { kind: Ok(typ), start, end }
}

/// Whether the character after the one at `at` is `c`.
pub open spec fn follows(source: Seq<char>, at: int, c: char) -> bool {
    at + 1 < source.len() && source[at + 1] == c
}

/// The first piece of the source at or after `from`, white space left out;
/// nothing where only white space is left.
pub open spec fn lex(source: Seq<char>, from: int) -> Option<Item> {
    let start = skip(source, from, Class::Whitespace);
    if start < 0 || start >= source.len() {
        None
    } else {
        let c = source[start];
        Some(
            if c == '(' {
                piece(TokenType::LeftParen, start, start + 1)
            } else if c == ')' {
                piece(TokenType::RightParen, start, start + 1)
            } else if c == '{' {
                piece(TokenType::LeftBrace, start, start + 1)
            } else if c == '}' {
                piece(TokenType::RightBrace, start, start + 1)
            } else if c == ',' {
                piece(TokenType::Comma, start, start + 1)
            } else if c == '.' {
                piece(TokenType::Dot, start, start + 1)
            } else if c == '-' {
                piece(TokenType::Minus, start, start + 1)
            } else if c == '+' {
                piece(TokenType::Plus, start, start + 1)
            } else if c == ';' {
                piece(TokenType::Semicolon, start, start + 1)
            } else if c == '*' {
                piece(TokenType::Star, start, start + 1)
            } else if c == '!' {
                if follows(source, start, '=') {
                    piece(TokenType::BangEqual, start, start + 2)
                } else {
                    piece(TokenType::Bang, start, start + 1)
                }
            } else if c == '=' {
                if follows(source, start, '=') {
                    piece(TokenType::EqualEqual, start, start + 2)
                } else {
                    piece(TokenType::Equal, start, start + 1)
                }
            } else if c == '<' {
                if follows(source, start, '=') {
                    piece(TokenType::LessEqual, start, start + 2)
                } else {
                    piece(TokenType::Less, start, start + 1)
                }
            } else if c == '>' {
                if follows(source, start, '=') {
                    piece(TokenType::GreaterEqual, start, start + 2)
                } else {
                    piece(TokenType::Greater, start, start + 1)
                }
            } else if c == '/' {
                if follows(source, start, '/') {
                    piece(TokenType::Comment, start, skip(source, start + 2, Class::NotNewline))
                } else {
                    piece(TokenType::Slash, start, start + 1)
                }
            } else if c == '"' {
                let quote = skip(source, start + 1, Class::NotQuote);
                if quote < source.len() {
                    piece(TokenType::String, start, quote + 1)
                } else {
                    Item { kind: Err(Flaw::UnterminatedString), start, end: source.len() as int }
                }
            } else if digit(c) {
                let whole = skip(source, start + 1, Class::Digit);
                if whole + 1 < source.len() && source[whole] == '.' && digit(source[whole + 1]) {
                    piece(TokenType::Number, start, skip(source, whole + 1, Class::Digit))
                } else {
                    piece(TokenType::Number, start, whole)
                }
            } else if alphabetic(c) {
                let end = skip(source, start + 1, Class::Word);
                piece(keyword(source.subrange(start, end)), start, end)
            } else {
                Item { kind: Err(Flaw::UnexpectedCharacter), start, end: start + 1 }
            },
        )
    }
}

/// The pieces of the source from `from` on, in order.
pub open spec fn items(source: Seq<char>, from: int) -> Seq<Item>
    decreases source.len() - from,
{
    match lex(source, from) {
        Some(item) => if from < item.end <= source.len() {
            seq![item] + items(source, item.end)
        } else {
            Seq::empty()
        },
        None => Seq::empty(),
    }
}

/// Whether `r` is what the scanner gives for the piece `item` of the source:
/// the token of that kind with the piece as its text and the line on which
/// the piece ends, or the error with that line.
pub open spec fn represents(r: Result<Token, ScannerError>, source: Seq<char>, item: Item) -> bool {
    match item.kind {
        Ok(typ) => r matches Ok(token) && token.typ == typ && token.lexeme@ == source.subrange(
            item.start,
            item.end,
        ) && token.line == line_at(source, item.end),
        Err(Flaw::UnexpectedCharacter) => r matches Err(
            ScannerError::UnexpectedCharacter { line, char },
        ) && line == line_at(source, item.end) && char == source[item.start],
        Err(Flaw::UnterminatedString) => r matches Err(ScannerError::UnterminatedString { line })
            && line == line_at(source, item.end),
    }
}

/// A run of characters ends at or after its start, within the source.
pub proof fn lemma_skip_bounds(source: Seq<char>, from: int, class: Class)
    requires
        0 <= from <= source.len(),
    ensures
        from <= skip(source, from, class) <= source.len(),
        forall|i: int| from <= i < skip(source, from, class) ==> class.holds(#[trigger] source[i]),
        skip(source, from, class) < source.len() ==> !class.holds(
            source[skip(source, from, class)],
        ),
    decreases source.len() - from,
{
    if from < source.len() && class.holds(source[from]) {
        lemma_skip_bounds(source, from + 1, class);
    }
}

/// Every piece is not empty, does not begin before the place from which it
/// was looked for, and lies within the source.
pub proof fn lemma_lex_advances(source: Seq<char>, from: int)
    requires
        0 <= from <= source.len(),
    ensures
        lex(source, from) matches Some(item) ==> from <= item.start < item.end <= source.len(),
{
    lemma_skip_bounds(source, from, Class::Whitespace);
    let start = skip(source, from, Class::Whitespace);
    if start < source.len() {
        lemma_skip_bounds(source, start + 1, Class::NotQuote);
        lemma_skip_bounds(source, start + 1, Class::Digit);
        lemma_skip_bounds(source, start + 1, Class::Word);
        if start + 2 <= source.len() {
            lemma_skip_bounds(source, start + 2, Class::NotNewline);
        }
        let whole = skip(source, start + 1, Class::Digit);
        if whole + 1 <= source.len() {
            lemma_skip_bounds(source, whole + 1, Class::Digit);
        }
    }
}

fn keyword_of(word: &str) -> (r: TokenType)
    ensures
        r == keyword(word@),
{
    if *word == *"and" {
        TokenType::And
    } else if *word == *"break" {
        TokenType::Break
    } else if *word == *"class" {
        TokenType::Class
    } else if *word == *"else" {
        TokenType::Else
    } else if *word == *"false" {
        TokenType::False
    } else if *word == *"for" {
        TokenType::For
    } else if *word == *"fun" {
        TokenType::Fun
    } else if *word == *"if" {
        TokenType::If
    } else if *word == *"nil" {
        TokenType::Nil
    } else if *word == *"or" {
        TokenType::Or
    } else if *word == *"print" {
        TokenType::Print
    } else if *word == *"return" {
        TokenType::Return
    } else if *word == *"super" {
        TokenType::Super
    } else if *word == *"this" {
        TokenType::This
    } else if *word == *"true" {
        TokenType::True
    } else if *word == *"var" {
        TokenType::Var
    } else if *word == *"while" {
        TokenType::While
    } else {
        TokenType::Identifier
    }
}

/// The scanner: the source, the place up to which it is read, the place
/// where the piece in hand begins, and the line of the place read up to.
pub struct Scanner {
    source: Vec<char>,
    current: usize,
    lexeme_start: usize,
    line: usize,
}

/// A scanner's state.
pub struct Cursor {
    pub source: Seq<char>,
    pub current: int,
    pub start: int,
    pub line: nat,
}

impl View for Scanner {
    type V = Cursor;

    closed spec fn view(&self) -> Cursor {
        Cursor {
            source: self.source@,
            current: self.current as int,
            start: self.lexeme_start as int,
            line: self.line as nat,
        }
    }
}

impl Scanner {
    /// The state is sound: the places lie in the source, in order, and the
    /// line is the line of the place read up to.
    pub open spec fn wf(&self) -> bool {
        &&& 0 <= self@.start <= self@.current <= self@.source.len()
        &&& self@.line == line_at(self@.source, self@.current)
    }

    /// A scanner at the start of `source`.
    pub fn new(source: &str) -> (r: Scanner)
        ensures
            r.wf(),
            r@ == (Cursor { source: source@, current: 0, start: 0, line: 0 }),
    {
        Scanner { source: chars_of(source), current: 0, lexeme_start: 0, line: 0 }
    }

    /// Reads one character, if one is left.
    pub fn advance(&mut self) -> (r: Option<char>)
        requires
            old(self).wf(),
        ensures
            final(self).wf(),
            final(self)@.source == old(self)@.source,
            final(self)@.start == old(self)@.start,
            old(self)@.current < old(self)@.source.len() ==> r == Some(
                old(self)@.source[old(self)@.current],
            ) && final(self)@.current == old(self)@.current + 1,
            old(self)@.current >= old(self)@.source.len() ==> r is None && final(self)@ == old(
                self,
            )@,
    {
        if self.current < self.source.len() {
            let c = self.source[self.current];
            self.current = self.current + 1;
            if c == '\n' {
                assert(self.line < self.current) by {
                    lemma_line_bound(old(self)@.source, old(self)@.current);
                }
                self.line = self.line + 1;
            }
            Some(c)
        } else {
            None
        }
    }

    /// The next character, which stays unread.
    pub fn peek(&self) -> (r: Option<char>)
        requires
            self.wf(),
        ensures
            r == (if self@.current < self@.source.len() {
                Some(self@.source[self@.current])
            } else {
                None
            }),
    {
        if self.current < self.source.len() {
            Some(self.source[self.current])
        } else {
            None
        }
    }

    /// The character after the next.
    pub fn peek_peek(&self) -> (r: Option<char>)
        requires
            self.wf(),
        ensures
            r == (if self@.current + 1 < self@.source.len() {
                Some(self@.source[self@.current + 1])
            } else {
                None
            }),
    {
        if self.current < self.source.len() && self.current + 1 < self.source.len() {
            Some(self.source[self.current + 1])
        } else {
            None
        }
    }

    /// Reads the next character if it is `expected`, and says whether it was.
    pub fn advance_if_match(&mut self, expected: char) -> (r: bool)
        requires
            old(self).wf(),
        ensures
            final(self).wf(),
            final(self)@.source == old(self)@.source,
            final(self)@.start == old(self)@.start,
            r == (old(self)@.current < old(self)@.source.len() && old(self)@.source[old(
                self,
            )@.current] == expected),
            final(self)@.current == old(self)@.current + if r {
                1int
            } else {
                0int
            },
    {
        match self.peek() {
            Some(c) => {
                if c == expected {
                    self.advance();
                    true
                } else {
                    false
                }
            },
            None => false,
        }
    }

    /// Reads on to the end of the run of characters of the kind `class`.
    pub fn advance_while(&mut self, class: Class)
        requires
            old(self).wf(),
        ensures
            final(self).wf(),
            final(self)@.source == old(self)@.source,
            final(self)@.start == old(self)@.start,
            final(self)@.current == skip(old(self)@.source, old(self)@.current, class),
    {
        while self.current < self.source.len() && class.has(self.source[self.current])
            invariant
                self.wf(),
                self@.source == old(self)@.source,
                self@.start == old(self)@.start,
                skip(old(self)@.source, old(self)@.current, class) == skip(
                    self@.source,
                    self@.current,
                    class,
                ),
            decreases self.source.len() - self.current,
        {
            self.advance();
        }
    }

    /// The text of the piece in hand.
    pub fn lexeme(&self) -> (r: String)
        requires
            self.wf(),
        ensures
            r@ == self@.source.subrange(self@.start, self@.current),
    {
        string_of(&self.source, self.lexeme_start, self.current)
    }

    /// The piece in hand as a token of the kind `typ`.
    pub fn make_token(&self, typ: TokenType) -> (r: Result<Token, ScannerError>)
        requires
            self.wf(),
        ensures
            r matches Ok(token) && token.typ == typ && token.lexeme@ == self@.source.subrange(
                self@.start,
                self@.current,
            ) && token.line == self@.line,
    {
        Ok(Token { typ, lexeme: self.lexeme(), line: self.line })
    }

    /// The next piece of the source: a token or an error; nothing at the end
    /// of the source.
    pub fn next_token(&mut self) -> (r: Option<Result<Token, ScannerError>>)
        requires
            old(self).wf(),
        ensures
            final(self).wf(),
            final(self)@.source == old(self)@.source,
            match r {
                Some(found) => lex(old(self)@.source, old(self)@.current) matches Some(item)
                    && represents(found, old(self)@.source, item) && final(self)@.current
                    == item.end,
                None => lex(old(self)@.source, old(self)@.current) is None,
            },
    {
        let ghost source = self@.source;
        self.advance_while(Class::Whitespace);
        let ghost start = self@.current;
        proof {
            lemma_skip_bounds(source, old(self)@.current, Class::Whitespace);
            if start < source.len() {
                lemma_skip_bounds(source, start + 1, Class::NotQuote);
                lemma_skip_bounds(source, start + 1, Class::Digit);
                lemma_skip_bounds(source, start + 1, Class::Word);
            }
            if start + 2 <= source.len() {
                lemma_skip_bounds(source, start + 2, Class::NotNewline);
            }
        }
        let c = match self.advance() {
            Some(c) => c,
            None => {
                return None;
            },
        };
        self.lexeme_start = self.current - 1;
        let found = if c == '(' {
            self.make_token(TokenType::LeftParen)
        } else if c == ')' {
            self.make_token(TokenType::RightParen)
        } else if c == '{' {
            self.make_token(TokenType::LeftBrace)
        } else if c == '}' {
            self.make_token(TokenType::RightBrace)
        } else if c == ',' {
            self.make_token(TokenType::Comma)
        } else if c == '.' {
            self.make_token(TokenType::Dot)
        } else if c == '-' {
            self.make_token(TokenType::Minus)
        } else if c == '+' {
            self.make_token(TokenType::Plus)
        } else if c == ';' {
            self.make_token(TokenType::Semicolon)
        } else if c == '*' {
            self.make_token(TokenType::Star)
        } else if c == '!' {
            if self.advance_if_match('=') {
                self.make_token(TokenType::BangEqual)
            } else {
                self.make_token(TokenType::Bang)
            }
        } else if c == '=' {
            if self.advance_if_match('=') {
                self.make_token(TokenType::EqualEqual)
            } else {
                self.make_token(TokenType::Equal)
            }
        } else if c == '<' {
            if self.advance_if_match('=') {
                self.make_token(TokenType::LessEqual)
            } else {
                self.make_token(TokenType::Less)
            }
        } else if c == '>' {
            if self.advance_if_match('=') {
                self.make_token(TokenType::GreaterEqual)
            } else {
                self.make_token(TokenType::Greater)
            }
        } else if c == '/' {
            if self.advance_if_match('/') {
                self.advance_while(Class::NotNewline);
                self.make_token(TokenType::Comment)
            } else {
                self.make_token(TokenType::Slash)
            }
        } else if c == '"' {
            self.advance_while(Class::NotQuote);
            if self.advance_if_match('"') {
                self.make_token(TokenType::String)
            } else {
                Err(ScannerError::UnterminatedString { line: self.line })
            }
        } else if '0' <= c && c <= '9' {
            self.advance_while(Class::Digit);
            let fraction = match (self.peek(), self.peek_peek()) {
                (Some(dot), Some(d)) => dot == '.' && '0' <= d && d <= '9',
                _ => false,
            };
            if fraction {
                self.advance();
                self.advance_while(Class::Digit);
            }
            self.make_token(TokenType::Number)
        } else if c.is_alphabetic() {
            self.advance_while(Class::Word);
            let word = self.lexeme();
            self.make_token(keyword_of(word.as_str()))
        } else {
            Err(ScannerError::UnexpectedCharacter { line: self.line, char: c })
        };
        Some(found)
    }
}

/// The line of a place is at most the place: there are no more line feeds
/// before it than characters.
pub proof fn lemma_line_bound(source: Seq<char>, at: int)
    ensures
        line_at(source, at) <= if at < 0 {
            0int
        } else {
            at
        },
    decreases at,
{
    if 0 < at <= source.len() {
        lemma_line_bound(source, at - 1);
    }
}

/// Cuts the source into its pieces, in order: every token and every error.
/// An error ends one piece only; the scan goes on after it.
pub fn scan(source: &str) -> (r: Vec<Result<Token, ScannerError>>)
    ensures
        r@.len() == items(source@, 0).len(),
        forall|i: int| 0 <= i < r@.len() ==> represents(#[trigger] r@[i], source@, items(source@, 0)[i]),
{
    let mut scanner = Scanner::new(source);
    let mut out: Vec<Result<Token, ScannerError>> = Vec::new();
    let ghost mut done: Seq<Item> = Seq::empty();
    loop
        invariant_except_break
            items(source@, 0) == done + items(source@, scanner@.current),
        invariant
            scanner.wf(),
            scanner@.source == source@,
            out@.len() == done.len(),
            forall|i: int| 0 <= i < out@.len() ==> represents(#[trigger] out@[i], source@, done[i]),
        ensures
            out@.len() == items(source@, 0).len(),
            forall|i: int|
                0 <= i < out@.len() ==> represents(#[trigger] out@[i], source@, items(source@, 0)[i]),
        decreases source@.len() - scanner@.current,
    {
        let ghost from = scanner@.current;
        proof {
            lemma_lex_advances(source@, from);
        }
        match scanner.next_token() {
            Some(found) => {
                proof {
                    let item = lex(source@, from)->0;
                    assert(items(source@, from) == seq![item] + items(source@, item.end));
                    assert(done + (seq![item] + items(source@, item.end)) =~= done.push(item)
                        + items(source@, item.end));
                    done = done.push(item);
                }
                out.push(found);
            },
            None => {
                assert(items(source@, from) =~= Seq::<Item>::empty());
                assert(done + Seq::<Item>::empty() =~= done);
                break ;
            },
        }
    }
    out
}

} // verus!
