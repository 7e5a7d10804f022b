//! Token and error records produced by the scanner.

use vstd::prelude::*;

verus! {

/// The closed set of token kinds: single-character punctuation, one- and
/// two-character operators, literals, keywords, identifiers, and the
/// end-of-input marker that closes every token sequence.
#[derive(Clone, Copy, PartialEq, Eq, Structural, Debug)]
pub enum TokenType {
    LeftParen,
    RightParen,
    LeftBrace,
    RightBrace,
    Comma,
    Dot,
    Minus,
    Plus,
    Semicolon,
    Star,
    Bang,
    BangEqual,
    Equal,
    EqualEqual,
    Greater,
    GreaterEqual,
    Less,
    LessEqual,
    Slash,
    Identifier,
    Str,
    Number,
    And,
    Class,
    Else,
    False,
    For,
    Fun,
    If,
    Nil,
    Or,
    Print,
    Return,
    Super,
    This,
    True,
    Var,
    While,
    Eof,
}

/// Value carried by a literal token. A numeric literal keeps the digit
/// characters of its lexeme verbatim (a maximal digit run, optionally a dot
/// and a further digit run); turning them into a machine float is left to
/// unverified callers. A string literal keeps the characters strictly
/// between the quotes, with no escape processing.
#[derive(Clone, PartialEq, Eq, Debug)]
pub enum Literal {
    Num(Vec<char>),
    Str(Vec<char>),
}

/// Mathematical model of a `Literal`.
#[verifier::ext_equal]
pub enum SpecLiteral {
    Num(Seq<char>),
    Str(Seq<char>),
}

impl View for Literal {
    type V = SpecLiteral;

    open spec fn view(&self) -> SpecLiteral {
        match self {
            Literal::Num(cs) => SpecLiteral::Num(cs@),
            Literal::Str(cs) => SpecLiteral::Str(cs@),
        }
    }
}

/// An immutable token record: its kind, the exact source characters that
/// produced it (empty for end-of-input), the value for literal tokens, and
/// the 1-based line on which the token started.
#[derive(Clone, PartialEq, Eq, Debug)]
pub struct Token {
    pub token_type: TokenType,
    pub lexeme: Vec<char>,
    pub literal: Option<Literal>,
    pub line: usize,
}

/// Mathematical model of a `Token`.
#[verifier::ext_equal]
pub struct SpecToken {
    pub token_type: TokenType,
    pub lexeme: Seq<char>,
    pub literal: Option<SpecLiteral>,
    pub line: int,
}

/// The model of an optional literal value.
pub open spec fn opt_literal_view(l: Option<Literal>) -> Option<SpecLiteral> {
    match l {
        Option::Some(x) => Option::Some(x@),
        Option::None => Option::None,
    }
}

impl View for Token {
    type V = SpecToken;

    open spec fn view(&self) -> SpecToken {
        SpecToken {
            token_type: self.token_type,
            lexeme: self.lexeme@,
            literal: opt_literal_view(self.literal),
            line: self.line as int,
        }
    }
}

impl Token {
    pub fn new(token_type: TokenType, lexeme: Vec<char>, literal: Option<Literal>, line: usize) -> (t:
        Token)
        ensures
            t@ == (SpecToken {
                token_type,
                lexeme: lexeme@,
                literal: opt_literal_view(literal),
                line: line as int,
            }),
    {
        Token { token_type, lexeme, literal, line }
    }
}

/// The three kinds of lexical error. `MalformedNumber` mirrors a defensive
/// branch of number scanning; the scanner never actually emits it, since a
/// digit-only lexeme is always a well-formed number.
#[derive(Clone, Copy, PartialEq, Eq, Structural, Debug)]
pub enum LexErrorKind {
    UnexpectedCharacter,
    UnterminatedString,
    MalformedNumber,
}

/// A lexical error report: the 1-based line on which the error was
/// detected, and its kind. Reports are collected as plain values; printing
/// them is the caller's business.
#[derive(Clone, Copy, PartialEq, Eq, Structural, Debug)]
pub struct LexError {
    pub line: usize,
    pub kind: LexErrorKind,
}

/// Mathematical model of a `LexError`.
pub struct SpecError {
    pub line: int,
    pub kind: LexErrorKind,
}

impl View for LexError {
    type V = SpecError;

    open spec fn view(&self) -> SpecError {
        SpecError { line: self.line as int, kind: self.kind }
    }
}

/// Build the report record for a lexical error at the given line.
pub fn error(line: usize, kind: LexErrorKind) -> (e: LexError)
    ensures
        e@ == (SpecError { line: line as int, kind }),
{
    LexError { line, kind }
}

impl LexError {
    /// The diagnostic message for this error, as a character sequence.
    pub open spec fn spec_message(&self) -> Seq<char> {
        match self.kind {
            LexErrorKind::UnexpectedCharacter => "Unexpected character"@,
            LexErrorKind::UnterminatedString => "Unterminated string"@,
            LexErrorKind::MalformedNumber => "Failed to parse number"@,
        }
    }

    /// The diagnostic message for this error.
    pub fn message(&self) -> (m: &'static str)
        ensures
            m@ == self.spec_message(),
    {
        match self.kind {
            LexErrorKind::UnexpectedCharacter => "Unexpected character",
            LexErrorKind::UnterminatedString => "Unterminated string",
            LexErrorKind::MalformedNumber => "Failed to parse number",
        }
    }
}

/// The kind a lexeme names: the matching keyword kind if the lexeme equals
/// one of the sixteen reserved words, and `Identifier` otherwise. Lookup is
/// by the whole lexeme, never by prefix.
pub open spec fn keyword_kind(s: Seq<char>) -> TokenType {
    if s == "and"@ {
        TokenType::And
    } else if s == "class"@ {
        TokenType::Class
    } else if s == "else"@ {
        TokenType::Else
    } else if s == "false"@ {
        TokenType::False
    } else if s == "for"@ {
        TokenType::For
    } else if s == "fun"@ {
        TokenType::Fun
    } else if s == "if"@ {
        TokenType::If
    } else if s == "nil"@ {
        TokenType::Nil
    } else if s == "or"@ {
        TokenType::Or
    } else if s == "print"@ {
        TokenType::Print
    } else if s == "return"@ {
        TokenType::Return
    } else if s == "super"@ {
        TokenType::Super
    } else if s == "this"@ {
        TokenType::This
    } else if s == "true"@ {
        TokenType::True
    } else if s == "var"@ {
        TokenType::Var
    } else if s == "while"@ {
        TokenType::While
    } else {
        TokenType::Identifier
    }
}

/// Whether a lexeme spells out the given word, character for character.
fn lexeme_is(text: &Vec<char>, word: &str) -> (r: bool)
    ensures
        r == (text@ == word@),
{
    let n = word.unicode_len();
    if text.len() != n {
        return false;
    }
    let mut i: usize = 0;
    while i < n
        invariant
            0 <= i <= n,
            n == text@.len(),
            n == word@.len(),
            forall|j: int| 0 <= j < i ==> text@[j] == word@[j],
        decreases n - i,
    {
        if text[i] != word.get_char(i) {
            return false;
        }
        i += 1;
    }
    proof {
        assert(text@ =~= word@);
    }
    true
}

/// The token kind for a scanned identifier lexeme: a keyword kind for the
/// reserved words, `Identifier` for everything else.
pub fn keyword_to_token_type(text: &Vec<char>) -> (t: TokenType)
    ensures
        t == keyword_kind(text@),
{
    if lexeme_is(text, "and") {
        TokenType::And
    } else if lexeme_is(text, "class") {
        TokenType::Class
    } else if lexeme_is(text, "else") {
        TokenType::Else
    } else if lexeme_is(text, "false") {
        TokenType::False
    } else if lexeme_is(text, "for") {
        TokenType::For
    } else if lexeme_is(text, "fun") {
        TokenType::Fun
    } else if lexeme_is(text, "if") {
        TokenType::If
    } else if lexeme_is(text, "nil") {
        TokenType::Nil
    } else if lexeme_is(text, "or") {
        TokenType::Or
    } else if lexeme_is(text, "print") {
        TokenType::Print
    } else if lexeme_is(text, "return") {
        TokenType::Return
    } else if lexeme_is(text, "super") {
        TokenType::Super
    } else if lexeme_is(text, "this") {
        TokenType::This
    } else if lexeme_is(text, "true") {
        TokenType::True
    } else if lexeme_is(text, "var") {
        TokenType::Var
    } else if lexeme_is(text, "while") {
        TokenType::While
    } else {
        TokenType::Identifier
    }
}

/// A keyword lookup never yields the end-of-input kind.
pub proof fn lemma_keyword_kind_not_eof(s: Seq<char>)
    ensures
        keyword_kind(s) != TokenType::Eof,
{
}

} // verus!
