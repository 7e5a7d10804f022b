use lox_scanner::scanner::{scan, Scanner};
use lox_scanner::token::{error, LexError, LexErrorKind, Literal, Token, TokenType};

fn chars(s: &str) -> Vec<char> {
    s.chars().collect()
}

fn kinds(tokens: &[Token]) -> Vec<TokenType> {
    tokens.iter().map(|t| t.token_type).collect()
}

fn lexeme_of(t: &Token) -> String {
    t.lexeme.iter().collect()
}

fn number_value(t: &Token) -> f64 {
    match &t.literal {
        Some(Literal::Num(cs)) => cs.iter().collect::<String>().parse::<f64>().unwrap(),
        other => panic!("expected a number literal, found {:?}", other),
    }
}

#[test]
fn empty_source_yields_single_eof() {
    let (tokens, errors) = scan(chars(""));
    assert_eq!(tokens.len(), 1);
    assert_eq!(tokens[0].token_type, TokenType::Eof);
    assert_eq!(tokens[0].line, 1);
    assert_eq!(lexeme_of(&tokens[0]), "");
    assert_eq!(tokens[0].literal, None);
    assert_eq!(errors.len(), 0);
}

#[test]
fn single_char_operators_each_give_one_token() {
    let (tokens, errors) = scan(chars("+-*/"));
    assert_eq!(
        kinds(&tokens),
        vec![
            TokenType::Plus,
            TokenType::Minus,
            TokenType::Star,
            TokenType::Slash,
            TokenType::Eof,
        ]
    );
    for t in &tokens {
        assert_eq!(t.line, 1);
    }
    assert_eq!(lexeme_of(&tokens[0]), "+");
    assert_eq!(lexeme_of(&tokens[1]), "-");
    assert_eq!(lexeme_of(&tokens[2]), "*");
    assert_eq!(lexeme_of(&tokens[3]), "/");
    assert_eq!(errors.len(), 0);
}

#[test]
fn bang_equal_is_one_token() {
    let (tokens, errors) = scan(chars("!="));
    assert_eq!(kinds(&tokens), vec![TokenType::BangEqual, TokenType::Eof]);
    assert_eq!(lexeme_of(&tokens[0]), "!=");
    assert_eq!(errors.len(), 0);
}

#[test]
fn bang_alone_is_one_token() {
    let (tokens, errors) = scan(chars("!"));
    assert_eq!(kinds(&tokens), vec![TokenType::Bang, TokenType::Eof]);
    assert_eq!(lexeme_of(&tokens[0]), "!");
    assert_eq!(errors.len(), 0);
}

#[test]
fn comparison_operators_prefer_two_characters() {
    let (tokens, errors) = scan(chars("== <= >= < > ="));
    assert_eq!(
        kinds(&tokens),
        vec![
            TokenType::EqualEqual,
            TokenType::LessEqual,
            TokenType::GreaterEqual,
            TokenType::Less,
            TokenType::Greater,
            TokenType::Equal,
            TokenType::Eof,
        ]
    );
    assert_eq!(errors.len(), 0);
}

#[test]
fn punctuation_tokens() {
    let (tokens, errors) = scan(chars("(){},.;"));
    assert_eq!(
        kinds(&tokens),
        vec![
            TokenType::LeftParen,
            TokenType::RightParen,
            TokenType::LeftBrace,
            TokenType::RightBrace,
            TokenType::Comma,
            TokenType::Dot,
            TokenType::Semicolon,
            TokenType::Eof,
        ]
    );
    assert_eq!(errors.len(), 0);
}

#[test]
fn comment_gives_no_token_and_number_follows_on_next_line() {
    let (tokens, errors) = scan(chars("// comment\n123"));
    assert_eq!(kinds(&tokens), vec![TokenType::Number, TokenType::Eof]);
    assert_eq!(tokens[0].line, 2);
    assert_eq!(lexeme_of(&tokens[0]), "123");
    assert_eq!(number_value(&tokens[0]), 123.0);
    assert_eq!(tokens[1].line, 2);
    assert_eq!(errors.len(), 0);
}

#[test]
fn comment_without_newline_gives_no_token() {
    let (tokens, errors) = scan(chars("// tail comment"));
    assert_eq!(kinds(&tokens), vec![TokenType::Eof]);
    assert_eq!(tokens[0].line, 1);
    assert_eq!(errors.len(), 0);
}

#[test]
fn string_token_keeps_text_between_quotes() {
    let (tokens, errors) = scan(chars("\"hi\""));
    assert_eq!(kinds(&tokens), vec![TokenType::Str, TokenType::Eof]);
    assert_eq!(lexeme_of(&tokens[0]), "\"hi\"");
    assert_eq!(tokens[0].literal, Some(Literal::Str(chars("hi"))));
    assert_eq!(tokens[0].line, 1);
    assert_eq!(errors.len(), 0);
}

#[test]
fn multiline_string_preserves_newline_and_advances_line_counter() {
    let (tokens, errors) = scan(chars("\"abc\ndef\""));
    assert_eq!(kinds(&tokens), vec![TokenType::Str, TokenType::Eof]);
    assert_eq!(tokens[0].literal, Some(Literal::Str(chars("abc\ndef"))));
    assert_eq!(tokens[0].line, 1);
    assert_eq!(tokens[1].line, 2);
    assert_eq!(errors.len(), 0);
}

#[test]
fn unterminated_string_reports_one_error_and_no_token() {
    let (tokens, errors) = scan(chars("\"unterminated"));
    assert_eq!(kinds(&tokens), vec![TokenType::Eof]);
    assert_eq!(errors.len(), 1);
    assert_eq!(errors[0].kind, LexErrorKind::UnterminatedString);
    assert_eq!(errors[0].line, 1);
}

#[test]
fn unterminated_string_error_carries_final_line() {
    let (tokens, errors) = scan(chars("\"one\ntwo\nthree"));
    assert_eq!(kinds(&tokens), vec![TokenType::Eof]);
    assert_eq!(errors.len(), 1);
    assert_eq!(errors[0].kind, LexErrorKind::UnterminatedString);
    assert_eq!(errors[0].line, 3);
}

#[test]
fn trailing_dot_is_not_absorbed_into_number() {
    let (tokens, errors) = scan(chars("12."));
    assert_eq!(kinds(&tokens), vec![TokenType::Number, TokenType::Dot, TokenType::Eof]);
    assert_eq!(lexeme_of(&tokens[0]), "12");
    assert_eq!(number_value(&tokens[0]), 12.0);
    assert_eq!(lexeme_of(&tokens[1]), ".");
    assert_eq!(errors.len(), 0);
}

#[test]
fn fractional_number_is_one_token() {
    let (tokens, errors) = scan(chars("3.25"));
    assert_eq!(kinds(&tokens), vec![TokenType::Number, TokenType::Eof]);
    assert_eq!(lexeme_of(&tokens[0]), "3.25");
    assert_eq!(number_value(&tokens[0]), 3.25);
    assert_eq!(errors.len(), 0);
}

#[test]
fn second_dot_starts_no_fraction() {
    let (tokens, errors) = scan(chars("1.2.3"));
    assert_eq!(
        kinds(&tokens),
        vec![TokenType::Number, TokenType::Dot, TokenType::Number, TokenType::Eof]
    );
    assert_eq!(lexeme_of(&tokens[0]), "1.2");
    assert_eq!(lexeme_of(&tokens[2]), "3");
    assert_eq!(errors.len(), 0);
}

#[test]
fn identifier_is_not_mistaken_for_keyword_prefix() {
    let (tokens, errors) = scan(chars("classic"));
    assert_eq!(kinds(&tokens), vec![TokenType::Identifier, TokenType::Eof]);
    assert_eq!(lexeme_of(&tokens[0]), "classic");
    assert_eq!(tokens[0].literal, None);
    assert_eq!(errors.len(), 0);
}

#[test]
fn keyword_is_recognized_by_whole_lexeme() {
    let (tokens, errors) = scan(chars("class"));
    assert_eq!(kinds(&tokens), vec![TokenType::Class, TokenType::Eof]);
    assert_eq!(lexeme_of(&tokens[0]), "class");
    assert_eq!(errors.len(), 0);
}

#[test]
fn all_sixteen_keywords_are_recognized() {
    let source = "and class else false for fun if nil or print return super this true var while";
    let (tokens, errors) = scan(chars(source));
    assert_eq!(
        kinds(&tokens),
        vec![
            TokenType::And,
            TokenType::Class,
            TokenType::Else,
            TokenType::False,
            TokenType::For,
            TokenType::Fun,
            TokenType::If,
            TokenType::Nil,
            TokenType::Or,
            TokenType::Print,
            TokenType::Return,
            TokenType::Super,
            TokenType::This,
            TokenType::True,
            TokenType::Var,
            TokenType::While,
            TokenType::Eof,
        ]
    );
    assert_eq!(errors.len(), 0);
}

#[test]
fn identifier_may_contain_digits() {
    let (tokens, errors) = scan(chars("a1b2"));
    assert_eq!(kinds(&tokens), vec![TokenType::Identifier, TokenType::Eof]);
    assert_eq!(lexeme_of(&tokens[0]), "a1b2");
    assert_eq!(errors.len(), 0);
}

#[test]
fn number_then_identifier() {
    let (tokens, errors) = scan(chars("123abc"));
    assert_eq!(kinds(&tokens), vec![TokenType::Number, TokenType::Identifier, TokenType::Eof]);
    assert_eq!(lexeme_of(&tokens[0]), "123");
    assert_eq!(lexeme_of(&tokens[1]), "abc");
    assert_eq!(errors.len(), 0);
}

#[test]
fn unexpected_character_is_reported_and_scanning_continues() {
    let (tokens, errors) = scan(chars("@+"));
    assert_eq!(kinds(&tokens), vec![TokenType::Plus, TokenType::Eof]);
    assert_eq!(errors.len(), 1);
    assert_eq!(errors[0].kind, LexErrorKind::UnexpectedCharacter);
    assert_eq!(errors[0].line, 1);
}

#[test]
fn whitespace_gives_no_tokens_and_newline_counts_lines() {
    let (tokens, errors) = scan(chars(" \t\r\n+"));
    assert_eq!(kinds(&tokens), vec![TokenType::Plus, TokenType::Eof]);
    assert_eq!(tokens[0].line, 2);
    assert_eq!(errors.len(), 0);
}

#[test]
fn rescanning_the_same_source_is_identical() {
    let source = "var x = 12.5; // note\n\"s\" != y @";
    let (tokens_a, errors_a) = scan(chars(source));
    let (tokens_b, errors_b) = scan(chars(source));
    assert_eq!(tokens_a, tokens_b);
    assert_eq!(errors_a, errors_b);
}

#[test]
fn scanner_new_and_scan_tokens_give_the_same_result_as_scan() {
    let source = "print 1 + 2;";
    let scanner = Scanner::new(chars(source));
    let (tokens_a, errors_a) = scanner.scan_tokens();
    let (tokens_b, errors_b) = scan(chars(source));
    assert_eq!(tokens_a, tokens_b);
    assert_eq!(errors_a, errors_b);
}

#[test]
fn error_builds_the_report_record() {
    let e = error(3, LexErrorKind::UnexpectedCharacter);
    assert_eq!(e, LexError { line: 3, kind: LexErrorKind::UnexpectedCharacter });
    assert_eq!(e.message(), "Unexpected character");
    assert_eq!(error(7, LexErrorKind::UnterminatedString).message(), "Unterminated string");
    assert_eq!(error(9, LexErrorKind::MalformedNumber).message(), "Failed to parse number");
}

#[test]
fn mixed_statement_scans_in_order() {
    let (tokens, errors) = scan(chars("if (x >= 10) { print \"big\"; }"));
    assert_eq!(
        kinds(&tokens),
        vec![
            TokenType::If,
            TokenType::LeftParen,
            TokenType::Identifier,
            TokenType::GreaterEqual,
            TokenType::Number,
            TokenType::RightParen,
            TokenType::LeftBrace,
            TokenType::Print,
            TokenType::Str,
            TokenType::Semicolon,
            TokenType::RightBrace,
            TokenType::Eof,
        ]
    );
    assert_eq!(errors.len(), 0);
}
