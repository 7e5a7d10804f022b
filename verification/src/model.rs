//! Mathematical model of scanning: spec functions that say, for any source
//! text, which tokens and which error reports a scan produces.
//!
//! The model mirrors the scanner's dispatch: `scan_step` describes the
//! recognition of one lexeme starting at a position, and `scan_from` folds
//! steps until the end of input, closing the token sequence with the
//! end-of-input token.

use vstd::prelude::*;
use crate::token::{TokenType, SpecToken, SpecLiteral, SpecError, LexErrorKind, keyword_kind,
    lemma_keyword_kind_not_eof};

verus! {

/// Whether `c` is an ASCII decimal digit.
pub open spec fn is_digit(c: char) -> bool {
    '0' as u32 <= c as u32 && c as u32 <= '9' as u32
}

/// Relies on `char::is_alphanumeric`: whether a character is alphanumeric
/// (Unicode `Alphabetic`, or a numeric character) depends on the character
/// alone, so the scanner's wrapper names its result here. Identifiers are
/// maximal runs of such characters; underscore is not one of them.
pub uninterp spec fn alphanumeric(c: char) -> bool;

/// First position at or after `i` that does not hold a decimal digit
/// (`s.len()` if digits run to the end).
pub open spec fn digits_end(s: Seq<char>, i: int) -> int
    decreases s.len() - i,
    when 0 <= i <= s.len()
{
    if i < s.len() && is_digit(s[i]) {
        digits_end(s, i + 1)
    } else {
        i
    }
}

/// First position at or after `i` that does not hold an alphanumeric
/// character (`s.len()` if none follows).
pub open spec fn word_end(s: Seq<char>, i: int) -> int
    decreases s.len() - i,
    when 0 <= i <= s.len()
{
    if i < s.len() && alphanumeric(s[i]) {
        word_end(s, i + 1)
    } else {
        i
    }
}

/// First position at or after `i` holding a newline (`s.len()` if none).
pub open spec fn comment_end(s: Seq<char>, i: int) -> int
    decreases s.len() - i,
    when 0 <= i <= s.len()
{
    if i < s.len() && s[i] != '\n' {
        comment_end(s, i + 1)
    } else {
        i
    }
}

/// First position at or after `i` holding a double quote (`s.len()` if
/// none).
pub open spec fn quote_end(s: Seq<char>, i: int) -> int
    decreases s.len() - i,
    when 0 <= i <= s.len()
{
    if i < s.len() && s[i] != '"' {
        quote_end(s, i + 1)
    } else {
        i
    }
}

/// Number of newline characters in `s`.
pub open spec fn newlines(s: Seq<char>) -> int
    decreases s.len(),
{
    if s.len() == 0 {
        0
    } else {
        newlines(s.drop_last()) + if s.last() == '\n' {
            1int
        } else {
            0int
        }
    }
}

/// Consuming one more character extends the newline count of a consumed
/// range by one exactly when that character is a newline.
pub proof fn lemma_newlines_extend(s: Seq<char>, a: int, b: int)
    requires
        0 <= a <= b < s.len(),
    ensures
        newlines(s.subrange(a, b + 1)) == newlines(s.subrange(a, b)) + if s[b] == '\n' {
            1int
        } else {
            0int
        },
{
    let t = s.subrange(a, b + 1);
    assert(t.drop_last() =~= s.subrange(a, b));
    assert(t.last() == s[b]);
}

/// Outcome of recognizing one lexeme: the position of the next unread
/// character, the line counter afterwards, and the token and error report
/// emitted, if any.
#[verifier::ext_equal]
pub struct Step {
    pub next: int,
    pub line: int,
    pub token: Option<SpecToken>,
    pub error: Option<SpecError>,
}

/// A token of `n` characters starting at `i`, carrying no literal value.
pub open spec fn plain_token_step(s: Seq<char>, i: int, line: int, t: TokenType, n: int) -> Step {
    Step {
        next: i + n,
        line,
        token: Option::Some(
            SpecToken { token_type: t, lexeme: s.subrange(i, i + n), literal: Option::None, line },
        ),
        error: Option::None,
    }
}

/// Greedy choice for `!`, `=`, `<`, `>`: the two-character kind when the
/// next character is `=`, else the one-character kind.
pub open spec fn operator_step(s: Seq<char>, i: int, line: int, two: TokenType, one: TokenType) -> Step {
    if i + 1 < s.len() && s[i + 1] == '=' {
        plain_token_step(s, i, line, two, 2)
    } else {
        plain_token_step(s, i, line, one, 1)
    }
}

/// A `/` starts a comment running to the end of the physical line when a
/// second `/` follows (the newline itself is left unread), and is the
/// division operator otherwise.
pub open spec fn slash_step(s: Seq<char>, i: int, line: int) -> Step {
    if i + 1 < s.len() && s[i + 1] == '/' {
        Step { next: comment_end(s, i + 2), line, token: Option::None, error: Option::None }
    } else {
        plain_token_step(s, i, line, TokenType::Slash, 1)
    }
}

/// A string literal opened by the quote at `i`: it closes at the next
/// quote, embedded newlines advance the line counter, and the literal value
/// is the text strictly between the quotes, verbatim. When no closing quote
/// exists the string is reported unterminated at the final line and no
/// token is emitted.
pub open spec fn string_step(s: Seq<char>, i: int, line: int) -> Step {
    let close = quote_end(s, i + 1);
    if close == s.len() {
        let end_line = line + newlines(s.subrange(i + 1, s.len() as int));
        Step {
            next: s.len() as int,
            line: end_line,
            token: Option::None,
            error: Option::Some(SpecError { line: end_line, kind: LexErrorKind::UnterminatedString }),
        }
    } else {
        Step {
            next: close + 1,
            line: line + newlines(s.subrange(i + 1, close)),
            token: Option::Some(
                SpecToken {
                    token_type: TokenType::Str,
                    lexeme: s.subrange(i, close + 1),
                    literal: Option::Some(SpecLiteral::Str(s.subrange(i + 1, close))),
                    line,
                },
            ),
            error: Option::None,
        }
    }
}

/// A number literal started by the digit at `i`: a maximal digit run, then
/// a fractional part only when a `.` is directly followed by another digit,
/// so a trailing dot is never absorbed into the number.
pub open spec fn number_step(s: Seq<char>, i: int, line: int) -> Step {
    let whole = digits_end(s, i + 1);
    let close = if whole + 1 < s.len() && s[whole] == '.' && is_digit(s[whole + 1]) {
        digits_end(s, whole + 2)
    } else {
        whole
    };
    Step {
        next: close,
        line,
        token: Option::Some(
            SpecToken {
                token_type: TokenType::Number,
                lexeme: s.subrange(i, close),
                literal: Option::Some(SpecLiteral::Num(s.subrange(i, close))),
                line,
            },
        ),
        error: Option::None,
    }
}

/// An identifier or keyword started by the alphanumeric character at `i`:
/// a maximal alphanumeric run, with whole-lexeme keyword lookup.
pub open spec fn word_step(s: Seq<char>, i: int, line: int) -> Step {
    let close = word_end(s, i + 1);
    Step {
        next: close,
        line,
        token: Option::Some(
            SpecToken {
                token_type: keyword_kind(s.subrange(i, close)),
                lexeme: s.subrange(i, close),
                literal: Option::None,
                line,
            },
        ),
        error: Option::None,
    }
}

/// Recognition of one lexeme at position `i` of `s`, with line counter
/// `line`: the scanner's dispatch on the character at `i`.
pub open spec fn scan_step(s: Seq<char>, i: int, line: int) -> Step
    recommends
        0 <= i < s.len(),
{
    let c = s[i];
    if c == '(' {
        plain_token_step(s, i, line, TokenType::LeftParen, 1)
    } else if c == ')' {
        plain_token_step(s, i, line, TokenType::RightParen, 1)
    } else if c == '{' {
        plain_token_step(s, i, line, TokenType::LeftBrace, 1)
    } else if c == '}' {
        plain_token_step(s, i, line, TokenType::RightBrace, 1)
    } else if c == ',' {
        plain_token_step(s, i, line, TokenType::Comma, 1)
    } else if c == '.' {
        plain_token_step(s, i, line, TokenType::Dot, 1)
    } else if c == '-' {
        plain_token_step(s, i, line, TokenType::Minus, 1)
    } else if c == '+' {
        plain_token_step(s, i, line, TokenType::Plus, 1)
    } else if c == ';' {
        plain_token_step(s, i, line, TokenType::Semicolon, 1)
    } else if c == '*' {
        plain_token_step(s, i, line, TokenType::Star, 1)
    } else if c == '!' {
        operator_step(s, i, line, TokenType::BangEqual, TokenType::Bang)
    } else if c == '=' {
        operator_step(s, i, line, TokenType::EqualEqual, TokenType::Equal)
    } else if c == '<' {
        operator_step(s, i, line, TokenType::LessEqual, TokenType::Less)
    } else if c == '>' {
        operator_step(s, i, line, TokenType::GreaterEqual, TokenType::Greater)
    } else if c == '/' {
        slash_step(s, i, line)
    } else if c == ' ' || c == '\r' || c == '\t' {
        Step { next: i + 1, line, token: Option::None, error: Option::None }
    } else if c == '\n' {
        Step { next: i + 1, line: line + 1, token: Option::None, error: Option::None }
    } else if c == '"' {
        string_step(s, i, line)
    } else if is_digit(c) {
        number_step(s, i, line)
    } else if alphanumeric(c) {
        word_step(s, i, line)
    } else {
        Step {
            next: i + 1,
            line,
            token: Option::None,
            error: Option::Some(SpecError { line, kind: LexErrorKind::UnexpectedCharacter }),
        }
    }
}

pub proof fn lemma_digits_end_range(s: Seq<char>, i: int)
    requires
        0 <= i <= s.len(),
    ensures
        i <= digits_end(s, i) <= s.len(),
    decreases s.len() - i,
{
    if i < s.len() && is_digit(s[i]) {
        lemma_digits_end_range(s, i + 1);
    }
}

pub proof fn lemma_word_end_range(s: Seq<char>, i: int)
    requires
        0 <= i <= s.len(),
    ensures
        i <= word_end(s, i) <= s.len(),
    decreases s.len() - i,
{
    if i < s.len() && alphanumeric(s[i]) {
        lemma_word_end_range(s, i + 1);
    }
}

pub proof fn lemma_comment_end_range(s: Seq<char>, i: int)
    requires
        0 <= i <= s.len(),
    ensures
        i <= comment_end(s, i) <= s.len(),
    decreases s.len() - i,
{
    if i < s.len() && s[i] != '\n' {
        lemma_comment_end_range(s, i + 1);
    }
}

pub proof fn lemma_quote_end_range(s: Seq<char>, i: int)
    requires
        0 <= i <= s.len(),
    ensures
        i <= quote_end(s, i) <= s.len(),
    decreases s.len() - i,
{
    if i < s.len() && s[i] != '"' {
        lemma_quote_end_range(s, i + 1);
    }
}

/// A step always consumes at least the character it started on and never
/// runs past the end of the input.
pub proof fn lemma_scan_step_in_range(s: Seq<char>, i: int, line: int)
    requires
        0 <= i < s.len(),
    ensures
        i < scan_step(s, i, line).next <= s.len(),
{
    let c = s[i];
    if c == '/' {
        if i + 1 < s.len() && s[i + 1] == '/' {
            lemma_comment_end_range(s, i + 2);
        }
    } else if c == '"' {
        lemma_quote_end_range(s, i + 1);
    } else if is_digit(c) {
        let whole = digits_end(s, i + 1);
        lemma_digits_end_range(s, i + 1);
        if whole + 1 < s.len() && s[whole] == '.' && is_digit(s[whole + 1]) {
            lemma_digits_end_range(s, whole + 2);
        }
    } else if alphanumeric(c) {
        lemma_word_end_range(s, i + 1);
    }
}

/// The tokens of an emitted step outcome: one token or none.
pub open spec fn opt_token_seq(t: Option<SpecToken>) -> Seq<SpecToken> {
    match t {
        Option::Some(tok) => seq![tok],
        Option::None => Seq::empty(),
    }
}

/// The error reports of an emitted step outcome: one report or none.
pub open spec fn opt_error_seq(e: Option<SpecError>) -> Seq<SpecError> {
    match e {
        Option::Some(err) => seq![err],
        Option::None => Seq::empty(),
    }
}

/// Tokens and error reports produced by scanning `s` from position `i`
/// with line counter `line`, ending with the end-of-input token at the
/// final line.
pub open spec fn scan_from(s: Seq<char>, i: int, line: int) -> (Seq<SpecToken>, Seq<SpecError>)
    decreases s.len() - i,
    when 0 <= i <= s.len()
    via scan_from_decreases
{
    if i == s.len() {
        (
            seq![
                SpecToken {
                    token_type: TokenType::Eof,
                    lexeme: Seq::empty(),
                    literal: Option::None,
                    line,
                },
            ],
            Seq::<SpecError>::empty(),
        )
    } else {
        let st = scan_step(s, i, line);
        let rest = scan_from(s, st.next, st.line);
        (opt_token_seq(st.token) + rest.0, opt_error_seq(st.error) + rest.1)
    }
}

#[via_fn]
proof fn scan_from_decreases(s: Seq<char>, i: int, line: int) {
    if i != s.len() {
        lemma_scan_step_in_range(s, i, line);
    }
}

/// The full scan of a source text: its tokens and its error reports, from
/// the first character, with the line counter starting at 1.
pub open spec fn spec_scan(s: Seq<char>) -> (Seq<SpecToken>, Seq<SpecError>) {
    scan_from(s, 0, 1)
}

/// No step emits an end-of-input token: that token is appended exactly
/// once, when the input is exhausted.
pub proof fn lemma_scan_step_token_not_eof(s: Seq<char>, i: int, line: int)
    requires
        0 <= i < s.len(),
    ensures
        scan_step(s, i, line).token matches Option::Some(t) ==> t.token_type != TokenType::Eof,
{
    let c = s[i];
    if !(c == '(' || c == ')' || c == '{' || c == '}' || c == ',' || c == '.' || c == '-' || c
        == '+' || c == ';' || c == '*' || c == '!' || c == '=' || c == '<' || c == '>' || c == '/'
        || c == ' ' || c == '\r' || c == '\t' || c == '\n' || c == '"' || is_digit(c)) {
        if alphanumeric(c) {
            lemma_keyword_kind_not_eof(s.subrange(i, word_end(s, i + 1)));
        }
    }
}

proof fn lemma_scan_from_ends_with_eof(s: Seq<char>, i: int, line: int)
    requires
        0 <= i <= s.len(),
    ensures
        scan_from(s, i, line).0.len() >= 1,
        scan_from(s, i, line).0.last().token_type == TokenType::Eof,
        forall|j: int|
            0 <= j < scan_from(s, i, line).0.len() - 1 ==> scan_from(s, i, line).0[j].token_type
                != TokenType::Eof,
    decreases s.len() - i,
{
    if i == s.len() {
    } else {
        let st = scan_step(s, i, line);
        lemma_scan_step_in_range(s, i, line);
        lemma_scan_step_token_not_eof(s, i, line);
        lemma_scan_from_ends_with_eof(s, st.next, st.line);
        let head = opt_token_seq(st.token);
        let rest = scan_from(s, st.next, st.line).0;
        let whole = scan_from(s, i, line).0;
        assert(whole == head + rest);
        assert(whole.last() == rest.last());
        assert forall|j: int| 0 <= j < whole.len() - 1 implies whole[j].token_type
            != TokenType::Eof by {
            if j < head.len() {
                assert(whole[j] == head[j]);
            } else {
                assert(whole[j] == rest[j - head.len()]);
            }
        }
    }
}

/// Every scan's token sequence ends with exactly one end-of-input token:
/// the last token has that kind, and no other token does.
pub proof fn lemma_scan_ends_with_eof(s: Seq<char>)
    ensures
        spec_scan(s).0.len() >= 1,
        spec_scan(s).0.last().token_type == TokenType::Eof,
        forall|j: int|
            0 <= j < spec_scan(s).0.len() - 1 ==> spec_scan(s).0[j].token_type != TokenType::Eof,
{
    lemma_scan_from_ends_with_eof(s, 0, 1);
}

/// Scanning is a pure function of the source text: two scans of equal
/// inputs yield equal token sequences and equal error reports, so
/// re-scanning the same input always reproduces the same result.
pub proof fn lemma_scan_deterministic(s1: Seq<char>, s2: Seq<char>)
    requires
        s1 == s2,
    ensures
        spec_scan(s1) == spec_scan(s2),
{
}

proof fn lemma_scan_from_no_malformed_number(s: Seq<char>, i: int, line: int)
    requires
        0 <= i <= s.len(),
    ensures
        forall|j: int|
            0 <= j < scan_from(s, i, line).1.len() ==> scan_from(s, i, line).1[j].kind
                != LexErrorKind::MalformedNumber,
    decreases s.len() - i,
{
    if i == s.len() {
    } else {
        let st = scan_step(s, i, line);
        lemma_scan_step_in_range(s, i, line);
        lemma_scan_from_no_malformed_number(s, st.next, st.line);
        let head = opt_error_seq(st.error);
        let rest = scan_from(s, st.next, st.line).1;
        let whole = scan_from(s, i, line).1;
        assert(whole == head + rest);
        assert forall|j: int| 0 <= j < whole.len() implies whole[j].kind
            != LexErrorKind::MalformedNumber by {
            if j < head.len() {
                assert(whole[j] == head[j]);
            } else {
                assert(whole[j] == rest[j - head.len()]);
            }
        }
    }
}

/// A scan never reports `MalformedNumber`: every number lexeme the scanner
/// recognizes is made of digits and at most one interior dot, which is
/// always a well-formed number.
pub proof fn lemma_no_malformed_number(s: Seq<char>)
    ensures
        forall|j: int|
            0 <= j < spec_scan(s).1.len() ==> spec_scan(s).1[j].kind != LexErrorKind::MalformedNumber,
{
    lemma_scan_from_no_malformed_number(s, 0, 1);
}

} // verus!
