//! The scanner: a cursor over an in-memory character sequence that emits
//! tokens and error reports, verified against the model in `crate::model`.

use vstd::prelude::*;
use crate::token::{Token, TokenType, Literal, LexError, LexErrorKind, SpecToken, SpecError,
    opt_literal_view, keyword_to_token_type, error};
use crate::model::{is_digit, alphanumeric, digits_end, word_end, comment_end, quote_end, newlines,
    plain_token_step, string_step, number_step, word_step, scan_step, scan_from, spec_scan,
    opt_token_seq, opt_error_seq, lemma_scan_step_in_range, lemma_newlines_extend};

verus! {

/// Relies on `char::is_alphanumeric`: whether the character is Unicode
/// alphanumeric, a result that depends on the character alone.
#[verifier::external_body]
fn is_alphanumeric_char(c: char) -> (r: bool)
    ensures
        r == alphanumeric(c),
{
    c.is_alphanumeric()
}

/// Whether `c` is an ASCII decimal digit.
fn is_digit_char(c: char) -> (r: bool)
    ensures
        r == is_digit(c),
{
    let u = c as u32;
    48 <= u && u <= 57
}

/// The models of the tokens in a list, in order.
pub open spec fn toks(ts: Seq<Token>) -> Seq<SpecToken> {
    ts.map_values(|t: Token| t@)
}

/// The models of the error reports in a list, in order.
pub open spec fn errs(es: Seq<LexError>) -> Seq<SpecError> {
    es.map_values(|e: LexError| e@)
}

proof fn lemma_toks_push(ts: Seq<Token>, t: Token)
    ensures
        toks(ts.push(t)) == toks(ts).push(t@),
{
    assert(toks(ts.push(t)) =~= toks(ts).push(t@));
}

proof fn lemma_errs_push(es: Seq<LexError>, e: LexError)
    ensures
        errs(es.push(e)) == errs(es).push(e@),
{
    assert(errs(es.push(e)) =~= errs(es).push(e@));
}

proof fn lemma_push_is_concat<T>(s: Seq<T>, x: T)
    ensures
        s.push(x) == s + seq![x],
{
    assert(s.push(x) =~= s + seq![x]);
}

proof fn lemma_concat_empty<T>(s: Seq<T>)
    ensures
        s + Seq::<T>::empty() == s,
{
    assert(s + Seq::<T>::empty() =~= s);
}

/// Copy of the characters of `v` from `from` (inclusive) to `to`
/// (exclusive).
fn substring(v: &Vec<char>, from: usize, to: usize) -> (r: Vec<char>)
    requires
        from <= to <= v@.len(),
    ensures
        r@ == v@.subrange(from as int, to as int),
{
    let mut r: Vec<char> = Vec::new();
    let mut i: usize = from;
    while i < to
        invariant
            from <= i <= to <= v@.len(),
            r@ == v@.subrange(from as int, i as int),
        decreases to - i,
    {
        let c = v[i];
        r.push(c);
        i = i + 1;
        proof {
            assert(v@.subrange(from as int, i as int) =~= v@.subrange(from as int, i - 1).push(c));
        }
    }
    r
}

/// Transient scanning state: the source as a sequence of Unicode scalar
/// values, the tokens and error reports produced so far, the bounds of the
/// lexeme being recognized, and the 1-based line counter.
pub struct Scanner {
    pub source: Vec<char>,
    pub tokens: Vec<Token>,
    pub errors: Vec<LexError>,
    pub start: usize,
    pub current: usize,
    pub line: usize,
}

impl Scanner {
    /// Cursor sanity: the lexeme start never passes the cursor, the cursor
    /// never passes the end of the source, and the line counter stays 1-based
    /// and bounded by the characters read, which keeps its arithmetic exact.
    pub open spec fn wf(&self) -> bool {
        &&& self.start <= self.current <= self.source@.len() < usize::MAX
        &&& 1 <= self.line <= 1 + self.current
    }

    /// A fresh scanner over the given source, at the first character,
    /// with the line counter at 1 and nothing produced yet.
    pub fn new(source: Vec<char>) -> (sc: Scanner)
        requires
            source@.len() < usize::MAX,
        ensures
            sc.wf(),
            sc.source@ == source@,
            sc.start == 0,
            sc.current == 0,
            sc.line == 1,
            sc.tokens@ =~= Seq::<Token>::empty(),
            sc.errors@ =~= Seq::<LexError>::empty(),
    {
        Scanner { source, tokens: Vec::new(), errors: Vec::new(), start: 0, current: 0, line: 1 }
    }

    /// Whether the cursor has passed the last character.
    pub fn is_at_end(&self) -> (r: bool)
        ensures
            r == (self.current >= self.source@.len()),
    {
        self.current >= self.source.len()
    }

    /// The character under the cursor, without consuming it; the NUL
    /// sentinel at the end of input.
    pub fn peek(&self) -> (c: char)
        ensures
            c == (if self.current < self.source@.len() {
                self.source@[self.current as int]
            } else {
                '\0'
            }),
    {
        if self.is_at_end() {
            return '\0';
        }
        self.source[self.current]
    }

    /// The character one past the cursor, without consuming anything; the
    /// NUL sentinel when none exists.
    pub fn peek_next(&self) -> (c: char)
        requires
            self.wf(),
        ensures
            c == (if self.current + 1 < self.source@.len() {
                self.source@[self.current + 1]
            } else {
                '\0'
            }),
    {
        if self.current + 1 >= self.source.len() {
            return '\0';
        }
        self.source[self.current + 1]
    }

    /// Consume and return the character under the cursor.
    pub fn advance(&mut self) -> (c: char)
        requires
            old(self).current < old(self).source@.len() <= usize::MAX,
        ensures
            c == old(self).source@[old(self).current as int],
            final(self).current == old(self).current + 1,
            final(self).source@ == old(self).source@,
            final(self).tokens@ == old(self).tokens@,
            final(self).errors@ == old(self).errors@,
            final(self).start == old(self).start,
            final(self).line == old(self).line,
    {
        let c = self.source[self.current];
        self.current = self.current + 1;
        c
    }

    /// Consume the character under the cursor exactly when it equals
    /// `expected`; report whether it did.
    pub fn check(&mut self, expected: char) -> (r: bool)
        requires
            old(self).wf(),
        ensures
            final(self).wf(),
            r == (old(self).current < old(self).source@.len() && old(self).source@[old(
                self,
            ).current as int] == expected),
            r ==> final(self).current == old(self).current + 1,
            !r ==> final(self).current == old(self).current,
            final(self).source@ == old(self).source@,
            final(self).tokens@ == old(self).tokens@,
            final(self).errors@ == old(self).errors@,
            final(self).start == old(self).start,
            final(self).line == old(self).line,
    {
        if self.is_at_end() {
            return false;
        }
        if self.source[self.current] != expected {
            return false;
        }
        self.current = self.current + 1;
        true
    }

    /// Whether the character under the cursor exists and is alphanumeric.
    fn peek_is_word_char(&self) -> (r: bool)
        ensures
            r == (self.current < self.source@.len() && alphanumeric(
                self.source@[self.current as int],
            )),
    {
        if self.is_at_end() {
            return false;
        }
        let c = self.peek();
        is_alphanumeric_char(c)
    }

    /// Append a token of the given kind whose lexeme is the source text
    /// between `start` and the cursor, with no literal value, on the
    /// current line.
    pub fn add_token(&mut self, token_type: TokenType)
        requires
            old(self).wf(),
        ensures
            final(self).wf(),
            final(self).source@ == old(self).source@,
            final(self).errors@ == old(self).errors@,
            final(self).start == old(self).start,
            final(self).current == old(self).current,
            final(self).line == old(self).line,
            toks(final(self).tokens@) == toks(old(self).tokens@).push(
                (SpecToken {
                    token_type,
                    lexeme: old(self).source@.subrange(
                        old(self).start as int,
                        old(self).current as int,
                    ),
                    literal: Option::None,
                    line: old(self).line as int,
                }),
            ),
    {
        let line = self.line;
        self.add_token_with_literal(token_type, Option::None, line);
    }

    /// Append a token of the given kind whose lexeme is the source text
    /// between `start` and the cursor, carrying the given literal value,
    /// on the given line.
    pub fn add_token_with_literal(
        &mut self,
        token_type: TokenType,
        literal: Option<Literal>,
        line: usize,
    )
        requires
            old(self).wf(),
        ensures
            final(self).wf(),
            final(self).source@ == old(self).source@,
            final(self).errors@ == old(self).errors@,
            final(self).start == old(self).start,
            final(self).current == old(self).current,
            final(self).line == old(self).line,
            toks(final(self).tokens@) == toks(old(self).tokens@).push(
                (SpecToken {
                    token_type,
                    lexeme: old(self).source@.subrange(
                        old(self).start as int,
                        old(self).current as int,
                    ),
                    literal: opt_literal_view(literal),
                    line: line as int,
                }),
            ),
    {
        let text = substring(&self.source, self.start, self.current);
        let t = Token { token_type, lexeme: text, literal, line };
        proof {
            lemma_toks_push(self.tokens@, t);
        }
        self.tokens.push(t);
    }

    /// Recognize the identifier or keyword whose first character, just
    /// consumed, sits at `start`: consume the maximal alphanumeric run and
    /// emit the token that whole-lexeme keyword lookup gives.
    pub fn identifier(&mut self)
        requires
            old(self).wf(),
            old(self).current == old(self).start + 1,
        ensures
            final(self).wf(),
            final(self).source@ == old(self).source@,
            final(self).start == old(self).start,
            final(self).line == old(self).line,
            final(self).errors@ == old(self).errors@,
            ({
                let st = word_step(old(self).source@, old(self).start as int, old(self).line as int);
                final(self).current == st.next && toks(final(self).tokens@) == toks(
                    old(self).tokens@,
                ) + opt_token_seq(st.token)
            }),
    {
        let ghost src = self.source@;
        let ghost c0 = self.current as int;
        while self.peek_is_word_char()
            invariant
                self.wf(),
                self.source@ == src,
                self.start == old(self).start,
                self.line == old(self).line,
                self.tokens@ == old(self).tokens@,
                self.errors@ == old(self).errors@,
                c0 <= self.current,
                word_end(src, c0) == word_end(src, self.current as int),
            decreases src.len() - self.current,
        {
            self.advance();
        }
        proof {
            assert(word_end(src, self.current as int) == self.current as int);
            assert(self.current as int == word_end(src, c0));
        }
        let text = substring(&self.source, self.start, self.current);
        let token_type = keyword_to_token_type(&text);
        self.add_token(token_type);
        proof {
            let st = word_step(src, old(self).start as int, old(self).line as int);
            lemma_push_is_concat(toks(old(self).tokens@), st.token->Some_0);
        }
    }

    /// Recognize the number literal whose first digit, just consumed, sits
    /// at `start`: consume the maximal digit run, then a fractional part
    /// only when a dot is directly followed by another digit, and emit a
    /// `Number` token carrying the lexeme's characters as its value. A
    /// trailing dot is never absorbed.
    pub fn number(&mut self)
        requires
            old(self).wf(),
            old(self).current == old(self).start + 1,
        ensures
            final(self).wf(),
            final(self).source@ == old(self).source@,
            final(self).start == old(self).start,
            final(self).line == old(self).line,
            final(self).errors@ == old(self).errors@,
            ({
                let st = number_step(
                    old(self).source@,
                    old(self).start as int,
                    old(self).line as int,
                );
                final(self).current == st.next && toks(final(self).tokens@) == toks(
                    old(self).tokens@,
                ) + opt_token_seq(st.token)
            }),
    {
        let ghost src = self.source@;
        let ghost c0 = self.current as int;
        while is_digit_char(self.peek())
            invariant
                self.wf(),
                self.source@ == src,
                self.start == old(self).start,
                self.line == old(self).line,
                self.tokens@ == old(self).tokens@,
                self.errors@ == old(self).errors@,
                c0 <= self.current,
                digits_end(src, c0) == digits_end(src, self.current as int),
            decreases src.len() - self.current,
        {
            self.advance();
        }
        proof {
            assert(self.current as int == digits_end(src, c0));
        }
        let ghost whole = self.current as int;
        if self.peek() == '.' && is_digit_char(self.peek_next()) {
            self.advance();
            let ghost c1 = self.current as int;
            while is_digit_char(self.peek())
                invariant
                    self.wf(),
                    self.source@ == src,
                    self.start == old(self).start,
                    self.line == old(self).line,
                    self.tokens@ == old(self).tokens@,
                    self.errors@ == old(self).errors@,
                    c1 <= self.current,
                    digits_end(src, c1) == digits_end(src, self.current as int),
                decreases src.len() - self.current,
            {
                self.advance();
            }
            proof {
                assert(self.current as int == digits_end(src, c1));
                assert(digits_end(src, whole + 1) == digits_end(src, whole + 2));
            }
        }
        let text = substring(&self.source, self.start, self.current);
        let line = self.line;
        self.add_token_with_literal(TokenType::Number, Option::Some(Literal::Num(text)), line);
        proof {
            let st = number_step(src, old(self).start as int, old(self).line as int);
            lemma_push_is_concat(toks(old(self).tokens@), st.token->Some_0);
        }
    }

    /// Recognize the string literal whose opening quote, just consumed,
    /// sits at `start`: consume up to the closing quote, counting embedded
    /// newlines, and emit a `Str` token, on the line the literal opened,
    /// whose value is the text strictly between the quotes, verbatim. When
    /// the input ends first, report the string unterminated at the final
    /// line and emit no token.
    pub fn string(&mut self)
        requires
            old(self).wf(),
            old(self).current == old(self).start + 1,
        ensures
            final(self).wf(),
            final(self).source@ == old(self).source@,
            final(self).start == old(self).start,
            ({
                let st = string_step(old(self).source@, old(self).start as int, old(self).line as int);
                final(self).current == st.next && final(self).line == st.line && toks(
                    final(self).tokens@,
                ) == toks(old(self).tokens@) + opt_token_seq(st.token) && errs(final(self).errors@)
                    == errs(old(self).errors@) + opt_error_seq(st.error)
            }),
    {
        let ghost src = self.source@;
        let ghost c0 = self.current as int;
        let ghost line0 = self.line as int;
        let start_line = self.line;
        while self.peek() != '"' && !self.is_at_end()
            invariant
                self.wf(),
                self.source@ == src,
                self.start == old(self).start,
                self.tokens@ == old(self).tokens@,
                self.errors@ == old(self).errors@,
                0 <= c0 <= self.current,
                quote_end(src, c0) == quote_end(src, self.current as int),
                self.line as int == line0 + newlines(src.subrange(c0, self.current as int)),
            decreases src.len() - self.current,
        {
            proof {
                lemma_newlines_extend(src, c0, self.current as int);
            }
            if self.peek() == '\n' {
                self.line = self.line + 1;
            }
            self.advance();
        }
        proof {
            assert(newlines(src.subrange(c0, c0)) == 0);
            assert(self.current as int == quote_end(src, c0));
        }
        if self.is_at_end() {
            let line_now = self.line;
            let e = error(line_now, LexErrorKind::UnterminatedString);
            proof {
                lemma_errs_push(self.errors@, e);
                lemma_push_is_concat(errs(old(self).errors@), e@);
                lemma_concat_empty(toks(old(self).tokens@));
            }
            self.errors.push(e);
            return;
        }
        self.advance();
        let value = substring(&self.source, self.start + 1, self.current - 1);
        self.add_token_with_literal(TokenType::Str, Option::Some(Literal::Str(value)), start_line);
        proof {
            let st = string_step(src, old(self).start as int, line0);
            lemma_push_is_concat(toks(old(self).tokens@), st.token->Some_0);
            lemma_concat_empty(errs(old(self).errors@));
        }
    }

    /// Recognize one lexeme at the cursor: dispatch on its first character
    /// and produce exactly the token and the error report that one step of
    /// the model yields, leaving the cursor on the next unread character.
    pub fn scan_token(&mut self)
        requires
            old(self).wf(),
            old(self).start == old(self).current,
            old(self).current < old(self).source@.len(),
        ensures
            final(self).wf(),
            final(self).source@ == old(self).source@,
            final(self).start == old(self).start,
            ({
                let st = scan_step(old(self).source@, old(self).current as int, old(self).line as int);
                final(self).current == st.next && final(self).line == st.line && toks(
                    final(self).tokens@,
                ) == toks(old(self).tokens@) + opt_token_seq(st.token) && errs(final(self).errors@)
                    == errs(old(self).errors@) + opt_error_seq(st.error)
            }),
    {
        let ghost src = self.source@;
        let ghost i = self.current as int;
        let ghost line_in = self.line as int;
        let c = self.advance();
        match c {
            '(' => {
                self.add_token(TokenType::LeftParen);
                proof {
                    self.lemma_plain_token_branch(old(self), TokenType::LeftParen);
                }
            },
            ')' => {
                self.add_token(TokenType::RightParen);
                proof {
                    self.lemma_plain_token_branch(old(self), TokenType::RightParen);
                }
            },
            '{' => {
                self.add_token(TokenType::LeftBrace);
                proof {
                    self.lemma_plain_token_branch(old(self), TokenType::LeftBrace);
                }
            },
            '}' => {
                self.add_token(TokenType::RightBrace);
                proof {
                    self.lemma_plain_token_branch(old(self), TokenType::RightBrace);
                }
            },
            ',' => {
                self.add_token(TokenType::Comma);
                proof {
                    self.lemma_plain_token_branch(old(self), TokenType::Comma);
                }
            },
            '.' => {
                self.add_token(TokenType::Dot);
                proof {
                    self.lemma_plain_token_branch(old(self), TokenType::Dot);
                }
            },
            '-' => {
                self.add_token(TokenType::Minus);
                proof {
                    self.lemma_plain_token_branch(old(self), TokenType::Minus);
                }
            },
            '+' => {
                self.add_token(TokenType::Plus);
                proof {
                    self.lemma_plain_token_branch(old(self), TokenType::Plus);
                }
            },
            ';' => {
                self.add_token(TokenType::Semicolon);
                proof {
                    self.lemma_plain_token_branch(old(self), TokenType::Semicolon);
                }
            },
            '*' => {
                self.add_token(TokenType::Star);
                proof {
                    self.lemma_plain_token_branch(old(self), TokenType::Star);
                }
            },
            '!' => {
                let t = if self.check('=') {
                    TokenType::BangEqual
                } else {
                    TokenType::Bang
                };
                self.add_token(t);
                proof {
                    self.lemma_plain_token_branch(old(self), t);
                }
            },
            '=' => {
                let t = if self.check('=') {
                    TokenType::EqualEqual
                } else {
                    TokenType::Equal
                };
                self.add_token(t);
                proof {
                    self.lemma_plain_token_branch(old(self), t);
                }
            },
            '<' => {
                let t = if self.check('=') {
                    TokenType::LessEqual
                } else {
                    TokenType::Less
                };
                self.add_token(t);
                proof {
                    self.lemma_plain_token_branch(old(self), t);
                }
            },
            '>' => {
                let t = if self.check('=') {
                    TokenType::GreaterEqual
                } else {
                    TokenType::Greater
                };
                self.add_token(t);
                proof {
                    self.lemma_plain_token_branch(old(self), t);
                }
            },
            '/' => {
                if self.check('/') {
                    let ghost c2 = self.current as int;
                    while self.peek() != '\n' && !self.is_at_end()
                        invariant
                            self.wf(),
                            self.source@ == src,
                            self.start == old(self).start,
                            self.line == old(self).line,
                            self.tokens@ == old(self).tokens@,
                            self.errors@ == old(self).errors@,
                            0 <= c2 <= self.current,
                            comment_end(src, c2) == comment_end(src, self.current as int),
                        decreases src.len() - self.current,
                    {
                        self.advance();
                    }
                    proof {
                        assert(self.current as int == comment_end(src, c2));
                        lemma_concat_empty(toks(old(self).tokens@));
                        lemma_concat_empty(errs(old(self).errors@));
                    }
                } else {
                    self.add_token(TokenType::Slash);
                    proof {
                        self.lemma_plain_token_branch(old(self), TokenType::Slash);
                    }
                }
            },
            ' ' | '\r' | '\t' => {
                proof {
                    lemma_concat_empty(toks(old(self).tokens@));
                    lemma_concat_empty(errs(old(self).errors@));
                }
            },
            '\n' => {
                self.line = self.line + 1;
                proof {
                    lemma_concat_empty(toks(old(self).tokens@));
                    lemma_concat_empty(errs(old(self).errors@));
                }
            },
            '"' => {
                self.string();
            },
            _ => {
                if is_digit_char(c) {
                    self.number();
                } else if is_alphanumeric_char(c) {
                    self.identifier();
                } else {
                    let line_now = self.line;
                    let e = error(line_now, LexErrorKind::UnexpectedCharacter);
                    proof {
                        lemma_errs_push(self.errors@, e);
                        lemma_push_is_concat(errs(old(self).errors@), e@);
                        lemma_concat_empty(toks(old(self).tokens@));
                    }
                    self.errors.push(e);
                }
            },
        }
    }

    /// After one plain token of `n = current - start` characters was
    /// appended, the branch outcome matches the model's step.
    proof fn lemma_plain_token_branch(&self, pre: &Scanner, token_type: TokenType)
        requires
            pre.start < self.current <= pre.source@.len(),
            self.source@ == pre.source@,
            self.line == pre.line,
            toks(self.tokens@) == toks(pre.tokens@).push(
                (SpecToken {
                    token_type,
                    lexeme: pre.source@.subrange(pre.start as int, self.current as int),
                    literal: Option::None,
                    line: pre.line as int,
                }),
            ),
        ensures
            toks(self.tokens@) == toks(pre.tokens@) + opt_token_seq(
                plain_token_step(
                    pre.source@,
                    pre.start as int,
                    pre.line as int,
                    token_type,
                    self.current - pre.start,
                ).token,
            ),
            errs(pre.errors@) == errs(pre.errors@) + opt_error_seq(Option::None),
    {
        let st = plain_token_step(
            pre.source@,
            pre.start as int,
            pre.line as int,
            token_type,
            self.current - pre.start,
        );
        lemma_push_is_concat(toks(pre.tokens@), st.token->Some_0);
        lemma_concat_empty(errs(pre.errors@));
    }

    /// Run the scan to completion: the token sequence of the source,
    /// closed by the end-of-input token at the final line, and the error
    /// reports, both exactly as the model prescribes.
    pub fn scan_tokens(self) -> (r: (Vec<Token>, Vec<LexError>))
        requires
            self.wf(),
            self.start == 0,
            self.current == 0,
            self.line == 1,
            self.tokens@.len() == 0,
            self.errors@.len() == 0,
        ensures
            toks(r.0@) == spec_scan(self.source@).0,
            errs(r.1@) == spec_scan(self.source@).1,
    {
        let mut sc = self;
        let ghost src = sc.source@;
        while !sc.is_at_end()
            invariant
                sc.wf(),
                sc.source@ == src,
                spec_scan(src).0 == toks(sc.tokens@) + scan_from(
                    src,
                    sc.current as int,
                    sc.line as int,
                ).0,
                spec_scan(src).1 == errs(sc.errors@) + scan_from(
                    src,
                    sc.current as int,
                    sc.line as int,
                ).1,
            decreases src.len() - sc.current,
        {
            let ghost pre_tokens = sc.tokens@;
            let ghost pre_errors = sc.errors@;
            let ghost i = sc.current as int;
            let ghost line_in = sc.line as int;
            sc.start = sc.current;
            sc.scan_token();
            proof {
                lemma_scan_step_in_range(src, i, line_in);
                let st = scan_step(src, i, line_in);
                let rest = scan_from(src, st.next, st.line);
                assert(scan_from(src, i, line_in).0 == opt_token_seq(st.token) + rest.0);
                assert(toks(sc.tokens@) + rest.0 =~= toks(pre_tokens) + (opt_token_seq(st.token)
                    + rest.0));
                assert(errs(sc.errors@) + rest.1 =~= errs(pre_errors) + (opt_error_seq(st.error)
                    + rest.1));
            }
        }
        let line_now = sc.line;
        let eof = Token::new(TokenType::Eof, Vec::new(), Option::None, line_now);
        proof {
            lemma_toks_push(sc.tokens@, eof);
            lemma_push_is_concat(toks(sc.tokens@), eof@);
            assert(opt_token_seq(Option::Some(eof@)) =~= scan_from(
                src,
                sc.current as int,
                sc.line as int,
            ).0);
            lemma_concat_empty(errs(sc.errors@));
        }
        sc.tokens.push(eof);
        (sc.tokens, sc.errors)
    }
}

/// Scan a complete source text: its token sequence, closed by the
/// end-of-input token, and its lexical error reports, in source order.
pub fn scan(source: Vec<char>) -> (r: (Vec<Token>, Vec<LexError>))
    requires
        source@.len() < usize::MAX,
    ensures
        toks(r.0@) == spec_scan(source@).0,
        errs(r.1@) == spec_scan(source@).1,
{
    let sc = Scanner::new(source);
    sc.scan_tokens()
}

} // verus!
