//! The executable scanner, proved to follow the model in [`crate::model`].
//!
//! A `Scanner` is built over a complete source text, runs to completion in
//! one `scan_tokens` call, and is then discarded.  Its contract states that
//! the tokens and diagnostics it accumulates are exactly those of
//! [`crate::model::scan_from`] over the source, followed by one end-of-file
//! token.

use vstd::prelude::*;
use vstd::string::StrSliceExecFns;
use crate::token::{Token, TokenType, LiteralType, Diagnostic, LexErrorKind, SpecToken, SpecLiteral,
    SpecDiagnostic, keyword_or_identifier};
use crate::model::{scan_step, scan_from, scan_tokens_spec, scan_diags_spec, eof_token,
    opt_token_seq, opt_diag_seq, is_digit, is_alpha, is_alpha_numeric, is_block_close,
    newline_count, lemma_scan_step_bounds, lemma_line_comment_end_is, lemma_string_end_is,
    lemma_block_comment_close_is, lemma_digits_end_is, lemma_ident_end_is};

verus! {

/// Mapping a token sequence to its mathematical image.
pub open spec fn tokens_view_of(ts: Seq<Token>) -> Seq<SpecToken> {
    ts.map_values(|t: Token| t@)
}

/// Mapping a diagnostic sequence to its mathematical image.
pub open spec fn diags_view_of(ds: Seq<Diagnostic>) -> Seq<SpecDiagnostic> {
    ds.map_values(|d: Diagnostic| d@)
}

proof fn lemma_tokens_view_push(ts: Seq<Token>, t: Token)
    ensures
        tokens_view_of(ts.push(t)) == tokens_view_of(ts) + seq![t@],
{
    assert(tokens_view_of(ts.push(t)) =~= tokens_view_of(ts) + seq![t@]);
}

proof fn lemma_diags_view_push(ds: Seq<Diagnostic>, d: Diagnostic)
    ensures
        diags_view_of(ds.push(d)) == diags_view_of(ds) + seq![d@],
{
    assert(diags_view_of(ds.push(d)) =~= diags_view_of(ds) + seq![d@]);
}

proof fn lemma_add_empty_tokens(ts: Seq<SpecToken>)
    ensures
        ts + Seq::<SpecToken>::empty() == ts,
{
    assert(ts + Seq::<SpecToken>::empty() =~= ts);
}

proof fn lemma_add_empty_diags(ds: Seq<SpecDiagnostic>)
    ensures
        ds + Seq::<SpecDiagnostic>::empty() == ds,
{
    assert(ds + Seq::<SpecDiagnostic>::empty() =~= ds);
}

/// Copies `v[from..to)` into a fresh vector.
fn copy_range(v: &Vec<char>, from: usize, to: usize) -> (r: Vec<char>)
    requires
        from <= to <= v@.len(),
    ensures
        r@ == v@.subrange(from as int, to as int),
{
    let mut r: Vec<char> = Vec::new();
    let mut k: usize = from;
    while k < to
        invariant
            from <= k <= to <= v@.len(),
            r@ == v@.subrange(from as int, k as int),
        decreases to - k,
    {
        r.push(v[k]);
        proof {
            assert(v@.subrange(from as int, k as int).push(v@[k as int]) =~= v@.subrange(
                from as int,
                k as int + 1,
            ));
        }
        k += 1;
    }
    r
}

/// Collects the characters of a string, in order.
fn string_chars(s: &String) -> (r: Vec<char>)
    ensures
        r@ == s@,
{
    let st = s.as_str();
    let n: usize = st.unicode_len();
    let mut r: Vec<char> = Vec::new();
    let mut k: usize = 0;
    while k < n
        invariant
            k <= n,
            n == st@.len(),
            st@ == s@,
            r@ == st@.subrange(0, k as int),
        decreases n - k,
    {
        r.push(st.get_char(k));
        proof {
            assert(st@.subrange(0, k as int).push(st@[k as int]) =~= st@.subrange(
                0,
                k as int + 1,
            ));
        }
        k += 1;
    }
    proof {
        assert(st@.subrange(0, n as int) =~= st@);
    }
    r
}

/// The scanner: the source as a character sequence, the tokens and
/// diagnostics produced so far, the cursor pair, and the 1-based line
/// counter.
pub struct Scanner {
    pub source: Vec<char>,
    pub tokens: Vec<Token>,
    pub diagnostics: Vec<Diagnostic>,
    pub start: usize,
    pub current: usize,
    pub line: u64,
}

impl Scanner {
    /// The source text under scan.
    pub open spec fn src(self) -> Seq<char> {
        self.source@
    }

    /// The mathematical image of the tokens produced so far.
    pub open spec fn tokens_view(self) -> Seq<SpecToken> {
        tokens_view_of(self.tokens@)
    }

    /// The mathematical image of the diagnostics produced so far.
    pub open spec fn diags_view(self) -> Seq<SpecDiagnostic> {
        diags_view_of(self.diagnostics@)
    }

    /// The cursor invariant: the lexeme start never passes the cursor, the
    /// cursor never passes the end, and the line counter stays in step.
    pub open spec fn wf(self) -> bool {
        &&& (self.start as int) <= (self.current as int) && (self.current as int) <= self.source@.len()
        &&& 1 <= self.line
        &&& (self.line as int) <= 1 + (self.current as int)
        &&& self.source@.len() < u64::MAX
    }

    /// A scanner that has not consumed anything yet.
    pub open spec fn fresh(self) -> bool {
        &&& self.start == 0
        &&& self.current == 0
        &&& self.line == 1
        &&& self.tokens@ == Seq::<Token>::empty()
        &&& self.diagnostics@ == Seq::<Diagnostic>::empty()
    }

    /// Builds a scanner over a complete source text.  The length bound keeps
    /// the line counter within its machine type on any input.
    pub fn new(source: String) -> (s: Scanner)
        requires
            source@.len() < u64::MAX,
        ensures
            s.src() == source@,
            s.fresh(),
            s.wf(),
    {
        let chars = string_chars(&source);
        Scanner {
            source: chars,
            tokens: Vec::new(),
            diagnostics: Vec::new(),
            start: 0,
            current: 0,
            line: 1,
        }
    }

    /// The diagnostics recorded so far, in source order.
    pub fn diagnostics(&self) -> (r: &Vec<Diagnostic>)
        ensures
            r@ == self.diagnostics@,
            diags_view_of(r@) == self.diags_view(),
    {
        &self.diagnostics
    }

    fn is_at_end(&self) -> (r: bool)
        ensures
            r == ((self.current as int) >= self.src().len()),
    {
        self.current >= self.source.len()
    }

    fn advance(&mut self) -> (c: char)
        requires
            (old(self).current as int) < old(self).src().len(),
        ensures
            final(self).current == old(self).current + 1,
            final(self).source == old(self).source,
            final(self).tokens == old(self).tokens,
            final(self).diagnostics == old(self).diagnostics,
            final(self).start == old(self).start,
            final(self).line == old(self).line,
            c == old(self).src()[old(self).current as int],
    {
        // the exec length bounds the cursor by a machine word, so the
        // increment below cannot overflow
        let _len: usize = self.source.len();
        let c = self.source[self.current];
        self.current = self.current + 1;
        c
    }

    fn mtch(&mut self, expected: char) -> (r: bool)
        requires
            (old(self).current as int) <= old(self).src().len(),
        ensures
            r == ((old(self).current as int) < old(self).src().len() && old(self).src()[old(
                self,
            ).current as int] == expected),
            r ==> final(self).current == old(self).current + 1,
            !r ==> final(self).current == old(self).current,
            final(self).source == old(self).source,
            final(self).tokens == old(self).tokens,
            final(self).diagnostics == old(self).diagnostics,
            final(self).start == old(self).start,
            final(self).line == old(self).line,
    {
        let n: usize = self.source.len();
        if self.current >= n {
            return false;
        }
        if self.source[self.current] != expected {
            return false;
        }
        self.current = self.current + 1;
        true
    }

    fn peek(&self) -> (c: char)
        requires
            (self.current as int) <= self.src().len(),
        ensures
            c == if (self.current as int) < self.src().len() {
                self.src()[self.current as int]
            } else {
                '\0'
            },
    {
        if self.is_at_end() {
            return '\0';
        }
        self.source[self.current]
    }

    fn peek_next(&self) -> (c: char)
        requires
            (self.current as int) <= self.src().len(),
        ensures
            c == if (self.current as int) + 1 < self.src().len() {
                self.src()[self.current as int + 1]
            } else {
                '\0'
            },
    {
        let n: usize = self.source.len();
        if self.current >= n {
            return '\0';
        }
        if self.current + 1 >= n {
            return '\0';
        }
        self.source[self.current + 1]
    }

    fn is_digit(c: char) -> (r: bool)
        ensures
            r == is_digit(c),
    {
        c >= '0' && c <= '9'
    }

    fn is_alpha(c: char) -> (r: bool)
        ensures
            r == is_alpha(c),
    {
        (c >= 'a' && c <= 'z') || (c >= 'A' && c <= 'Z') || c == '_'
    }

    fn is_alpha_numeric(c: char) -> (r: bool)
        ensures
            r == is_alpha_numeric(c),
    {
        Self::is_digit(c) || Self::is_alpha(c)
    }

    /// Appends a token without a literal payload, whose lexeme is the text
    /// between the lexeme start and the cursor.
    fn add_token(&mut self, token_type: TokenType)
        requires
            old(self).start as int <= (old(self).current as int) <= old(self).src().len(),
        ensures
            final(self).tokens_view() == old(self).tokens_view() + seq![
                SpecToken {
                    kind: token_type,
                    lexeme: old(self).src().subrange(
                        old(self).start as int,
                        old(self).current as int,
                    ),
                    line: old(self).line as int,
                    literal: SpecLiteral::NoValue,
                },
            ],
            final(self).source == old(self).source,
            final(self).diagnostics == old(self).diagnostics,
            final(self).start == old(self).start,
            final(self).current == old(self).current,
            final(self).line == old(self).line,
    {
        self.add_token_with_literal(token_type, LiteralType::NoValue)
    }

    /// Appends a token carrying `literal`, whose lexeme is the text between
    /// the lexeme start and the cursor.
    fn add_token_with_literal(&mut self, token_type: TokenType, literal: LiteralType)
        requires
            old(self).start as int <= (old(self).current as int) <= old(self).src().len(),
        ensures
            final(self).tokens_view() == old(self).tokens_view() + seq![
                SpecToken {
                    kind: token_type,
                    lexeme: old(self).src().subrange(
                        old(self).start as int,
                        old(self).current as int,
                    ),
                    line: old(self).line as int,
                    literal: literal@,
                },
            ],
            final(self).source == old(self).source,
            final(self).diagnostics == old(self).diagnostics,
            final(self).start == old(self).start,
            final(self).current == old(self).current,
            final(self).line == old(self).line,
    {
        let text = copy_range(&self.source, self.start, self.current);
        let t = Token::new(token_type, text, self.line, literal);
        proof {
            lemma_tokens_view_push(self.tokens@, t);
        }
        self.tokens.push(t);
    }

    /// Scans a string literal, the opening quote already consumed.  On
    /// success the token's lexeme and payload are the interior text and its
    /// line is the opening quote's line; when the source ends first, one
    /// unterminated-string diagnostic is recorded instead.
    fn determine_string_literal(&mut self)
        requires
            old(self).wf(),
            old(self).start + 1 == old(self).current,
            (old(self).start as int) < old(self).src().len(),
            old(self).src()[old(self).start as int] == '"',
        ensures
            final(self).source == old(self).source,
            final(self).start == old(self).start,
            final(self).wf(),
            ({
                let st = crate::model::string_step(
                    old(self).src(),
                    old(self).start as int,
                    old(self).line as int,
                );
                &&& (final(self).current as int) == st.next
                &&& (final(self).line as int) == st.line
                &&& final(self).tokens_view() == old(self).tokens_view() + opt_token_seq(st.token)
                &&& final(self).diags_view() == old(self).diags_view() + opt_diag_seq(st.diag)
            }),
    {
        let ghost src = self.source@;
        let ghost i = self.start as int;
        let ghost line0 = self.line as int;
        let start_line: u64 = self.line;
        while self.peek() != '"' && !self.is_at_end()
            invariant
                self.source == old(self).source,
                self.source@ == src,
                self.start == old(self).start,
                self.tokens == old(self).tokens,
                self.diagnostics == old(self).diagnostics,
                i == self.start as int,
                i + 1 <= self.current as int && (self.current as int) <= src.len(),
                forall|k: int| i + 1 <= k < self.current as int ==> src[k] != '"',
                (self.line as int) == line0 + newline_count(src, i + 1, self.current as int),
                (self.line as int) <= 1 + (self.current as int),
                1 <= self.line,
                src.len() < u64::MAX,
            decreases src.len() - self.current,
        {
            if self.peek() == '\n' {
                self.line = self.line + 1;
            }
            self.advance();
        }
        proof {
            lemma_string_end_is(src, i + 1, self.current as int);
            lemma_add_empty_tokens(old(self).tokens_view());
            lemma_add_empty_diags(old(self).diags_view());
        }
        if self.is_at_end() {
            let d = Diagnostic { line: self.line, kind: LexErrorKind::UnterminatedString };
            proof {
                lemma_diags_view_push(self.diagnostics@, d);
            }
            self.diagnostics.push(d);
            return;
        }
        self.advance();
        let value = copy_range(&self.source, self.start + 1, self.current - 1);
        let literal_text = copy_range(&self.source, self.start + 1, self.current - 1);
        let t = Token::new(TokenType::String, value, start_line, LiteralType::String(literal_text));
        proof {
            lemma_tokens_view_push(self.tokens@, t);
        }
        self.tokens.push(t);
    }

    /// Scans a number literal, the first digit already consumed: a maximal
    /// digit run, then one `.` only when a digit follows it.  The token's
    /// payload is its digit text.
    fn determine_number(&mut self)
        requires
            old(self).wf(),
            old(self).start + 1 == old(self).current,
            (old(self).start as int) < old(self).src().len(),
            is_digit(old(self).src()[old(self).start as int]),
        ensures
            final(self).source == old(self).source,
            final(self).start == old(self).start,
            final(self).wf(),
            ({
                let st = crate::model::number_step(
                    old(self).src(),
                    old(self).start as int,
                    old(self).line as int,
                );
                &&& (final(self).current as int) == st.next
                &&& (final(self).line as int) == st.line
                &&& final(self).tokens_view() == old(self).tokens_view() + opt_token_seq(st.token)
                &&& final(self).diags_view() == old(self).diags_view() + opt_diag_seq(st.diag)
            }),
    {
        let ghost src = self.source@;
        let ghost i = self.start as int;
        while Self::is_digit(self.peek())
            invariant
                self.source == old(self).source,
                self.source@ == src,
                self.start == old(self).start,
                self.tokens == old(self).tokens,
                self.diagnostics == old(self).diagnostics,
                self.line == old(self).line,
                i == self.start as int,
                i + 1 <= self.current as int && (self.current as int) <= src.len(),
                forall|k: int| i + 1 <= k < self.current as int ==> is_digit(src[k]),
            decreases src.len() - self.current,
        {
            self.advance();
        }
        proof {
            lemma_digits_end_is(src, i + 1, self.current as int);
        }
        let ghost whole = self.current as int;
        if self.peek() == '.' && Self::is_digit(self.peek_next()) {
            self.advance();
            while Self::is_digit(self.peek())
                invariant
                    self.source == old(self).source,
                    self.source@ == src,
                    self.start == old(self).start,
                    self.tokens == old(self).tokens,
                    self.diagnostics == old(self).diagnostics,
                    self.line == old(self).line,
                    i == self.start as int,
                    i + 1 <= whole + 1 <= self.current as int && (self.current as int)
                        <= src.len(),
                    forall|k: int| whole + 1 <= k < self.current as int ==> is_digit(src[k]),
                decreases src.len() - self.current,
            {
                self.advance();
            }
            proof {
                lemma_digits_end_is(src, whole + 1, self.current as int);
            }
        }
        let text = copy_range(&self.source, self.start, self.current);
        proof {
            lemma_add_empty_diags(old(self).diags_view());
        }
        self.add_token_with_literal(TokenType::Number, LiteralType::Number(text));
    }

    /// Scans an identifier, the first letter or underscore already consumed,
    /// and classifies its full text through the reserved-word table.
    fn determine_identifier(&mut self)
        requires
            old(self).wf(),
            old(self).start + 1 == old(self).current,
            (old(self).start as int) < old(self).src().len(),
            is_alpha(old(self).src()[old(self).start as int]),
        ensures
            final(self).source == old(self).source,
            final(self).start == old(self).start,
            final(self).wf(),
            ({
                let st = crate::model::ident_step(
                    old(self).src(),
                    old(self).start as int,
                    old(self).line as int,
                );
                &&& (final(self).current as int) == st.next
                &&& (final(self).line as int) == st.line
                &&& final(self).tokens_view() == old(self).tokens_view() + opt_token_seq(st.token)
                &&& final(self).diags_view() == old(self).diags_view() + opt_diag_seq(st.diag)
            }),
    {
        let ghost src = self.source@;
        let ghost i = self.start as int;
        while Self::is_alpha_numeric(self.peek())
            invariant
                self.source == old(self).source,
                self.source@ == src,
                self.start == old(self).start,
                self.tokens == old(self).tokens,
                self.diagnostics == old(self).diagnostics,
                self.line == old(self).line,
                i == self.start as int,
                i + 1 <= self.current as int && (self.current as int) <= src.len(),
                forall|k: int| i + 1 <= k < self.current as int ==> is_alpha_numeric(src[k]),
            decreases src.len() - self.current,
        {
            self.advance();
        }
        proof {
            lemma_ident_end_is(src, i + 1, self.current as int);
            lemma_add_empty_diags(old(self).diags_view());
        }
        let text = copy_range(&self.source, self.start, self.current);
        let kind = keyword_or_identifier(&text);
        self.add_token(kind);
    }

    /// Skips a block comment, the opening `/*` already consumed, keeping the
    /// line counter in step with the newlines inside it.  When the source
    /// ends before the closer, one unterminated-comment diagnostic is
    /// recorded.
    fn skip_block_comment(&mut self)
        requires
            old(self).wf(),
            old(self).start + 2 == old(self).current,
            (old(self).start as int) + 1 < old(self).src().len(),
            old(self).src()[old(self).start as int] == '/',
            old(self).src()[old(self).start as int + 1] == '*',
        ensures
            final(self).source == old(self).source,
            final(self).start == old(self).start,
            final(self).wf(),
            ({
                let st = crate::model::slash_step(
                    old(self).src(),
                    old(self).start as int,
                    old(self).line as int,
                );
                &&& (final(self).current as int) == st.next
                &&& (final(self).line as int) == st.line
                &&& final(self).tokens_view() == old(self).tokens_view() + opt_token_seq(st.token)
                &&& final(self).diags_view() == old(self).diags_view() + opt_diag_seq(st.diag)
            }),
    {
        let ghost src = self.source@;
        let ghost i = self.start as int;
        let ghost line0 = self.line as int;
        while !(self.peek() == '*' && self.peek_next() == '/') && !self.is_at_end()
            invariant
                self.source == old(self).source,
                self.source@ == src,
                self.start == old(self).start,
                self.tokens == old(self).tokens,
                self.diagnostics == old(self).diagnostics,
                i == self.start as int,
                i + 2 <= self.current as int && (self.current as int) <= src.len(),
                forall|k: int| i + 2 <= k < self.current as int ==> !is_block_close(src, k),
                (self.line as int) == line0 + newline_count(src, i + 2, self.current as int),
                (self.line as int) <= 1 + (self.current as int),
                1 <= self.line,
                src.len() < u64::MAX,
            decreases src.len() - self.current,
        {
            if self.peek() == '\n' {
                self.line = self.line + 1;
            }
            self.advance();
        }
        proof {
            lemma_block_comment_close_is(src, i + 2, self.current as int);
            lemma_add_empty_tokens(old(self).tokens_view());
            lemma_add_empty_diags(old(self).diags_view());
        }
        if self.is_at_end() {
            let d = Diagnostic { line: self.line, kind: LexErrorKind::UnterminatedComment };
            proof {
                lemma_diags_view_push(self.diagnostics@, d);
            }
            self.diagnostics.push(d);
            return;
        }
        self.advance();
        self.advance();
    }

    /// Runs one scan step: consumes one lexeme, comment, whitespace run of
    /// length one, or offending character, and emits at most one token and
    /// at most one diagnostic, exactly as [`scan_step`] says.
    fn scan_token(&mut self)
        requires
            old(self).wf(),
            (old(self).current as int) < old(self).src().len(),
            old(self).start == old(self).current,
        ensures
            final(self).source == old(self).source,
            final(self).start == old(self).start,
            final(self).wf(),
            ({
                let st = scan_step(old(self).src(), old(self).current as int, old(self).line as int);
                &&& (final(self).current as int) == st.next
                &&& (final(self).line as int) == st.line
                &&& final(self).tokens_view() == old(self).tokens_view() + opt_token_seq(st.token)
                &&& final(self).diags_view() == old(self).diags_view() + opt_diag_seq(st.diag)
            }),
    {
        let ghost src = self.source@;
        let ghost i = self.current as int;
        let c = self.advance();
        if c == '(' {
            self.add_token(TokenType::LeftParen);
        } else if c == ')' {
            self.add_token(TokenType::RightParen);
        } else if c == '{' {
            self.add_token(TokenType::LeftBrace);
        } else if c == '}' {
            self.add_token(TokenType::RightBrace);
        } else if c == ',' {
            self.add_token(TokenType::Comma);
        } else if c == '.' {
            self.add_token(TokenType::Dot);
        } else if c == '-' {
            self.add_token(TokenType::Minus);
        } else if c == '+' {
            self.add_token(TokenType::Plus);
        } else if c == ';' {
            self.add_token(TokenType::Semicolon);
        } else if c == '*' {
            self.add_token(TokenType::Star);
        } else if c == '!' {
            let matched = self.mtch('=');
            let t = if matched {
                TokenType::BangEqual
            } else {
                TokenType::Bang
            };
            self.add_token(t);
        } else if c == '=' {
            let matched = self.mtch('=');
            let t = if matched {
                TokenType::EqualEqual
            } else {
                TokenType::Equal
            };
            self.add_token(t);
        } else if c == '<' {
            let matched = self.mtch('=');
            let t = if matched {
                TokenType::LessEqual
            } else {
                TokenType::Less
            };
            self.add_token(t);
        } else if c == '>' {
            let matched = self.mtch('=');
            let t = if matched {
                TokenType::GreaterEqual
            } else {
                TokenType::Greater
            };
            self.add_token(t);
        } else if c == '/' {
            if self.mtch('/') {
                while self.peek() != '\n' && !self.is_at_end()
                    invariant
                        self.source == old(self).source,
                        self.source@ == src,
                        self.start == old(self).start,
                        self.tokens == old(self).tokens,
                        self.diagnostics == old(self).diagnostics,
                        self.line == old(self).line,
                        i + 2 <= self.current as int && (self.current as int) <= src.len(),
                        forall|k: int| i + 2 <= k < self.current as int ==> src[k] != '\n',
                    decreases src.len() - self.current,
                {
                    self.advance();
                }
                proof {
                    lemma_line_comment_end_is(src, i + 2, self.current as int);
                }
            } else if self.mtch('*') {
                self.skip_block_comment();
            } else {
                self.add_token(TokenType::Slash);
            }
        } else if c == ' ' || c == '\r' || c == '\t' {
        } else if c == '\n' {
            self.line = self.line + 1;
        } else if c == '"' {
            self.determine_string_literal();
        } else if Self::is_digit(c) {
            self.determine_number();
        } else if Self::is_alpha(c) {
            self.determine_identifier();
        } else {
            let d = Diagnostic { line: self.line, kind: LexErrorKind::UnexpectedCharacter };
            proof {
                lemma_diags_view_push(self.diagnostics@, d);
            }
            self.diagnostics.push(d);
        }
        proof {
            lemma_add_empty_tokens(old(self).tokens_view());
            lemma_add_empty_diags(old(self).diags_view());
        }
    }

    /// Scans the whole source: the resulting token sequence is exactly the
    /// model's, terminated by one end-of-file token with an empty lexeme and
    /// the final line number, and the diagnostics are exactly the model's.
    pub fn scan_tokens(&mut self) -> (r: &Vec<Token>)
        requires
            old(self).fresh(),
            old(self).wf(),
        ensures
            final(self).source == old(self).source,
            final(self).tokens_view() == scan_tokens_spec(old(self).src()),
            final(self).diags_view() == scan_diags_spec(old(self).src()),
            r@ == final(self).tokens@,
            final(self).tokens_view().len() >= 1,
            final(self).tokens_view().last() == eof_token(old(self).src()),
    {
        let ghost src = self.source@;
        proof {
            assert(self.tokens_view() =~= Seq::<SpecToken>::empty());
            assert(self.diags_view() =~= Seq::<SpecDiagnostic>::empty());
        }
        while !self.is_at_end()
            invariant
                self.wf(),
                self.source == old(self).source,
                self.source@ == src,
                scan_from(src, 0, 1).tokens == self.tokens_view() + scan_from(
                    src,
                    self.current as int,
                    self.line as int,
                ).tokens,
                scan_from(src, 0, 1).diags == self.diags_view() + scan_from(
                    src,
                    self.current as int,
                    self.line as int,
                ).diags,
                scan_from(src, 0, 1).end_line == scan_from(
                    src,
                    self.current as int,
                    self.line as int,
                ).end_line,
            decreases src.len() - self.current,
        {
            self.start = self.current;
            let ghost pre = *self;
            self.scan_token();
            proof {
                let st = scan_step(src, pre.current as int, pre.line as int);
                lemma_scan_step_bounds(src, pre.current as int, pre.line as int);
                assert(scan_from(src, pre.current as int, pre.line as int).tokens
                    =~= opt_token_seq(st.token) + scan_from(src, st.next, st.line).tokens);
                assert(scan_from(src, pre.current as int, pre.line as int).diags
                    =~= opt_diag_seq(st.diag) + scan_from(src, st.next, st.line).diags);
                assert(pre.tokens_view() + (opt_token_seq(st.token) + scan_from(
                    src,
                    st.next,
                    st.line,
                ).tokens) =~= (pre.tokens_view() + opt_token_seq(st.token)) + scan_from(
                    src,
                    st.next,
                    st.line,
                ).tokens);
                assert(pre.diags_view() + (opt_diag_seq(st.diag) + scan_from(
                    src,
                    st.next,
                    st.line,
                ).diags) =~= (pre.diags_view() + opt_diag_seq(st.diag)) + scan_from(
                    src,
                    st.next,
                    st.line,
                ).diags);
            }
        }
        proof {
            lemma_add_empty_tokens(self.tokens_view());
            lemma_add_empty_diags(self.diags_view());
        }
        let eof_lexeme: Vec<char> = Vec::new();
        let t = Token::new(TokenType::EndOfFile, eof_lexeme, self.line, LiteralType::NoValue);
        proof {
            lemma_tokens_view_push(self.tokens@, t);
            assert(scan_from(src, 0, 1).tokens.push(eof_token(src)) =~= scan_from(
                src,
                0,
                1,
            ).tokens + seq![eof_token(src)]);
        }
        self.tokens.push(t);
        &self.tokens
    }
}

} // verus!
