//! The mathematical model of a scan.
//!
//! [`scan_from`] defines, by recursion over the source, the exact token and
//! diagnostic sequences a scan of the remaining source produces, together
//! with the line counter's final value.  The executable scanner is proved to
//! return precisely `scan_from(source, 0, 1)` plus the end-of-file token.

use vstd::prelude::*;
use crate::token::{TokenType, SpecToken, SpecLiteral, SpecDiagnostic, LexErrorKind, keyword_kind};

verus! {

/// Is `c` an ASCII decimal digit?
pub open spec fn is_digit(c: char) -> bool {
    '0' <= c && c <= '9'
}

/// Is `c` an ASCII letter or an underscore?
pub open spec fn is_alpha(c: char) -> bool {
    ('a' <= c && c <= 'z') || ('A' <= c && c <= 'Z') || c == '_'
}

/// May `c` continue an identifier?
pub open spec fn is_alpha_numeric(c: char) -> bool {
    is_digit(c) || is_alpha(c)
}

/// Is `c` horizontal whitespace (space, carriage return, tab)?
pub open spec fn is_blank(c: char) -> bool {
    c == ' ' || c == '\r' || c == '\t'
}

/// The number of newline characters in `src[i..j)`.
pub open spec fn newline_count(src: Seq<char>, i: int, j: int) -> int
    decreases j - i,
{
    if i >= j {
        0
    } else {
        newline_count(src, i, j - 1) + if src[j - 1] == '\n' {
            1int
        } else {
            0int
        }
    }
}

/// The first position at or after `i` holding a newline, or the end of the
/// source.
pub open spec fn line_comment_end(src: Seq<char>, i: int) -> int
    decreases src.len() - i when 0 <= i <= src.len()
{
    if i == src.len() || src[i] == '\n' {
        i
    } else {
        line_comment_end(src, i + 1)
    }
}

/// The first position at or after `i` holding a double quote, or the end of
/// the source.
pub open spec fn string_end(src: Seq<char>, i: int) -> int
    decreases src.len() - i when 0 <= i <= src.len()
{
    if i == src.len() || src[i] == '"' {
        i
    } else {
        string_end(src, i + 1)
    }
}

/// Does the two-character block-comment closer stand at position `i`?
pub open spec fn is_block_close(src: Seq<char>, i: int) -> bool {
    src[i] == '*' && i + 1 < src.len() && src[i + 1] == '/'
}

/// The first position at or after `i` where the block-comment closer `*/`
/// starts, or the end of the source when there is none.
pub open spec fn block_comment_close(src: Seq<char>, i: int) -> int
    decreases src.len() - i when 0 <= i <= src.len()
{
    if i == src.len() || is_block_close(src, i) {
        i
    } else {
        block_comment_close(src, i + 1)
    }
}

/// The first position at or after `i` holding a non-digit, or the end of the
/// source.
pub open spec fn digits_end(src: Seq<char>, i: int) -> int
    decreases src.len() - i when 0 <= i <= src.len()
{
    if i == src.len() || !is_digit(src[i]) {
        i
    } else {
        digits_end(src, i + 1)
    }
}

/// The first position at or after `i` holding a character that cannot
/// continue an identifier, or the end of the source.
pub open spec fn ident_end(src: Seq<char>, i: int) -> int
    decreases src.len() - i when 0 <= i <= src.len()
{
    if i == src.len() || !is_alpha_numeric(src[i]) {
        i
    } else {
        ident_end(src, i + 1)
    }
}

/// What one scan step does: where the cursor and the line counter move, and
/// the at most one token and at most one diagnostic it emits.
pub ghost struct ScanStep {
    pub next: int,
    pub line: int,
    pub token: Option<SpecToken>,
    pub diag: Option<SpecDiagnostic>,
}

/// A step that emits a token of `kind` spanning `src[i..j)` and moves on.
pub open spec fn emit(src: Seq<char>, i: int, j: int, line: int, kind: TokenType) -> ScanStep {
    ScanStep {
        next: j,
        line,
        token: Some(
            SpecToken { kind, lexeme: src.subrange(i, j), line, literal: SpecLiteral::NoValue },
        ),
        diag: None,
    }
}

/// A one-character operator, or its two-character form when `=` follows.
pub open spec fn two_char_step(
    src: Seq<char>,
    i: int,
    line: int,
    single: TokenType,
    double: TokenType,
) -> ScanStep {
    if i + 1 < src.len() && src[i + 1] == '=' {
        emit(src, i, i + 2, line, double)
    } else {
        emit(src, i, i + 1, line, single)
    }
}

/// A `/` at `i`: a line comment, a block comment, or a slash token.
pub open spec fn slash_step(src: Seq<char>, i: int, line: int) -> ScanStep {
    if i + 1 < src.len() && src[i + 1] == '/' {
        ScanStep { next: line_comment_end(src, i + 2), line, token: None, diag: None }
    } else if i + 1 < src.len() && src[i + 1] == '*' {
        let close = block_comment_close(src, i + 2);
        if close < src.len() {
            ScanStep {
                next: close + 2,
                line: line + newline_count(src, i + 2, close),
                token: None,
                diag: None,
            }
        } else {
            ScanStep {
                next: src.len() as int,
                line: line + newline_count(src, i + 2, src.len() as int),
                token: None,
                diag: Some(
                    SpecDiagnostic {
                        line: line + newline_count(src, i + 2, src.len() as int),
                        kind: LexErrorKind::UnterminatedComment,
                    },
                ),
            }
        }
    } else {
        emit(src, i, i + 1, line, TokenType::Slash)
    }
}

/// A `"` at `i`: a string token, or an unterminated-string diagnostic when
/// the source ends before a closing quote.  The token's lexeme and payload
/// are the interior text, and its line is the line the opening quote stands
/// on.
pub open spec fn string_step(src: Seq<char>, i: int, line: int) -> ScanStep {
    let close = string_end(src, i + 1);
    let new_line = line + newline_count(src, i + 1, close);
    if close == src.len() {
        ScanStep {
            next: close,
            line: new_line,
            token: None,
            diag: Some(SpecDiagnostic { line: new_line, kind: LexErrorKind::UnterminatedString }),
        }
    } else {
        ScanStep {
            next: close + 1,
            line: new_line,
            token: Some(
                SpecToken {
                    kind: TokenType::String,
                    lexeme: src.subrange(i + 1, close),
                    line,
                    literal: SpecLiteral::String(src.subrange(i + 1, close)),
                },
            ),
            diag: None,
        }
    }
}

/// Where a number starting at `i` ends: a maximal digit run, then one `.`
/// only when at least one digit follows it.
pub open spec fn number_end(src: Seq<char>, i: int) -> int {
    let whole = digits_end(src, i + 1);
    if whole < src.len() && src[whole] == '.' && whole + 1 < src.len() && is_digit(
        src[whole + 1],
    ) {
        digits_end(src, whole + 1)
    } else {
        whole
    }
}

/// A digit at `i`: a number token whose payload is its digit text.
pub open spec fn number_step(src: Seq<char>, i: int, line: int) -> ScanStep {
    let j = number_end(src, i);
    ScanStep {
        next: j,
        line,
        token: Some(
            SpecToken {
                kind: TokenType::Number,
                lexeme: src.subrange(i, j),
                line,
                literal: SpecLiteral::Number(src.subrange(i, j)),
            },
        ),
        diag: None,
    }
}

/// A letter or underscore at `i`: an identifier or reserved-word token.
pub open spec fn ident_step(src: Seq<char>, i: int, line: int) -> ScanStep {
    let j = ident_end(src, i + 1);
    ScanStep {
        next: j,
        line,
        token: Some(
            SpecToken {
                kind: keyword_kind(src.subrange(i, j)),
                lexeme: src.subrange(i, j),
                line,
                literal: SpecLiteral::NoValue,
            },
        ),
        diag: None,
    }
}

/// One scan step at position `i` of the source, on line `line`.
pub open spec fn scan_step(src: Seq<char>, i: int, line: int) -> ScanStep
    recommends
        0 <= i < src.len(),
{
    let c = src[i];
    if c == '(' {
        emit(src, i, i + 1, line, TokenType::LeftParen)
    } else if c == ')' {
        emit(src, i, i + 1, line, TokenType::RightParen)
    } else if c == '{' {
        emit(src, i, i + 1, line, TokenType::LeftBrace)
    } else if c == '}' {
        emit(src, i, i + 1, line, TokenType::RightBrace)
    } else if c == ',' {
        emit(src, i, i + 1, line, TokenType::Comma)
    } else if c == '.' {
        emit(src, i, i + 1, line, TokenType::Dot)
    } else if c == '-' {
        emit(src, i, i + 1, line, TokenType::Minus)
    } else if c == '+' {
        emit(src, i, i + 1, line, TokenType::Plus)
    } else if c == ';' {
        emit(src, i, i + 1, line, TokenType::Semicolon)
    } else if c == '*' {
        emit(src, i, i + 1, line, TokenType::Star)
    } else if c == '!' {
        two_char_step(src, i, line, TokenType::Bang, TokenType::BangEqual)
    } else if c == '=' {
        two_char_step(src, i, line, TokenType::Equal, TokenType::EqualEqual)
    } else if c == '<' {
        two_char_step(src, i, line, TokenType::Less, TokenType::LessEqual)
    } else if c == '>' {
        two_char_step(src, i, line, TokenType::Greater, TokenType::GreaterEqual)
    } else if c == '/' {
        slash_step(src, i, line)
    } else if is_blank(c) {
        ScanStep { next: i + 1, line, token: None, diag: None }
    } else if c == '\n' {
        ScanStep { next: i + 1, line: line + 1, token: None, diag: None }
    } else if c == '"' {
        string_step(src, i, line)
    } else if is_digit(c) {
        number_step(src, i, line)
    } else if is_alpha(c) {
        ident_step(src, i, line)
    } else {
        ScanStep {
            next: i + 1,
            line,
            token: None,
            diag: Some(SpecDiagnostic { line, kind: LexErrorKind::UnexpectedCharacter }),
        }
    }
}

/// Everything a scan of `src[i..)` produces.  Beside the tokens themselves,
/// `starts` records the source position each token was recognized at, one
/// entry per token, so that contracts can speak of where a token stands.
pub ghost struct ScanOut {
    pub tokens: Seq<SpecToken>,
    pub diags: Seq<SpecDiagnostic>,
    pub starts: Seq<int>,
    pub end_line: int,
}

/// The start-position sequence an optional token contributes.
pub open spec fn opt_start_seq(t: Option<SpecToken>, i: int) -> Seq<int> {
    match t {
        Some(_) => seq![i],
        None => seq![],
    }
}

/// The token sequence an optional token contributes.
pub open spec fn opt_token_seq(t: Option<SpecToken>) -> Seq<SpecToken> {
    match t {
        Some(tok) => seq![tok],
        None => seq![],
    }
}

/// The diagnostic sequence an optional diagnostic contributes.
pub open spec fn opt_diag_seq(d: Option<SpecDiagnostic>) -> Seq<SpecDiagnostic> {
    match d {
        Some(diag) => seq![diag],
        None => seq![],
    }
}

/// Where a line comment ends: no newline stands before it, and a newline
/// stands at it unless the source ended first.
pub proof fn lemma_line_comment_end_bounds(src: Seq<char>, i: int)
    requires
        0 <= i <= src.len(),
    ensures
        i <= line_comment_end(src, i) <= src.len(),
        forall|k: int| i <= k < line_comment_end(src, i) ==> src[k] != '\n',
        line_comment_end(src, i) < src.len() ==> src[line_comment_end(src, i)] == '\n',
    decreases src.len() - i,
{
    if i < src.len() && src[i] != '\n' {
        lemma_line_comment_end_bounds(src, i + 1);
    }
}

/// Where a string's closing quote stands: no quote before it, and a quote at
/// it unless the source ended first.
pub proof fn lemma_string_end_bounds(src: Seq<char>, i: int)
    requires
        0 <= i <= src.len(),
    ensures
        i <= string_end(src, i) <= src.len(),
        forall|k: int| i <= k < string_end(src, i) ==> src[k] != '"',
        string_end(src, i) < src.len() ==> src[string_end(src, i)] == '"',
    decreases src.len() - i,
{
    if i < src.len() && src[i] != '"' {
        lemma_string_end_bounds(src, i + 1);
    }
}

/// Where a block comment's closer stands: no closer starts before it, and a
/// closer starts at it unless the source ended first.
pub proof fn lemma_block_comment_close_bounds(src: Seq<char>, i: int)
    requires
        0 <= i <= src.len(),
    ensures
        i <= block_comment_close(src, i) <= src.len(),
        forall|k: int| i <= k < block_comment_close(src, i) ==> !is_block_close(src, k),
        block_comment_close(src, i) < src.len() ==> is_block_close(
            src,
            block_comment_close(src, i),
        ),
    decreases src.len() - i,
{
    if i < src.len() && !is_block_close(src, i) {
        lemma_block_comment_close_bounds(src, i + 1);
    }
}

/// Where a digit run ends: digits everywhere before it, and a non-digit at
/// it unless the source ended first.
pub proof fn lemma_digits_end_bounds(src: Seq<char>, i: int)
    requires
        0 <= i <= src.len(),
    ensures
        i <= digits_end(src, i) <= src.len(),
        forall|k: int| i <= k < digits_end(src, i) ==> is_digit(src[k]),
        digits_end(src, i) < src.len() ==> !is_digit(src[digits_end(src, i)]),
    decreases src.len() - i,
{
    if i < src.len() && is_digit(src[i]) {
        lemma_digits_end_bounds(src, i + 1);
    }
}

/// Where an identifier ends: identifier characters everywhere before it, and
/// another character at it unless the source ended first.
pub proof fn lemma_ident_end_bounds(src: Seq<char>, i: int)
    requires
        0 <= i <= src.len(),
    ensures
        i <= ident_end(src, i) <= src.len(),
        forall|k: int| i <= k < ident_end(src, i) ==> is_alpha_numeric(src[k]),
        ident_end(src, i) < src.len() ==> !is_alpha_numeric(src[ident_end(src, i)]),
    decreases src.len() - i,
{
    if i < src.len() && is_alpha_numeric(src[i]) {
        lemma_ident_end_bounds(src, i + 1);
    }
}

/// A position with no newline before it and a newline (or the source's end)
/// at it is where the line comment ends.
pub proof fn lemma_line_comment_end_is(src: Seq<char>, i: int, j: int)
    requires
        0 <= i <= j <= src.len(),
        forall|k: int| i <= k < j ==> src[k] != '\n',
        j < src.len() ==> src[j] == '\n',
    ensures
        line_comment_end(src, i) == j,
    decreases j - i,
{
    if i < j {
        lemma_line_comment_end_is(src, i + 1, j);
    }
}

/// A position with no quote before it and a quote (or the source's end) at
/// it is where the string ends.
pub proof fn lemma_string_end_is(src: Seq<char>, i: int, j: int)
    requires
        0 <= i <= j <= src.len(),
        forall|k: int| i <= k < j ==> src[k] != '"',
        j < src.len() ==> src[j] == '"',
    ensures
        string_end(src, i) == j,
    decreases j - i,
{
    if i < j {
        lemma_string_end_is(src, i + 1, j);
    }
}

/// A position with no closer starting before it and a closer (or the
/// source's end) at it is where the block comment closes.
pub proof fn lemma_block_comment_close_is(src: Seq<char>, i: int, j: int)
    requires
        0 <= i <= j <= src.len(),
        forall|k: int| i <= k < j ==> !is_block_close(src, k),
        j < src.len() ==> is_block_close(src, j),
    ensures
        block_comment_close(src, i) == j,
    decreases j - i,
{
    if i < j {
        lemma_block_comment_close_is(src, i + 1, j);
    }
}

/// A position with only digits before it and a non-digit (or the source's
/// end) at it is where the digit run ends.
pub proof fn lemma_digits_end_is(src: Seq<char>, i: int, j: int)
    requires
        0 <= i <= j <= src.len(),
        forall|k: int| i <= k < j ==> is_digit(src[k]),
        j < src.len() ==> !is_digit(src[j]),
    ensures
        digits_end(src, i) == j,
    decreases j - i,
{
    if i < j {
        lemma_digits_end_is(src, i + 1, j);
    }
}

/// A position with only identifier characters before it and another
/// character (or the source's end) at it is where the identifier ends.
pub proof fn lemma_ident_end_is(src: Seq<char>, i: int, j: int)
    requires
        0 <= i <= j <= src.len(),
        forall|k: int| i <= k < j ==> is_alpha_numeric(src[k]),
        j < src.len() ==> !is_alpha_numeric(src[j]),
    ensures
        ident_end(src, i) == j,
    decreases j - i,
{
    if i < j {
        lemma_ident_end_is(src, i + 1, j);
    }
}

/// Newline counts add up over adjacent ranges.
pub proof fn lemma_newline_count_split(src: Seq<char>, i: int, j: int, k: int)
    requires
        i <= j <= k,
    ensures
        newline_count(src, i, k) == newline_count(src, i, j) + newline_count(src, j, k),
    decreases k - j,
{
    if j < k {
        lemma_newline_count_split(src, i, j, k - 1);
    }
}

/// A range without newlines counts none.
pub proof fn lemma_newline_count_none(src: Seq<char>, i: int, j: int)
    requires
        i <= j,
        forall|k: int| i <= k < j ==> src[k] != '\n',
    ensures
        newline_count(src, i, j) == 0,
    decreases j - i,
{
    if i < j {
        lemma_newline_count_none(src, i, j - 1);
    }
}

/// One scan step always consumes at least one character and never runs past
/// the end of the source.
pub proof fn lemma_scan_step_bounds(src: Seq<char>, i: int, line: int)
    requires
        0 <= i < src.len(),
    ensures
        i < scan_step(src, i, line).next <= src.len(),
{
    let c = src[i];
    if c == '/' {
        if i + 1 < src.len() && src[i + 1] == '/' {
            lemma_line_comment_end_bounds(src, i + 2);
        } else if i + 1 < src.len() && src[i + 1] == '*' {
            lemma_block_comment_close_bounds(src, i + 2);
        }
    } else if c == '"' {
        lemma_string_end_bounds(src, i + 1);
    } else if is_digit(c) {
        let whole = digits_end(src, i + 1);
        lemma_digits_end_bounds(src, i + 1);
        if whole < src.len() && src[whole] == '.' && whole + 1 < src.len() && is_digit(
            src[whole + 1],
        ) {
            lemma_digits_end_bounds(src, whole + 1);
        }
    } else if is_alpha(c) {
        lemma_ident_end_bounds(src, i + 1);
    }
}

/// A scan step's line bookkeeping: the line after the step is the line
/// before it plus the newlines the step consumed, and a token the step
/// emits records the line the step began on.
pub proof fn lemma_scan_step_line(src: Seq<char>, i: int, line: int)
    requires
        0 <= i < src.len(),
    ensures
        scan_step(src, i, line).line == line + newline_count(src, i, scan_step(src, i, line).next),
        scan_step(src, i, line).token.is_some() ==> scan_step(src, i, line).token.unwrap().line
            == line,
{
    let st = scan_step(src, i, line);
    let c = src[i];
    lemma_scan_step_bounds(src, i, line);
    if c == '/' && i + 1 < src.len() && src[i + 1] == '/' {
        lemma_line_comment_end_bounds(src, i + 2);
        lemma_newline_count_none(src, i, st.next);
    } else if c == '/' && i + 1 < src.len() && src[i + 1] == '*' {
        let close = block_comment_close(src, i + 2);
        lemma_block_comment_close_bounds(src, i + 2);
        lemma_newline_count_none(src, i, i + 2);
        if close < src.len() {
            lemma_newline_count_split(src, i, i + 2, close);
            lemma_newline_count_split(src, i, close, close + 2);
            lemma_newline_count_none(src, close, close + 2);
        } else {
            lemma_newline_count_split(src, i, i + 2, src.len() as int);
        }
    } else if c == '"' {
        let close = string_end(src, i + 1);
        lemma_string_end_bounds(src, i + 1);
        lemma_newline_count_none(src, i, i + 1);
        if close < src.len() {
            lemma_newline_count_split(src, i, i + 1, close);
            lemma_newline_count_split(src, i, close, close + 1);
            lemma_newline_count_none(src, close, close + 1);
        } else {
            lemma_newline_count_split(src, i, i + 1, close);
        }
    } else if c == '\n' {
        assert(newline_count(src, i, i) == 0);
        assert(newline_count(src, i, i + 1) == 1);
    } else if is_digit(c) {
        let whole = digits_end(src, i + 1);
        lemma_digits_end_bounds(src, i + 1);
        if whole < src.len() && src[whole] == '.' && whole + 1 < src.len() && is_digit(
            src[whole + 1],
        ) {
            lemma_digits_end_bounds(src, whole + 1);
        }
        assert forall|k: int| i <= k < st.next implies src[k] != '\n' by {
            if k == i {
            } else if k < whole {
            } else if k == whole {
            }
        }
        lemma_newline_count_none(src, i, st.next);
    } else if is_alpha(c) {
        lemma_ident_end_bounds(src, i + 1);
        lemma_newline_count_none(src, i, st.next);
    } else {
        lemma_newline_count_none(src, i, st.next);
    }
}

/// The tokens, diagnostics and final line of a scan of `src[i..)` that
/// starts on line `line`.
pub open spec fn scan_from(src: Seq<char>, i: int, line: int) -> ScanOut
    decreases src.len() - i when 0 <= i <= src.len()
{
    if i >= src.len() {
        ScanOut { tokens: seq![], diags: seq![], starts: seq![], end_line: line }
    } else {
        let st = scan_step(src, i, line);
        proof {
            lemma_scan_step_bounds(src, i, line);
        }
        let rest = scan_from(src, st.next, st.line);
        ScanOut {
            tokens: opt_token_seq(st.token) + rest.tokens,
            diags: opt_diag_seq(st.diag) + rest.diags,
            starts: opt_start_seq(st.token, i) + rest.starts,
            end_line: rest.end_line,
        }
    }
}

/// The end-of-file token a scan of `src` is terminated with: empty lexeme,
/// no payload, the final line number.
pub open spec fn eof_token(src: Seq<char>) -> SpecToken {
    SpecToken {
        kind: TokenType::EndOfFile,
        lexeme: Seq::empty(),
        line: scan_from(src, 0, 1).end_line,
        literal: SpecLiteral::NoValue,
    }
}

/// The full token sequence a scan of `src` returns.
pub open spec fn scan_tokens_spec(src: Seq<char>) -> Seq<SpecToken> {
    scan_from(src, 0, 1).tokens.push(eof_token(src))
}

/// The full diagnostic sequence a scan of `src` reports.
pub open spec fn scan_diags_spec(src: Seq<char>) -> Seq<SpecDiagnostic> {
    scan_from(src, 0, 1).diags
}

} // verus!
