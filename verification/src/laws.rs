//! Laws of the scanner, stated over the model and proved once and for all.
//!
//! Each public proof function here states a property of every scan, in terms
//! of the same spec functions the scanner's own contracts use.

use vstd::prelude::*;
use crate::token::{TokenType, SpecToken};
use crate::model::{scan_step, scan_from, scan_tokens_spec, eof_token, is_digit, is_alpha,
    is_alpha_numeric, is_blank, line_comment_end, block_comment_close, digits_end,
    newline_count, lemma_scan_step_bounds, lemma_scan_step_line, lemma_line_comment_end_bounds,
    lemma_block_comment_close_bounds, lemma_digits_end_bounds, lemma_ident_end_bounds,
    lemma_newline_count_split};

verus! {

/// Every scan returns at least one token, and the last one is always the
/// end-of-file token, with an empty lexeme.
pub proof fn lemma_scan_ends_with_eof(src: Seq<char>)
    ensures
        scan_tokens_spec(src).len() >= 1,
        scan_tokens_spec(src).last() == eof_token(src),
        scan_tokens_spec(src).last().kind == TokenType::EndOfFile,
        scan_tokens_spec(src).last().lexeme.len() == 0,
{
}

/// The line a scan ends on is one for every newline in the source, on top
/// of the line it began on.
pub proof fn lemma_scan_from_end_line(src: Seq<char>, i: int, line: int)
    requires
        0 <= i <= src.len(),
    ensures
        scan_from(src, i, line).end_line == line + newline_count(src, i, src.len() as int),
    decreases src.len() - i,
{
    if i >= src.len() {
        assert(newline_count(src, i, i) == 0);
    } else {
        let st = scan_step(src, i, line);
        lemma_scan_step_bounds(src, i, line);
        lemma_scan_step_line(src, i, line);
        lemma_scan_from_end_line(src, st.next, st.line);
        lemma_newline_count_split(src, i, st.next, src.len() as int);
    }
}

/// Every token of a scan of `src[i..)` starting on line `line` records the
/// line its lexeme begins on: `line` plus the newlines between `i` and the
/// position it was recognized at.
pub proof fn lemma_scan_from_lines(src: Seq<char>, i: int, line: int)
    requires
        0 <= i <= src.len(),
    ensures
        scan_from(src, i, line).starts.len() == scan_from(src, i, line).tokens.len(),
        forall|k: int|
            0 <= k < scan_from(src, i, line).tokens.len() ==> i <= #[trigger] scan_from(
                src,
                i,
                line,
            ).starts[k] <= src.len(),
        forall|k: int|
            0 <= k < scan_from(src, i, line).tokens.len() ==> #[trigger] scan_from(
                src,
                i,
                line,
            ).tokens[k].line == line + newline_count(src, i, scan_from(src, i, line).starts[k]),
    decreases src.len() - i,
{
    if i < src.len() {
        let st = scan_step(src, i, line);
        lemma_scan_step_bounds(src, i, line);
        lemma_scan_step_line(src, i, line);
        lemma_scan_from_lines(src, st.next, st.line);
        let out = scan_from(src, i, line);
        let rest = scan_from(src, st.next, st.line);
        let shift: int = if st.token.is_some() {
            1int
        } else {
            0int
        };
        assert forall|k: int|
            0 <= k < out.tokens.len() implies i <= #[trigger] out.starts[k] <= src.len()
            && out.tokens[k].line == line + newline_count(src, i, out.starts[k]) by {
            if st.token.is_some() && k == 0 {
                assert(newline_count(src, i, i) == 0);
            } else {
                assert(out.tokens[k] == rest.tokens[k - shift]);
                assert(out.starts[k] == rest.starts[k - shift]);
                lemma_newline_count_split(src, i, st.next, rest.starts[k - shift]);
            }
        }
    }
}

/// Every token a scan of a whole source emits records one more than the
/// number of newline characters strictly preceding the position it was
/// recognized at, and the end-of-file token records the final line.
pub proof fn lemma_token_line_numbering(src: Seq<char>)
    ensures
        scan_from(src, 0, 1).starts.len() == scan_from(src, 0, 1).tokens.len(),
        forall|k: int|
            0 <= k < scan_from(src, 0, 1).tokens.len() ==> #[trigger] scan_from(
                src,
                0,
                1,
            ).tokens[k].line == 1 + newline_count(src, 0, scan_from(src, 0, 1).starts[k]),
        eof_token(src).line == 1 + newline_count(src, 0, src.len() as int),
{
    lemma_scan_from_lines(src, 0, 1);
    lemma_scan_from_end_line(src, 0, 1);
}

/// The characters the scanner accepts without reporting an unexpected
/// character.
pub open spec fn valid_char(c: char) -> bool {
    ||| c == '(' ||| c == ')' ||| c == '{' ||| c == '}' ||| c == ',' ||| c == '.' ||| c == '-'
    ||| c == '+' ||| c == ';' ||| c == '*' ||| c == '/' ||| c == '!' ||| c == '=' ||| c == '<'
    ||| c == '>' ||| is_blank(c) ||| c == '\n' ||| c == '"' ||| is_digit(c) ||| is_alpha(c)
}

/// The source text with whitespace and comments removed: whitespace and
/// newlines are dropped, a `//` comment is dropped up to its line's end, a
/// `/*` comment is dropped through its closer or to the source's end, and
/// every other character is kept.
pub open spec fn significant_text(src: Seq<char>, i: int) -> Seq<char>
    decreases src.len() - i when 0 <= i <= src.len()
{
    if i >= src.len() {
        Seq::empty()
    } else if is_blank(src[i]) || src[i] == '\n' {
        significant_text(src, i + 1)
    } else if src[i] == '/' && i + 1 < src.len() && src[i + 1] == '/' {
        proof {
            lemma_line_comment_end_bounds(src, i + 2);
        }
        significant_text(src, line_comment_end(src, i + 2))
    } else if src[i] == '/' && i + 1 < src.len() && src[i + 1] == '*' {
        proof {
            lemma_block_comment_close_bounds(src, i + 2);
        }
        if block_comment_close(src, i + 2) < src.len() {
            significant_text(src, block_comment_close(src, i + 2) + 2)
        } else {
            Seq::empty()
        }
    } else {
        seq![src[i]] + significant_text(src, i + 1)
    }
}

/// The concatenation of the lexemes of a token sequence.
pub open spec fn concat_lexemes(ts: Seq<SpecToken>) -> Seq<char>
    decreases ts.len(),
{
    if ts.len() == 0 {
        Seq::empty()
    } else {
        ts[0].lexeme + concat_lexemes(ts.subrange(1, ts.len() as int))
    }
}

proof fn lemma_concat_cons(t: SpecToken, ts: Seq<SpecToken>)
    ensures
        concat_lexemes(seq![t] + ts) == t.lexeme + concat_lexemes(ts),
{
    let s = seq![t] + ts;
    assert(s[0] == t);
    assert(s.subrange(1, s.len() as int) =~= ts);
}

proof fn lemma_concat_nil(ts: Seq<SpecToken>)
    ensures
        concat_lexemes(Seq::<SpecToken>::empty() + ts) == concat_lexemes(ts),
{
    assert(Seq::<SpecToken>::empty() + ts =~= ts);
}

/// A run of characters that are neither whitespace nor newlines nor
/// slashes is copied through unchanged.
proof fn lemma_significant_run(src: Seq<char>, a: int, b: int)
    requires
        0 <= a <= b <= src.len(),
        forall|k: int|
            a <= k < b ==> !is_blank(#[trigger] src[k]) && src[k] != '\n' && src[k] != '/',
    ensures
        significant_text(src, a) == src.subrange(a, b) + significant_text(src, b),
    decreases b - a,
{
    if a == b {
        assert(src.subrange(a, b) =~= Seq::<char>::empty());
        assert(Seq::<char>::empty() + significant_text(src, b) =~= significant_text(src, b));
    } else {
        lemma_significant_run(src, a + 1, b);
        assert(seq![src[a]] + (src.subrange(a + 1, b) + significant_text(src, b)) =~= src.subrange(
            a,
            b,
        ) + significant_text(src, b));
    }
}

proof fn lemma_round_trip_from(src: Seq<char>, i: int, line: int)
    requires
        0 <= i <= src.len(),
        forall|k: int| 0 <= k < src.len() ==> valid_char(#[trigger] src[k]),
        forall|k: int| 0 <= k < src.len() ==> #[trigger] src[k] != '"',
    ensures
        concat_lexemes(scan_from(src, i, line).tokens) == significant_text(src, i),
    decreases src.len() - i,
{
    if i < src.len() {
        let st = scan_step(src, i, line);
        let c = src[i];
        lemma_scan_step_bounds(src, i, line);
        lemma_round_trip_from(src, st.next, st.line);
        let rest = scan_from(src, st.next, st.line);
        if is_blank(c) || c == '\n' {
            lemma_concat_nil(rest.tokens);
        } else if c == '/' && i + 1 < src.len() && src[i + 1] == '/' {
            lemma_line_comment_end_bounds(src, i + 2);
            lemma_concat_nil(rest.tokens);

        } else if c == '/' && i + 1 < src.len() && src[i + 1] == '*' {
            lemma_block_comment_close_bounds(src, i + 2);
            lemma_concat_nil(rest.tokens);

        } else if c == '!' || c == '=' || c == '<' || c == '>' {
            let t = st.token.unwrap();
            lemma_concat_cons(t, rest.tokens);
            if i + 1 < src.len() && src[i + 1] == '=' {
                assert(st.next == i + 2);
                assert(t.lexeme == src.subrange(i, i + 2));
                assert(significant_text(src, i) == seq![src[i]] + significant_text(src, i + 1));
                assert(significant_text(src, i + 1) == seq![src[i + 1]] + significant_text(src, i + 2));
                assert(concat_lexemes(rest.tokens) == significant_text(src, i + 2));
                assert(seq![src[i]] + (seq![src[i + 1]] + significant_text(src, i + 2))
                    =~= src.subrange(i, i + 2) + significant_text(src, i + 2));
            } else {
                assert(st.next == i + 1);
                assert(t.lexeme == src.subrange(i, i + 1));
                assert(significant_text(src, i) == seq![src[i]] + significant_text(src, i + 1));
                assert(concat_lexemes(rest.tokens) == significant_text(src, i + 1));
                assert(seq![src[i]] + significant_text(src, i + 1) =~= src.subrange(i, i + 1)
                    + significant_text(src, i + 1));
            }
        } else if is_digit(c) {
            let t = st.token.unwrap();
            lemma_concat_cons(t, rest.tokens);
            let whole = digits_end(src, i + 1);
            lemma_digits_end_bounds(src, i + 1);
            if whole < src.len() && src[whole] == '.' && whole + 1 < src.len() && is_digit(
                src[whole + 1],
            ) {
                lemma_digits_end_bounds(src, whole + 1);
            }
            assert forall|k: int|
                i <= k < st.next implies !is_blank(#[trigger] src[k]) && src[k] != '\n'
                && src[k] != '/' by {
                if k == i {
                    assert(is_digit(src[k]));
                } else if k < whole {
                    assert(is_digit(src[k]));
                } else if k == whole {
                    assert(src[k] == '.');
                } else {
                    assert(is_digit(src[k]));
                }
            }
            lemma_significant_run(src, i, st.next);
        } else if is_alpha(c) {
            let t = st.token.unwrap();
            lemma_concat_cons(t, rest.tokens);
            lemma_ident_end_bounds(src, i + 1);
            assert forall|k: int|
                i <= k < st.next implies !is_blank(#[trigger] src[k]) && src[k] != '\n'
                && src[k] != '/' by {
                if k == i {
                    assert(is_alpha(src[k]));
                } else {
                    assert(is_alpha_numeric(src[k]));
                }
            }
            lemma_significant_run(src, i, st.next);
        } else {
            let t = st.token.unwrap();
            lemma_concat_cons(t, rest.tokens);
            assert(seq![src[i]] + significant_text(src, i + 1) =~= src.subrange(i, i + 1)
                + significant_text(src, i + 1));
        }
    }
}

/// Scanning loses nothing significant: over a source that holds no invalid
/// character and no string literal, the concatenation of all token lexemes
/// is exactly the source text with whitespace and comments removed.  (A
/// string token's lexeme is the literal's interior, without the enclosing
/// quotes, so a source with string literals reconstructs only their
/// interiors; quoted sources are therefore left out here.)
pub proof fn lemma_lexeme_round_trip(src: Seq<char>)
    requires
        forall|k: int| 0 <= k < src.len() ==> valid_char(#[trigger] src[k]),
        forall|k: int| 0 <= k < src.len() ==> #[trigger] src[k] != '"',
    ensures
        concat_lexemes(scan_from(src, 0, 1).tokens) == significant_text(src, 0),
{
    lemma_round_trip_from(src, 0, 1);
}

} // verus!

