//! Token data model: token kinds, literal payloads, tokens, diagnostics, and
//! the reserved-word table.
//!
//! Lexemes and string payloads are held as `Vec<char>` so that every index in
//! a contract counts characters, never bytes.  A number token carries the
//! digit text it was recognized from; turning that text into a machine
//! floating-point value is left to the caller.

use vstd::prelude::*;
use vstd::string::StrSliceExecFns;

verus! {

/// The closed set of lexeme categories the scanner can emit.
#[derive(Debug, Clone, Copy, PartialEq, Eq, Structural)]
pub enum TokenType {
    LeftParen,
    RightParen,
    LeftBrace,
    RightBrace,
    Comma,
    Dot,
    Minus,
    Plus,
    Semicolon,
    Slash,
    Star,
    Bang,
    BangEqual,
    Equal,
    EqualEqual,
    Greater,
    GreaterEqual,
    Less,
    LessEqual,
    Identifier,
    String,
    Number,
    And,
    Class,
    Else,
    False,
    Fun,
    For,
    If,
    Nil,
    Or,
    Print,
    Return,
    Super,
    This,
    True,
    Var,
    While,
    EndOfFile,
}

/// The literal payload attached to a token: nothing, the decoded text of a
/// string literal, or the digit text of a number literal.
#[derive(Debug, Clone, PartialEq)]
pub enum LiteralType {
    NoValue,
    String(Vec<char>),
    Number(Vec<char>),
}

/// Mathematical image of a [`LiteralType`].
pub ghost enum SpecLiteral {
    NoValue,
    String(Seq<char>),
    Number(Seq<char>),
}

impl View for LiteralType {
    type V = SpecLiteral;

    open spec fn view(&self) -> SpecLiteral {
        match self {
            LiteralType::NoValue => SpecLiteral::NoValue,
            LiteralType::String(s) => SpecLiteral::String(s@),
            LiteralType::Number(s) => SpecLiteral::Number(s@),
        }
    }
}

/// Mathematical image of a [`Token`].
pub ghost struct SpecToken {
    pub kind: TokenType,
    pub lexeme: Seq<char>,
    pub line: int,
    pub literal: SpecLiteral,
}

/// A classified unit of source text: its kind, the exact source substring it
/// was recognized from, the 1-based line on which it starts, and its literal
/// payload.
#[derive(Debug, Clone, PartialEq)]
pub struct Token {
    pub token_type: TokenType,
    pub lexeme: Vec<char>,
    pub line: u64,
    pub literal: LiteralType,
}

impl View for Token {
    type V = SpecToken;

    open spec fn view(&self) -> SpecToken {
        SpecToken {
            kind: self.token_type,
            lexeme: self.lexeme@,
            line: self.line as int,
            literal: self.literal@,
        }
    }
}

impl Token {
    /// Builds a token from its four parts.
    pub fn new(token_type: TokenType, lexeme: Vec<char>, line: u64, literal: LiteralType) -> (t:
        Token)
        ensures
            t@ == (SpecToken {
                kind: token_type,
                lexeme: lexeme@,
                line: line as int,
                literal: literal@,
            }),
    {
        Token { token_type, lexeme, line, literal }
    }
}

/// What went wrong at one place in the source.
#[derive(Debug, Clone, Copy, PartialEq, Eq, Structural)]
pub enum LexErrorKind {
    UnexpectedCharacter,
    UnterminatedString,
    UnterminatedComment,
}

/// Mathematical image of a [`Diagnostic`].
pub ghost struct SpecDiagnostic {
    pub line: int,
    pub kind: LexErrorKind,
}

/// One recoverable lexical error: the 1-based line it was detected on and
/// what kind of error it is.
#[derive(Debug, Clone, Copy, PartialEq, Eq)]
pub struct Diagnostic {
    pub line: u64,
    pub kind: LexErrorKind,
}

impl View for Diagnostic {
    type V = SpecDiagnostic;

    open spec fn view(&self) -> SpecDiagnostic {
        SpecDiagnostic { line: self.line as int, kind: self.kind }
    }
}

/// The reserved-word table: the token kind a spelling stands for, or
/// `Identifier` when the spelling is no reserved word.
pub open spec fn keyword_kind(s: Seq<char>) -> TokenType {
    if s == "and"@ {
        TokenType::And
    } else if s == "class"@ {
        TokenType::Class
    } else if s == "else"@ {
        TokenType::Else
    } else if s == "false"@ {
        TokenType::False
    } else if s == "for"@ {
        TokenType::For
    } else if s == "fun"@ {
        TokenType::Fun
    } else if s == "if"@ {
        TokenType::If
    } else if s == "nil"@ {
        TokenType::Nil
    } else if s == "or"@ {
        TokenType::Or
    } else if s == "print"@ {
        TokenType::Print
    } else if s == "return"@ {
        TokenType::Return
    } else if s == "super"@ {
        TokenType::Super
    } else if s == "this"@ {
        TokenType::This
    } else if s == "true"@ {
        TokenType::True
    } else if s == "var"@ {
        TokenType::Var
    } else if s == "while"@ {
        TokenType::While
    } else {
        TokenType::Identifier
    }
}

/// Compares a lexeme, character by character, against a fixed spelling.
fn lexeme_equals(v: &Vec<char>, s: &str) -> (r: bool)
    ensures
        r == (v@ == s@),
{
    let n: usize = s.unicode_len();
    if v.len() != n {
        proof {
            if v@ == s@ {
                assert(v@.len() == s@.len());
            }
        }
        return false;
    }
    let mut i: usize = 0;
    while i < n
        invariant
            i <= n,
            n == s@.len(),
            v@.len() == n,
            forall|k: int| 0 <= k < i ==> v@[k] == s@[k],
        decreases n - i,
    {
        if v[i] != s.get_char(i) {
            proof {
                if v@ == s@ {
                    assert(v@[i as int] == s@[i as int]);
                }
            }
            return false;
        }
        i += 1;
    }
    proof {
        assert(v@ =~= s@);
    }
    true
}

/// Looks a spelling up in the reserved-word table.
pub fn keyword_or_identifier(text: &Vec<char>) -> (t: TokenType)
    ensures
        t == keyword_kind(text@),
{
    if lexeme_equals(text, "and") {
        TokenType::And
    } else if lexeme_equals(text, "class") {
        TokenType::Class
    } else if lexeme_equals(text, "else") {
        TokenType::Else
    } else if lexeme_equals(text, "false") {
        TokenType::False
    } else if lexeme_equals(text, "for") {
        TokenType::For
    } else if lexeme_equals(text, "fun") {
        TokenType::Fun
    } else if lexeme_equals(text, "if") {
        TokenType::If
    } else if lexeme_equals(text, "nil") {
        TokenType::Nil
    } else if lexeme_equals(text, "or") {
        TokenType::Or
    } else if lexeme_equals(text, "print") {
        TokenType::Print
    } else if lexeme_equals(text, "return") {
        TokenType::Return
    } else if lexeme_equals(text, "super") {
        TokenType::Super
    } else if lexeme_equals(text, "this") {
        TokenType::This
    } else if lexeme_equals(text, "true") {
        TokenType::True
    } else if lexeme_equals(text, "var") {
        TokenType::Var
    } else if lexeme_equals(text, "while") {
        TokenType::While
    } else {
        TokenType::Identifier
    }
}

} // verus!
