use lox_scanner::scanner::Scanner;
use lox_scanner::token::{Diagnostic, LexErrorKind, LiteralType, Token, TokenType};

fn chars(s: &str) -> Vec<char> {
    s.chars().collect()
}

fn scan(source: &str) -> (Vec<Token>, Vec<Diagnostic>) {
    let mut scanner = Scanner::new(source.to_string());
    let tokens = scanner.scan_tokens().clone();
    let diagnostics = scanner.diagnostics().clone();
    (tokens, diagnostics)
}

fn kinds(tokens: &[Token]) -> Vec<TokenType> {
    tokens.iter().map(|t| t.token_type).collect()
}

#[test]
fn empty_input_yields_only_eof() {
    let (tokens, diagnostics) = scan("");
    assert_eq!(tokens.len(), 1);
    assert_eq!(tokens[0].token_type, TokenType::EndOfFile);
    assert_eq!(tokens[0].lexeme, chars(""));
    assert_eq!(tokens[0].line, 1);
    assert_eq!(tokens[0].literal, LiteralType::NoValue);
    assert!(diagnostics.is_empty());
}

#[test]
fn last_token_is_always_eof_with_empty_lexeme() {
    for source in ["var x", "\"abc", "@#$", "1 + 2 // done", "/* open"] {
        let (tokens, _) = scan(source);
        let last = tokens.last().unwrap();
        assert_eq!(last.token_type, TokenType::EndOfFile);
        assert!(last.lexeme.is_empty());
    }
}

#[test]
fn single_character_tokens() {
    let (tokens, diagnostics) = scan("(){},.-+;*");
    assert_eq!(
        kinds(&tokens),
        vec![
            TokenType::LeftParen,
            TokenType::RightParen,
            TokenType::LeftBrace,
            TokenType::RightBrace,
            TokenType::Comma,
            TokenType::Dot,
            TokenType::Minus,
            TokenType::Plus,
            TokenType::Semicolon,
            TokenType::Star,
            TokenType::EndOfFile,
        ]
    );
    assert!(diagnostics.is_empty());
    assert_eq!(tokens[0].lexeme, chars("("));
}

#[test]
fn one_and_two_character_operators() {
    let (tokens, _) = scan("! != = == < <= > >=");
    assert_eq!(
        kinds(&tokens),
        vec![
            TokenType::Bang,
            TokenType::BangEqual,
            TokenType::Equal,
            TokenType::EqualEqual,
            TokenType::Less,
            TokenType::LessEqual,
            TokenType::Greater,
            TokenType::GreaterEqual,
            TokenType::EndOfFile,
        ]
    );
    assert_eq!(tokens[1].lexeme, chars("!="));
    assert_eq!(tokens[3].lexeme, chars("=="));
}

#[test]
fn bang_equal_is_one_token() {
    let (tokens, diagnostics) = scan("!=");
    assert_eq!(kinds(&tokens), vec![TokenType::BangEqual, TokenType::EndOfFile]);
    assert_eq!(tokens[0].lexeme, chars("!="));
    assert!(diagnostics.is_empty());
}

#[test]
fn bang_before_other_character_is_bang_then_that_token() {
    let (tokens, diagnostics) = scan("!;");
    assert_eq!(
        kinds(&tokens),
        vec![TokenType::Bang, TokenType::Semicolon, TokenType::EndOfFile]
    );
    assert_eq!(tokens[0].lexeme, chars("!"));
    assert_eq!(tokens[1].lexeme, chars(";"));
    assert!(diagnostics.is_empty());
}

#[test]
fn slash_token_when_no_comment_follows() {
    let (tokens, _) = scan("8/2");
    assert_eq!(
        kinds(&tokens),
        vec![TokenType::Number, TokenType::Slash, TokenType::Number, TokenType::EndOfFile]
    );
}

#[test]
fn line_comment_without_trailing_newline_yields_only_eof() {
    let (tokens, diagnostics) = scan("// comment only");
    assert_eq!(tokens.len(), 1);
    assert_eq!(tokens[0].token_type, TokenType::EndOfFile);
    assert!(diagnostics.is_empty());
}

#[test]
fn line_comment_ends_at_newline() {
    let (tokens, _) = scan("// note\nvar");
    assert_eq!(kinds(&tokens), vec![TokenType::Var, TokenType::EndOfFile]);
    assert_eq!(tokens[0].line, 2);
}

#[test]
fn block_comment_is_skipped_and_tracks_lines() {
    let (tokens, diagnostics) = scan("/* first\nsecond */ +");
    assert_eq!(kinds(&tokens), vec![TokenType::Plus, TokenType::EndOfFile]);
    assert_eq!(tokens[0].line, 2);
    assert!(diagnostics.is_empty());
}

#[test]
fn block_comment_star_without_slash_does_not_close() {
    let (tokens, diagnostics) = scan("/* a *b */;");
    assert_eq!(kinds(&tokens), vec![TokenType::Semicolon, TokenType::EndOfFile]);
    assert!(diagnostics.is_empty());
}

#[test]
fn unterminated_block_comment_reports_error() {
    let (tokens, diagnostics) = scan("/* open\n");
    assert_eq!(kinds(&tokens), vec![TokenType::EndOfFile]);
    assert_eq!(diagnostics.len(), 1);
    assert_eq!(diagnostics[0].kind, LexErrorKind::UnterminatedComment);
    assert_eq!(diagnostics[0].line, 2);
}

#[test]
fn empty_string_literal_yields_empty_payload() {
    let (tokens, diagnostics) = scan("\"\"");
    assert_eq!(kinds(&tokens), vec![TokenType::String, TokenType::EndOfFile]);
    assert_eq!(tokens[0].lexeme, chars(""));
    assert_eq!(tokens[0].literal, LiteralType::String(chars("")));
    assert!(diagnostics.is_empty());
}

#[test]
fn string_literal_payload_is_interior_text() {
    let (tokens, diagnostics) = scan("\"hello\" ;");
    assert_eq!(kinds(&tokens), vec![TokenType::String, TokenType::Semicolon, TokenType::EndOfFile]);
    assert_eq!(tokens[0].lexeme, chars("hello"));
    assert_eq!(tokens[0].literal, LiteralType::String(chars("hello")));
    assert!(diagnostics.is_empty());
}

#[test]
fn string_literal_spanning_lines_starts_on_its_first_line() {
    let (tokens, _) = scan("\"a\nb\" +");
    assert_eq!(kinds(&tokens), vec![TokenType::String, TokenType::Plus, TokenType::EndOfFile]);
    assert_eq!(tokens[0].line, 1);
    assert_eq!(tokens[0].literal, LiteralType::String(chars("a\nb")));
    assert_eq!(tokens[1].line, 2);
}

#[test]
fn unterminated_string_reports_one_error_and_still_ends() {
    let (tokens, diagnostics) = scan("\"abc");
    assert_eq!(kinds(&tokens), vec![TokenType::EndOfFile]);
    assert_eq!(diagnostics.len(), 1);
    assert_eq!(diagnostics[0].kind, LexErrorKind::UnterminatedString);
    assert_eq!(diagnostics[0].line, 1);
}

#[test]
fn integer_number_token() {
    let (tokens, diagnostics) = scan("123");
    assert_eq!(kinds(&tokens), vec![TokenType::Number, TokenType::EndOfFile]);
    assert_eq!(tokens[0].lexeme, chars("123"));
    assert_eq!(tokens[0].literal, LiteralType::Number(chars("123")));
    assert!(diagnostics.is_empty());
}

#[test]
fn decimal_number_token_parses_to_expected_value() {
    let (tokens, _) = scan("123.45");
    assert_eq!(kinds(&tokens), vec![TokenType::Number, TokenType::EndOfFile]);
    assert_eq!(tokens[0].lexeme, chars("123.45"));
    match &tokens[0].literal {
        LiteralType::Number(digits) => {
            let text: String = digits.iter().collect();
            let value: f64 = text.parse().unwrap();
            assert_eq!(value, 123.45);
        }
        other => panic!("expected a number payload, got {:?}", other),
    }
}

#[test]
fn trailing_dot_is_not_part_of_the_number() {
    let (tokens, diagnostics) = scan("123.");
    assert_eq!(kinds(&tokens), vec![TokenType::Number, TokenType::Dot, TokenType::EndOfFile]);
    assert_eq!(tokens[0].lexeme, chars("123"));
    assert_eq!(tokens[1].lexeme, chars("."));
    assert!(diagnostics.is_empty());
}

#[test]
fn keyword_needs_exact_maximal_match() {
    let (tokens, diagnostics) = scan("or1");
    assert_eq!(kinds(&tokens), vec![TokenType::Identifier, TokenType::EndOfFile]);
    assert_eq!(tokens[0].lexeme, chars("or1"));
    assert!(diagnostics.is_empty());
}

#[test]
fn all_reserved_words_are_recognized() {
    let source =
        "and class else false for fun if nil or print return super this true var while";
    let (tokens, diagnostics) = scan(source);
    assert_eq!(
        kinds(&tokens),
        vec![
            TokenType::And,
            TokenType::Class,
            TokenType::Else,
            TokenType::False,
            TokenType::For,
            TokenType::Fun,
            TokenType::If,
            TokenType::Nil,
            TokenType::Or,
            TokenType::Print,
            TokenType::Return,
            TokenType::Super,
            TokenType::This,
            TokenType::True,
            TokenType::Var,
            TokenType::While,
            TokenType::EndOfFile,
        ]
    );
    assert!(diagnostics.is_empty());
}

#[test]
fn identifiers_may_hold_underscores_and_digits() {
    let (tokens, _) = scan("_foo bar_2");
    assert_eq!(
        kinds(&tokens),
        vec![TokenType::Identifier, TokenType::Identifier, TokenType::EndOfFile]
    );
    assert_eq!(tokens[0].lexeme, chars("_foo"));
    assert_eq!(tokens[1].lexeme, chars("bar_2"));
}

#[test]
fn unexpected_character_is_reported_and_skipped() {
    let (tokens, diagnostics) = scan("@+");
    assert_eq!(kinds(&tokens), vec![TokenType::Plus, TokenType::EndOfFile]);
    assert_eq!(diagnostics.len(), 1);
    assert_eq!(diagnostics[0].kind, LexErrorKind::UnexpectedCharacter);
    assert_eq!(diagnostics[0].line, 1);
}

#[test]
fn each_bad_character_gets_its_own_report() {
    let (tokens, diagnostics) = scan("#\n$");
    assert_eq!(kinds(&tokens), vec![TokenType::EndOfFile]);
    assert_eq!(diagnostics.len(), 2);
    assert_eq!(diagnostics[0].line, 1);
    assert_eq!(diagnostics[1].line, 2);
}

#[test]
fn token_lines_count_preceding_newlines() {
    let (tokens, _) = scan("a\nb\n\ncd");
    assert_eq!(
        kinds(&tokens),
        vec![
            TokenType::Identifier,
            TokenType::Identifier,
            TokenType::Identifier,
            TokenType::EndOfFile,
        ]
    );
    assert_eq!(tokens[0].line, 1);
    assert_eq!(tokens[1].line, 2);
    assert_eq!(tokens[2].line, 4);
    assert_eq!(tokens[3].line, 4);
}

#[test]
fn eof_line_counts_trailing_newlines() {
    let (tokens, _) = scan("a\n");
    assert_eq!(tokens.last().unwrap().line, 2);
}

#[test]
fn lexemes_reconstruct_significant_text() {
    let (tokens, diagnostics) = scan("var x = 10; // set x\n/* skip */ x <= 2");
    let joined: String = tokens
        .iter()
        .flat_map(|t| t.lexeme.iter())
        .collect();
    assert_eq!(joined, "varx=10;x<=2");
    assert!(diagnostics.is_empty());
}

#[test]
fn whitespace_forms_are_skipped() {
    let (tokens, diagnostics) = scan(" \t\r ;\t");
    assert_eq!(kinds(&tokens), vec![TokenType::Semicolon, TokenType::EndOfFile]);
    assert!(diagnostics.is_empty());
}

#[test]
fn mixed_statement_scans_in_order() {
    let (tokens, diagnostics) = scan("if (x != 3.5) { print \"ok\"; }");
    assert_eq!(
        kinds(&tokens),
        vec![
            TokenType::If,
            TokenType::LeftParen,
            TokenType::Identifier,
            TokenType::BangEqual,
            TokenType::Number,
            TokenType::RightParen,
            TokenType::LeftBrace,
            TokenType::Print,
            TokenType::String,
            TokenType::Semicolon,
            TokenType::RightBrace,
            TokenType::EndOfFile,
        ]
    );
    assert!(diagnostics.is_empty());
}
