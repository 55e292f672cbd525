use apex_exec::lexer::Lexer;
use apex_exec::token::TokenKind;

#[test]
fn tokenizes_control_flow_and_operator_families_case_insensitively() {
    let source = "IF (count++ <= 10 && !FALSE) { ConTinue; }";
    let kinds: Vec<TokenKind> = Lexer::new(source)
        .tokenize()
        .unwrap()
        .into_iter()
        .map(|token| token.kind)
        .collect();

    assert_eq!(
        kinds,
        vec![
            TokenKind::If,
            TokenKind::LeftParen,
            TokenKind::Identifier("count".to_owned()),
            TokenKind::PlusPlus,
            TokenKind::LessEqual,
            TokenKind::IntegerLiteral(10),
            TokenKind::AndAnd,
            TokenKind::Bang,
            TokenKind::BooleanLiteral(false),
            TokenKind::RightParen,
            TokenKind::LeftBrace,
            TokenKind::Continue,
            TokenKind::Semicolon,
            TokenKind::RightBrace,
            TokenKind::Eof,
        ]
    );
}

#[test]
fn distinguishes_division_from_comments_and_preserves_token_spans() {
    let source = "8 / 2 /* ignored / */ // ignored\nvalue--;";
    let tokens = Lexer::new(source).tokenize().unwrap();

    assert_eq!(tokens[1].kind, TokenKind::Slash);
    assert_eq!(&source[tokens[1].span.start..tokens[1].span.end], "/");
    assert!(
        tokens
            .iter()
            .any(|token| token.kind == TokenKind::MinusMinus)
    );
    assert_eq!(
        tokens
            .iter()
            .filter(|token| token.kind == TokenKind::Slash)
            .count(),
        1
    );
}

#[test]
fn reports_the_full_unterminated_block_comment_span() {
    let source = "Integer value = 1; /* never closed";
    let error = Lexer::new(source).tokenize().unwrap_err();

    assert_eq!(error.message, "unterminated block comment");
    assert_eq!(&source[error.span.start..error.span.end], "/* never closed");
}

#[test]
fn tokenizes_collection_syntax_and_new_case_insensitively() {
    let source = "NeW Map<String, Integer>{'one' => values[0]}; for (String item : items) {}";
    let kinds: Vec<TokenKind> = Lexer::new(source)
        .tokenize()
        .unwrap()
        .into_iter()
        .map(|token| token.kind)
        .collect();

    assert!(matches!(kinds[0], TokenKind::New));
    assert!(kinds.contains(&TokenKind::Comma));
    assert!(kinds.contains(&TokenKind::FatArrow));
    assert!(kinds.contains(&TokenKind::LeftBracket));
    assert!(kinds.contains(&TokenKind::RightBracket));
    assert!(kinds.contains(&TokenKind::Colon));
}

#[test]
fn every_token_spells_the_text_its_span_covers() {
    let source = "Integer é_count = 0; String s = 'naïve\\n'; x >>>= 2;";
    let source = source.replace("é_count", "count");
    let tokens = Lexer::new(&source).tokenize().unwrap();
    for token in &tokens {
        assert_eq!(&source[token.span.start..token.span.end], token.lexeme);
    }
    let last = tokens.last().unwrap();
    assert_eq!(last.kind, TokenKind::Eof);
    assert_eq!(last.lexeme, "");
    assert!(tokens.iter().any(|token| token.kind == TokenKind::UnsignedShiftRightEqual
        && token.lexeme == ">>>="));
}

#[test]
fn kinds_follow_the_spelled_text() {
    let source = "wHiLe Foo 0042 <<= ?. ?? => ~ @";
    let tokens = Lexer::new(source).tokenize().unwrap();
    let kinds: Vec<&TokenKind> = tokens.iter().map(|token| &token.kind).collect();
    assert_eq!(
        kinds,
        vec![
            &TokenKind::While,
            &TokenKind::Identifier("Foo".to_owned()),
            &TokenKind::IntegerLiteral(42),
            &TokenKind::ShiftLeftEqual,
            &TokenKind::SafeNavigation,
            &TokenKind::NullCoalesce,
            &TokenKind::FatArrow,
            &TokenKind::Tilde,
            &TokenKind::At,
            &TokenKind::Eof,
        ]
    );
}

#[test]
fn lexical_errors_name_the_offending_text() {
    let error = Lexer::new("x = \"double\";").tokenize().unwrap_err();
    assert_eq!(error.message, "Apex string literals must use single quotes");
    let error = Lexer::new("x = #;").tokenize().unwrap_err();
    assert_eq!(error.message, "unexpected character `#`");
    assert_eq!((error.span.start, error.span.end), (4, 5));
    let error = Lexer::new("s = 'open").tokenize().unwrap_err();
    assert_eq!(error.message, "unterminated string literal");
    let error = Lexer::new("n = 99999999999999999999;").tokenize().unwrap_err();
    assert_eq!(error.message, "integer literal is out of range");
}

#[test]
fn lexical_error_spans_cover_the_offending_text() {
    let source = "x = \"double\";";
    let error = Lexer::new(source).tokenize().unwrap_err();
    assert_eq!((error.span.start, error.span.end), (4, 5));
    let source = "s = 'open";
    let error = Lexer::new(source).tokenize().unwrap_err();
    assert_eq!(&source[error.span.start..error.span.end], "'open");
    let source = "s = 'line\nrest';";
    let error = Lexer::new(source).tokenize().unwrap_err();
    assert_eq!(&source[error.span.start..error.span.end], "'line\n");
    let source = "n = 99999999999999999999;";
    let error = Lexer::new(source).tokenize().unwrap_err();
    assert_eq!(&source[error.span.start..error.span.end], "99999999999999999999");
}

#[test]
fn string_literal_tokens_carry_their_unescaped_value() {
    let tokens = Lexer::new("'a\\'b\\n\\q'").tokenize().unwrap();
    assert_eq!(tokens.len(), 2);
    assert_eq!(tokens[0].kind, TokenKind::StringLiteral("a'b\n\\q".to_owned()));
    assert_eq!(tokens[0].lexeme, "'a\\'b\\n\\q'");
}

#[test]
fn every_token_but_the_last_covers_some_text() {
    let source = "  a /* c */ += 'x' // tail\n 7";
    let tokens = Lexer::new(source).tokenize().unwrap();
    let lexemes: Vec<&str> = tokens.iter().map(|token| token.lexeme.as_str()).collect();
    assert_eq!(lexemes, ["a", "+=", "'x'", "7", ""]);
    for token in &tokens[..tokens.len() - 1] {
        assert!(token.span.start < token.span.end);
    }
    let end = tokens.last().unwrap();
    assert_eq!((end.span.start, end.span.end), (source.len(), source.len()));
    assert!(apex_exec::parser::Parser::new(tokens).is_ok());
}
