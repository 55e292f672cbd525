use apex_exec::span::SourceId;

#[test]
fn public_parse_retains_anonymous_source_identity() {
    let program = apex_exec::parse("Integer value = 1;").unwrap();
    assert_eq!(program.statements[0].span().source_id, SourceId::ANONYMOUS);
}

use apex_exec::ast::Statement;
use apex_exec::diagnostic::Diagnostic;
use apex_exec::parser::{Parser, TokenStreamErrorKind};
use apex_exec::span::Span;
use apex_exec::token::{Token, TokenKind};

#[test]
fn numbered_sources_reach_every_top_level_item() {
    let source_id = SourceId::new(7);
    let program = apex_exec::parse_with_source(
        "trigger T on Account (before insert) {} public class C {} void m() {} Integer x = 1;",
        source_id,
    )
    .unwrap();
    assert_eq!(program.triggers[0].span.source_id, source_id);
    assert_eq!(program.classes[0].span.source_id, source_id);
    assert_eq!(program.methods[0].span.source_id, source_id);
    assert!(matches!(&program.statements[0], Statement::VariableDeclaration { .. }));
    assert_eq!(program.statements[0].span().source_id, source_id);
}

#[test]
fn lexed_streams_end_at_the_end_of_the_text_and_are_accepted() {
    let text = "String s = 'é';";
    let tokens = apex_exec::tokenize_with_source(text, SourceId::new(2)).unwrap();
    let last = tokens.last().unwrap();
    assert_eq!(last.kind, TokenKind::Eof);
    assert_eq!((last.span.start, last.span.end), (text.len(), text.len()));
    assert!(tokens.iter().all(|token| token.span.source_id == SourceId::new(2)));
    let program = apex_exec::parser_from_lexer(tokens).parse_program().unwrap();
    assert_eq!(program.statements.len(), 1);
}

#[test]
fn dynamic_soql_must_span_the_whole_input() {
    let query = apex_exec::parse_dynamic_soql("SELECT Id FROM Account WHERE Name = :name").unwrap();
    assert_eq!(query.span.source_id, SourceId::ANONYMOUS);
    let error = apex_exec::parse_dynamic_soql("SELECT Id FROM Account extra").unwrap_err();
    assert_eq!(error.message, "unexpected token after dynamic SOQL query");
}

fn token(kind: TokenKind, source_id: SourceId, start: usize, end: usize) -> Token {
    Token { kind, span: Span::new_in(source_id, start, end), lexeme: String::new() }
}

#[test]
fn malformed_token_streams_are_refused_with_their_first_fault() {
    let a = SourceId::ANONYMOUS;
    let empty = Parser::new(Vec::new()).err().unwrap();
    assert_eq!(empty.kind, TokenStreamErrorKind::Empty);
    assert_eq!(empty.offending_span, None);
    assert_eq!(empty.message(), "parser token stream is empty");

    let missing = Parser::new(vec![token(TokenKind::Semicolon, a, 0, 1)]).err().unwrap();
    assert_eq!(missing.kind, TokenStreamErrorKind::MissingEof);

    let interior = Parser::new(vec![token(TokenKind::Eof, a, 0, 0), token(TokenKind::Eof, a, 0, 0)])
        .err()
        .unwrap();
    assert_eq!(interior.kind, TokenStreamErrorKind::InteriorEof);

    let mixed = Parser::new(vec![
        token(TokenKind::Semicolon, a, 0, 1),
        token(TokenKind::Eof, SourceId::new(1), 1, 1),
    ])
    .err()
    .unwrap();
    assert_eq!(mixed.kind, TokenStreamErrorKind::MixedSource);

    let reversed = Parser::new(vec![token(TokenKind::Semicolon, a, 2, 1), token(TokenKind::Eof, a, 2, 2)])
        .err()
        .unwrap();
    assert_eq!(reversed.kind, TokenStreamErrorKind::ReversedSpan);
    assert_eq!(reversed.offending_span, Some(Span::new(2, 1)));

    let backwards = Parser::new(vec![token(TokenKind::Semicolon, a, 3, 4), token(TokenKind::Eof, a, 1, 1)])
        .err()
        .unwrap();
    assert_eq!(backwards.kind, TokenStreamErrorKind::NonMonotonicSpan);

    let overlap = Parser::new(vec![token(TokenKind::Semicolon, a, 0, 4), token(TokenKind::Eof, a, 2, 4)])
        .err()
        .unwrap();
    assert_eq!(overlap.kind, TokenStreamErrorKind::OverlappingSpan);

    assert!(Parser::new(vec![token(TokenKind::Eof, a, 0, 0)]).is_ok());
}

#[test]
fn unrenderable_spans_are_detected_before_rendering() {
    let source = "é";
    let inside = Diagnostic::new("bad", Span::new(1, 2));
    assert!(!inside.is_renderable(source));
    let whole = Diagnostic::new("ok", Span::new(0, 2));
    assert!(whole.is_renderable(source));
    assert!(whole.render("x.apex", source).ends_with("^"));
    let reversed = Diagnostic::new("bad", Span::new(2, 0));
    assert!(!reversed.is_renderable(source));
}

#[test]
fn dynamic_soql_keeps_its_where_comparison() {
    let query = apex_exec::parse_dynamic_soql("SELECT Id FROM Account WHERE Name = 'Acme'").unwrap();
    assert_eq!(query.select.len(), 1);
    assert_eq!(query.from.spelling, "Account");
    assert!(matches!(
        query.where_clause,
        Some(apex_exec::ast::SoqlCondition::Comparison {
            operator: apex_exec::ast::SoqlComparisonOperator::Equal,
            right: apex_exec::ast::SoqlValue::String(ref value, _),
            ..
        }) if value == "Acme"
    ));
    assert!(query.limit.is_none());
}
