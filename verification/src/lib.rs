use vstd::prelude::*;

pub mod span;
pub mod token;
pub mod text;
pub mod json;
pub mod ast;
pub mod diagnostic;
pub mod lexer;
pub mod parser;
pub mod compatibility;
pub mod hir;
pub mod oracle;
pub mod hybrid;
pub mod editor;
pub mod ci;
pub mod enterprise;

use crate::ast::{Program, SoqlQuery};
use crate::diagnostic::Diagnostic;
use crate::lexer::{lex_error, lexed_exactly, lexes_from, spells, spells_kind, token_bounds, valid_token_stream, Lexer};
use crate::parser::{lemma_stream_error_iff_invalid, program_in_source, program_outcome, query_outcome, Parser};
use crate::span::SourceId;
use crate::text::utf8_len;
use crate::token::Token;

verus! {

/// Whether `tokens` is what lexing `text` from `source_id` can give: a valid
/// stream from that source whose end-of-input token sits at the end of the
/// text, whose every token spells the text its span covers, and whose every
/// other token has the kind that its text spells.
pub open spec fn lexed_from(tokens: Seq<Token>, text: Seq<char>, source_id: SourceId) -> bool {
    &&& valid_token_stream(tokens)
    &&& tokens[0].span.source_id == source_id
    &&& tokens.last().span.start == utf8_len(text)
    &&& tokens.last().span.end == utf8_len(text)
    &&& forall|i: int| 0 <= i < tokens.len() ==> (#[trigger] tokens[i]).span.end <= utf8_len(text)
    &&& forall|i: int| 0 <= i < tokens.len() ==> spells(#[trigger] tokens[i], text)
    &&& forall|i: int| 0 <= i < tokens.len() - 1 ==> spells_kind((#[trigger] tokens[i]).kind, tokens[i].lexeme@)
}

/// Whether `error` reports the first lexical error of `text` in `source_id`:
/// its message, and a span over the characters it points at.
pub open spec fn reports_lex_error(error: Diagnostic, text: Seq<char>, source_id: SourceId) -> bool {
    lex_error(text, 0) matches Some((message, a, b)) && error.message@ == message && error.span.source_id == source_id
        && error.span.start == utf8_len(text.take(a)) && error.span.end == utf8_len(text.take(b))
}

/// Tokenizes anonymous source text.
pub fn tokenize(source: &str) -> (result: Result<Vec<Token>, Diagnostic>)
    ensures
        result is Ok <==> lexes_from(source@, 0),
        result matches Ok(tokens) ==> lexed_from(tokens@, source@, SourceId::ANONYMOUS),
        result matches Ok(tokens) ==> lexed_exactly(tokens@, source@, SourceId::ANONYMOUS, 0),
        result matches Err(error) ==> reports_lex_error(error, source@, SourceId::ANONYMOUS),
{
    Lexer::new(source).tokenize()
}

/// Tokenizes source text that belongs to `source_id`.
pub fn tokenize_with_source(source: &str, source_id: SourceId) -> (result: Result<Vec<Token>, Diagnostic>)
    ensures
        result is Ok <==> lexes_from(source@, 0),
        result matches Ok(tokens) ==> lexed_from(tokens@, source@, source_id),
        result matches Ok(tokens) ==> lexed_exactly(tokens@, source@, source_id, 0),
        result matches Err(error) ==> reports_lex_error(error, source@, source_id),
{
    Lexer::with_source(source, source_id).tokenize()
}

/// A parser over a token stream that the lexer produced; such a stream is
/// always accepted.
pub fn parser_from_lexer(tokens: Vec<Token>) -> (result: Parser)
    requires
        valid_token_stream(tokens@),
    ensures
        result.wf(),
        result.token_seq() == tokens@,
        result.position() == 0,
        result.source() == tokens@[0].span.source_id,
{
    assert(tokens@[tokens@.len() - 1] == tokens@.last());
    proof {
        lemma_stream_error_iff_invalid(tokens@);
    }
    Parser::new(tokens).expect("the lexer always emits one ordered, single-source, terminal EOF token stream")
}

/// Parses anonymous source text into a program; everything at its top level
/// lies in the anonymous source. A lexical error is reported as such;
/// otherwise the result is what parsing the lexed tokens gives.
pub fn parse(source: &str) -> (result: Result<Program, Diagnostic>)
    ensures
        result matches Ok(program) ==> program_in_source(program, SourceId::ANONYMOUS),
        !lexes_from(source@, 0) ==> (result matches Err(error) && reports_lex_error(error, source@, SourceId::ANONYMOUS)),
        lexes_from(source@, 0) && token_bounds(source@, 0).len() == 0 ==> (result matches Ok(program)
            && program.classes@.len() == 0 && program.triggers@.len() == 0 && program.methods@.len() == 0
            && program.statements@.len() == 0),
        lexes_from(source@, 0) ==> exists|parser: Parser|
            parser.wf() && parser.position() == 0 && lexed_from(parser.token_seq(), source@, SourceId::ANONYMOUS) && lexed_exactly(
                parser.token_seq(),
                source@,
                SourceId::ANONYMOUS,
                0,
            ) && #[trigger] program_outcome(parser, result),
{
    let tokens = tokenize(source)?;
    let parser = parser_from_lexer(tokens);
    let ghost start = parser;
    let result = parser.parse_program();
    assert(program_outcome(start, result));
    result
}

/// Parses source text that belongs to `source_id` into a program; everything
/// at its top level lies in that source. A lexical error is reported as
/// such; otherwise the result is what parsing the lexed tokens gives.
pub fn parse_with_source(source: &str, source_id: SourceId) -> (result: Result<Program, Diagnostic>)
    ensures
        result matches Ok(program) ==> program_in_source(program, source_id),
        !lexes_from(source@, 0) ==> (result matches Err(error) && reports_lex_error(error, source@, source_id)),
        lexes_from(source@, 0) && token_bounds(source@, 0).len() == 0 ==> (result matches Ok(program)
            && program.classes@.len() == 0 && program.triggers@.len() == 0 && program.methods@.len() == 0
            && program.statements@.len() == 0),
        lexes_from(source@, 0) ==> exists|parser: Parser|
            parser.wf() && parser.position() == 0 && lexed_from(parser.token_seq(), source@, source_id) && lexed_exactly(
                parser.token_seq(),
                source@,
                source_id,
                0,
            ) && #[trigger] program_outcome(parser, result),
{
    let tokens = tokenize_with_source(source, source_id)?;
    let parser = parser_from_lexer(tokens);
    let ghost start = parser;
    let result = parser.parse_program();
    assert(program_outcome(start, result));
    result
}

/// Parses the text of a dynamic SOQL query, which must be the whole input.
/// A lexical error is reported as such; otherwise the result is what
/// parsing the lexed tokens as one query gives.
pub fn parse_dynamic_soql(source: &str) -> (result: Result<SoqlQuery, Diagnostic>)
    ensures
        result matches Ok(query) ==> query.span.source_id == SourceId::ANONYMOUS,
        !lexes_from(source@, 0) ==> (result matches Err(error) && reports_lex_error(error, source@, SourceId::ANONYMOUS)),
        lexes_from(source@, 0) ==> exists|parser: Parser|
            parser.wf() && parser.position() == 0 && lexed_from(parser.token_seq(), source@, SourceId::ANONYMOUS)
                && lexed_exactly(parser.token_seq(), source@, SourceId::ANONYMOUS, 0) && #[trigger] query_outcome(
                parser,
                result,
            ),
{
    let tokens = tokenize(source)?;
    let parser = parser_from_lexer(tokens);
    let ghost start = parser;
    let result = parser.parse_soql_query();
    assert(query_outcome(start, result));
    result
}

/// Every token that lexing gives, but the end-of-input token, covers at
/// least one character, and the parser accepts the whole stream.
pub proof fn lemma_lexed_tokens_are_nonempty(tokens: Seq<Token>, text: Seq<char>, source_id: SourceId)
    requires
        lexed_from(tokens, text, source_id),
        lexed_exactly(tokens, text, source_id, 0),
    ensures
        forall|k: int| 0 <= k < tokens.len() - 1 ==> (#[trigger] tokens[k]).span.start < tokens[k].span.end
            && tokens[k].lexeme@.len() > 0,
        tokens.last().lexeme@.len() == 0,
        crate::parser::stream_error(tokens) is None,
{
    lemma_stream_error_iff_invalid(tokens);
}

/// Every token stream the lexer produces is accepted by the parser.
pub proof fn lemma_lexed_streams_are_accepted(tokens: Seq<Token>, text: Seq<char>, source_id: SourceId)
    requires
        lexed_from(tokens, text, source_id),
    ensures
        crate::parser::stream_error(tokens) is None,
{
    lemma_stream_error_iff_invalid(tokens);
}

} // verus!
