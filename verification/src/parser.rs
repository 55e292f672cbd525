use vstd::prelude::*;

use crate::ast::{ClassDeclaration, Identifier, Program};
use crate::diagnostic::Diagnostic;
use crate::lexer::valid_token_stream;
use crate::span::{SourceId, Span};
use crate::text::{ascii_lower, chars_are, chars_of, eq_ignore_ascii_case, eq_ignore_case, push_range, string_from_chars};
use crate::token::{Token, TokenKind};

mod declarations;
mod expressions;
mod queries;
mod statements;
mod types;

use declarations::sharing_at;
use expressions::{binary_at, lemma_binary_at_shift};
use statements::{declaration_head_ahead, dml_keyword_at};
use types::{annotation_prefix_end, modifier_prefix_end, token_or_last};

verus! {

/// A recursive-descent parser over one validated token stream.
pub struct Parser {
    tokens: Vec<Token>,
    cursor: usize,
    pending_types: Vec<ClassDeclaration>,
}

/// Stable categories for malformed raw token streams supplied to [`Parser`].
#[derive(Clone, Copy, Debug, PartialEq, Eq, Structural)]
pub enum TokenStreamErrorKind {
    Empty,
    MissingEof,
    InteriorEof,
    MixedSource,
    ReversedSpan,
    NonMonotonicSpan,
    OverlappingSpan,
}

/// Structural failure found before parser lookahead reads a raw token stream.
#[derive(Clone, Copy, Debug, PartialEq, Eq, Structural)]
pub struct TokenStreamError {
    /// Machine-readable invariant that failed.
    pub kind: TokenStreamErrorKind,
    /// Real source span that exposed the failure, or `None` for an empty stream.
    pub offending_span: Option<Span>,
}

impl TokenStreamError {
    fn new(kind: TokenStreamErrorKind, offending_span: Option<Span>) -> (result: Self)
        ensures
            result == (TokenStreamError { kind, offending_span }),
    {
        TokenStreamError { kind, offending_span }
    }

    pub open spec fn spec_message(self) -> Seq<char> {
        match self.kind {
            TokenStreamErrorKind::Empty => "parser token stream is empty"@,
            TokenStreamErrorKind::MissingEof => "parser token stream must end with exactly one EOF token"@,
            TokenStreamErrorKind::InteriorEof => "parser token stream contains an EOF token before its end"@,
            TokenStreamErrorKind::MixedSource => "parser token stream contains spans from multiple sources"@,
            TokenStreamErrorKind::ReversedSpan => "parser token stream contains a span whose start exceeds its end"@,
            TokenStreamErrorKind::NonMonotonicSpan => "parser token stream spans are not in source order"@,
            TokenStreamErrorKind::OverlappingSpan => "parser token stream contains overlapping spans"@,
        }
    }

    pub fn message(&self) -> (result: &'static str)
        ensures
            result@ == self.spec_message(),
    {
        match self.kind {
            TokenStreamErrorKind::Empty => "parser token stream is empty",
            TokenStreamErrorKind::MissingEof => "parser token stream must end with exactly one EOF token",
            TokenStreamErrorKind::InteriorEof => "parser token stream contains an EOF token before its end",
            TokenStreamErrorKind::MixedSource => "parser token stream contains spans from multiple sources",
            TokenStreamErrorKind::ReversedSpan => "parser token stream contains a span whose start exceeds its end",
            TokenStreamErrorKind::NonMonotonicSpan => "parser token stream spans are not in source order",
            TokenStreamErrorKind::OverlappingSpan => "parser token stream contains overlapping spans",
        }
    }
}

/// The first structural fault of token `i`, checked against the first token and its predecessor.
pub open spec fn token_fault(tokens: Seq<Token>, i: int) -> Option<TokenStreamErrorKind> {
    if tokens[i].span.source_id != tokens[0].span.source_id {
        Some(TokenStreamErrorKind::MixedSource)
    } else if tokens[i].span.start > tokens[i].span.end {
        Some(TokenStreamErrorKind::ReversedSpan)
    } else if i > 0 && tokens[i].span.start < tokens[i - 1].span.start {
        Some(TokenStreamErrorKind::NonMonotonicSpan)
    } else if i > 0 && tokens[i].span.start < tokens[i - 1].span.end {
        Some(TokenStreamErrorKind::OverlappingSpan)
    } else {
        None
    }
}

/// Index of the first token at or after `i` that has a structural fault.
pub open spec fn first_fault(tokens: Seq<Token>, i: int) -> Option<int>
    decreases tokens.len() - i,
{
    if i < 0 || i >= tokens.len() {
        None
    } else if token_fault(tokens, i) is Some {
        Some(i)
    } else {
        first_fault(tokens, i + 1)
    }
}

/// Index of the first end-of-input token in `i..limit`.
pub open spec fn first_eof(tokens: Seq<Token>, i: int, limit: int) -> Option<int>
    decreases limit - i,
{
    if i < 0 || i >= limit || limit > tokens.len() {
        None
    } else if tokens[i].kind is Eof {
        Some(i)
    } else {
        first_eof(tokens, i + 1, limit)
    }
}

/// The failure that [`Parser::new`] reports for a raw token stream, if any.
pub open spec fn stream_error(tokens: Seq<Token>) -> Option<TokenStreamError> {
    if tokens.len() == 0 {
        Some(TokenStreamError { kind: TokenStreamErrorKind::Empty, offending_span: None })
    } else if first_fault(tokens, 0) is Some {
        let i = first_fault(tokens, 0).unwrap();
        Some(TokenStreamError { kind: token_fault(tokens, i).unwrap(), offending_span: Some(tokens[i].span) })
    } else if !(tokens.last().kind is Eof) {
        match first_eof(tokens, 0, tokens.len() as int) {
            Some(j) => Some(TokenStreamError { kind: TokenStreamErrorKind::InteriorEof, offending_span: Some(tokens[j].span) }),
            None => Some(TokenStreamError { kind: TokenStreamErrorKind::MissingEof, offending_span: Some(tokens.last().span) }),
        }
    } else {
        match first_eof(tokens, 0, tokens.len() - 1) {
            Some(j) => Some(TokenStreamError { kind: TokenStreamErrorKind::InteriorEof, offending_span: Some(tokens[j].span) }),
            None => None,
        }
    }
}

proof fn lemma_first_fault_none(tokens: Seq<Token>, i: int)
    requires
        0 <= i <= tokens.len(),
        first_fault(tokens, i) is None,
    ensures
        forall|j: int| i <= j < tokens.len() ==> token_fault(tokens, j) is None,
    decreases tokens.len() - i,
{
    if i < tokens.len() {
        lemma_first_fault_none(tokens, i + 1);
    }
}

proof fn lemma_first_fault_some(tokens: Seq<Token>, i: int, j: int)
    requires
        0 <= i <= j < tokens.len(),
        token_fault(tokens, j) is Some,
    ensures
        first_fault(tokens, i) is Some,
    decreases j - i,
{
    if i < j && token_fault(tokens, i) is None {
        lemma_first_fault_some(tokens, i + 1, j);
    }
}

proof fn lemma_first_eof_none(tokens: Seq<Token>, i: int, limit: int)
    requires
        0 <= i <= limit <= tokens.len(),
        first_eof(tokens, i, limit) is None,
    ensures
        forall|j: int| i <= j < limit ==> !(#[trigger] tokens[j].kind is Eof),
    decreases limit - i,
{
    if i < limit {
        lemma_first_eof_none(tokens, i + 1, limit);
    }
}

proof fn lemma_first_eof_some(tokens: Seq<Token>, i: int, j: int, limit: int)
    requires
        0 <= i <= j < limit <= tokens.len(),
        tokens[j].kind is Eof,
    ensures
        first_eof(tokens, i, limit) is Some,
    decreases j - i,
{
    if i < j && !(tokens[i].kind is Eof) {
        lemma_first_eof_some(tokens, i + 1, j, limit);
    }
}

/// A raw token stream is accepted exactly when it is a valid token stream.
pub proof fn lemma_stream_error_iff_invalid(tokens: Seq<Token>)
    ensures
        stream_error(tokens) is None <==> valid_token_stream(tokens),
{
    if tokens.len() > 0 {
        if first_fault(tokens, 0) is None {
            lemma_first_fault_none(tokens, 0);
            assert forall|i: int| 0 < i < tokens.len() implies (#[trigger] tokens[i]).span.start >= tokens[i
                - 1].span.end by {
                assert(token_fault(tokens, i) is None);
            }
            assert forall|i: int| 0 <= i < tokens.len() implies (#[trigger] tokens[i]).span.start <= tokens[i].span.end by {
                assert(token_fault(tokens, i) is None);
            }
            assert forall|i: int| 0 <= i < tokens.len() implies (#[trigger] tokens[i]).span.source_id
                == tokens[0].span.source_id by {
                assert(token_fault(tokens, i) is None);
            }
            if tokens.last().kind is Eof {
                if first_eof(tokens, 0, tokens.len() - 1) is None {
                    lemma_first_eof_none(tokens, 0, tokens.len() - 1);
                } else {
                    let j = first_eof(tokens, 0, tokens.len() - 1).unwrap();
                    lemma_first_eof_index(tokens, 0, tokens.len() - 1);
                    assert(!valid_token_stream(tokens)) by {
                        assert(tokens[j].kind is Eof);
                    }
                }
            }
        } else {
            let i = first_fault(tokens, 0).unwrap();
            lemma_first_fault_index(tokens, 0);
            if valid_token_stream(tokens) {
                assert(tokens[i].span.source_id == tokens[0].span.source_id);
                assert(tokens[i].span.start <= tokens[i].span.end);
                if i > 0 {
                    assert(tokens[i].span.start >= tokens[i - 1].span.end);
                    assert(tokens[i - 1].span.start <= tokens[i - 1].span.end);
                }
                assert(false);
            }
        }
    }
}

proof fn lemma_first_fault_index(tokens: Seq<Token>, i: int)
    requires
        0 <= i,
        first_fault(tokens, i) is Some,
    ensures
        i <= first_fault(tokens, i).unwrap() < tokens.len(),
        token_fault(tokens, first_fault(tokens, i).unwrap()) is Some,
        forall|j: int| i <= j < first_fault(tokens, i).unwrap() ==> token_fault(tokens, j) is None,
    decreases tokens.len() - i,
{
    if token_fault(tokens, i) is None {
        lemma_first_fault_index(tokens, i + 1);
    }
}

proof fn lemma_first_eof_index(tokens: Seq<Token>, i: int, limit: int)
    requires
        0 <= i,
        first_eof(tokens, i, limit) is Some,
    ensures
        i <= first_eof(tokens, i, limit).unwrap() < limit <= tokens.len(),
        tokens[first_eof(tokens, i, limit).unwrap()].kind is Eof,
        forall|j: int| i <= j < first_eof(tokens, i, limit).unwrap() ==> !(#[trigger] tokens[j].kind is Eof),
    decreases limit - i,
{
    if !(tokens[i].kind is Eof) {
        lemma_first_eof_index(tokens, i + 1, limit);
    }
}

fn find_eof(tokens: &Vec<Token>, limit: usize) -> (result: Option<usize>)
    requires
        limit <= tokens@.len(),
    ensures
        result matches Some(j) ==> first_eof(tokens@, 0, limit as int) == Some(j as int) && j < limit,
        result is None ==> first_eof(tokens@, 0, limit as int) is None,
{
    let mut i: usize = 0;
    while i < limit
        invariant
            i <= limit <= tokens@.len(),
            first_eof(tokens@, 0, limit as int) == first_eof(tokens@, i as int, limit as int),
        decreases limit - i,
    {
        if matches!(tokens[i].kind, TokenKind::Eof) {
            return Some(i);
        }
        i += 1;
    }
    None
}

/// Checks the raw stream and reports the first violated invariant.
fn validate_token_stream(tokens: &Vec<Token>) -> (result: Result<(), TokenStreamError>)
    ensures
        match stream_error(tokens@) {
            Some(error) => result == Err::<(), TokenStreamError>(error),
            None => result is Ok,
        },
{
    if tokens.len() == 0 {
        return Err(TokenStreamError::new(TokenStreamErrorKind::Empty, None));
    }
    let source_id = tokens[0].span.source_id;
    let mut i: usize = 0;
    while i < tokens.len()
        invariant
            0 < tokens@.len(),
            i <= tokens@.len(),
            source_id == tokens@[0].span.source_id,
            first_fault(tokens@, 0) == first_fault(tokens@, i as int),
        decreases tokens@.len() - i,
    {
        let span = tokens[i].span;
        if span.source_id != source_id {
            return Err(TokenStreamError::new(TokenStreamErrorKind::MixedSource, Some(span)));
        }
        if span.start > span.end {
            return Err(TokenStreamError::new(TokenStreamErrorKind::ReversedSpan, Some(span)));
        }
        if i > 0 {
            let previous = tokens[i - 1].span;
            if span.start < previous.start {
                return Err(TokenStreamError::new(TokenStreamErrorKind::NonMonotonicSpan, Some(span)));
            }
            if span.start < previous.end {
                return Err(TokenStreamError::new(TokenStreamErrorKind::OverlappingSpan, Some(span)));
            }
        }
        i += 1;
    }
    let last = tokens.len() - 1;
    if !matches!(tokens[last].kind, TokenKind::Eof) {
        if let Some(interior) = find_eof(tokens, tokens.len()) {
            return Err(TokenStreamError::new(TokenStreamErrorKind::InteriorEof, Some(tokens[interior].span)));
        }
        return Err(TokenStreamError::new(TokenStreamErrorKind::MissingEof, Some(tokens[last].span)));
    }
    if let Some(interior) = find_eof(tokens, last) {
        return Err(TokenStreamError::new(TokenStreamErrorKind::InteriorEof, Some(tokens[interior].span)));
    }
    Ok(())
}

impl Parser {
    /// The tokens the parser reads.
    pub closed spec fn token_seq(self) -> Seq<Token> {
        self.tokens@
    }

    /// Index of the current token.
    pub closed spec fn position(self) -> int {
        self.cursor as int
    }

    /// The parser's invariant: one terminal end-of-input token, no earlier one,
    /// and a cursor on a token.
    pub open spec fn wf(self) -> bool {
        &&& self.token_seq().len() > 0
        &&& self.token_seq().last().kind is Eof
        &&& forall|i: int| 0 <= i < self.token_seq().len() - 1 ==> !(#[trigger] self.token_seq()[i].kind is Eof)
        &&& forall|i: int| 0 <= i < self.token_seq().len() ==> (#[trigger] self.token_seq()[i]).span.source_id
            == self.source()
        &&& self.position() < self.token_seq().len()
        &&& self.pending().len() == 0
    }

    /// Declarations waiting to be added to the program after the current one.
    pub closed spec fn pending(self) -> Seq<ClassDeclaration> {
        self.pending_types@
    }

    /// The source that every token lies in: that of the end-of-input token.
    pub open spec fn source(self) -> SourceId {
        self.token_seq().last().span.source_id
    }

    pub open spec fn cur(self) -> Token {
        self.token_seq()[self.position()]
    }

    /// Length of the current token's text; splitting a `>>` shortens it.
    pub open spec fn lexlen(self) -> nat {
        self.cur().lexeme@.len()
    }

    /// Number of tokens from the cursor to the end.
    pub open spec fn remaining(self) -> int {
        self.token_seq().len() - self.position()
    }

    /// The token at `index`, or the end-of-input token past the end.
    pub open spec fn token_at_spec(self, index: int) -> Token {
        if 0 <= index < self.token_seq().len() {
            self.token_seq()[index]
        } else {
            self.token_seq().last()
        }
    }

    /// The token `offset` places ahead, or the end-of-input token past the end.
    pub open spec fn ahead(self, offset: int) -> Token {
        if self.position() + offset < self.token_seq().len() {
            self.token_seq()[self.position() + offset]
        } else {
            self.token_seq().last()
        }
    }
}

/// Whether every top-level declaration and statement of `program` lies in `source`.
pub open spec fn program_in_source(program: Program, source: SourceId) -> bool {
    &&& forall|i: int| 0 <= i < program.classes@.len() ==> (#[trigger] program.classes@[i]).span.source_id == source
    &&& forall|i: int| 0 <= i < program.triggers@.len() ==> (#[trigger] program.triggers@[i]).span.source_id == source
    &&& forall|i: int| 0 <= i < program.methods@.len() ==> (#[trigger] program.methods@[i]).span.source_id == source
    &&& forall|i: int| 0 <= i < program.statements@.len() ==> (#[trigger] program.statements@[i]).spec_span().source_id
        == source
}

/// The initializer of a local variable declaration.
pub open spec fn declared_initializer(statement: crate::ast::Statement) -> Option<crate::ast::Expression> {
    match statement {
        crate::ast::Statement::VariableDeclaration { initializer, .. } => Some(initializer),
        _ => None,
    }
}


/// Whether a token is one of the DML keywords.
pub open spec fn dml_word_token(token: Token) -> bool {
    is_keyword_token(token, "insert"@) || is_keyword_token(token, "update"@) || is_keyword_token(token, "upsert"@)
        || is_keyword_token(token, "delete"@) || is_keyword_token(token, "undelete"@)
}

/// A declaration `Type name = <expression>;` over a one-word type, with an
/// initializer `length` tokens long, starts `k` tokens ahead, and no
/// trigger, class, method or DML statement can be read there.
pub open spec fn declaration_item_at(parser: Parser, k: int, length: int) -> bool {
    &&& types::simple_named_type_ahead(parser, k)
    &&& parser.ahead(k + 1).kind is Identifier
    &&& parser.ahead(k + 2).kind is Equal
    &&& !dml_word_token(parser.ahead(k))
    &&& !is_keyword_token(parser.ahead(k), "trigger"@)
    &&& !is_keyword_token(parser.ahead(k), "enum"@)
    &&& !is_keyword_token(parser.ahead(k + 1), "sharing"@)
    &&& parser.ahead(k + 3 + length).kind is Semicolon
}

/// The name that an identifier `j` tokens ahead spells.
pub open spec fn name_at(parser: Parser, j: int) -> Seq<char> {
    match declarations::identifier_spelling(parser.ahead(j)) {
        Some(name) => name,
        None => Seq::empty(),
    }
}

/// `class Name {}` starts `k` tokens ahead.
pub open spec fn class_item_at(parser: Parser, k: int) -> bool {
    &&& parser.ahead(k).kind is Class
    &&& parser.ahead(k + 1).kind is Identifier
    &&& parser.ahead(k + 2).kind is LeftBrace
    &&& parser.ahead(k + 3).kind is RightBrace
}

/// A method `void name() {}` or `Type name() {}` over a one-word type starts
/// `k` tokens ahead, and no trigger or class declaration can be read there.
pub open spec fn method_item_at(parser: Parser, k: int) -> bool {
    &&& (parser.ahead(k).kind is Void || types::simple_named_type_ahead(parser, k))
    &&& !is_keyword_token(parser.ahead(k), "trigger"@)
    &&& !is_keyword_token(parser.ahead(k), "enum"@)
    &&& !is_keyword_token(parser.ahead(k + 1), "sharing"@)
    &&& parser.ahead(k + 1).kind is Identifier
    &&& parser.ahead(k + 2).kind is LeftParen
    &&& parser.ahead(k + 3).kind is RightParen
    &&& parser.ahead(k + 4).kind is LeftBrace
    &&& parser.ahead(k + 5).kind is RightBrace
}

/// `trigger Name on Type (phase operation) {}` starts `k` tokens ahead,
/// with a name other than `sharing`.
pub open spec fn trigger_item_at(parser: Parser, k: int) -> bool {
    &&& is_keyword_token(parser.ahead(k), "trigger"@)
    &&& parser.ahead(k + 1).kind is Identifier
    &&& !is_keyword_token(parser.ahead(k + 1), "sharing"@)
    &&& is_keyword_token(parser.ahead(k + 2), "on"@)
    &&& types::simple_type_ahead(parser, k + 3)
    &&& parser.ahead(k + 4).kind is LeftParen
    &&& declarations::identifier_spelling(parser.ahead(k + 5)) matches Some(phase)
        && declarations::identifier_spelling(parser.ahead(k + 6)) matches Some(operation)
        && declarations::spec_trigger_event(ascii_lower(phase), ascii_lower(operation)) is Some
    &&& parser.ahead(k + 7).kind is RightParen
    &&& parser.ahead(k + 8).kind is LeftBrace
    &&& parser.ahead(k + 9).kind is RightBrace
}

/// What a sequence of top-level items makes of a program: the names of its
/// classes, of its triggers and of its methods, and the initializers of its
/// declarations, each in order.
pub type ItemNames = (Seq<Seq<char>>, Seq<Seq<char>>, Seq<Seq<char>>, Seq<crate::ast::Expression>);

/// The items that make up the stream from `k` tokens ahead to its end,
/// when it is a sequence of classes `class Name {}`, methods
/// `void name() {}`, triggers `trigger Name on Type (phase operation) {}`
/// and declarations `Type name = <expression>;` whose initializers are
/// literals and binary operators.
pub open spec fn items_from(parser: Parser, k: int) -> Option<ItemNames>
    decreases parser.token_seq().len() - parser.position() - k,
{
    let end = parser.token_seq().len();
    if k < 0 || parser.position() + k >= end {
        None
    } else if parser.ahead(k).kind is Eof {
        Some((Seq::empty(), Seq::empty(), Seq::empty(), Seq::empty()))
    } else if class_item_at(parser, k) && parser.position() + k + 4 <= end {
        match items_from(parser, k + 4) {
            Some((classes, triggers, methods, declarations)) => Some(
                (seq![name_at(parser, k + 1)] + classes, triggers, methods, declarations),
            ),
            None => None,
        }
    } else if trigger_item_at(parser, k) && parser.position() + k + 10 <= end {
        match items_from(parser, k + 10) {
            Some((classes, triggers, methods, declarations)) => Some(
                (classes, seq![name_at(parser, k + 1)] + triggers, methods, declarations),
            ),
            None => None,
        }
    } else if method_item_at(parser, k) && parser.position() + k + 6 <= end {
        match items_from(parser, k + 6) {
            Some((classes, triggers, methods, declarations)) => Some(
                (classes, triggers, seq![name_at(parser, k + 1)] + methods, declarations),
            ),
            None => None,
        }
    } else {
        match binary_at(parser, k + 3) {
            Some((tree, length)) => if length >= 0 && parser.position() + k + 4 + length <= end
                && declaration_item_at(parser, k, length) {
                match items_from(parser, k + 4 + length) {
                    Some((classes, triggers, methods, declarations)) => Some(
                        (classes, triggers, methods, seq![tree] + declarations),
                    ),
                    None => None,
                }
            } else {
                None
            },
            None => None,
        }
    }
}




/// `try {}` with neither `catch` nor `finally` after it starts at the parser.
pub open spec fn bare_try_ahead(parser: Parser) -> bool {
    &&& parser.cur().kind is Try
    &&& statements::empty_block_ahead(parser, 1)
    &&& !(parser.ahead(3).kind is Catch)
    &&& !(parser.ahead(3).kind is Finally)
}

/// A declaration whose type carries two `[]` suffixes starts at the parser,
/// and no trigger, class or method declaration can be read there.
pub open spec fn doubled_suffix_declaration_ahead(parser: Parser) -> bool {
    &&& types::double_suffix_type_ahead(parser)
    &&& parser.ahead(5).kind is Identifier
    &&& !dml_keyword_at(parser)
    &&& !is_keyword_token(parser.cur(), "trigger"@)
    &&& !is_keyword_token(parser.cur(), "enum"@)
}

/// What parsing a whole program from `parser` gives: a program whose top
/// level lies in the parser's source; an empty program at the end of input;
/// for a sequence of the items that [`items_from`] reads, the program of
/// those classes, triggers, methods and declarations, each kind in order;
/// and for `try {}` with neither `catch` nor `finally`, or for a declaration
/// whose type has two array suffixes, the error.
pub open spec fn program_outcome(parser: Parser, result: Result<Program, Diagnostic>) -> bool {
    &&& (result matches Ok(program) ==> program_in_source(program, parser.source()))
    &&& (parser.cur().kind is Eof ==> (result matches Ok(program) && program.classes@.len() == 0
        && program.triggers@.len() == 0 && program.methods@.len() == 0 && program.statements@.len() == 0))
    &&& (items_from(parser, 0) matches Some((classes, triggers, methods, declarations)) ==> (result matches Ok(
        program,
    ) && program.classes@.len() == classes.len() && program.triggers@.len() == triggers.len()
        && program.methods@.len() == methods.len() && program.statements@.len() == declarations.len()
        && (forall|i: int| 0 <= i < classes.len() ==> (#[trigger] program.classes@[i]).name.spelling@ == classes[i]
            && program.classes@[i].kind == crate::ast::ClassKind::Class && program.classes@[i].members@.len() == 0)
        && (forall|i: int| 0 <= i < triggers.len() ==> (#[trigger] program.triggers@[i]).name.spelling@ == triggers[i])
        && (forall|i: int| 0 <= i < methods.len() ==> (#[trigger] program.methods@[i]).name.spelling@ == methods[i])
        && forall|i: int| 0 <= i < declarations.len() ==> declared_initializer(#[trigger] program.statements@[i])
            == Some(declarations[i])))
    &&& (doubled_suffix_declaration_ahead(parser) ==> (result matches Err(error) && error.message@
        == "only one array suffix is supported"@))
    &&& (bare_try_ahead(parser) ==> (result matches Err(error) && error.message@
        == "expected at least one `catch` or a `finally` after try block"@))
}

/// What parsing a dynamic SOQL query that spans the whole stream gives: a
/// query in the parser's source, and success on `SELECT field FROM Type`,
/// with or without `WHERE field = literal`, with the query's tree.
pub open spec fn query_outcome(parser: Parser, result: Result<crate::ast::SoqlQuery, Diagnostic>) -> bool {
    &&& (result matches Ok(query) ==> query.span.source_id == parser.source())
    &&& (queries::simple_soql_ahead(parser, 0) && parser.ahead(4).kind is Eof ==> (result matches Ok(query)
        && queries::simple_query_tree(parser, 0, query)))
    &&& (queries::where_soql_ahead(parser, 0) && parser.ahead(8).kind is Eof ==> (result matches Ok(query)
        && queries::where_query_tree(parser, 0, query)))
}

/// `after` is a well-formed state reached from `before` without going back:
/// the cursor moved forward, or stayed on a token whose text only got shorter.
pub open spec fn advanced(after: Parser, before: Parser) -> bool {
    &&& after.wf()
    &&& after.token_seq().len() == before.token_seq().len()
    &&& after.source() == before.source()
    &&& (after.position() > before.position() || (after.position() == before.position() && after.lexlen()
        <= before.lexlen()))
}

/// Like [`advanced`], but something was consumed.
pub open spec fn progressed(after: Parser, before: Parser) -> bool {
    &&& after.wf()
    &&& after.token_seq().len() == before.token_seq().len()
    &&& after.source() == before.source()
    &&& (after.position() > before.position() || (after.position() == before.position() && after.lexlen()
        < before.lexlen()))
}

/// Whether the current token is an identifier spelled `word` in any ASCII case.
pub open spec fn is_keyword_token(token: Token, word: Seq<char>) -> bool {
    token.kind matches TokenKind::Identifier(spelling) && eq_ignore_case(spelling@, word)
}

impl Parser {
    /// Validates and accepts one ordered, single-source, terminal-EOF token stream.
    pub fn new(tokens: Vec<Token>) -> (result: Result<Parser, TokenStreamError>)
        ensures
            match stream_error(tokens@) {
                Some(error) => result == Err::<Parser, TokenStreamError>(error),
                None => result matches Ok(parser) && parser.wf() && parser.token_seq() == tokens@
                    && parser.position() == 0,
            },
    {
        match validate_token_stream(&tokens) {
            Err(error) => Err(error),
            Ok(()) => {
                proof {
                    lemma_stream_error_iff_invalid(tokens@);
                }
                Ok(Parser { tokens, cursor: 0, pending_types: Vec::new() })
            },
        }
    }

    /// A copy of the parser for lookahead, at the same position over the same tokens.
    fn probe(&self) -> (result: Parser)
        requires
            self.wf(),
        ensures
            result.wf(),
            result.token_seq() == self.token_seq(),
            result.position() == self.position(),
    {
        let tokens = self.tokens.clone();
        proof {
            assert(tokens@ =~= self.tokens@);
        }
        Parser { tokens, cursor: self.cursor, pending_types: Vec::new() }
    }

    fn current(&self) -> (result: &Token)
        requires
            self.wf(),
        ensures
            *result == self.cur(),
    {
        &self.tokens[self.cursor]
    }

    fn peek(&self, offset: usize) -> (result: &Token)
        requires
            self.wf(),
        ensures
            *result == self.ahead(offset as int),
    {
        if offset < self.tokens.len() - self.cursor {
            &self.tokens[self.cursor + offset]
        } else {
            &self.tokens[self.tokens.len() - 1]
        }
    }

    /// The token at `index`, or the end-of-input token past the end.
    fn token_at(&self, index: usize) -> (result: &Token)
        requires
            self.wf(),
        ensures
            index < self.tokens@.len() ==> *result == self.tokens@[index as int],
            index >= self.tokens@.len() ==> *result == self.tokens@.last(),
    {
        if index < self.tokens.len() {
            &self.tokens[index]
        } else {
            &self.tokens[self.tokens.len() - 1]
        }
    }

    /// Whether the current token has the same category as `expected`.
    fn check(&self, expected: &TokenKind) -> (result: bool)
        requires
            self.wf(),
        ensures
            result == self.cur().kind.same_category(*expected),
    {
        self.tokens[self.cursor].kind.is_same_category(expected)
    }

    /// Returns the current token and moves past it, staying on the final token.
    fn advance(&mut self) -> (result: Token)
        requires
            old(self).wf(),
        ensures
            result == old(self).cur(),
            final(self).token_seq() == old(self).token_seq(),
            final(self).wf(),
            old(self).position() + 1 < old(self).token_seq().len() ==> final(self).position() == old(self).position() + 1,
            old(self).position() + 1 >= old(self).token_seq().len() ==> final(self).position() == old(self).position(),
            !(old(self).cur().kind is Eof) ==> final(self).position() == old(self).position() + 1,
            advanced(*final(self), *old(self)),
            !(old(self).cur().kind is Eof) ==> progressed(*final(self), *old(self)),
    {
        let token = self.tokens[self.cursor].clone();
        if self.tokens.len() - self.cursor > 1 {
            self.cursor = self.cursor + 1;
        }
        token
    }

    fn check_keyword(&self, expected: &str) -> (result: bool)
        requires
            self.wf(),
        ensures
            result == is_keyword_token(self.cur(), expected@),
    {
        match &self.tokens[self.cursor].kind {
            TokenKind::Identifier(spelling) => eq_ignore_ascii_case(spelling.as_str(), expected),
            _ => false,
        }
    }

    fn expect_identifier(&mut self, message: &str) -> (result: Result<Identifier, Diagnostic>)
        requires
            old(self).wf(),
        ensures
            old(self).cur().kind is Identifier <==> result is Ok,
            result matches Ok(identifier) ==> {
                &&& old(self).cur().kind matches TokenKind::Identifier(spelling) && identifier.spelling == spelling
                &&& identifier.canonical@ == ascii_lower(identifier.spelling@)
                &&& identifier.span == old(self).cur().span
                &&& progressed(*final(self), *old(self))
                &&& final(self).position() == old(self).position() + 1
                &&& final(self).token_seq() == old(self).token_seq()
            },
            result matches Err(error) ==> error.message@ == message@ && error.span == old(self).cur().span
                && *final(self) == *old(self),
    {
        let token = self.tokens[self.cursor].clone();
        match token.kind {
            TokenKind::Identifier(spelling) => {
                self.advance();
                Ok(Identifier::new(spelling, token.span))
            },
            _ => Err(Diagnostic::new(message, token.span)),
        }
    }

    fn expect_simple(&mut self, expected: TokenKind, message: &str) -> (result: Result<Token, Diagnostic>)
        requires
            old(self).wf(),
        ensures
            old(self).cur().kind.same_category(expected) <==> result is Ok,
            result matches Ok(token) ==> {
                &&& token == old(self).cur()
                &&& final(self).token_seq() == old(self).token_seq()
                &&& advanced(*final(self), *old(self))
                &&& !(expected is Eof) ==> progressed(*final(self), *old(self)) && final(self).position()
                    == old(self).position() + 1
            },
            result matches Err(error) ==> error.message@ == message@ && error.span == old(self).cur().span
                && *final(self) == *old(self),
    {
        if self.check(&expected) {
            Ok(self.advance())
        } else {
            Err(Diagnostic::new(message, self.tokens[self.cursor].span))
        }
    }

    fn expect_keyword(&mut self, expected: &str, message: &str) -> (result: Result<Token, Diagnostic>)
        requires
            old(self).wf(),
        ensures
            is_keyword_token(old(self).cur(), expected@) <==> result is Ok,
            result matches Ok(token) ==> {
                &&& token == old(self).cur()
                &&& final(self).token_seq() == old(self).token_seq()
                &&& progressed(*final(self), *old(self))
                &&& final(self).position() == old(self).position() + 1
            },
            result matches Err(error) ==> error.message@ == message@ && error.span == old(self).cur().span
                && *final(self) == *old(self),
    {
        if self.check_keyword(expected) {
            Ok(self.advance())
        } else {
            Err(Diagnostic::new(message, self.tokens[self.cursor].span))
        }
    }
}

/// Whether a token starts with a `>` that can close a generic argument list:
/// `>` itself, or `>` followed by what still forms a token (`>`, `>>`, `=`,
/// `>=`, `>>=`).
pub open spec fn closes_type_arguments(token: Token) -> bool {
    let text = token.lexeme@;
    &&& !(token.kind is Eof)
    &&& text.len() > 0
    &&& text[0] == '>'
    &&& (text.len() == 1 || text.skip(1) == ">"@ || text.skip(1) == ">>"@ || text.skip(1) == "="@ || text.skip(1)
        == ">="@ || text.skip(1) == ">>="@)
}

impl Parser {
    /// Consumes one `>` that closes a generic argument list. A token that
    /// merely starts with `>` (such as `>>` or `>=`) is split: its first
    /// character is consumed and the rest stays as the current token.
    fn expect_type_greater(&mut self, message: &str) -> (result: Result<Token, Diagnostic>)
        requires
            old(self).wf(),
        ensures
            advanced(*final(self), *old(self)),
            result is Ok ==> progressed(*final(self), *old(self)),
            result matches Ok(token) ==> token.kind is Greater,
            result is Err ==> *final(self) == *old(self),
            result is Ok <==> closes_type_arguments(old(self).cur()),
    {
        let token = self.tokens[self.cursor].clone();
        let lexeme = chars_of(token.lexeme.as_str());
        if lexeme.len() == 0 || lexeme[0] != '>' || matches!(token.kind, TokenKind::Eof) {
            return Err(Diagnostic::new(message, token.span));
        }
        let start = token.span.start;
        let split = if start < usize::MAX { start + 1 } else { start };
        let consumed = Token {
            kind: TokenKind::Greater,
            span: Span::new_in(token.span.source_id, start, split),
            lexeme: ">".to_owned(),
        };
        if lexeme.len() == 1 {
            self.advance();
            return Ok(consumed);
        }
        let mut rest: Vec<char> = Vec::new();
        push_range(&mut rest, lexeme.as_slice(), 1, lexeme.len());
        assert(rest@ =~= token.lexeme@.skip(1));
        let kind = if chars_are(rest.as_slice(), ">") {
            TokenKind::Greater
        } else if chars_are(rest.as_slice(), ">>") {
            TokenKind::ShiftRight
        } else if chars_are(rest.as_slice(), "=") {
            TokenKind::Equal
        } else if chars_are(rest.as_slice(), ">=") {
            TokenKind::GreaterEqual
        } else if chars_are(rest.as_slice(), ">>=") {
            TokenKind::ShiftRightEqual
        } else {
            return Err(Diagnostic::new("invalid token after generic type closer", token.span));
        };
        let remainder = Token {
            kind,
            span: Span::new_in(token.span.source_id, split, token.span.end),
            lexeme: string_from_chars(rest.as_slice()),
        };
        let ghost before = self.tokens@;
        self.tokens.set(self.cursor, remainder);
        proof {
            assert(self.tokens@.len() == before.len());
            assert forall|i: int| 0 <= i < self.tokens@.len() - 1 implies !(#[trigger] self.tokens@[i].kind is Eof) by {
                if i != self.cursor {
                    assert(self.tokens@[i] == before[i]);
                }
            }
            assert(self.tokens@.last() == before.last());
        }
        Ok(consumed)
    }
}

impl Parser {
    /// Index of the current token.
    fn cursor_index(&self) -> (result: usize)
        ensures
            result == self.position(),
    {
        self.cursor
    }

    /// Number of tokens.
    fn tokens_len(&self) -> (result: usize)
        ensures
            result == self.token_seq().len(),
    {
        self.tokens.len()
    }
}

impl Parser {
    /// Parses a whole program: triggers, classes, top-level methods and statements.
    #[verifier::rlimit(100)]
    pub fn parse_program(self) -> (result: Result<Program, Diagnostic>)
        requires
            self.wf(),
        ensures
            program_outcome(self, result),
    {
        let ghost source = self.source();
        let mut parser = self;
        let mut classes: Vec<ClassDeclaration> = Vec::new();
        let mut triggers: Vec<crate::ast::TriggerDeclaration> = Vec::new();
        let mut methods: Vec<crate::ast::MethodDeclaration> = Vec::new();
        let mut statements: Vec<crate::ast::Statement> = Vec::new();
        let ghost mut offset: int = 0;
        proof {
            assert(self.position() == self.position() + 0);
        }
        while !parser.check(&TokenKind::Eof)
            invariant
                parser.wf(),
                parser.source() == source,
                items_from(self, 0) matches Some((cs, ts, ms, ds)) ==> {
                    &&& parser.token_seq() == self.token_seq()
                    &&& parser.position() == self.position() + offset
                    &&& offset >= 0
                    &&& classes@.len() <= cs.len() && triggers@.len() <= ts.len() && methods@.len() <= ms.len()
                    &&& statements@.len() <= ds.len()
                    &&& items_from(self, offset) == Some(
                        (
                            cs.skip(classes@.len() as int),
                            ts.skip(triggers@.len() as int),
                            ms.skip(methods@.len() as int),
                            ds.skip(statements@.len() as int),
                        ),
                    )
                    &&& forall|i: int| 0 <= i < classes@.len() ==> (#[trigger] classes@[i]).name.spelling@ == cs[i]
                        && classes@[i].kind == crate::ast::ClassKind::Class && classes@[i].members@.len() == 0
                    &&& forall|i: int| 0 <= i < triggers@.len() ==> (#[trigger] triggers@[i]).name.spelling@ == ts[i]
                    &&& forall|i: int| 0 <= i < methods@.len() ==> (#[trigger] methods@[i]).name.spelling@ == ms[i]
                    &&& forall|i: int| 0 <= i < statements@.len() ==> declared_initializer(#[trigger] statements@[i])
                        == Some(ds[i])
                },
                self.cur().kind is Eof ==> (parser == self && classes@.len() == 0 && triggers@.len() == 0
                    && methods@.len() == 0 && statements@.len() == 0),
                program_in_source(Program { classes, triggers, methods, statements }, source),
                bare_try_ahead(self) ==> parser == self,
                doubled_suffix_declaration_ahead(self) ==> parser == self,
            decreases parser.remaining(), parser.lexlen(),
        {
            let ghost item_length: int = match binary_at(self, offset + 3) {
                Some((_, length)) => length,
                None => 0,
            };
            let ghost item_tree = binary_at(self, offset + 3);
            proof {
                if let Some(all) = items_from(self, 0) {
                    let k = offset;
                    let q = parser;
                    let t = self.token_seq();
                    let c = q.position() as int;
                    assert(q.ahead(0) == self.ahead(k));
                    assert(q.ahead(1) == self.ahead(k + 1));
                    assert(q.ahead(2) == self.ahead(k + 2));
                    assert(q.ahead(3) == self.ahead(k + 3));
                    assert(q.ahead(4) == self.ahead(k + 4));
                    assert(q.ahead(5) == self.ahead(k + 5));
                    assert(q.ahead(6) == self.ahead(k + 6));
                    assert(q.ahead(7) == self.ahead(k + 7));
                    assert(q.ahead(8) == self.ahead(k + 8));
                    assert(q.ahead(9) == self.ahead(k + 9));
                    assert(q.ahead(3 + item_length) == self.ahead(k + 3 + item_length));
                    assert(q.cur() == q.ahead(0));
                    lemma_binary_at_shift(self, q, k + 3, k);
                    assert(binary_at(q, 3) == binary_at(self, k + 3));
                    assert(annotation_prefix_end(t, c) == c);
                    assert(sharing_at(t, c) is None);
                    assert(modifier_prefix_end(t, c) == c);
                    assert(token_or_last(t, c) == q.cur());
                }
                if parser == self && (bare_try_ahead(self) || doubled_suffix_declaration_ahead(self)) {
                    let t = self.token_seq();
                    let c = self.position() as int;
                    assert(annotation_prefix_end(t, c) == c);
                    assert(sharing_at(t, c) is None);
                    assert(modifier_prefix_end(t, c) == c);
                    assert(token_or_last(t, c) == self.cur());
                }
            }
            if parser.check_keyword("trigger") {
                let trigger = parser.parse_trigger_declaration()?;
                triggers.push(trigger);
                proof {
                    if let Some((cs, ts, ms, ds)) = items_from(self, 0) {
                        let n = triggers@.len() - 1;
                        let rest = items_from(self, offset + 10)->0;
                        assert(ts.skip(n) == seq![name_at(self, offset + 1)] + rest.1);
                        assert(ts[n] == ts.skip(n)[0]);
                        assert(ts.skip(n + 1) =~= ts.skip(n).drop_first());
                        assert(ts.skip(n).drop_first() =~= rest.1);
                        offset = offset + 10;
                    }
                }
            } else if parser.is_class_declaration_start() {
                let class = parser.parse_class_declaration()?;
                classes.push(class);
                let ghost pushed = classes@;
                classes.append(&mut parser.pending_types);
                proof {
                    assert(classes@ =~= pushed);
                    if let Some((cs, ts, ms, ds)) = items_from(self, 0) {
                        let n = classes@.len() - 1;
                        let rest = items_from(self, offset + 4)->0;
                        assert(cs.skip(n) == seq![name_at(self, offset + 1)] + rest.0);
                        assert(cs[n] == cs.skip(n)[0]);
                        assert(cs.skip(n + 1) =~= cs.skip(n).drop_first());
                        assert(cs.skip(n).drop_first() =~= rest.0);
                        offset = offset + 4;
                    }
                }
            } else if parser.is_method_declaration_start() {
                let method = parser.parse_method_declaration()?;
                methods.push(method);
                proof {
                    if let Some((cs, ts, ms, ds)) = items_from(self, 0) {
                        let n = methods@.len() - 1;
                        let rest = items_from(self, offset + 6)->0;
                        assert(ms.skip(n) == seq![name_at(self, offset + 1)] + rest.2);
                        assert(ms[n] == ms.skip(n)[0]);
                        assert(ms.skip(n + 1) =~= ms.skip(n).drop_first());
                        assert(ms.skip(n).drop_first() =~= rest.2);
                        offset = offset + 6;
                    }
                }
            } else {
                let statement = parser.parse_statement()?;
                statements.push(statement);
                proof {
                    if let Some((cs, ts, ms, ds)) = items_from(self, 0) {
                        let n = statements@.len() - 1;
                        let rest = items_from(self, offset + 4 + item_length)->0;
                        assert(ds.skip(n) == seq![(item_tree->0).0] + rest.3);
                        assert(ds[n] == ds.skip(n)[0]);
                        assert(ds.skip(n + 1) =~= ds.skip(n).drop_first());
                        assert(ds.skip(n).drop_first() =~= rest.3);
                        offset = offset + 4 + item_length;
                    }
                }
            }
        }
        proof {
            if let Some((cs, ts, ms, ds)) = items_from(self, 0) {
                assert(parser.cur() == self.ahead(offset));
                assert(cs.skip(classes@.len() as int).len() == 0);
                assert(ts.skip(triggers@.len() as int).len() == 0);
                assert(ms.skip(methods@.len() as int).len() == 0);
                assert(ds.skip(statements@.len() as int).len() == 0);
            }
        }
        Ok(Program { classes, triggers, methods, statements })
    }

    /// Parses one dynamic SOQL query that must span the whole token stream.
    pub(crate) fn parse_soql_query(self) -> (result: Result<crate::ast::SoqlQuery, Diagnostic>)
        requires
            self.wf(),
        ensures
            query_outcome(self, result),
    {
        let mut parser = self;
        let query = parser.parse_soql_body()?;
        if !parser.check(&TokenKind::Eof) {
            return Err(Diagnostic::new("unexpected token after dynamic SOQL query", parser.current().span));
        }
        Ok(query)
    }
}

} // verus!
