use vstd::prelude::*;

use super::expressions::{binary_at, ends_operand, lemma_binary_shift, literal_expression};
use super::types::{double_suffix_type_ahead, simple_named_type_ahead};
use super::{advanced, is_keyword_token, progressed, Parser};
use crate::ast::{CatchClause, DmlAccess, DmlOperation, Expression, Statement};
use crate::diagnostic::Diagnostic;
use crate::span::Span;
use crate::text::{ascii_lower, chars_are, chars_of, eq_ignore_ascii_case, lower_chars};
use crate::token::TokenKind;

verus! {

/// An empty block `{ }` starts `k` tokens ahead.
pub open spec fn empty_block_ahead(parser: Parser, k: int) -> bool {
    parser.ahead(k).kind is LeftBrace && parser.ahead(k + 1).kind is RightBrace
}

/// A literal that a token ending the operand follows starts `k` tokens ahead.
pub open spec fn literal_ahead(parser: Parser, k: int) -> bool {
    literal_expression(parser.ahead(k)) is Some && ends_operand(parser.ahead(k + 1))
}

/// The expression of an expression statement.
pub open spec fn expression_statement_value(statement: Statement) -> Option<Expression> {
    match statement {
        Statement::Expression { expression, .. } => Some(expression),
        _ => None,
    }
}

/// The condition of an `if` statement.
pub open spec fn if_condition(statement: Statement) -> Option<Expression> {
    match statement {
        Statement::If { condition, .. } => Some(condition),
        _ => None,
    }
}

/// The branch an `if` statement takes when its condition holds.
pub open spec fn if_then(statement: Statement) -> Option<Statement> {
    match statement {
        Statement::If { then_branch, .. } => Some(*then_branch),
        _ => None,
    }
}

/// The branch an `if` statement takes otherwise, when it has one.
pub open spec fn if_else(statement: Statement) -> Option<Statement> {
    match statement {
        Statement::If { else_branch, .. } => match else_branch {
            Some(branch) => Some(*branch),
            None => None,
        },
        _ => None,
    }
}

/// The expression that the `then` branch of an `if` statement evaluates,
/// when that branch is an expression statement.
pub open spec fn then_value(statement: Statement) -> Option<Expression> {
    match if_then(statement) {
        Some(branch) => expression_statement_value(branch),
        None => None,
    }
}

/// The expression that the `else` branch of an `if` statement evaluates,
/// when it has one and it is an expression statement.
pub open spec fn else_value(statement: Statement) -> Option<Expression> {
    match if_else(statement) {
        Some(branch) => expression_statement_value(branch),
        None => None,
    }
}

/// The three clauses of a `for` statement: the initializer's expression,
/// the condition and the update's expression, each when present and, for
/// the initializer and the update, an expression statement.
pub open spec fn for_clauses(statement: Statement) -> Option<(Option<Expression>, Option<Expression>, Option<Expression>)> {
    match statement {
        Statement::For { initializer, condition, update, .. } => Some(
            (
                match initializer {
                    Some(init) => expression_statement_value(*init),
                    None => None,
                },
                condition,
                match update {
                    Some(step) => expression_statement_value(*step),
                    None => None,
                },
            ),
        ),
        _ => None,
    }
}

/// `literal;` starts `k` tokens ahead.
pub open spec fn literal_statement_ahead(parser: Parser, k: int) -> bool {
    literal_expression(parser.ahead(k)) is Some && parser.ahead(k + 1).kind is Semicolon
}

/// `if (literal) literal;` starts at the parser.
pub open spec fn literal_if_ahead(parser: Parser) -> bool {
    &&& parser.cur().kind is If
    &&& parser.ahead(1).kind is LeftParen
    &&& literal_ahead(parser, 2)
    &&& parser.ahead(3).kind is RightParen
    &&& literal_statement_ahead(parser, 4)
}

/// Whether the current token is a DML keyword.
pub open spec fn dml_keyword_at(parser: Parser) -> bool {
    is_keyword_token(parser.cur(), "insert"@) || is_keyword_token(parser.cur(), "update"@) || is_keyword_token(
        parser.cur(),
        "upsert"@,
    ) || is_keyword_token(parser.cur(), "delete"@) || is_keyword_token(parser.cur(), "undelete"@)
}

/// `Type name =` starts at the parser, with a one-word type.
pub open spec fn declaration_head_ahead(parser: Parser) -> bool {
    &&& simple_named_type_ahead(parser, 0)
    &&& parser.ahead(1).kind is Identifier
    &&& parser.ahead(2).kind is Equal
}

/// The DML operation that a lower-case word names.
pub open spec fn dml_operation_named(word: Seq<char>) -> Option<DmlOperation> {
    if word == "insert"@ {
        Some(DmlOperation::Insert)
    } else if word == "update"@ {
        Some(DmlOperation::Update)
    } else if word == "upsert"@ {
        Some(DmlOperation::Upsert)
    } else if word == "delete"@ {
        Some(DmlOperation::Delete)
    } else if word == "undelete"@ {
        Some(DmlOperation::Undelete)
    } else {
        None
    }
}

/// Whether a lower-case word names a DML operation.
pub open spec fn dml_word(word: Seq<char>) -> bool {
    dml_operation_named(word) is Some
}

impl Parser {
    pub(super) fn parse_statement(&mut self) -> (result: Result<Statement, Diagnostic>)
        requires
            old(self).wf(),
        ensures
            advanced(*final(self), *old(self)),
            result is Ok ==> progressed(*final(self), *old(self)),
            result matches Ok(node) ==> node.spec_span().source_id == old(self).source(),
            empty_block_ahead(*old(self), 0) ==> (result is Ok && final(self).position() == old(self).position() + 2
                && final(self).token_seq() == old(self).token_seq()),
            old(self).cur().kind is Try && empty_block_ahead(*old(self), 1) && !(old(self).ahead(3).kind is Catch)
                && !(old(self).ahead(3).kind is Finally) ==> (result matches Err(error) && error.message@
                == "expected at least one `catch` or a `finally` after try block"@),
            literal_statement_ahead(*old(self), 0) ==> (result matches Ok(node) && expression_statement_value(node)
                == literal_expression(old(self).cur()) && final(self).position() == old(self).position() + 2
                && final(self).token_seq() == old(self).token_seq()),
            double_suffix_type_ahead(*old(self)) && old(self).ahead(5).kind is Identifier && !dml_keyword_at(*old(self))
                ==> (result matches Err(error) && error.message@ == "only one array suffix is supported"@),
            binary_at(*old(self), 3) matches Some((tree, length)) ==> (!dml_keyword_at(*old(self))
                && declaration_head_ahead(*old(self)) && old(self).ahead(3 + length).kind is Semicolon ==> (result matches Ok(
                Statement::VariableDeclaration { initializer, .. },
            ) && initializer == tree && final(self).position() == old(self).position() + 4 + length
                && final(self).token_seq() == old(self).token_seq())),
        decreases old(self).remaining(), old(self).lexlen(), 60nat,
    {
        if self.check(&TokenKind::LeftBrace) {
            self.parse_block()
        } else if self.check(&TokenKind::If) {
            self.parse_if()
        } else if self.check(&TokenKind::While) {
            self.parse_while()
        } else if self.check(&TokenKind::Do) {
            self.parse_do_while()
        } else if self.check(&TokenKind::For) {
            self.parse_for()
        } else if self.check(&TokenKind::Break) {
            self.parse_break()
        } else if self.check(&TokenKind::Continue) {
            self.parse_continue()
        } else if self.check(&TokenKind::Try) {
            self.parse_try()
        } else if self.check(&TokenKind::Throw) {
            self.parse_throw()
        } else if self.check(&TokenKind::Return) {
            self.parse_return()
        } else if self.is_dml_start() {
            self.parse_dml()
        } else if self.is_declaration_start() {
            self.parse_variable_declaration(true)
        } else {
            self.parse_expression_statement(true)
        }
    }

    /// Whether the current token is a DML keyword (`insert`, `update`, `upsert`, `delete`, `undelete`).
    fn is_dml_start(&self) -> (result: bool)
        requires
            self.wf(),
        ensures
            result == dml_keyword_at(*self),
    {
        match &self.current().kind {
            TokenKind::Identifier(spelling) => {
                let word = spelling.as_str();
                eq_ignore_ascii_case(word, "insert") || eq_ignore_ascii_case(word, "update") || eq_ignore_ascii_case(
                    word,
                    "upsert",
                ) || eq_ignore_ascii_case(word, "delete") || eq_ignore_ascii_case(word, "undelete")
            },
            _ => false,
        }
    }

    pub(super) fn parse_dml(&mut self) -> (result: Result<Statement, Diagnostic>)
        requires
            old(self).wf(),
        ensures
            advanced(*final(self), *old(self)),
            result is Ok ==> progressed(*final(self), *old(self)),
            result matches Ok(node) ==> node.spec_span().source_id == old(self).source(),
            dml_word(ascii_lower(old(self).cur().lexeme@)) && !(old(self).cur().kind is Eof) && literal_ahead(
                *old(self),
                1,
            ) && old(self).ahead(2).kind is Semicolon ==> (result matches Ok(Statement::Dml { operation, value, .. })
                && dml_operation_named(ascii_lower(old(self).cur().lexeme@)) == Some(operation) && Some(value)
                == literal_expression(old(self).ahead(1)) && final(self).position() == old(self).position() + 3
                && final(self).token_seq() == old(self).token_seq()),
            !dml_word(ascii_lower(old(self).cur().lexeme@)) ==> result is Err,
        decreases old(self).remaining(), old(self).lexlen(), 58nat,
    {
        let ghost before = *old(self);
        let start = self.advance();
        let lower = lower_chars(chars_of(start.lexeme.as_str()).as_slice());
        let operation = if chars_are(lower.as_slice(), "insert") {
            DmlOperation::Insert
        } else if chars_are(lower.as_slice(), "update") {
            DmlOperation::Update
        } else if chars_are(lower.as_slice(), "upsert") {
            DmlOperation::Upsert
        } else if chars_are(lower.as_slice(), "delete") {
            DmlOperation::Delete
        } else if chars_are(lower.as_slice(), "undelete") {
            DmlOperation::Undelete
        } else {
            return Err(Diagnostic::new("expected a DML operation", start.span));
        };
        if matches!(start.kind, TokenKind::Eof) {
            return Err(Diagnostic::new("expected a DML operation", start.span));
        }
        let value = self.parse_expression()?;
        let end = self.expect_simple(TokenKind::Semicolon, "expected `;` after DML statement")?;
        Ok(Statement::Dml {
            operation,
            access: DmlAccess::Default,
            value,
            external_id: None,
            span: start.span.merge(end.span),
        })
    }

    pub(super) fn parse_variable_declaration(&mut self, consume_semicolon: bool) -> (result: Result<Statement, Diagnostic>)
        requires
            old(self).wf(),
        ensures
            advanced(*final(self), *old(self)),
            result is Ok ==> progressed(*final(self), *old(self)),
            result matches Ok(node) ==> node.spec_span().source_id == old(self).source(),
            simple_named_type_ahead(*old(self), 0) && old(self).ahead(1).kind is Identifier && old(self).ahead(2).kind
                is Equal && literal_ahead(*old(self), 3) && (consume_semicolon ==> old(self).ahead(4).kind is Semicolon)
                ==> (result is Ok && final(self).position() == old(self).position() + if consume_semicolon {
                5int
            } else {
                4int
            } && final(self).token_seq() == old(self).token_seq()),
            binary_at(*old(self), 3) matches Some((tree, length)) ==> (declaration_head_ahead(*old(self)) && (
            consume_semicolon ==> old(self).ahead(3 + length).kind is Semicolon) ==> (result matches Ok(
                Statement::VariableDeclaration { initializer, .. },
            ) && initializer == tree && final(self).position() == old(self).position() + 3 + length + if consume_semicolon {
                1int
            } else {
                0int
            } && final(self).token_seq() == old(self).token_seq())),
            double_suffix_type_ahead(*old(self)) ==> (result matches Err(error) && error.message@
                == "only one array suffix is supported"@),
        decreases old(self).remaining(), old(self).lexlen(), 57nat,
    {
        let ghost before = *old(self);
        let (ty, type_span) = self.parse_type_name()?;
        let name = self.expect_identifier("expected a variable name")?;
        self.expect_simple(TokenKind::Equal, "expected `=` and an explicit initializer")?;
        proof {
            if self.token_seq() == before.token_seq() && self.position() == before.position() + 3 {
                lemma_binary_shift(before, *self, 3);
            }
        }
        let initializer = self.parse_expression()?;
        let end = if consume_semicolon {
            self.expect_simple(TokenKind::Semicolon, "expected `;` after declaration")?.span
        } else {
            initializer.span()
        };
        Ok(Statement::VariableDeclaration { ty, name, initializer, span: type_span.merge(end) })
    }

    pub(super) fn parse_expression_statement(&mut self, consume_semicolon: bool) -> (result: Result<Statement, Diagnostic>)
        requires
            old(self).wf(),
        ensures
            advanced(*final(self), *old(self)),
            result is Ok ==> progressed(*final(self), *old(self)),
            result matches Ok(node) ==> node.spec_span().source_id == old(self).source(),
            literal_ahead(*old(self), 0) && (consume_semicolon ==> old(self).ahead(1).kind is Semicolon) ==> (
            result matches Ok(Statement::Expression { expression, .. }) && Some(expression) == literal_expression(
                old(self).cur(),
            ) && final(self).position() == old(self).position() + if consume_semicolon {
                2int
            } else {
                1int
            } && final(self).token_seq() == old(self).token_seq()),
        decreases old(self).remaining(), old(self).lexlen(), 57nat,
    {
        let expression = self.parse_expression()?;
        let start = expression.span();
        let end = if consume_semicolon {
            self.expect_simple(TokenKind::Semicolon, "expected `;` after expression")?.span
        } else {
            start
        };
        Ok(Statement::Expression { expression, span: start.merge(end) })
    }

    pub(super) fn parse_block(&mut self) -> (result: Result<Statement, Diagnostic>)
        requires
            old(self).wf(),
        ensures
            advanced(*final(self), *old(self)),
            result is Ok ==> progressed(*final(self), *old(self)),
            result matches Ok(node) ==> node.spec_span().source_id == old(self).source(),
            empty_block_ahead(*old(self), 0) ==> (result matches Ok(Statement::Block { statements, .. })
                && statements@.len() == 0 && final(self).position() == old(self).position() + 2 && final(self).token_seq() == old(self).token_seq()),
        decreases old(self).remaining(), old(self).lexlen(), 59nat,
    {
        let start = self.expect_simple(TokenKind::LeftBrace, "expected `{`")?;
        let mut statements: Vec<Statement> = Vec::new();
        while !self.check(&TokenKind::RightBrace) && !self.check(&TokenKind::Eof)
            invariant
                progressed(*self, *old(self)),
                empty_block_ahead(*old(self), 0) ==> (statements@.len() == 0 && self.position() == old(self).position() + 1
                    && self.token_seq() == old(self).token_seq()),
            decreases self.remaining(), self.lexlen(),
        {
            statements.push(self.parse_statement()?);
        }
        let end = self.expect_simple(TokenKind::RightBrace, "expected `}` after block")?;
        Ok(Statement::Block { statements, span: start.span.merge(end.span) })
    }

    pub(super) fn parse_if(&mut self) -> (result: Result<Statement, Diagnostic>)
        requires
            old(self).wf(),
        ensures
            advanced(*final(self), *old(self)),
            result is Ok ==> progressed(*final(self), *old(self)),
            result matches Ok(node) ==> node.spec_span().source_id == old(self).source(),
            old(self).cur().kind is If && old(self).ahead(1).kind is LeftParen && literal_ahead(*old(self), 2)
                && old(self).ahead(3).kind is RightParen && empty_block_ahead(*old(self), 4) && !(old(self).ahead(
                6,
            ).kind is Else) ==> (result is Ok && final(self).position() == old(self).position() + 6 && final(self).token_seq() == old(self).token_seq()),
            literal_if_ahead(*old(self)) && !(old(self).ahead(6).kind is Else) ==> (result matches Ok(node) && if_condition(
                node,
            ) == literal_expression(old(self).ahead(2)) && then_value(node) == literal_expression(old(self).ahead(4))
                && if_else(node) is None && final(self).position() == old(self).position() + 6),
            literal_if_ahead(*old(self)) && old(self).ahead(6).kind is Else && literal_statement_ahead(*old(self), 7) ==> (
            result matches Ok(node) && if_condition(node) == literal_expression(old(self).ahead(2)) && then_value(node)
                == literal_expression(old(self).ahead(4)) && else_value(node) == literal_expression(old(self).ahead(7))
                && final(self).position() == old(self).position() + 9),
        decreases old(self).remaining(), old(self).lexlen(), 58nat,
    {
        let start = self.expect_simple(TokenKind::If, "expected `if`")?;
        self.expect_simple(TokenKind::LeftParen, "expected `(` after `if`")?;
        let condition = self.parse_expression()?;
        self.expect_simple(TokenKind::RightParen, "expected `)` after if condition")?;
        let then_branch = self.parse_statement()?;
        let else_branch = if self.check(&TokenKind::Else) {
            self.advance();
            Some(Box::new(self.parse_statement()?))
        } else {
            None
        };
        let end = match &else_branch {
            Some(branch) => branch.span(),
            None => then_branch.span(),
        };
        Ok(Statement::If {
            condition,
            then_branch: Box::new(then_branch),
            else_branch,
            span: start.span.merge(end),
        })
    }

    pub(super) fn parse_while(&mut self) -> (result: Result<Statement, Diagnostic>)
        requires
            old(self).wf(),
        ensures
            advanced(*final(self), *old(self)),
            result is Ok ==> progressed(*final(self), *old(self)),
            result matches Ok(node) ==> node.spec_span().source_id == old(self).source(),
            old(self).cur().kind is While && old(self).ahead(1).kind is LeftParen && literal_ahead(*old(self), 2)
                && old(self).ahead(3).kind is RightParen && empty_block_ahead(*old(self), 4) ==> (result is Ok
                && final(self).position() == old(self).position() + 6 && final(self).token_seq() == old(self).token_seq()),
        decreases old(self).remaining(), old(self).lexlen(), 58nat,
    {
        let start = self.expect_simple(TokenKind::While, "expected `while`")?;
        self.expect_simple(TokenKind::LeftParen, "expected `(` after `while`")?;
        let condition = self.parse_expression()?;
        self.expect_simple(TokenKind::RightParen, "expected `)` after while condition")?;
        let body = self.parse_statement()?;
        let span = start.span.merge(body.span());
        Ok(Statement::While { condition, body: Box::new(body), span })
    }

    pub(super) fn parse_do_while(&mut self) -> (result: Result<Statement, Diagnostic>)
        requires
            old(self).wf(),
        ensures
            advanced(*final(self), *old(self)),
            result is Ok ==> progressed(*final(self), *old(self)),
            result matches Ok(node) ==> node.spec_span().source_id == old(self).source(),
            old(self).cur().kind is Do && empty_block_ahead(*old(self), 1) && old(self).ahead(3).kind is While
                && old(self).ahead(4).kind is LeftParen && literal_ahead(*old(self), 5) && old(self).ahead(6).kind is RightParen
                && old(self).ahead(7).kind is Semicolon ==> (result is Ok && final(self).position() == old(self).position()
                + 8 && final(self).token_seq() == old(self).token_seq()),
        decreases old(self).remaining(), old(self).lexlen(), 58nat,
    {
        let start = self.expect_simple(TokenKind::Do, "expected `do`")?;
        let body = self.parse_statement()?;
        self.expect_simple(TokenKind::While, "expected `while` after do body")?;
        self.expect_simple(TokenKind::LeftParen, "expected `(` after `while`")?;
        let condition = self.parse_expression()?;
        self.expect_simple(TokenKind::RightParen, "expected `)` after do-while condition")?;
        let end = self.expect_simple(TokenKind::Semicolon, "expected `;` after do-while")?;
        Ok(Statement::DoWhile { body: Box::new(body), condition, span: start.span.merge(end.span) })
    }

    pub(super) fn parse_for(&mut self) -> (result: Result<Statement, Diagnostic>)
        requires
            old(self).wf(),
        ensures
            advanced(*final(self), *old(self)),
            result is Ok ==> progressed(*final(self), *old(self)),
            result matches Ok(node) ==> node.spec_span().source_id == old(self).source(),
            old(self).cur().kind is For && old(self).ahead(1).kind is LeftParen && old(self).ahead(2).kind is Semicolon
                && old(self).ahead(3).kind is Semicolon && old(self).ahead(4).kind is RightParen && empty_block_ahead(
                *old(self),
                5,
            ) ==> (result matches Ok(Statement::For { initializer, condition, update, .. }) && initializer is None
                && condition is None && update is None && final(self).position() == old(self).position() + 7
                && final(self).token_seq() == old(self).token_seq()),
            old(self).cur().kind is For && old(self).ahead(1).kind is LeftParen && literal_ahead(*old(self), 2)
                && old(self).ahead(3).kind is Semicolon && literal_ahead(*old(self), 4) && old(self).ahead(5).kind
                is Semicolon && literal_ahead(*old(self), 6) && old(self).ahead(7).kind is RightParen
                && empty_block_ahead(*old(self), 8) ==> (result matches Ok(node) && for_clauses(node) == Some(
                (
                    literal_expression(old(self).ahead(2)),
                    literal_expression(old(self).ahead(4)),
                    literal_expression(old(self).ahead(6)),
                ),
            ) && final(self).position() == old(self).position() + 10 && final(self).token_seq() == old(self).token_seq()),
        decreases old(self).remaining(), old(self).lexlen(), 58nat,
    {
        let start = self.expect_simple(TokenKind::For, "expected `for`")?;
        self.expect_simple(TokenKind::LeftParen, "expected `(` after `for`")?;

        if self.is_for_each_start() {
            let (element_type, _) = self.parse_type_name()?;
            let name = self.expect_identifier("expected an iteration variable")?;
            self.expect_simple(TokenKind::Colon, "expected `:` after enhanced for variable")?;
            let iterable = self.parse_expression()?;
            self.expect_simple(TokenKind::RightParen, "expected `)` after enhanced for iterable")?;
            let body = self.parse_statement()?;
            let span = start.span.merge(body.span());
            return Ok(Statement::ForEach { element_type, name, iterable, body: Box::new(body), span });
        }

        let initializer = if self.check(&TokenKind::Semicolon) {
            self.advance();
            None
        } else {
            let statement = if self.is_declaration_start() {
                self.parse_variable_declaration(false)?
            } else {
                self.parse_expression_statement(false)?
            };
            self.expect_simple(TokenKind::Semicolon, "expected `;` after for initializer")?;
            Some(Box::new(statement))
        };

        let condition = if self.check(&TokenKind::Semicolon) {
            None
        } else {
            Some(self.parse_expression()?)
        };
        self.expect_simple(TokenKind::Semicolon, "expected `;` after for condition")?;

        let update = if self.check(&TokenKind::RightParen) {
            None
        } else {
            Some(Box::new(self.parse_expression_statement(false)?))
        };
        self.expect_simple(TokenKind::RightParen, "expected `)` after for clauses")?;
        let body = self.parse_statement()?;
        let span = start.span.merge(body.span());
        Ok(Statement::For { initializer, condition, update, body: Box::new(body), span })
    }

    pub(super) fn parse_break(&mut self) -> (result: Result<Statement, Diagnostic>)
        requires
            old(self).wf(),
        ensures
            advanced(*final(self), *old(self)),
            result is Ok ==> progressed(*final(self), *old(self)),
            result matches Ok(statement) ==> statement matches Statement::Break { span } && span
                == old(self).cur().span.spec_merge(old(self).ahead(1).span),
            result is Ok <==> (old(self).cur().kind is Break && old(self).ahead(1).kind is Semicolon),
            result matches Ok(node) ==> node.spec_span().source_id == old(self).source(),
    {
        let start = self.expect_simple(TokenKind::Break, "expected `break`")?;
        let end = self.expect_simple(TokenKind::Semicolon, "expected `;` after `break`")?;
        Ok(Statement::Break { span: start.span.merge(end.span) })
    }

    pub(super) fn parse_continue(&mut self) -> (result: Result<Statement, Diagnostic>)
        requires
            old(self).wf(),
        ensures
            advanced(*final(self), *old(self)),
            result is Ok ==> progressed(*final(self), *old(self)),
            result matches Ok(statement) ==> statement matches Statement::Continue { span } && span
                == old(self).cur().span.spec_merge(old(self).ahead(1).span),
            result is Ok <==> (old(self).cur().kind is Continue && old(self).ahead(1).kind is Semicolon),
            result matches Ok(node) ==> node.spec_span().source_id == old(self).source(),
    {
        let start = self.expect_simple(TokenKind::Continue, "expected `continue`")?;
        let end = self.expect_simple(TokenKind::Semicolon, "expected `;` after `continue`")?;
        Ok(Statement::Continue { span: start.span.merge(end.span) })
    }

    pub(super) fn parse_try(&mut self) -> (result: Result<Statement, Diagnostic>)
        requires
            old(self).wf(),
        ensures
            advanced(*final(self), *old(self)),
            result is Ok ==> progressed(*final(self), *old(self)),
            result matches Ok(node) ==> node.spec_span().source_id == old(self).source(),
            old(self).cur().kind is Try && empty_block_ahead(*old(self), 1) && old(self).ahead(3).kind is Finally
                && empty_block_ahead(*old(self), 4) ==> (result matches Ok(Statement::Try { catches, finally_block, .. })
                && catches@.len() == 0 && finally_block is Some && final(self).position() == old(self).position() + 6
                && final(self).token_seq() == old(self).token_seq()),
            old(self).cur().kind is Try && empty_block_ahead(*old(self), 1) && !(old(self).ahead(3).kind is Catch)
                && !(old(self).ahead(3).kind is Finally) ==> (result matches Err(error) && error.message@
                == "expected at least one `catch` or a `finally` after try block"@),
        decreases old(self).remaining(), old(self).lexlen(), 58nat,
    {
        let ghost before = *old(self);
        let start = self.expect_simple(TokenKind::Try, "expected `try`")?;
        let try_block = self.parse_block()?;
        let mut catches: Vec<CatchClause> = Vec::new();

        while self.check(&TokenKind::Catch)
            invariant
                progressed(*self, *old(self)),
                before == *old(self),
                catches@.len() == 0 && before.cur().kind is Try && empty_block_ahead(before, 1) ==> (self.position()
                    == before.position() + 3 && self.token_seq() == before.token_seq()),
                before.cur().kind is Try && empty_block_ahead(before, 1) && !(before.ahead(3).kind is Catch) ==> catches@.len()
                    == 0,
            decreases self.remaining(), self.lexlen(),
        {
            let catch_start = self.advance();
            self.expect_simple(TokenKind::LeftParen, "expected `(` after `catch`")?;
            let (exception_type, _) = self.parse_type_name()?;
            let name = self.expect_identifier("expected a catch variable name")?;
            self.expect_simple(TokenKind::RightParen, "expected `)` after catch variable")?;
            let body = self.parse_block()?;
            let span = catch_start.span.merge(body.span());
            catches.push(CatchClause { exception_type, name, body, span });
        }

        let finally_block = if self.check(&TokenKind::Finally) {
            self.advance();
            Some(Box::new(self.parse_block()?))
        } else {
            None
        };
        let end = match &finally_block {
            Some(block) => block.span(),
            None => {
                if catches.len() == 0 {
                    return Err(Diagnostic::new(
                        "expected at least one `catch` or a `finally` after try block",
                        self.current().span,
                    ));
                }
                catches[catches.len() - 1].body.span()
            },
        };
        Ok(Statement::Try { try_block: Box::new(try_block), catches, finally_block, span: start.span.merge(end) })
    }

    pub(super) fn parse_throw(&mut self) -> (result: Result<Statement, Diagnostic>)
        requires
            old(self).wf(),
        ensures
            advanced(*final(self), *old(self)),
            result is Ok ==> progressed(*final(self), *old(self)),
            result matches Ok(node) ==> node.spec_span().source_id == old(self).source(),
            old(self).cur().kind is Throw && literal_ahead(*old(self), 1) && old(self).ahead(2).kind is Semicolon ==> (
            result matches Ok(Statement::Throw { value, .. }) && Some(value) == literal_expression(old(self).ahead(1))
                && final(self).position() == old(self).position() + 3 && final(self).token_seq() == old(self).token_seq()),
        decreases old(self).remaining(), old(self).lexlen(), 58nat,
    {
        let start = self.expect_simple(TokenKind::Throw, "expected `throw`")?;
        let value = self.parse_expression()?;
        let end = self.expect_simple(TokenKind::Semicolon, "expected `;` after `throw`")?;
        Ok(Statement::Throw { value, span: start.span.merge(end.span) })
    }

    pub(super) fn parse_return(&mut self) -> (result: Result<Statement, Diagnostic>)
        requires
            old(self).wf(),
        ensures
            advanced(*final(self), *old(self)),
            result is Ok ==> progressed(*final(self), *old(self)),
            result matches Ok(node) ==> node.spec_span().source_id == old(self).source(),
            old(self).cur().kind is Return && old(self).ahead(1).kind is Semicolon ==> (result matches Ok(
                Statement::Return { value, .. },
            ) && value is None && final(self).position() == old(self).position() + 2 && final(self).token_seq() == old(self).token_seq()),
            old(self).cur().kind is Return && literal_ahead(*old(self), 1) && old(self).ahead(2).kind is Semicolon ==> (
            result matches Ok(Statement::Return { value, .. }) && value == literal_expression(old(self).ahead(1))
                && final(self).position() == old(self).position() + 3 && final(self).token_seq() == old(self).token_seq()),
        decreases old(self).remaining(), old(self).lexlen(), 58nat,
    {
        let start = self.expect_simple(TokenKind::Return, "expected `return`")?;
        let value = if self.check(&TokenKind::Semicolon) {
            None
        } else {
            Some(self.parse_expression()?)
        };
        let end = self.expect_simple(TokenKind::Semicolon, "expected `;` after `return`")?;
        Ok(Statement::Return { value, span: start.span.merge(end.span) })
    }
}

} // verus!
