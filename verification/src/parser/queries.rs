use vstd::prelude::*;

use super::declarations::identifier_spelling;
use super::{advanced, is_keyword_token, progressed, Parser};
use crate::ast::{
    Expression, FieldPath, Identifier, NullsOrder, SoqlAccess, SoqlAggregateFunction,
    SoqlComparisonOperator, SoqlCondition, SoqlDateLiteral, SoqlDateLiteralKind, SoqlInValues,
    SoqlLogicalOperator, SoqlOrderBy, SoqlQuery, SoqlSelectItem, SoqlValue, SortDirection,
    SoslQuery, SoslReturning, SoslScope,
};
use crate::diagnostic::Diagnostic;
use crate::span::Span;
use crate::text::{ascii_lower, chars_are, chars_of, eq_ignore_ascii_case, lower_chars};
use crate::token::{Token, TokenKind};

verus! {

/// The SOQL value a string, Boolean or integer literal token stands for.
pub open spec fn soql_literal_value(token: Token) -> Option<SoqlValue> {
    match token.kind {
        TokenKind::StringLiteral(value) => Some(SoqlValue::String(value, token.span)),
        TokenKind::BooleanLiteral(value) => Some(SoqlValue::Boolean(value, token.span)),
        TokenKind::IntegerLiteral(value) => Some(SoqlValue::Integer(value, token.span)),
        _ => None,
    }
}

/// Whether a condition compares a field for equality with `value`.
pub open spec fn equal_comparison(condition: SoqlCondition, value: Option<SoqlValue>) -> bool {
    condition matches SoqlCondition::Comparison { operator, right, .. } && operator == SoqlComparisonOperator::Equal
        && Some(right) == value
}

/// `field = literal` starts `k` tokens ahead, with a one-word field.
pub open spec fn simple_comparison_ahead(parser: Parser, k: int) -> bool {
    &&& parser.ahead(k).kind is Identifier
    &&& !(parser.ahead(k + 1).kind is LeftParen)
    &&& !(parser.ahead(k + 1).kind is Dot)
    &&& parser.ahead(k + 1).kind is Equal
    &&& soql_literal_value(parser.ahead(k + 2)) is Some
}

/// A lone `field = literal` condition starts `k` tokens ahead: no `NOT`
/// before it, and no `AND` or `OR` after it.
pub open spec fn simple_condition_ahead(parser: Parser, k: int) -> bool {
    &&& !is_keyword_token(parser.ahead(k), "not"@)
    &&& simple_comparison_ahead(parser, k)
    &&& !is_keyword_token(parser.ahead(k + 3), "and"@)
    &&& !is_keyword_token(parser.ahead(k + 3), "or"@)
}

/// `Type ( field )` starts `k` tokens ahead, with a one-word field.
pub open spec fn simple_returning_ahead(parser: Parser, k: int) -> bool {
    &&& parser.ahead(k).kind is Identifier
    &&& parser.ahead(k + 1).kind is LeftParen
    &&& parser.ahead(k + 2).kind is Identifier
    &&& parser.ahead(k + 3).kind is RightParen
}

/// `FIND literal IN ALL|NAME FIELDS RETURNING Type ( field )`, with one
/// returning object, starts `k` tokens ahead.
pub open spec fn simple_sosl_ahead(parser: Parser, k: int) -> bool {
    &&& is_keyword_token(parser.ahead(k), "find"@)
    &&& soql_literal_value(parser.ahead(k + 1)) is Some
    &&& is_keyword_token(parser.ahead(k + 2), "in"@)
    &&& (is_keyword_token(parser.ahead(k + 3), "all"@) || is_keyword_token(parser.ahead(k + 3), "name"@))
    &&& is_keyword_token(parser.ahead(k + 4), "fields"@)
    &&& is_keyword_token(parser.ahead(k + 5), "returning"@)
    &&& simple_returning_ahead(parser, k + 6)
    &&& !(parser.ahead(k + 10).kind is Comma)
}

/// `SELECT field FROM Type WHERE field = literal`, with no further clause,
/// starts `k` tokens ahead.
pub open spec fn where_soql_ahead(parser: Parser, k: int) -> bool {
    &&& is_keyword_token(parser.ahead(k), "select"@)
    &&& plain_field_ahead(parser, k + 1)
    &&& is_keyword_token(parser.ahead(k + 2), "from"@)
    &&& parser.ahead(k + 3).kind is Identifier
    &&& is_keyword_token(parser.ahead(k + 4), "where"@)
    &&& simple_condition_ahead(parser, k + 5)
    &&& opens_no_clause(parser.ahead(k + 8))
}

/// The query that `SELECT field FROM Type WHERE field = literal`, `k` tokens
/// ahead, stands for: one selected item, the object type, the comparison,
/// and no other clause.
pub open spec fn where_query_tree(parser: Parser, k: int, query: SoqlQuery) -> bool {
    &&& query.select@.len() == 1
    &&& Some(query.from.spelling@) == identifier_spelling(parser.ahead(k + 3))
    &&& query.where_clause matches Some(condition) && equal_comparison(condition, soql_literal_value(
        parser.ahead(k + 7),
    ))
    &&& query.group_by@.len() == 0
    &&& query.having is None
    &&& query.order_by@.len() == 0
    &&& query.limit is None
    &&& query.offset is None
    &&& !query.all_rows
}

/// The query that `SELECT field FROM Type`, `k` tokens ahead, stands for:
/// one selected item, the object type, no other clause, and a span from
/// `SELECT` to the type.
pub open spec fn simple_query_tree(parser: Parser, k: int, query: SoqlQuery) -> bool {
    &&& query.select@.len() == 1
    &&& Some(query.from.spelling@) == identifier_spelling(parser.ahead(k + 3))
    &&& query.from.span == parser.ahead(k + 3).span
    &&& query.where_clause is None
    &&& query.group_by@.len() == 0
    &&& query.having is None
    &&& query.order_by@.len() == 0
    &&& query.limit is None
    &&& query.offset is None
    &&& !query.all_rows
    &&& query.span == parser.ahead(k).span.spec_merge(parser.ahead(k + 3).span)
}

/// A plain field name starts `k` tokens ahead: an identifier other than
/// `TYPEOF`, followed by neither `(` nor `.`.
pub open spec fn plain_field_ahead(parser: Parser, k: int) -> bool {
    &&& parser.ahead(k).kind is Identifier
    &&& !is_keyword_token(parser.ahead(k), "typeof"@)
    &&& !(parser.ahead(k + 1).kind is LeftParen)
    &&& !(parser.ahead(k + 1).kind is Dot)
}

/// A token that opens no optional SOQL clause.
pub open spec fn opens_no_clause(token: Token) -> bool {
    &&& !is_keyword_token(token, "where"@)
    &&& !is_keyword_token(token, "group"@)
    &&& !is_keyword_token(token, "having"@)
    &&& !is_keyword_token(token, "order"@)
    &&& !is_keyword_token(token, "limit"@)
    &&& !is_keyword_token(token, "offset"@)
}

/// `SELECT field FROM Type` with no further clause starts `k` tokens ahead.
pub open spec fn simple_soql_ahead(parser: Parser, k: int) -> bool {
    &&& is_keyword_token(parser.ahead(k), "select"@)
    &&& plain_field_ahead(parser, k + 1)
    &&& is_keyword_token(parser.ahead(k + 2), "from"@)
    &&& parser.ahead(k + 3).kind is Identifier
    &&& opens_no_clause(parser.ahead(k + 4))
}

/// The relative or absolute SOQL date literal named by a lower-cased word.
pub open spec fn spec_date_literal_kind(lower: Seq<char>) -> Option<SoqlDateLiteralKind> {
    if lower == "yesterday"@ {
        Some(SoqlDateLiteralKind::Yesterday)
    } else if lower == "today"@ {
        Some(SoqlDateLiteralKind::Today)
    } else if lower == "tomorrow"@ {
        Some(SoqlDateLiteralKind::Tomorrow)
    } else if lower == "last_n_days"@ {
        Some(SoqlDateLiteralKind::LastNDays)
    } else if lower == "next_n_days"@ {
        Some(SoqlDateLiteralKind::NextNDays)
    } else if lower == "this_week"@ {
        Some(SoqlDateLiteralKind::ThisWeek)
    } else if lower == "last_week"@ {
        Some(SoqlDateLiteralKind::LastWeek)
    } else if lower == "next_week"@ {
        Some(SoqlDateLiteralKind::NextWeek)
    } else if lower == "this_month"@ {
        Some(SoqlDateLiteralKind::ThisMonth)
    } else if lower == "last_month"@ {
        Some(SoqlDateLiteralKind::LastMonth)
    } else if lower == "next_month"@ {
        Some(SoqlDateLiteralKind::NextMonth)
    } else if lower == "this_year"@ {
        Some(SoqlDateLiteralKind::ThisYear)
    } else if lower == "last_year"@ {
        Some(SoqlDateLiteralKind::LastYear)
    } else if lower == "next_year"@ {
        Some(SoqlDateLiteralKind::NextYear)
    } else {
        None
    }
}

fn soql_date_literal_kind(name: &str) -> (result: Option<SoqlDateLiteralKind>)
    ensures
        result == spec_date_literal_kind(ascii_lower(name@)),
{
    let lower = lower_chars(chars_of(name).as_slice());
    if chars_are(lower.as_slice(), "yesterday") {
        Some(SoqlDateLiteralKind::Yesterday)
    } else if chars_are(lower.as_slice(), "today") {
        Some(SoqlDateLiteralKind::Today)
    } else if chars_are(lower.as_slice(), "tomorrow") {
        Some(SoqlDateLiteralKind::Tomorrow)
    } else if chars_are(lower.as_slice(), "last_n_days") {
        Some(SoqlDateLiteralKind::LastNDays)
    } else if chars_are(lower.as_slice(), "next_n_days") {
        Some(SoqlDateLiteralKind::NextNDays)
    } else if chars_are(lower.as_slice(), "this_week") {
        Some(SoqlDateLiteralKind::ThisWeek)
    } else if chars_are(lower.as_slice(), "last_week") {
        Some(SoqlDateLiteralKind::LastWeek)
    } else if chars_are(lower.as_slice(), "next_week") {
        Some(SoqlDateLiteralKind::NextWeek)
    } else if chars_are(lower.as_slice(), "this_month") {
        Some(SoqlDateLiteralKind::ThisMonth)
    } else if chars_are(lower.as_slice(), "last_month") {
        Some(SoqlDateLiteralKind::LastMonth)
    } else if chars_are(lower.as_slice(), "next_month") {
        Some(SoqlDateLiteralKind::NextMonth)
    } else if chars_are(lower.as_slice(), "this_year") {
        Some(SoqlDateLiteralKind::ThisYear)
    } else if chars_are(lower.as_slice(), "last_year") {
        Some(SoqlDateLiteralKind::LastYear)
    } else if chars_are(lower.as_slice(), "next_year") {
        Some(SoqlDateLiteralKind::NextYear)
    } else {
        None
    }
}

/// The aggregate function named by a lower-cased word.
pub open spec fn spec_aggregate_function(lower: Seq<char>) -> Option<SoqlAggregateFunction> {
    if lower == "count"@ {
        Some(SoqlAggregateFunction::Count)
    } else if lower == "sum"@ {
        Some(SoqlAggregateFunction::Sum)
    } else if lower == "min"@ {
        Some(SoqlAggregateFunction::Min)
    } else if lower == "max"@ {
        Some(SoqlAggregateFunction::Max)
    } else {
        None
    }
}

impl Parser {
    pub(super) fn parse_query_expression(&mut self) -> (result: Result<Expression, Diagnostic>)
        requires
            old(self).wf(),
        ensures
            advanced(*final(self), *old(self)),
            result is Ok ==> progressed(*final(self), *old(self)),
            result matches Ok(node) ==> node.spec_span().source_id == old(self).source(),
            old(self).cur().kind is LeftBracket && simple_soql_ahead(*old(self), 1) && old(self).ahead(5).kind is RightBracket
                ==> (result matches Ok(Expression::Soql(_)) && final(self).position() == old(self).position() + 6
                && final(self).token_seq() == old(self).token_seq()),
        decreases old(self).remaining(), old(self).lexlen(), 29nat,
    {
        let start = self.expect_simple(TokenKind::LeftBracket, "expected `[`")?;
        if self.check_keyword("select") {
            let mut query = self.parse_soql_body()?;
            let end = self.expect_simple(TokenKind::RightBracket, "expected `]` after SOQL query")?;
            query.span = start.span.merge(end.span);
            Ok(Expression::Soql(Box::new(query)))
        } else if self.check_keyword("find") {
            let mut query = self.parse_sosl_body()?;
            let end = self.expect_simple(TokenKind::RightBracket, "expected `]` after SOSL query")?;
            query.span = start.span.merge(end.span);
            Ok(Expression::Sosl(Box::new(query)))
        } else {
            Err(Diagnostic::new("expected `SELECT` or `FIND` after `[`", self.current().span))
        }
    }

    pub(super) fn parse_soql_body(&mut self) -> (result: Result<SoqlQuery, Diagnostic>)
        requires
            old(self).wf(),
        ensures
            advanced(*final(self), *old(self)),
            result is Ok ==> progressed(*final(self), *old(self)),
            result matches Ok(node) ==> node.span.source_id == old(self).source(),
            simple_soql_ahead(*old(self), 0) ==> (result matches Ok(query) && simple_query_tree(*old(self), 0, query)
                && final(self).position() == old(self).position() + 4 && final(self).token_seq() == old(self).token_seq()),
            where_soql_ahead(*old(self), 0) ==> (result matches Ok(query) && where_query_tree(*old(self), 0, query)
                && final(self).position() == old(self).position() + 8 && final(self).token_seq() == old(self).token_seq()),
        decreases old(self).remaining(), old(self).lexlen(), 28nat,
    {
        let start = self.expect_keyword("select", "expected `SELECT`")?;
        let select = self.parse_select_list()?;
        self.expect_keyword("from", "expected `FROM` after SOQL select list")?;
        let from = self.expect_identifier("expected an SObject type after `FROM`")?;
        let where_clause = self.parse_optional_condition("where")?;
        let group_by = self.parse_optional_group_by()?;
        let having = self.parse_optional_condition("having")?;
        let order_by = self.parse_optional_order_by()?;
        let limit = self.parse_optional_value_clause("limit")?;
        let offset = self.parse_optional_value_clause("offset")?;
        let end = match &offset {
            Some(value) => value.span(),
            None => match &limit {
                Some(value) => value.span(),
                None => from.span,
            },
        };
        Ok(SoqlQuery {
            select,
            from,
            where_clause,
            access: SoqlAccess::Default,
            group_by,
            having,
            order_by,
            limit,
            offset,
            all_rows: false,
            span: start.span.merge(end),
        })
    }

    pub(super) fn parse_select_list(&mut self) -> (result: Result<Vec<SoqlSelectItem>, Diagnostic>)
        requires
            old(self).wf(),
        ensures
            advanced(*final(self), *old(self)),
            result is Ok ==> progressed(*final(self), *old(self)),
            plain_field_ahead(*old(self), 0) && !(old(self).ahead(1).kind is Comma) ==> (result matches Ok(items)
                && items@.len() == 1 && final(self).position() == old(self).position() + 1 && final(self).token_seq() == old(self).token_seq()),
        decreases old(self).remaining(), old(self).lexlen(), 27nat,
    {
        let mut select: Vec<SoqlSelectItem> = Vec::new();
        loop
            invariant
                advanced(*self, *old(self)),
                select@.len() > 0 ==> progressed(*self, *old(self)),
                plain_field_ahead(*old(self), 0) && !(old(self).ahead(1).kind is Comma) ==> select@.len() == 0
                    && *self == *old(self),
            decreases self.remaining(), self.lexlen(),
        {
            select.push(self.parse_select_item()?);
            if !self.check(&TokenKind::Comma) {
                return Ok(select);
            }
            self.advance();
        }
    }

    pub(super) fn parse_optional_condition(&mut self, keyword: &str) -> (result: Result<Option<SoqlCondition>, Diagnostic>)
        requires
            old(self).wf(),
        ensures
            advanced(*final(self), *old(self)),
            result matches Ok(Some(_)) ==> progressed(*final(self), *old(self)),
            !is_keyword_token(old(self).cur(), keyword@) ==> result == Ok::<Option<SoqlCondition>, Diagnostic>(None)
                && *final(self) == *old(self),
            is_keyword_token(old(self).cur(), keyword@) ==> !(result matches Ok(None)),
            is_keyword_token(old(self).cur(), keyword@) && simple_condition_ahead(*old(self), 1) ==> (result matches Ok(
                Some(condition),
            ) && equal_comparison(condition, soql_literal_value(old(self).ahead(3))) && final(self).position()
                == old(self).position() + 4 && final(self).token_seq() == old(self).token_seq()),
        decreases old(self).remaining(), old(self).lexlen(), 24nat,
    {
        if !self.check_keyword(keyword) {
            return Ok(None);
        }
        self.advance();
        let condition = self.parse_soql_or()?;
        Ok(Some(condition))
    }

    fn parse_optional_group_by(&mut self) -> (result: Result<Vec<FieldPath>, Diagnostic>)
        requires
            old(self).wf(),
        ensures
            advanced(*final(self), *old(self)),
            !is_keyword_token(old(self).cur(), "group"@) ==> (result matches Ok(fields) && fields@.len() == 0
                && *final(self) == *old(self)),
            is_keyword_token(old(self).cur(), "group"@) && !is_keyword_token(old(self).ahead(1), "by"@)
                ==> (result matches Err(error) && error.message@ == "expected `BY` after `GROUP`"@),
            is_keyword_token(old(self).cur(), "group"@) ==> (result matches Ok(fields) ==> fields@.len() > 0),
    {
        if !self.check_keyword("group") {
            return Ok(Vec::new());
        }
        self.advance();
        self.expect_keyword("by", "expected `BY` after `GROUP`")?;
        self.parse_field_path_list()
    }

    pub(super) fn parse_select_item(&mut self) -> (result: Result<SoqlSelectItem, Diagnostic>)
        requires
            old(self).wf(),
        ensures
            advanced(*final(self), *old(self)),
            result is Ok ==> progressed(*final(self), *old(self)),
            plain_field_ahead(*old(self), 0) ==> (result matches Ok(SoqlSelectItem::Field(_))
                && final(self).position() == old(self).position() + 1 && final(self).token_seq() == old(self).token_seq()),
        decreases old(self).remaining(), old(self).lexlen(), 26nat,
    {
        if self.check_keyword("typeof") {
            return Err(Diagnostic::new(
                "`TYPEOF` polymorphic SOQL is not supported by the active compatibility profile",
                self.current().span,
            ));
        }
        if self.check(&TokenKind::LeftParen) {
            return self.parse_child_select_item();
        }
        if let Some(function) = self.current_aggregate_function() {
            return self.parse_aggregate_select_item(function);
        }
        Ok(SoqlSelectItem::Field(self.parse_field_path()?))
    }

    pub(super) fn parse_child_select_item(&mut self) -> (result: Result<SoqlSelectItem, Diagnostic>)
        requires
            old(self).wf(),
        ensures
            advanced(*final(self), *old(self)),
            result is Ok ==> progressed(*final(self), *old(self)),
            !(old(self).cur().kind is Eof) && simple_soql_ahead(*old(self), 1) && old(self).ahead(5).kind is RightParen
                ==> (result matches Ok(SoqlSelectItem::Subquery { query, span }) && query.span == span && span
                == old(self).cur().span.spec_merge(old(self).ahead(5).span) && final(self).position() == old(self).position()
                + 6 && final(self).token_seq() == old(self).token_seq()),
            old(self).cur().kind is Eof || !is_keyword_token(old(self).ahead(1), "select"@) ==> (result matches Err(error)
                && error.message@ == "expected `SELECT` after `(` in SOQL select list"@),
        decreases old(self).remaining(), old(self).lexlen(), 25nat,
    {
        let start = self.advance();
        if matches!(start.kind, TokenKind::Eof) || !self.check_keyword("select") {
            return Err(Diagnostic::new("expected `SELECT` after `(` in SOQL select list", self.current().span));
        }
        let mut query = self.parse_soql_body()?;
        let end = self.expect_simple(TokenKind::RightParen, "expected `)` after child SOQL subquery")?;
        let span = start.span.merge(end.span);
        query.span = span;
        Ok(SoqlSelectItem::Subquery { query: Box::new(query), span })
    }

    pub(super) fn parse_aggregate_select_item(&mut self, function: SoqlAggregateFunction) -> (result: Result<SoqlSelectItem, Diagnostic>)
        requires
            old(self).wf(),
        ensures
            advanced(*final(self), *old(self)),
            result is Ok ==> progressed(*final(self), *old(self)),
            !(old(self).cur().kind is Eof) && old(self).ahead(2).kind is RightParen && !(old(self).ahead(3).kind is Identifier)
                ==> (result matches Ok(SoqlSelectItem::Aggregate { function: f, field, alias, span }) && f == function
                && field is None && alias is None && span == old(self).cur().span.spec_merge(old(self).ahead(2).span)
                && final(self).position() == old(self).position() + 3 && final(self).token_seq() == old(self).token_seq()),
    {
        let start = self.advance();
        self.advance();
        let field = self.parse_optional_aggregate_field()?;
        let close = self.expect_simple(TokenKind::RightParen, "expected `)` after aggregate argument")?;
        let alias = if matches!(self.current().kind, TokenKind::Identifier(_)) && !self.is_query_clause_keyword() {
            Some(self.expect_identifier("expected aggregate alias")?)
        } else {
            None
        };
        let end = match &alias {
            Some(alias) => alias.span,
            None => close.span,
        };
        Ok(SoqlSelectItem::Aggregate { function, field, alias, span: start.span.merge(end) })
    }

    /// A dotted field path such as `Account.Owner.Name`.
    fn parse_field_path(&mut self) -> (result: Result<FieldPath, Diagnostic>)
        requires
            old(self).wf(),
        ensures
            advanced(*final(self), *old(self)),
            result is Ok ==> progressed(*final(self), *old(self)),
            result matches Ok(path) ==> path.segments@.len() >= 1,
            !(old(self).cur().kind is Identifier) ==> result is Err,
            old(self).cur().kind is Identifier && !(old(self).ahead(1).kind is Dot) ==> (result matches Ok(path)
                && path.segments@.len() == 1 && final(self).position() == old(self).position() + 1 && final(self).token_seq() == old(self).token_seq()),
            result matches Ok(node) ==> node.span.source_id == old(self).source(),
    {
        let first = self.expect_identifier("expected a field name")?;
        let mut span = first.span;
        let mut segments: Vec<Identifier> = Vec::new();
        segments.push(first);
        while self.check(&TokenKind::Dot)
            invariant
                progressed(*self, *old(self)),
                segments@.len() >= 1,
                span.source_id == old(self).source(),
                old(self).cur().kind is Identifier && !(old(self).ahead(1).kind is Dot) ==> (segments@.len() == 1
                    && self.position() == old(self).position() + 1 && self.token_seq() == old(self).token_seq()),
            decreases self.remaining(),
        {
            self.advance();
            match self.expect_identifier("expected a field name after `.`") {
                Ok(segment) => {
                    span = span.merge(segment.span);
                    segments.push(segment);
                },
                Err(error) => return Err(error),
            }
        }
        Ok(FieldPath { segments, span })
    }

    fn parse_field_path_list(&mut self) -> (result: Result<Vec<FieldPath>, Diagnostic>)
        requires
            old(self).wf(),
        ensures
            advanced(*final(self), *old(self)),
            result is Ok ==> progressed(*final(self), *old(self)),
            result matches Ok(fields) ==> fields@.len() > 0,
            old(self).cur().kind is Identifier && !(old(self).ahead(1).kind is Dot) && !(old(self).ahead(1).kind is Comma)
                ==> (result matches Ok(fields) && fields@.len() == 1 && final(self).position() == old(self).position() + 1
                && final(self).token_seq() == old(self).token_seq()),
    {
        let mut fields: Vec<FieldPath> = Vec::new();
        loop
            invariant_except_break
                old(self).cur().kind is Identifier && !(old(self).ahead(1).kind is Dot) && !(old(self).ahead(1).kind
                    is Comma) ==> fields@.len() == 0 && *self == *old(self),
            invariant
                advanced(*self, *old(self)),
                fields@.len() > 0 ==> progressed(*self, *old(self)),
            ensures
                progressed(*self, *old(self)),
                fields@.len() > 0,
                old(self).cur().kind is Identifier && !(old(self).ahead(1).kind is Dot) && !(old(self).ahead(1).kind
                    is Comma) ==> fields@.len() == 1 && self.position() == old(self).position() + 1
                    && self.token_seq() == old(self).token_seq(),
            decreases self.remaining(), self.lexlen(),
        {
            fields.push(self.parse_field_path()?);
            if !self.check(&TokenKind::Comma) {
                break;
            }
            self.advance();
        }
        Ok(fields)
    }

    pub(super) fn parse_soql_or(&mut self) -> (result: Result<SoqlCondition, Diagnostic>)
        requires
            old(self).wf(),
        ensures
            advanced(*final(self), *old(self)),
            result is Ok ==> progressed(*final(self), *old(self)),
            result matches Ok(node) ==> node.spec_span().source_id == old(self).source(),
            simple_condition_ahead(*old(self), 0) ==> (result matches Ok(node) && equal_comparison(node, soql_literal_value(old(self).ahead(2)))
                && final(self).position() == old(self).position() + 3 && final(self).token_seq() == old(self).token_seq()),
        decreases old(self).remaining(), old(self).lexlen(), 23nat,
    {
        let mut condition = self.parse_soql_and()?;
        while self.check_keyword("or")
            invariant
                progressed(*self, *old(self)),
                condition.spec_span().source_id == old(self).source(),
                simple_condition_ahead(*old(self), 0) ==> (equal_comparison(condition, soql_literal_value(old(self).ahead(2))) && self.position() == old(self).position() + 3
                    && self.token_seq() == old(self).token_seq()),
            decreases self.remaining(), self.lexlen(),
        {
            self.advance();
            let right = self.parse_soql_and()?;
            let span = condition.span().merge(right.span());
            condition = SoqlCondition::Logical {
                left: Box::new(condition),
                operator: SoqlLogicalOperator::Or,
                right: Box::new(right),
                span,
            };
        }
        Ok(condition)
    }

    pub(super) fn parse_soql_and(&mut self) -> (result: Result<SoqlCondition, Diagnostic>)
        requires
            old(self).wf(),
        ensures
            advanced(*final(self), *old(self)),
            result is Ok ==> progressed(*final(self), *old(self)),
            result matches Ok(node) ==> node.spec_span().source_id == old(self).source(),
            !is_keyword_token(old(self).cur(), "not"@) && simple_comparison_ahead(*old(self), 0) && !is_keyword_token(
                old(self).ahead(3),
                "and"@,
            ) ==> (result matches Ok(node) && equal_comparison(node, soql_literal_value(old(self).ahead(2))) && final(self).position() == old(self).position()
                + 3 && final(self).token_seq() == old(self).token_seq()),
        decreases old(self).remaining(), old(self).lexlen(), 22nat,
    {
        let mut condition = self.parse_soql_not()?;
        while self.check_keyword("and")
            invariant
                progressed(*self, *old(self)),
                condition.spec_span().source_id == old(self).source(),
                !is_keyword_token(old(self).cur(), "not"@) && simple_comparison_ahead(*old(self), 0) && !is_keyword_token(old(self).ahead(3), "and"@) ==> (equal_comparison(condition, soql_literal_value(old(self).ahead(2))) && self.position() == old(self).position() + 3
                    && self.token_seq() == old(self).token_seq()),
            decreases self.remaining(), self.lexlen(),
        {
            self.advance();
            let right = self.parse_soql_not()?;
            let span = condition.span().merge(right.span());
            condition = SoqlCondition::Logical {
                left: Box::new(condition),
                operator: SoqlLogicalOperator::And,
                right: Box::new(right),
                span,
            };
        }
        Ok(condition)
    }

    pub(super) fn parse_soql_not(&mut self) -> (result: Result<SoqlCondition, Diagnostic>)
        requires
            old(self).wf(),
        ensures
            advanced(*final(self), *old(self)),
            result is Ok ==> progressed(*final(self), *old(self)),
            result matches Ok(node) ==> node.spec_span().source_id == old(self).source(),
            !is_keyword_token(old(self).cur(), "not"@) && simple_comparison_ahead(*old(self), 0) ==> (result matches Ok(node)
                && equal_comparison(node, soql_literal_value(old(self).ahead(2))) && final(self).position() == old(self).position() + 3 && final(self).token_seq() == old(self).token_seq()),
        decreases old(self).remaining(), old(self).lexlen(), 21nat,
    {
        if self.check_keyword("not") {
            let start = self.advance();
            let condition = self.parse_soql_not()?;
            let span = start.span.merge(condition.span());
            return Ok(SoqlCondition::Not { condition: Box::new(condition), span });
        }
        if self.check(&TokenKind::LeftParen) {
            self.advance();
            let condition = self.parse_soql_or()?;
            self.expect_simple(TokenKind::RightParen, "expected `)` after SOQL condition")?;
            return Ok(condition);
        }
        self.parse_soql_predicate()
    }

    pub(super) fn parse_soql_predicate(&mut self) -> (result: Result<SoqlCondition, Diagnostic>)
        requires
            old(self).wf(),
        ensures
            advanced(*final(self), *old(self)),
            result is Ok ==> progressed(*final(self), *old(self)),
            result matches Ok(node) ==> node.spec_span().source_id == old(self).source(),
            simple_comparison_ahead(*old(self), 0) ==> (result matches Ok(node) && equal_comparison(node, soql_literal_value(old(self).ahead(2)))
                && final(self).position() == old(self).position() + 3 && final(self).token_seq() == old(self).token_seq()),
        decreases old(self).remaining(), old(self).lexlen(), 20nat,
    {
        if let Some(function) = self.current_aggregate_function() {
            return self.parse_aggregate_predicate(function);
        }
        let field = self.parse_field_path()?;
        let start = field.span;
        let negated = if self.check_keyword("not") && self.peek_keyword(1, "in") {
            self.advance();
            self.advance();
            true
        } else if self.check_keyword("in") {
            self.advance();
            false
        } else {
            let operator = self.parse_soql_comparison_operator()?;
            let right = self.parse_soql_value()?;
            let span = start.merge(right.span());
            return Ok(SoqlCondition::Comparison { left: field, operator, right, span });
        };
        self.parse_in_predicate(field, start, negated)
    }

    pub(super) fn parse_in_predicate(&mut self, field: FieldPath, start: Span, negated: bool) -> (result: Result<SoqlCondition, Diagnostic>)
        requires
            old(self).wf(),
            start.source_id == old(self).source(),
        ensures
            advanced(*final(self), *old(self)),
            result is Ok ==> progressed(*final(self), *old(self)),
            result matches Ok(node) ==> node.spec_span().source_id == old(self).source(),
            result matches Ok(node) ==> (node matches SoqlCondition::In { field: f, negated: n, .. } && f == field && n
                == negated),
            old(self).cur().kind is LeftParen && old(self).ahead(1).kind is RightParen ==> (result matches Ok(
                SoqlCondition::In { values, span, .. },
            ) && values is Values && values->Values_0@.len() == 0 && span == start.spec_merge(start) && final(self).position()
                == old(self).position() + 2 && final(self).token_seq() == old(self).token_seq()),
            old(self).cur().kind is LeftParen && soql_literal_value(old(self).ahead(1)) is Some && old(self).ahead(2).kind is RightParen
                ==> (result matches Ok(SoqlCondition::In { values, .. }) && values is Values && values->Values_0@.len() == 1
                && Some(values->Values_0@[0]) == soql_literal_value(old(self).ahead(1)) && final(self).position()
                == old(self).position() + 3 && final(self).token_seq() == old(self).token_seq()),
            !(old(self).cur().kind is LeftParen) && !(old(self).cur().kind is Colon) ==> (result matches Err(error)
                && error.message@ == "expected `(` or bind after `IN`"@),
        decreases old(self).remaining(), old(self).lexlen(), 18nat,
    {
        let values = if self.check(&TokenKind::Colon) {
            self.advance();
            SoqlInValues::Bind(Box::new(self.parse_expression()?))
        } else {
            self.expect_simple(TokenKind::LeftParen, "expected `(` or bind after `IN`")?;
            let mut values: Vec<SoqlValue> = Vec::new();
            if !self.check(&TokenKind::RightParen) {
                loop
                    invariant_except_break
                        old(self).cur().kind is LeftParen && soql_literal_value(old(self).ahead(1)) is Some
                            && old(self).ahead(2).kind is RightParen ==> (values@.len() == 0 && self.position()
                            == old(self).position() + 1 && self.token_seq() == old(self).token_seq()),
                    invariant
                        progressed(*self, *old(self)),
                        !(old(self).cur().kind is LeftParen && old(self).ahead(1).kind is RightParen),
                        old(self).cur().kind is LeftParen,
                    ensures
                        progressed(*self, *old(self)),
                        old(self).cur().kind is LeftParen && soql_literal_value(old(self).ahead(1)) is Some
                            && old(self).ahead(2).kind is RightParen ==> (values@.len() == 1 && Some(values@[0])
                            == soql_literal_value(old(self).ahead(1)) && self.position() == old(self).position() + 2
                            && self.token_seq() == old(self).token_seq()),
                    decreases self.remaining(), self.lexlen(),
                {
                    values.push(self.parse_soql_value()?);
                    if !self.check(&TokenKind::Comma) {
                        break;
                    }
                    self.advance();
                }
            }
            self.expect_simple(TokenKind::RightParen, "expected `)` after `IN` values")?;
            SoqlInValues::Values(values)
        };
        let end = match &values {
            SoqlInValues::Values(values) => {
                if values.len() == 0 {
                    start
                } else {
                    values[values.len() - 1].span()
                }
            },
            SoqlInValues::Bind(expression) => expression.span(),
        };
        Ok(SoqlCondition::In { field, negated, values, span: start.merge(end) })
    }

    pub(super) fn parse_aggregate_predicate(&mut self, function: SoqlAggregateFunction) -> (result: Result<SoqlCondition, Diagnostic>)
        requires
            old(self).wf(),
        ensures
            advanced(*final(self), *old(self)),
            result is Ok ==> progressed(*final(self), *old(self)),
            result matches Ok(node) ==> node.spec_span().source_id == old(self).source(),
            !(old(self).cur().kind is Eof) && old(self).ahead(2).kind is RightParen && old(self).ahead(3).kind is Equal
                && soql_literal_value(old(self).ahead(4)) is Some ==> (result matches Ok(
                SoqlCondition::AggregateComparison { function: f, field, operator, right, .. },
            ) && f == function && field is None && operator == SoqlComparisonOperator::Equal && Some(right)
                == soql_literal_value(old(self).ahead(4)) && final(self).position() == old(self).position() + 5
                && final(self).token_seq() == old(self).token_seq()),
            old(self).cur().kind is Eof ==> (result matches Err(error) && error.message@ == "expected an aggregate function"@),
        decreases old(self).remaining(), old(self).lexlen(), 19nat,
    {
        let start = self.advance();
        if matches!(start.kind, TokenKind::Eof) {
            return Err(Diagnostic::new("expected an aggregate function", start.span));
        }
        self.advance();
        let field = self.parse_optional_aggregate_field()?;
        self.expect_simple(TokenKind::RightParen, "expected `)` after HAVING aggregate argument")?;
        let operator = self.parse_soql_comparison_operator()?;
        let right = self.parse_soql_value()?;
        let span = start.span.merge(right.span());
        Ok(SoqlCondition::AggregateComparison { function, field, operator, right, span })
    }

    fn parse_optional_aggregate_field(&mut self) -> (result: Result<Option<FieldPath>, Diagnostic>)
        requires
            old(self).wf(),
        ensures
            advanced(*final(self), *old(self)),
            old(self).cur().kind is RightParen ==> result == Ok::<Option<FieldPath>, Diagnostic>(None)
                && *final(self) == *old(self),
            !(old(self).cur().kind is RightParen) ==> !(result matches Ok(None)),
    {
        if self.check(&TokenKind::RightParen) {
            Ok(None)
        } else {
            let path = self.parse_field_path()?;
            Ok(Some(path))
        }
    }

    /// The aggregate function named by the current identifier when `(` follows it.
    fn current_aggregate_function(&self) -> (result: Option<SoqlAggregateFunction>)
        requires
            self.wf(),
        ensures
            result is Some ==> self.cur().kind is Identifier && self.ahead(1).kind is LeftParen,
            match self.cur().kind {
                TokenKind::Identifier(name) => self.ahead(1).kind is LeftParen ==> result == spec_aggregate_function(
                    ascii_lower(name@),
                ),
                _ => true,
            },
    {
        let name = match &self.current().kind {
            TokenKind::Identifier(name) => name,
            _ => return None,
        };
        if !matches!(self.peek(1).kind, TokenKind::LeftParen) {
            return None;
        }
        let lower = lower_chars(chars_of(name.as_str()).as_slice());
        if chars_are(lower.as_slice(), "count") {
            Some(SoqlAggregateFunction::Count)
        } else if chars_are(lower.as_slice(), "sum") {
            Some(SoqlAggregateFunction::Sum)
        } else if chars_are(lower.as_slice(), "min") {
            Some(SoqlAggregateFunction::Min)
        } else if chars_are(lower.as_slice(), "max") {
            Some(SoqlAggregateFunction::Max)
        } else {
            None
        }
    }

    fn parse_soql_comparison_operator(&mut self) -> (result: Result<SoqlComparisonOperator, Diagnostic>)
        requires
            old(self).wf(),
        ensures
            advanced(*final(self), *old(self)),
            result is Ok ==> progressed(*final(self), *old(self)),
            old(self).cur().kind is Equal ==> result == Ok::<SoqlComparisonOperator, Diagnostic>(SoqlComparisonOperator::Equal),
            old(self).cur().kind is Equal ==> final(self).position() == old(self).position() + 1 && final(self).token_seq() == old(self).token_seq(),
            old(self).cur().kind is BangEqual ==> result == Ok::<SoqlComparisonOperator, Diagnostic>(SoqlComparisonOperator::NotEqual),
            old(self).cur().kind is Less ==> result == Ok::<SoqlComparisonOperator, Diagnostic>(SoqlComparisonOperator::Less),
            old(self).cur().kind is LessEqual ==> result == Ok::<SoqlComparisonOperator, Diagnostic>(SoqlComparisonOperator::LessEqual),
            old(self).cur().kind is Greater ==> result == Ok::<SoqlComparisonOperator, Diagnostic>(SoqlComparisonOperator::Greater),
            old(self).cur().kind is GreaterEqual ==> result == Ok::<SoqlComparisonOperator, Diagnostic>(SoqlComparisonOperator::GreaterEqual),
            is_keyword_token(old(self).cur(), "like"@) ==> result == Ok::<SoqlComparisonOperator, Diagnostic>(SoqlComparisonOperator::Like),
    {
        let operator = if self.check(&TokenKind::Equal) {
            SoqlComparisonOperator::Equal
        } else if self.check(&TokenKind::BangEqual) {
            SoqlComparisonOperator::NotEqual
        } else if self.check(&TokenKind::Less) {
            SoqlComparisonOperator::Less
        } else if self.check(&TokenKind::LessEqual) {
            SoqlComparisonOperator::LessEqual
        } else if self.check(&TokenKind::Greater) {
            SoqlComparisonOperator::Greater
        } else if self.check(&TokenKind::GreaterEqual) {
            SoqlComparisonOperator::GreaterEqual
        } else if self.check_keyword("like") {
            SoqlComparisonOperator::Like
        } else {
            return Err(Diagnostic::new("expected a SOQL comparison operator", self.current().span));
        };
        self.advance();
        Ok(operator)
    }

    pub(super) fn parse_soql_value(&mut self) -> (result: Result<SoqlValue, Diagnostic>)
        requires
            old(self).wf(),
        ensures
            advanced(*final(self), *old(self)),
            result is Ok ==> progressed(*final(self), *old(self)),
            result matches Ok(node) ==> node.spec_span().source_id == old(self).source(),
            soql_literal_value(old(self).cur()) is Some ==> (result matches Ok(value) && Some(value)
                == soql_literal_value(old(self).cur()) && final(self).position() == old(self).position() + 1 && final(self).token_seq() == old(self).token_seq()),
        decreases old(self).remaining(), old(self).lexlen(), 17nat,
    {
        let token = self.current().clone();
        match token.kind {
            TokenKind::StringLiteral(value) => {
                self.advance();
                Ok(SoqlValue::String(value, token.span))
            },
            TokenKind::BooleanLiteral(value) => {
                self.advance();
                Ok(SoqlValue::Boolean(value, token.span))
            },
            TokenKind::IntegerLiteral(value) => {
                self.advance();
                Ok(SoqlValue::Integer(value, token.span))
            },
            TokenKind::Identifier(name) => {
                let kind = match soql_date_literal_kind(name.as_str()) {
                    Some(kind) => kind,
                    None => return Err(Diagnostic::new("expected a SOQL literal or bind expression", token.span)),
                };
                self.advance();
                let (amount, span) = if matches!(kind, SoqlDateLiteralKind::LastNDays | SoqlDateLiteralKind::NextNDays) {
                    self.expect_simple(TokenKind::Colon, "expected `:` in relative SOQL date literal")?;
                    let amount = self.current().clone();
                    let value = match amount.kind {
                        TokenKind::IntegerLiteral(value) => value,
                        _ => {
                            return Err(Diagnostic::new(
                                "expected a non-negative Integer in relative SOQL date literal",
                                amount.span,
                            ))
                        },
                    };
                    self.advance();
                    if value < 0 {
                        return Err(Diagnostic::new("relative SOQL date literal amount cannot be negative", amount.span));
                    }
                    (Some(value), token.span.merge(amount.span))
                } else {
                    (None, token.span)
                };
                Ok(SoqlValue::DateLiteral(SoqlDateLiteral { kind, amount, span }))
            },
            TokenKind::Null => {
                self.advance();
                Ok(SoqlValue::Null(token.span))
            },
            TokenKind::Colon => {
                self.advance();
                let expression = self.parse_expression()?;
                let span = token.span.merge(expression.span());
                Ok(SoqlValue::Bind(Box::new(expression), span))
            },
            _ => Err(Diagnostic::new("expected a SOQL literal or bind expression", token.span)),
        }
    }

    fn parse_optional_order_by(&mut self) -> (result: Result<Vec<SoqlOrderBy>, Diagnostic>)
        requires
            old(self).wf(),
        ensures
            advanced(*final(self), *old(self)),
            !is_keyword_token(old(self).cur(), "order"@) ==> (result matches Ok(ordering) && ordering@.len() == 0
                && *final(self) == *old(self)),
            is_keyword_token(old(self).cur(), "order"@) && !is_keyword_token(old(self).ahead(1), "by"@)
                ==> (result matches Err(error) && error.message@ == "expected `BY` after `ORDER`"@),
            is_keyword_token(old(self).cur(), "order"@) ==> (result matches Ok(ordering) ==> ordering@.len() > 0),
    {
        if !self.check_keyword("order") {
            return Ok(Vec::new());
        }
        self.advance();
        self.expect_keyword("by", "expected `BY` after `ORDER`")?;
        let mut ordering: Vec<SoqlOrderBy> = Vec::new();
        loop
            invariant
                advanced(*self, *old(self)),
                is_keyword_token(old(self).cur(), "order"@),
                is_keyword_token(old(self).ahead(1), "by"@),
            ensures
                advanced(*self, *old(self)),
                ordering@.len() > 0,
            decreases self.remaining(), self.lexlen(),
        {
            let field = self.parse_field_path()?;
            let direction = if self.check_keyword("desc") {
                self.advance();
                SortDirection::Descending
            } else {
                if self.check_keyword("asc") {
                    self.advance();
                }
                SortDirection::Ascending
            };
            let nulls = if self.check_keyword("nulls") {
                self.advance();
                if self.check_keyword("first") {
                    self.advance();
                    Some(NullsOrder::First)
                } else if self.check_keyword("last") {
                    self.advance();
                    Some(NullsOrder::Last)
                } else {
                    return Err(Diagnostic::new("expected `FIRST` or `LAST` after `NULLS`", self.current().span));
                }
            } else {
                None
            };
            let span = field.span;
            ordering.push(SoqlOrderBy { field, direction, nulls, span });
            if !self.check(&TokenKind::Comma) {
                break;
            }
            self.advance();
        }
        Ok(ordering)
    }

    pub(super) fn parse_optional_value_clause(&mut self, keyword: &str) -> (result: Result<Option<SoqlValue>, Diagnostic>)
        requires
            old(self).wf(),
        ensures
            advanced(*final(self), *old(self)),
            result matches Ok(Some(_)) ==> progressed(*final(self), *old(self)),
            !is_keyword_token(old(self).cur(), keyword@) ==> result == Ok::<Option<SoqlValue>, Diagnostic>(None)
                && *final(self) == *old(self),
            is_keyword_token(old(self).cur(), keyword@) ==> !(result matches Ok(None)),
        decreases old(self).remaining(), old(self).lexlen(), 16nat,
    {
        if self.check_keyword(keyword) {
            self.advance();
            let value = self.parse_soql_value()?;
            Ok(Some(value))
        } else {
            Ok(None)
        }
    }

    pub(super) fn parse_sosl_body(&mut self) -> (result: Result<SoslQuery, Diagnostic>)
        requires
            old(self).wf(),
        ensures
            advanced(*final(self), *old(self)),
            result is Ok ==> progressed(*final(self), *old(self)),
            result matches Ok(node) ==> node.span.source_id == old(self).source(),
            simple_sosl_ahead(*old(self), 0) ==> (result matches Ok(query) && Some(query.search) == soql_literal_value(
                old(self).ahead(1),
            ) && query.scope == (if is_keyword_token(old(self).ahead(3), "all"@) {
                SoslScope::AllFields
            } else {
                SoslScope::NameFields
            }) && query.returning@.len() == 1 && final(self).position() == old(self).position() + 10
                && final(self).token_seq() == old(self).token_seq()),
            !is_keyword_token(old(self).cur(), "find"@) ==> (result matches Err(error) && error.message@
                == "expected `FIND`"@),
        decreases old(self).remaining(), old(self).lexlen(), 15nat,
    {
        let start = self.expect_keyword("find", "expected `FIND`")?;
        let search = self.parse_soql_value()?;
        self.expect_keyword("in", "expected `IN` after SOSL search term")?;
        let scope = if self.check_keyword("all") {
            self.advance();
            SoslScope::AllFields
        } else if self.check_keyword("name") {
            self.advance();
            SoslScope::NameFields
        } else {
            return Err(Diagnostic::new("expected `ALL` or `NAME` SOSL field scope", self.current().span));
        };
        self.expect_keyword("fields", "expected `FIELDS` after SOSL scope")?;
        self.expect_keyword("returning", "expected `RETURNING` in SOSL query")?;
        let mut returning: Vec<SoslReturning> = Vec::new();
        loop
            invariant_except_break
                simple_sosl_ahead(*old(self), 0) ==> (returning@.len() == 0 && self.position() == old(self).position() + 6
                    && self.token_seq() == old(self).token_seq()),
            invariant
                progressed(*self, *old(self)),
                is_keyword_token(old(self).cur(), "find"@),
            ensures
                progressed(*self, *old(self)),
                simple_sosl_ahead(*old(self), 0) ==> (returning@.len() == 1 && self.position() == old(self).position() + 10
                    && self.token_seq() == old(self).token_seq()),
            decreases self.remaining(), self.lexlen(),
        {
            returning.push(self.parse_sosl_returning()?);
            if !self.check(&TokenKind::Comma) {
                break;
            }
            self.advance();
        }
        let end = if returning.len() == 0 {
            search.span()
        } else {
            returning[returning.len() - 1].span
        };
        Ok(SoslQuery { search, scope, returning, span: start.span.merge(end) })
    }

    pub(super) fn parse_sosl_returning(&mut self) -> (result: Result<SoslReturning, Diagnostic>)
        requires
            old(self).wf(),
        ensures
            advanced(*final(self), *old(self)),
            result is Ok ==> progressed(*final(self), *old(self)),
            result matches Ok(node) ==> node.span.source_id == old(self).source(),
            simple_returning_ahead(*old(self), 0) ==> (result matches Ok(returning) && Some(returning.object.spelling@)
                == identifier_spelling(old(self).cur()) && returning.fields@.len() == 1 && returning.where_clause is None
                && returning.order_by@.len() == 0 && returning.limit is None && final(self).position()
                == old(self).position() + 4 && final(self).token_seq() == old(self).token_seq()),
            !(old(self).cur().kind is Identifier) ==> result is Err,
        decreases old(self).remaining(), old(self).lexlen(), 14nat,
    {
        let object = self.expect_identifier("expected an SObject type in `RETURNING`")?;
        self.expect_simple(TokenKind::LeftParen, "expected `(` after SOSL returning object")?;
        let fields = self.parse_field_path_list()?;
        let where_clause = if self.check_keyword("where") {
            self.advance();
            Some(self.parse_soql_or()?)
        } else {
            None
        };
        let order_by = self.parse_optional_order_by()?;
        let limit = self.parse_optional_value_clause("limit")?;
        let end = self.expect_simple(TokenKind::RightParen, "expected `)` after SOSL returning clause")?;
        let span = object.span.merge(end.span);
        Ok(SoslReturning { object, fields, where_clause, order_by, limit, span })
    }

    fn peek_keyword(&self, offset: usize, expected: &str) -> (result: bool)
        requires
            self.wf(),
        ensures
            result == is_keyword_token(self.ahead(offset as int), expected@),
    {
        match &self.peek(offset).kind {
            TokenKind::Identifier(spelling) => eq_ignore_ascii_case(spelling.as_str(), expected),
            _ => false,
        }
    }

    /// Whether the current token is a SOQL clause or connective keyword.
    fn is_query_clause_keyword(&self) -> (result: bool)
        requires
            self.wf(),
        ensures
            result == (is_keyword_token(self.cur(), "from"@) || is_keyword_token(self.cur(), "where"@)
                || is_keyword_token(self.cur(), "group"@) || is_keyword_token(self.cur(), "having"@)
                || is_keyword_token(self.cur(), "order"@) || is_keyword_token(self.cur(), "limit"@)
                || is_keyword_token(self.cur(), "offset"@) || is_keyword_token(self.cur(), "asc"@)
                || is_keyword_token(self.cur(), "desc"@) || is_keyword_token(self.cur(), "nulls"@)
                || is_keyword_token(self.cur(), "and"@) || is_keyword_token(self.cur(), "or"@)),
    {
        self.check_keyword("from") || self.check_keyword("where") || self.check_keyword("group")
            || self.check_keyword("having") || self.check_keyword("order") || self.check_keyword("limit")
            || self.check_keyword("offset") || self.check_keyword("asc") || self.check_keyword("desc")
            || self.check_keyword("nulls") || self.check_keyword("and") || self.check_keyword("or")
    }
}

} // verus!
