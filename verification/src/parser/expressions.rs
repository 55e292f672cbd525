use vstd::prelude::*;

use super::types::simple_named_type_ahead;
use super::{advanced, progressed, Parser};
use crate::ast::{
    AssignmentOperator, AssignmentTarget, BinaryOperator, CollectionInitializer, Expression,
    Identifier, MapEntry, PostfixOperator, TypeName, UnaryOperator,
};
use crate::diagnostic::Diagnostic;
use crate::span::Span;
use crate::token::{Token, TokenKind};

verus! {

/// The expression a literal token stands for.
pub open spec fn literal_expression(token: Token) -> Option<Expression> {
    match token.kind {
        TokenKind::StringLiteral(value) => Some(Expression::StringLiteral(value, token.span)),
        TokenKind::BooleanLiteral(value) => Some(Expression::BooleanLiteral(value, token.span)),
        TokenKind::IntegerLiteral(value) => Some(Expression::IntegerLiteral(value, token.span)),
        TokenKind::LongLiteral(value) => Some(Expression::LongLiteral(value, token.span)),
        TokenKind::DecimalLiteral(value) => Some(Expression::DecimalLiteral(value, token.span)),
        TokenKind::Null => Some(Expression::NullLiteral(token.span)),
        _ => None,
    }
}

/// A token that no operator, postfix or call continues.
pub open spec fn ends_operand(token: Token) -> bool {
    token.kind is Semicolon || token.kind is RightParen || token.kind is RightBracket || token.kind is RightBrace
        || token.kind is Comma || token.kind is Colon || token.kind is Eof
}

/// The parser is at a literal that a token ending the operand follows.
pub open spec fn lone_literal(parser: Parser) -> bool {
    literal_expression(parser.cur()) is Some && ends_operand(parser.ahead(1))
}

/// The precedence level of a binary operator token, from `1` for `*`, `/`
/// and `%`, which bind most tightly, to `10` for `||`, and the operator.
pub open spec fn operator_level(kind: TokenKind) -> Option<(int, BinaryOperator)> {
    match kind {
        TokenKind::Star => Some((1, BinaryOperator::Multiply)),
        TokenKind::Slash => Some((1, BinaryOperator::Divide)),
        TokenKind::Percent => Some((1, BinaryOperator::Remainder)),
        TokenKind::Plus => Some((2, BinaryOperator::Add)),
        TokenKind::Minus => Some((2, BinaryOperator::Subtract)),
        TokenKind::ShiftLeft => Some((3, BinaryOperator::ShiftLeft)),
        TokenKind::ShiftRight => Some((3, BinaryOperator::ShiftRight)),
        TokenKind::UnsignedShiftRight => Some((3, BinaryOperator::UnsignedShiftRight)),
        TokenKind::Less => Some((4, BinaryOperator::Less)),
        TokenKind::LessEqual => Some((4, BinaryOperator::LessEqual)),
        TokenKind::Greater => Some((4, BinaryOperator::Greater)),
        TokenKind::GreaterEqual => Some((4, BinaryOperator::GreaterEqual)),
        TokenKind::EqualEqual => Some((5, BinaryOperator::Equal)),
        TokenKind::BangEqual => Some((5, BinaryOperator::NotEqual)),
        TokenKind::Ampersand => Some((6, BinaryOperator::BitwiseAnd)),
        TokenKind::Caret => Some((7, BinaryOperator::BitwiseXor)),
        TokenKind::Pipe => Some((8, BinaryOperator::BitwiseOr)),
        TokenKind::AndAnd => Some((9, BinaryOperator::And)),
        TokenKind::OrOr => Some((10, BinaryOperator::Or)),
        _ => None,
    }
}

/// The operator of `kind` when it is a binary operator of precedence `level`.
pub open spec fn level_operator(level: int, kind: TokenKind) -> Option<BinaryOperator> {
    match operator_level(kind) {
        Some((l, operator)) => if l == level {
            Some(operator)
        } else {
            None
        },
        None => None,
    }
}

/// A literal stands `k` tokens ahead, and what follows it ends the operand
/// or is a binary operator, so that no postfix continues it.
pub open spec fn literal_operand(parser: Parser, k: int) -> bool {
    &&& literal_expression(parser.ahead(k)) is Some
    &&& (ends_operand(parser.ahead(k + 1)) || operator_level(parser.ahead(k + 1).kind) is Some)
}

/// The binary node that `operator` at `k` tokens ahead makes of two operands.
pub open spec fn binary_node(parser: Parser, left: Expression, operator: BinaryOperator, k: int, right: Expression) -> Expression {
    Expression::Binary {
        left: Box::new(left),
        operator,
        right: Box::new(right),
        operator_span: parser.ahead(k).span,
        span: left.spec_span().spec_merge(right.spec_span()),
    }
}

/// A chain of literals joined by binary operators of precedence `level` or
/// tighter, from `k` tokens ahead: its tree, with the tighter operators
/// nearer the leaves and each level associating to the left, and where the
/// chain ends. Level `0` is a single literal.
pub open spec fn binary_chain(parser: Parser, level: int, k: int) -> Option<(Expression, int)>
    decreases parser.token_seq().len() - (parser.position() + k), level, 0int,
{
    if level <= 0 {
        if literal_operand(parser, k) {
            Some((literal_expression(parser.ahead(k))->0, k + 1))
        } else {
            None
        }
    } else {
        match binary_chain(parser, level - 1, k) {
            None => None,
            Some((left, j)) => if j <= k || parser.position() + j > parser.token_seq().len() {
                None
            } else {
                binary_rest(parser, level, left, j)
            },
        }
    }
}

/// The rest of a chain of precedence `level` from `k` tokens ahead, after
/// `left`: each operator of that level takes a tighter chain as its right
/// operand.
pub open spec fn binary_rest(parser: Parser, level: int, left: Expression, k: int) -> Option<(Expression, int)>
    decreases parser.token_seq().len() - (parser.position() + k), level, 1int,
{
    if level <= 0 || k < 0 || parser.position() + k >= parser.token_seq().len() {
        None
    } else {
        match level_operator(level, parser.ahead(k).kind) {
            None => if parser.ahead(k).kind is Instanceof {
                None
            } else {
                Some((left, k))
            },
            Some(operator) => match binary_chain(parser, level - 1, k + 1) {
                None => None,
                Some((right, j)) => if j <= k || parser.position() + j > parser.token_seq().len() {
                    None
                } else {
                    binary_rest(parser, level, binary_node(parser, left, operator, k, right), j)
                },
            },
        }
    }
}

/// `result` moved back by `d` tokens.
pub open spec fn shifted(result: Option<(Expression, int)>, d: int) -> Option<(Expression, int)> {
    match result {
        Some((tree, j)) => Some((tree, j - d)),
        None => None,
    }
}

/// A chain reads the same from a parser `d` tokens further on.
proof fn lemma_binary_chain_shift(p: Parser, q: Parser, level: int, k: int, d: int)
    requires
        p.token_seq() == q.token_seq(),
        q.position() == p.position() + d,
        0 <= d <= k,
    ensures
        binary_chain(q, level, k - d) == shifted(binary_chain(p, level, k), d),
        binary_chain(p, level, k) matches Some((_, j)) ==> j > k,
    decreases p.token_seq().len() - (p.position() + k), level, 0int,
{
    assert(p.ahead(k) == q.ahead(k - d));
    assert(p.ahead(k + 1) == q.ahead(k + 1 - d));
    if level > 0 {
        lemma_binary_chain_shift(p, q, level - 1, k, d);
        if let Some((left, j)) = binary_chain(p, level - 1, k) {
            if !(j <= k || p.position() + j > p.token_seq().len()) {
                lemma_binary_rest_shift(p, q, level, left, j, d);
            }
        }
    }
}

/// The rest of a chain reads the same from a parser `d` tokens further on.
proof fn lemma_binary_rest_shift(p: Parser, q: Parser, level: int, left: Expression, k: int, d: int)
    requires
        p.token_seq() == q.token_seq(),
        q.position() == p.position() + d,
        0 <= d <= k,
    ensures
        binary_rest(q, level, left, k - d) == shifted(binary_rest(p, level, left, k), d),
        binary_rest(p, level, left, k) matches Some((_, j)) ==> j >= k,
    decreases p.token_seq().len() - (p.position() + k), level, 1int,
{
    assert(p.ahead(k) == q.ahead(k - d));
    if !(level <= 0 || k < 0 || p.position() + k >= p.token_seq().len()) {
        if let Some(operator) = level_operator(level, p.ahead(k).kind) {
            lemma_binary_chain_shift(p, q, level - 1, k + 1, d);
            assert(k + 1 - d == (k - d) + 1);
            if let Some((right, j)) = binary_chain(p, level - 1, k + 1) {
                if !(j <= k || p.position() + j > p.token_seq().len()) {
                    let next = binary_node(p, left, operator, k, right);
                    assert(next == binary_node(q, left, operator, k - d, right));
                    lemma_binary_rest_shift(p, q, level, next, j, d);
                }
            }
        }
    }
}

/// An expression of literals and binary operators that starts `k` tokens
/// ahead, and its length in tokens, when a token that ends the operand
/// follows it.
pub open spec fn binary_at(parser: Parser, k: int) -> Option<(Expression, int)> {
    match binary_chain(parser, 10, k) {
        Some((tree, j)) => if ends_operand(parser.ahead(j)) {
            Some((tree, j - k))
        } else {
            None
        },
        None => None,
    }
}

/// An expression that starts `k` tokens ahead reads the same from a parser
/// `d` tokens further on.
pub proof fn lemma_binary_at_shift(p: Parser, q: Parser, k: int, d: int)
    requires
        p.token_seq() == q.token_seq(),
        q.position() == p.position() + d,
        0 <= d <= k,
    ensures
        binary_at(q, k - d) == binary_at(p, k),
{
    lemma_binary_chain_shift(p, q, 10, k, d);
    if let Some((tree, e)) = binary_chain(p, 10, k) {
        assert(p.ahead(e) == q.ahead(e - d));
    }
}

/// The condition, the value when it holds and the value otherwise, of a
/// conditional expression.
pub open spec fn conditional_parts(expression: Expression) -> Option<(Expression, Expression, Expression)> {
    match expression {
        Expression::Conditional { condition, when_true, when_false, .. } => Some((*condition, *when_true, *when_false)),
        _ => None,
    }
}

/// `condition ? when_true : when_false` starts at the parser, each part
/// literals and binary operators: the three trees and the length in tokens,
/// when a token that ends the operand follows it.
pub open spec fn conditional_ahead(parser: Parser) -> Option<(Expression, Expression, Expression, int)> {
    match binary_chain(parser, 10, 0) {
        Some((condition, c)) => if parser.ahead(c).kind is Question {
            match binary_at(parser, c + 1) {
                Some((when_true, t)) => if t >= 0 && parser.ahead(c + 1 + t).kind is Colon {
                    match binary_at(parser, c + 2 + t) {
                        Some((when_false, f)) => Some((condition, when_true, when_false, c + 2 + t + f)),
                        None => None,
                    }
                } else {
                    None
                },
                None => None,
            }
        } else {
            None
        },
        None => None,
    }
}

/// The expression of literals and binary operators that the parser stands
/// at, and its length in tokens, when a token that ends the operand follows it.
pub open spec fn binary_ahead(parser: Parser) -> Option<(Expression, int)> {
    binary_at(parser, 0)
}

/// The expression that starts `k` tokens ahead is the one that a parser
/// standing there reads.
pub proof fn lemma_binary_shift(p: Parser, q: Parser, k: int)
    requires
        p.token_seq() == q.token_seq(),
        q.position() == p.position() + k,
        0 <= k,
    ensures
        binary_ahead(q) == binary_at(p, k),
{
    lemma_binary_chain_shift(p, q, 10, k, k);
    if let Some((tree, e)) = binary_chain(p, 10, k) {
        assert(p.ahead(e) == q.ahead(e - k));
    }
}

impl Parser {
    pub(super) fn parse_expression(&mut self) -> (result: Result<Expression, Diagnostic>)
        requires
            old(self).wf(),
        ensures
            advanced(*final(self), *old(self)),
            result is Ok ==> progressed(*final(self), *old(self)),
            result matches Ok(node) ==> node.spec_span().source_id == old(self).source(),
            lone_literal(*old(self)) ==> (result matches Ok(node) && Some(node) == literal_expression(old(self).cur())
                && final(self).position() == old(self).position() + 1 && final(self).token_seq() == old(self).token_seq()),
            binary_ahead(*old(self)) matches Some((tree, length)) ==> (result matches Ok(node) && node == tree
                && final(self).position() == old(self).position() + length && final(self).token_seq() == old(self).token_seq()),
            conditional_ahead(*old(self)) matches Some((condition, when_true, when_false, length)) ==> (result matches Ok(
                node,
            ) && conditional_parts(node) == Some((condition, when_true, when_false)) && final(self).position()
                == old(self).position() + length && final(self).token_seq() == old(self).token_seq()),
        decreases old(self).remaining(), old(self).lexlen(), 50nat,
    {
        self.parse_assignment()
    }

    pub(super) fn parse_assignment(&mut self) -> (result: Result<Expression, Diagnostic>)
        requires
            old(self).wf(),
        ensures
            advanced(*final(self), *old(self)),
            result is Ok ==> progressed(*final(self), *old(self)),
            result matches Ok(node) ==> node.spec_span().source_id == old(self).source(),
            lone_literal(*old(self)) ==> (result matches Ok(node) && Some(node) == literal_expression(old(self).cur())
                && final(self).position() == old(self).position() + 1 && final(self).token_seq() == old(self).token_seq()),
            binary_ahead(*old(self)) matches Some((tree, length)) ==> (result matches Ok(node) && node == tree
                && final(self).position() == old(self).position() + length && final(self).token_seq() == old(self).token_seq()),
            conditional_ahead(*old(self)) matches Some((condition, when_true, when_false, length)) ==> (result matches Ok(
                node,
            ) && conditional_parts(node) == Some((condition, when_true, when_false)) && final(self).position()
                == old(self).position() + length && final(self).token_seq() == old(self).token_seq()),
        decreases old(self).remaining(), old(self).lexlen(), 49nat,
    {
        let expression = self.parse_conditional()?;
        let operator = if self.check(&TokenKind::Equal) {
            AssignmentOperator::Assign
        } else if self.check(&TokenKind::PlusEqual) {
            AssignmentOperator::Add
        } else if self.check(&TokenKind::MinusEqual) {
            AssignmentOperator::Subtract
        } else if self.check(&TokenKind::StarEqual) {
            AssignmentOperator::Multiply
        } else if self.check(&TokenKind::SlashEqual) {
            AssignmentOperator::Divide
        } else if self.check(&TokenKind::PercentEqual) {
            AssignmentOperator::Remainder
        } else if self.check(&TokenKind::AmpersandEqual) {
            AssignmentOperator::BitwiseAnd
        } else if self.check(&TokenKind::PipeEqual) {
            AssignmentOperator::BitwiseOr
        } else if self.check(&TokenKind::CaretEqual) {
            AssignmentOperator::BitwiseXor
        } else if self.check(&TokenKind::ShiftLeftEqual) {
            AssignmentOperator::ShiftLeft
        } else if self.check(&TokenKind::ShiftRightEqual) {
            AssignmentOperator::ShiftRight
        } else if self.check(&TokenKind::UnsignedShiftRightEqual) {
            AssignmentOperator::UnsignedShiftRight
        } else {
            return Ok(expression);
        };
        let operator_token = self.advance();
        let value = self.parse_assignment()?;
        let target = match expression {
            Expression::Variable(identifier) => AssignmentTarget::Variable(identifier),
            Expression::Index { collection, index, span } => AssignmentTarget::Index { collection, index, span },
            Expression::MemberAccess { receiver, member, safe_navigation, navigation_span, span } => {
                if safe_navigation {
                    return Err(Diagnostic::new("safe-navigation access cannot be an assignment target", navigation_span));
                }
                AssignmentTarget::Member { receiver, member, span }
            },
            _ => {
                return Err(Diagnostic::new("invalid assignment target", operator_token.span));
            },
        };
        let span = target.span().merge(value.span());
        Ok(Expression::Assignment {
            target,
            operator,
            operator_span: operator_token.span,
            value: Box::new(value),
            span,
        })
    }

    pub(super) fn parse_conditional(&mut self) -> (result: Result<Expression, Diagnostic>)
        requires
            old(self).wf(),
        ensures
            advanced(*final(self), *old(self)),
            result is Ok ==> progressed(*final(self), *old(self)),
            result matches Ok(node) ==> node.spec_span().source_id == old(self).source(),
            lone_literal(*old(self)) ==> (result matches Ok(node) && Some(node) == literal_expression(old(self).cur())
                && final(self).position() == old(self).position() + 1 && final(self).token_seq() == old(self).token_seq()),
            binary_ahead(*old(self)) matches Some((tree, length)) ==> (result matches Ok(node) && node == tree
                && final(self).position() == old(self).position() + length && final(self).token_seq() == old(self).token_seq()),
            conditional_ahead(*old(self)) matches Some((condition, when_true, when_false, length)) ==> (result matches Ok(
                node,
            ) && conditional_parts(node) == Some((condition, when_true, when_false)) && final(self).position()
                == old(self).position() + length && final(self).token_seq() == old(self).token_seq()),
        decreases old(self).remaining(), old(self).lexlen(), 48nat,
    {
        let ghost before = *old(self);
        let condition = self.parse_null_coalescing()?;
        if !self.check(&TokenKind::Question) {
            return Ok(condition);
        }
        let question = self.advance();
        proof {
            if let Some((c, t, f, length)) = conditional_ahead(before) {
                let (_, j) = binary_chain(before, 10, 0)->0;
                lemma_binary_at_shift(before, *self, j + 1, j + 1);
            }
        }
        let when_true = self.parse_expression()?;
        self.expect_simple(TokenKind::Colon, "expected `:` after the true branch of conditional expression")?;
        proof {
            if let Some((c, t, f, length)) = conditional_ahead(before) {
                let (_, j) = binary_chain(before, 10, 0)->0;
                let (_, lt) = binary_at(before, j + 1)->0;
                lemma_binary_at_shift(before, *self, j + 2 + lt, j + 2 + lt);
            }
        }
        let when_false = self.parse_conditional()?;
        let span = condition.span().merge(when_false.span());
        Ok(Expression::Conditional {
            condition: Box::new(condition),
            when_true: Box::new(when_true),
            when_false: Box::new(when_false),
            question_span: question.span,
            span,
        })
    }

    pub(super) fn parse_null_coalescing(&mut self) -> (result: Result<Expression, Diagnostic>)
        requires
            old(self).wf(),
        ensures
            advanced(*final(self), *old(self)),
            result is Ok ==> progressed(*final(self), *old(self)),
            result matches Ok(node) ==> node.spec_span().source_id == old(self).source(),
            lone_literal(*old(self)) ==> (result matches Ok(node) && Some(node) == literal_expression(old(self).cur())
                && final(self).position() == old(self).position() + 1 && final(self).token_seq() == old(self).token_seq()),
            binary_ahead(*old(self)) matches Some((tree, length)) ==> (result matches Ok(node) && node == tree
                && final(self).position() == old(self).position() + length && final(self).token_seq() == old(self).token_seq()),
            binary_chain(*old(self), 10, 0) matches Some((tree, length)) ==> (!(old(self).ahead(length).kind is NullCoalesce)
                ==> (result matches Ok(node) && node == tree && final(self).position() == old(self).position() + length
                && final(self).token_seq() == old(self).token_seq())),
        decreases old(self).remaining(), old(self).lexlen(), 47nat,
    {
        let mut expression = self.parse_or()?;
        while self.check(&TokenKind::NullCoalesce)
            invariant
                progressed(*self, *old(self)),
                expression.spec_span().source_id == old(self).source(),
                binary_chain(*old(self), 10, 0) matches Some((tree, length)) ==> (!(old(self).ahead(
                    length,
                ).kind is NullCoalesce) ==> (expression == tree && self.position() == old(self).position() + length
                    && self.token_seq() == old(self).token_seq())),
                lone_literal(*old(self)) ==> (Some(expression) == literal_expression(old(self).cur())
                    && self.position() == old(self).position() + 1 && self.token_seq() == old(self).token_seq()),
                binary_ahead(*old(self)) matches Some((tree, length)) ==> (expression == tree && self.position()
                    == old(self).position() + length && self.token_seq() == old(self).token_seq()),
            decreases self.remaining(), self.lexlen(),
        {
            let operator = self.advance();
            let right = self.parse_or()?;
            let span = expression.span().merge(right.span());
            expression = Expression::NullCoalesce {
                left: Box::new(expression),
                right: Box::new(right),
                operator_span: operator.span,
                span,
            };
        }
        Ok(expression)
    }

    pub(super) fn parse_or(&mut self) -> (result: Result<Expression, Diagnostic>)
        requires
            old(self).wf(),
        ensures
            advanced(*final(self), *old(self)),
            result is Ok ==> progressed(*final(self), *old(self)),
            result matches Ok(node) ==> node.spec_span().source_id == old(self).source(),
            lone_literal(*old(self)) ==> (result matches Ok(node) && Some(node) == literal_expression(old(self).cur())
                && final(self).position() == old(self).position() + 1 && final(self).token_seq() == old(self).token_seq()),
            binary_chain(*old(self), 10, 0) matches Some((tree, length)) ==> (result matches Ok(node) && node == tree
                && final(self).position() == old(self).position() + length && final(self).token_seq() == old(self).token_seq()),
        decreases old(self).remaining(), old(self).lexlen(), 46nat,
    {
        let mut expression = self.parse_and()?;
        loop
            invariant
                progressed(*self, *old(self)),
                expression.spec_span().source_id == old(self).source(),
                lone_literal(*old(self)) ==> (Some(expression) == literal_expression(old(self).cur())
                    && self.position() == old(self).position() + 1 && self.token_seq() == old(self).token_seq()),
                binary_chain(*old(self), 10, 0) is Some ==> (self.token_seq() == old(self).token_seq() && binary_rest(
                    *old(self),
                    10,
                    expression,
                    self.position() - old(self).position(),
                ) == binary_chain(*old(self), 10, 0)),
            ensures
                progressed(*self, *old(self)),
                expression.spec_span().source_id == old(self).source(),
                lone_literal(*old(self)) ==> (Some(expression) == literal_expression(old(self).cur())
                    && self.position() == old(self).position() + 1 && self.token_seq() == old(self).token_seq()),
                binary_chain(*old(self), 10, 0) is Some ==> (self.token_seq() == old(self).token_seq() && Some((
                    expression,
                    self.position() - old(self).position(),
                )) == binary_chain(*old(self), 10, 0)),
            decreases self.remaining(), self.lexlen(),
        {
            let ghost k = self.position() - old(self).position();
            proof {
                if binary_chain(*old(self), 10, 0) is Some {
                    assert(old(self).ahead(k) == self.cur());
                }
            }
            let operator = if self.check(&TokenKind::OrOr) {
                BinaryOperator::Or
            } else {
                proof {
                    if binary_chain(*old(self), 10, 0) is Some {
                        assert(binary_rest(*old(self), 10, expression, k) == Some((expression, k)));
                    }
                }
                break;
            };
            let operator_token = self.advance();
            proof {
                if binary_chain(*old(self), 10, 0) is Some {
                    lemma_binary_chain_shift(*old(self), *self, 9, k + 1, k + 1);
                }
            }
            let right = self.parse_and()?;
            let span = expression.span().merge(right.span());
            expression = Expression::Binary {
                left: Box::new(expression),
                operator,
                right: Box::new(right),
                operator_span: operator_token.span,
                span,
            };
        }
        Ok(expression)
    }

    pub(super) fn parse_and(&mut self) -> (result: Result<Expression, Diagnostic>)
        requires
            old(self).wf(),
        ensures
            advanced(*final(self), *old(self)),
            result is Ok ==> progressed(*final(self), *old(self)),
            result matches Ok(node) ==> node.spec_span().source_id == old(self).source(),
            lone_literal(*old(self)) ==> (result matches Ok(node) && Some(node) == literal_expression(old(self).cur())
                && final(self).position() == old(self).position() + 1 && final(self).token_seq() == old(self).token_seq()),
            binary_chain(*old(self), 9, 0) matches Some((tree, length)) ==> (result matches Ok(node) && node == tree
                && final(self).position() == old(self).position() + length && final(self).token_seq() == old(self).token_seq()),
        decreases old(self).remaining(), old(self).lexlen(), 45nat,
    {
        let mut expression = self.parse_bitwise_or()?;
        loop
            invariant
                progressed(*self, *old(self)),
                expression.spec_span().source_id == old(self).source(),
                lone_literal(*old(self)) ==> (Some(expression) == literal_expression(old(self).cur())
                    && self.position() == old(self).position() + 1 && self.token_seq() == old(self).token_seq()),
                binary_chain(*old(self), 9, 0) is Some ==> (self.token_seq() == old(self).token_seq() && binary_rest(
                    *old(self),
                    9,
                    expression,
                    self.position() - old(self).position(),
                ) == binary_chain(*old(self), 9, 0)),
            ensures
                progressed(*self, *old(self)),
                expression.spec_span().source_id == old(self).source(),
                lone_literal(*old(self)) ==> (Some(expression) == literal_expression(old(self).cur())
                    && self.position() == old(self).position() + 1 && self.token_seq() == old(self).token_seq()),
                binary_chain(*old(self), 9, 0) is Some ==> (self.token_seq() == old(self).token_seq() && Some((
                    expression,
                    self.position() - old(self).position(),
                )) == binary_chain(*old(self), 9, 0)),
            decreases self.remaining(), self.lexlen(),
        {
            let ghost k = self.position() - old(self).position();
            proof {
                if binary_chain(*old(self), 9, 0) is Some {
                    assert(old(self).ahead(k) == self.cur());
                }
            }
            let operator = if self.check(&TokenKind::AndAnd) {
                BinaryOperator::And
            } else {
                proof {
                    if binary_chain(*old(self), 9, 0) is Some {
                        assert(binary_rest(*old(self), 9, expression, k) == Some((expression, k)));
                    }
                }
                break;
            };
            let operator_token = self.advance();
            proof {
                if binary_chain(*old(self), 9, 0) is Some {
                    lemma_binary_chain_shift(*old(self), *self, 8, k + 1, k + 1);
                }
            }
            let right = self.parse_bitwise_or()?;
            let span = expression.span().merge(right.span());
            expression = Expression::Binary {
                left: Box::new(expression),
                operator,
                right: Box::new(right),
                operator_span: operator_token.span,
                span,
            };
        }
        Ok(expression)
    }

    pub(super) fn parse_bitwise_or(&mut self) -> (result: Result<Expression, Diagnostic>)
        requires
            old(self).wf(),
        ensures
            advanced(*final(self), *old(self)),
            result is Ok ==> progressed(*final(self), *old(self)),
            result matches Ok(node) ==> node.spec_span().source_id == old(self).source(),
            lone_literal(*old(self)) ==> (result matches Ok(node) && Some(node) == literal_expression(old(self).cur())
                && final(self).position() == old(self).position() + 1 && final(self).token_seq() == old(self).token_seq()),
            binary_chain(*old(self), 8, 0) matches Some((tree, length)) ==> (result matches Ok(node) && node == tree
                && final(self).position() == old(self).position() + length && final(self).token_seq() == old(self).token_seq()),
        decreases old(self).remaining(), old(self).lexlen(), 44nat,
    {
        let mut expression = self.parse_bitwise_xor()?;
        loop
            invariant
                progressed(*self, *old(self)),
                expression.spec_span().source_id == old(self).source(),
                lone_literal(*old(self)) ==> (Some(expression) == literal_expression(old(self).cur())
                    && self.position() == old(self).position() + 1 && self.token_seq() == old(self).token_seq()),
                binary_chain(*old(self), 8, 0) is Some ==> (self.token_seq() == old(self).token_seq() && binary_rest(
                    *old(self),
                    8,
                    expression,
                    self.position() - old(self).position(),
                ) == binary_chain(*old(self), 8, 0)),
            ensures
                progressed(*self, *old(self)),
                expression.spec_span().source_id == old(self).source(),
                lone_literal(*old(self)) ==> (Some(expression) == literal_expression(old(self).cur())
                    && self.position() == old(self).position() + 1 && self.token_seq() == old(self).token_seq()),
                binary_chain(*old(self), 8, 0) is Some ==> (self.token_seq() == old(self).token_seq() && Some((
                    expression,
                    self.position() - old(self).position(),
                )) == binary_chain(*old(self), 8, 0)),
            decreases self.remaining(), self.lexlen(),
        {
            let ghost k = self.position() - old(self).position();
            proof {
                if binary_chain(*old(self), 8, 0) is Some {
                    assert(old(self).ahead(k) == self.cur());
                }
            }
            let operator = if self.check(&TokenKind::Pipe) {
                BinaryOperator::BitwiseOr
            } else {
                proof {
                    if binary_chain(*old(self), 8, 0) is Some {
                        assert(binary_rest(*old(self), 8, expression, k) == Some((expression, k)));
                    }
                }
                break;
            };
            let operator_token = self.advance();
            proof {
                if binary_chain(*old(self), 8, 0) is Some {
                    lemma_binary_chain_shift(*old(self), *self, 7, k + 1, k + 1);
                }
            }
            let right = self.parse_bitwise_xor()?;
            let span = expression.span().merge(right.span());
            expression = Expression::Binary {
                left: Box::new(expression),
                operator,
                right: Box::new(right),
                operator_span: operator_token.span,
                span,
            };
        }
        Ok(expression)
    }

    pub(super) fn parse_bitwise_xor(&mut self) -> (result: Result<Expression, Diagnostic>)
        requires
            old(self).wf(),
        ensures
            advanced(*final(self), *old(self)),
            result is Ok ==> progressed(*final(self), *old(self)),
            result matches Ok(node) ==> node.spec_span().source_id == old(self).source(),
            lone_literal(*old(self)) ==> (result matches Ok(node) && Some(node) == literal_expression(old(self).cur())
                && final(self).position() == old(self).position() + 1 && final(self).token_seq() == old(self).token_seq()),
            binary_chain(*old(self), 7, 0) matches Some((tree, length)) ==> (result matches Ok(node) && node == tree
                && final(self).position() == old(self).position() + length && final(self).token_seq() == old(self).token_seq()),
        decreases old(self).remaining(), old(self).lexlen(), 43nat,
    {
        let mut expression = self.parse_bitwise_and()?;
        loop
            invariant
                progressed(*self, *old(self)),
                expression.spec_span().source_id == old(self).source(),
                lone_literal(*old(self)) ==> (Some(expression) == literal_expression(old(self).cur())
                    && self.position() == old(self).position() + 1 && self.token_seq() == old(self).token_seq()),
                binary_chain(*old(self), 7, 0) is Some ==> (self.token_seq() == old(self).token_seq() && binary_rest(
                    *old(self),
                    7,
                    expression,
                    self.position() - old(self).position(),
                ) == binary_chain(*old(self), 7, 0)),
            ensures
                progressed(*self, *old(self)),
                expression.spec_span().source_id == old(self).source(),
                lone_literal(*old(self)) ==> (Some(expression) == literal_expression(old(self).cur())
                    && self.position() == old(self).position() + 1 && self.token_seq() == old(self).token_seq()),
                binary_chain(*old(self), 7, 0) is Some ==> (self.token_seq() == old(self).token_seq() && Some((
                    expression,
                    self.position() - old(self).position(),
                )) == binary_chain(*old(self), 7, 0)),
            decreases self.remaining(), self.lexlen(),
        {
            let ghost k = self.position() - old(self).position();
            proof {
                if binary_chain(*old(self), 7, 0) is Some {
                    assert(old(self).ahead(k) == self.cur());
                }
            }
            let operator = if self.check(&TokenKind::Caret) {
                BinaryOperator::BitwiseXor
            } else {
                proof {
                    if binary_chain(*old(self), 7, 0) is Some {
                        assert(binary_rest(*old(self), 7, expression, k) == Some((expression, k)));
                    }
                }
                break;
            };
            let operator_token = self.advance();
            proof {
                if binary_chain(*old(self), 7, 0) is Some {
                    lemma_binary_chain_shift(*old(self), *self, 6, k + 1, k + 1);
                }
            }
            let right = self.parse_bitwise_and()?;
            let span = expression.span().merge(right.span());
            expression = Expression::Binary {
                left: Box::new(expression),
                operator,
                right: Box::new(right),
                operator_span: operator_token.span,
                span,
            };
        }
        Ok(expression)
    }

    pub(super) fn parse_bitwise_and(&mut self) -> (result: Result<Expression, Diagnostic>)
        requires
            old(self).wf(),
        ensures
            advanced(*final(self), *old(self)),
            result is Ok ==> progressed(*final(self), *old(self)),
            result matches Ok(node) ==> node.spec_span().source_id == old(self).source(),
            lone_literal(*old(self)) ==> (result matches Ok(node) && Some(node) == literal_expression(old(self).cur())
                && final(self).position() == old(self).position() + 1 && final(self).token_seq() == old(self).token_seq()),
            binary_chain(*old(self), 6, 0) matches Some((tree, length)) ==> (result matches Ok(node) && node == tree
                && final(self).position() == old(self).position() + length && final(self).token_seq() == old(self).token_seq()),
        decreases old(self).remaining(), old(self).lexlen(), 42nat,
    {
        let mut expression = self.parse_equality()?;
        loop
            invariant
                progressed(*self, *old(self)),
                expression.spec_span().source_id == old(self).source(),
                lone_literal(*old(self)) ==> (Some(expression) == literal_expression(old(self).cur())
                    && self.position() == old(self).position() + 1 && self.token_seq() == old(self).token_seq()),
                binary_chain(*old(self), 6, 0) is Some ==> (self.token_seq() == old(self).token_seq() && binary_rest(
                    *old(self),
                    6,
                    expression,
                    self.position() - old(self).position(),
                ) == binary_chain(*old(self), 6, 0)),
            ensures
                progressed(*self, *old(self)),
                expression.spec_span().source_id == old(self).source(),
                lone_literal(*old(self)) ==> (Some(expression) == literal_expression(old(self).cur())
                    && self.position() == old(self).position() + 1 && self.token_seq() == old(self).token_seq()),
                binary_chain(*old(self), 6, 0) is Some ==> (self.token_seq() == old(self).token_seq() && Some((
                    expression,
                    self.position() - old(self).position(),
                )) == binary_chain(*old(self), 6, 0)),
            decreases self.remaining(), self.lexlen(),
        {
            let ghost k = self.position() - old(self).position();
            proof {
                if binary_chain(*old(self), 6, 0) is Some {
                    assert(old(self).ahead(k) == self.cur());
                }
            }
            let operator = if self.check(&TokenKind::Ampersand) {
                BinaryOperator::BitwiseAnd
            } else {
                proof {
                    if binary_chain(*old(self), 6, 0) is Some {
                        assert(binary_rest(*old(self), 6, expression, k) == Some((expression, k)));
                    }
                }
                break;
            };
            let operator_token = self.advance();
            proof {
                if binary_chain(*old(self), 6, 0) is Some {
                    lemma_binary_chain_shift(*old(self), *self, 5, k + 1, k + 1);
                }
            }
            let right = self.parse_equality()?;
            let span = expression.span().merge(right.span());
            expression = Expression::Binary {
                left: Box::new(expression),
                operator,
                right: Box::new(right),
                operator_span: operator_token.span,
                span,
            };
        }
        Ok(expression)
    }

    pub(super) fn parse_equality(&mut self) -> (result: Result<Expression, Diagnostic>)
        requires
            old(self).wf(),
        ensures
            advanced(*final(self), *old(self)),
            result is Ok ==> progressed(*final(self), *old(self)),
            result matches Ok(node) ==> node.spec_span().source_id == old(self).source(),
            lone_literal(*old(self)) ==> (result matches Ok(node) && Some(node) == literal_expression(old(self).cur())
                && final(self).position() == old(self).position() + 1 && final(self).token_seq() == old(self).token_seq()),
            binary_chain(*old(self), 5, 0) matches Some((tree, length)) ==> (result matches Ok(node) && node == tree
                && final(self).position() == old(self).position() + length && final(self).token_seq() == old(self).token_seq()),
        decreases old(self).remaining(), old(self).lexlen(), 41nat,
    {
        let mut expression = self.parse_comparison()?;
        loop
            invariant
                progressed(*self, *old(self)),
                expression.spec_span().source_id == old(self).source(),
                lone_literal(*old(self)) ==> (Some(expression) == literal_expression(old(self).cur())
                    && self.position() == old(self).position() + 1 && self.token_seq() == old(self).token_seq()),
                binary_chain(*old(self), 5, 0) is Some ==> (self.token_seq() == old(self).token_seq() && binary_rest(
                    *old(self),
                    5,
                    expression,
                    self.position() - old(self).position(),
                ) == binary_chain(*old(self), 5, 0)),
            ensures
                progressed(*self, *old(self)),
                expression.spec_span().source_id == old(self).source(),
                lone_literal(*old(self)) ==> (Some(expression) == literal_expression(old(self).cur())
                    && self.position() == old(self).position() + 1 && self.token_seq() == old(self).token_seq()),
                binary_chain(*old(self), 5, 0) is Some ==> (self.token_seq() == old(self).token_seq() && Some((
                    expression,
                    self.position() - old(self).position(),
                )) == binary_chain(*old(self), 5, 0)),
            decreases self.remaining(), self.lexlen(),
        {
            let ghost k = self.position() - old(self).position();
            proof {
                if binary_chain(*old(self), 5, 0) is Some {
                    assert(old(self).ahead(k) == self.cur());
                }
            }
            let operator = if self.check(&TokenKind::EqualEqual) {
                BinaryOperator::Equal
            } else if self.check(&TokenKind::BangEqual) {
                BinaryOperator::NotEqual
            } else {
                proof {
                    if binary_chain(*old(self), 5, 0) is Some {
                        assert(binary_rest(*old(self), 5, expression, k) == Some((expression, k)));
                    }
                }
                break;
            };
            let operator_token = self.advance();
            proof {
                if binary_chain(*old(self), 5, 0) is Some {
                    lemma_binary_chain_shift(*old(self), *self, 4, k + 1, k + 1);
                }
            }
            let right = self.parse_comparison()?;
            let span = expression.span().merge(right.span());
            expression = Expression::Binary {
                left: Box::new(expression),
                operator,
                right: Box::new(right),
                operator_span: operator_token.span,
                span,
            };
        }
        Ok(expression)
    }

    pub(super) fn parse_shift(&mut self) -> (result: Result<Expression, Diagnostic>)
        requires
            old(self).wf(),
        ensures
            advanced(*final(self), *old(self)),
            result is Ok ==> progressed(*final(self), *old(self)),
            result matches Ok(node) ==> node.spec_span().source_id == old(self).source(),
            lone_literal(*old(self)) ==> (result matches Ok(node) && Some(node) == literal_expression(old(self).cur())
                && final(self).position() == old(self).position() + 1 && final(self).token_seq() == old(self).token_seq()),
            binary_chain(*old(self), 3, 0) matches Some((tree, length)) ==> (result matches Ok(node) && node == tree
                && final(self).position() == old(self).position() + length && final(self).token_seq() == old(self).token_seq()),
        decreases old(self).remaining(), old(self).lexlen(), 39nat,
    {
        let mut expression = self.parse_term()?;
        loop
            invariant
                progressed(*self, *old(self)),
                expression.spec_span().source_id == old(self).source(),
                lone_literal(*old(self)) ==> (Some(expression) == literal_expression(old(self).cur())
                    && self.position() == old(self).position() + 1 && self.token_seq() == old(self).token_seq()),
                binary_chain(*old(self), 3, 0) is Some ==> (self.token_seq() == old(self).token_seq() && binary_rest(
                    *old(self),
                    3,
                    expression,
                    self.position() - old(self).position(),
                ) == binary_chain(*old(self), 3, 0)),
            ensures
                progressed(*self, *old(self)),
                expression.spec_span().source_id == old(self).source(),
                lone_literal(*old(self)) ==> (Some(expression) == literal_expression(old(self).cur())
                    && self.position() == old(self).position() + 1 && self.token_seq() == old(self).token_seq()),
                binary_chain(*old(self), 3, 0) is Some ==> (self.token_seq() == old(self).token_seq() && Some((
                    expression,
                    self.position() - old(self).position(),
                )) == binary_chain(*old(self), 3, 0)),
            decreases self.remaining(), self.lexlen(),
        {
            let ghost k = self.position() - old(self).position();
            proof {
                if binary_chain(*old(self), 3, 0) is Some {
                    assert(old(self).ahead(k) == self.cur());
                }
            }
            let operator = if self.check(&TokenKind::ShiftLeft) {
                BinaryOperator::ShiftLeft
            } else if self.check(&TokenKind::ShiftRight) {
                BinaryOperator::ShiftRight
            } else if self.check(&TokenKind::UnsignedShiftRight) {
                BinaryOperator::UnsignedShiftRight
            } else {
                proof {
                    if binary_chain(*old(self), 3, 0) is Some {
                        assert(binary_rest(*old(self), 3, expression, k) == Some((expression, k)));
                    }
                }
                break;
            };
            let operator_token = self.advance();
            proof {
                if binary_chain(*old(self), 3, 0) is Some {
                    lemma_binary_chain_shift(*old(self), *self, 2, k + 1, k + 1);
                }
            }
            let right = self.parse_term()?;
            let span = expression.span().merge(right.span());
            expression = Expression::Binary {
                left: Box::new(expression),
                operator,
                right: Box::new(right),
                operator_span: operator_token.span,
                span,
            };
        }
        Ok(expression)
    }

    pub(super) fn parse_term(&mut self) -> (result: Result<Expression, Diagnostic>)
        requires
            old(self).wf(),
        ensures
            advanced(*final(self), *old(self)),
            result is Ok ==> progressed(*final(self), *old(self)),
            result matches Ok(node) ==> node.spec_span().source_id == old(self).source(),
            lone_literal(*old(self)) ==> (result matches Ok(node) && Some(node) == literal_expression(old(self).cur())
                && final(self).position() == old(self).position() + 1 && final(self).token_seq() == old(self).token_seq()),
            binary_chain(*old(self), 2, 0) matches Some((tree, length)) ==> (result matches Ok(node) && node == tree
                && final(self).position() == old(self).position() + length && final(self).token_seq() == old(self).token_seq()),
        decreases old(self).remaining(), old(self).lexlen(), 38nat,
    {
        let mut expression = self.parse_factor()?;
        loop
            invariant
                progressed(*self, *old(self)),
                expression.spec_span().source_id == old(self).source(),
                lone_literal(*old(self)) ==> (Some(expression) == literal_expression(old(self).cur())
                    && self.position() == old(self).position() + 1 && self.token_seq() == old(self).token_seq()),
                binary_chain(*old(self), 2, 0) is Some ==> (self.token_seq() == old(self).token_seq() && binary_rest(
                    *old(self),
                    2,
                    expression,
                    self.position() - old(self).position(),
                ) == binary_chain(*old(self), 2, 0)),
            ensures
                progressed(*self, *old(self)),
                expression.spec_span().source_id == old(self).source(),
                lone_literal(*old(self)) ==> (Some(expression) == literal_expression(old(self).cur())
                    && self.position() == old(self).position() + 1 && self.token_seq() == old(self).token_seq()),
                binary_chain(*old(self), 2, 0) is Some ==> (self.token_seq() == old(self).token_seq() && Some((
                    expression,
                    self.position() - old(self).position(),
                )) == binary_chain(*old(self), 2, 0)),
            decreases self.remaining(), self.lexlen(),
        {
            let ghost k = self.position() - old(self).position();
            proof {
                if binary_chain(*old(self), 2, 0) is Some {
                    assert(old(self).ahead(k) == self.cur());
                }
            }
            let operator = if self.check(&TokenKind::Plus) {
                BinaryOperator::Add
            } else if self.check(&TokenKind::Minus) {
                BinaryOperator::Subtract
            } else {
                proof {
                    if binary_chain(*old(self), 2, 0) is Some {
                        assert(binary_rest(*old(self), 2, expression, k) == Some((expression, k)));
                    }
                }
                break;
            };
            let operator_token = self.advance();
            proof {
                if binary_chain(*old(self), 2, 0) is Some {
                    lemma_binary_chain_shift(*old(self), *self, 1, k + 1, k + 1);
                }
            }
            let right = self.parse_factor()?;
            let span = expression.span().merge(right.span());
            expression = Expression::Binary {
                left: Box::new(expression),
                operator,
                right: Box::new(right),
                operator_span: operator_token.span,
                span,
            };
        }
        Ok(expression)
    }

    pub(super) fn parse_factor(&mut self) -> (result: Result<Expression, Diagnostic>)
        requires
            old(self).wf(),
        ensures
            advanced(*final(self), *old(self)),
            result is Ok ==> progressed(*final(self), *old(self)),
            result matches Ok(node) ==> node.spec_span().source_id == old(self).source(),
            lone_literal(*old(self)) ==> (result matches Ok(node) && Some(node) == literal_expression(old(self).cur())
                && final(self).position() == old(self).position() + 1 && final(self).token_seq() == old(self).token_seq()),
            binary_chain(*old(self), 1, 0) matches Some((tree, length)) ==> (result matches Ok(node) && node == tree
                && final(self).position() == old(self).position() + length && final(self).token_seq() == old(self).token_seq()),
        decreases old(self).remaining(), old(self).lexlen(), 37nat,
    {
        proof {
            if binary_chain(*self, 1, 0) is Some {
                assert(binary_chain(*self, 0, 0) is Some);
                assert(literal_operand(*self, 0));
                assert(self.ahead(0) == self.cur());
            }
        }
        let mut expression = self.parse_unary()?;
        loop
            invariant
                progressed(*self, *old(self)),
                expression.spec_span().source_id == old(self).source(),
                lone_literal(*old(self)) ==> (Some(expression) == literal_expression(old(self).cur())
                    && self.position() == old(self).position() + 1 && self.token_seq() == old(self).token_seq()),
                binary_chain(*old(self), 1, 0) is Some ==> (self.token_seq() == old(self).token_seq() && binary_rest(
                    *old(self),
                    1,
                    expression,
                    self.position() - old(self).position(),
                ) == binary_chain(*old(self), 1, 0)),
            ensures
                progressed(*self, *old(self)),
                expression.spec_span().source_id == old(self).source(),
                lone_literal(*old(self)) ==> (Some(expression) == literal_expression(old(self).cur())
                    && self.position() == old(self).position() + 1 && self.token_seq() == old(self).token_seq()),
                binary_chain(*old(self), 1, 0) is Some ==> (self.token_seq() == old(self).token_seq() && Some((
                    expression,
                    self.position() - old(self).position(),
                )) == binary_chain(*old(self), 1, 0)),
            decreases self.remaining(), self.lexlen(),
        {
            let ghost k = self.position() - old(self).position();
            proof {
                if binary_chain(*old(self), 1, 0) is Some {
                    assert(old(self).ahead(k) == self.cur());
                }
            }
            let operator = if self.check(&TokenKind::Star) {
                BinaryOperator::Multiply
            } else if self.check(&TokenKind::Slash) {
                BinaryOperator::Divide
            } else if self.check(&TokenKind::Percent) {
                BinaryOperator::Remainder
            } else {
                proof {
                    if binary_chain(*old(self), 1, 0) is Some {
                        assert(binary_rest(*old(self), 1, expression, k) == Some((expression, k)));
                    }
                }
                break;
            };
            let operator_token = self.advance();
            proof {
                if binary_chain(*old(self), 1, 0) is Some {
                    lemma_binary_chain_shift(*old(self), *self, 0, k + 1, k + 1);
                }
            }
            let right = self.parse_unary()?;
            let span = expression.span().merge(right.span());
            expression = Expression::Binary {
                left: Box::new(expression),
                operator,
                right: Box::new(right),
                operator_span: operator_token.span,
                span,
            };
        }
        Ok(expression)
    }

    pub(super) fn parse_comparison(&mut self) -> (result: Result<Expression, Diagnostic>)
        requires
            old(self).wf(),
        ensures
            advanced(*final(self), *old(self)),
            result is Ok ==> progressed(*final(self), *old(self)),
            result matches Ok(node) ==> node.spec_span().source_id == old(self).source(),
            lone_literal(*old(self)) ==> (result matches Ok(node) && Some(node) == literal_expression(old(self).cur())
                && final(self).position() == old(self).position() + 1 && final(self).token_seq() == old(self).token_seq()),
            binary_chain(*old(self), 4, 0) matches Some((tree, length)) ==> (result matches Ok(node) && node == tree
                && final(self).position() == old(self).position() + length && final(self).token_seq() == old(self).token_seq()),
        decreases old(self).remaining(), old(self).lexlen(), 40nat,
    {
        let mut expression = self.parse_shift()?;
        loop
            invariant
                progressed(*self, *old(self)),
                expression.spec_span().source_id == old(self).source(),
                lone_literal(*old(self)) ==> (Some(expression) == literal_expression(old(self).cur())
                    && self.position() == old(self).position() + 1 && self.token_seq() == old(self).token_seq()),
                binary_chain(*old(self), 4, 0) is Some ==> (self.token_seq() == old(self).token_seq() && binary_rest(
                    *old(self),
                    4,
                    expression,
                    self.position() - old(self).position(),
                ) == binary_chain(*old(self), 4, 0)),
            ensures
                progressed(*self, *old(self)),
                expression.spec_span().source_id == old(self).source(),
                lone_literal(*old(self)) ==> (Some(expression) == literal_expression(old(self).cur())
                    && self.position() == old(self).position() + 1 && self.token_seq() == old(self).token_seq()),
                binary_chain(*old(self), 4, 0) is Some ==> (self.token_seq() == old(self).token_seq() && Some((
                    expression,
                    self.position() - old(self).position(),
                )) == binary_chain(*old(self), 4, 0)),
            decreases self.remaining(), self.lexlen(),
        {
            let ghost k = self.position() - old(self).position();
            proof {
                if binary_chain(*old(self), 4, 0) is Some {
                    assert(old(self).ahead(k) == self.cur());
                }
            }
            if self.check(&TokenKind::Instanceof) {
                let operator = self.advance();
                let (target, target_span) = self.parse_type_name()?;
                let span = expression.span().merge(target_span);
                expression = Expression::Instanceof {
                    value: Box::new(expression),
                    target,
                    target_span,
                    operator_span: operator.span,
                    span,
                };
                continue;
            }
            let operator = if self.check(&TokenKind::Less) {
                BinaryOperator::Less
            } else if self.check(&TokenKind::LessEqual) {
                BinaryOperator::LessEqual
            } else if self.check(&TokenKind::Greater) {
                BinaryOperator::Greater
            } else if self.check(&TokenKind::GreaterEqual) {
                BinaryOperator::GreaterEqual
            } else {
                proof {
                    if binary_chain(*old(self), 4, 0) is Some {
                        assert(binary_rest(*old(self), 4, expression, k) == Some((expression, k)));
                    }
                }
                break;
            };
            let operator_token = self.advance();
            proof {
                if binary_chain(*old(self), 4, 0) is Some {
                    lemma_binary_chain_shift(*old(self), *self, 3, k + 1, k + 1);
                }
            }
            let right = self.parse_shift()?;
            let span = expression.span().merge(right.span());
            expression = Expression::Binary {
                left: Box::new(expression),
                operator,
                right: Box::new(right),
                operator_span: operator_token.span,
                span,
            };
        }
        Ok(expression)
    }

    pub(super) fn parse_unary(&mut self) -> (result: Result<Expression, Diagnostic>)
        requires
            old(self).wf(),
        ensures
            advanced(*final(self), *old(self)),
            result is Ok ==> progressed(*final(self), *old(self)),
            result matches Ok(node) ==> node.spec_span().source_id == old(self).source(),
            lone_literal(*old(self)) ==> (result matches Ok(node) && Some(node) == literal_expression(old(self).cur())
                && final(self).position() == old(self).position() + 1 && final(self).token_seq() == old(self).token_seq()),
            literal_operand(*old(self), 0) ==> (result matches Ok(node) && Some(node) == literal_expression(old(self).cur())
                && final(self).position() == old(self).position() + 1 && final(self).token_seq() == old(self).token_seq()),
        decreases old(self).remaining(), old(self).lexlen(), 36nat,
    {
        let operator = if self.check(&TokenKind::Plus) {
            Some(UnaryOperator::Positive)
        } else if self.check(&TokenKind::Minus) {
            Some(UnaryOperator::Negate)
        } else if self.check(&TokenKind::Bang) {
            Some(UnaryOperator::Not)
        } else if self.check(&TokenKind::Tilde) {
            Some(UnaryOperator::BitwiseNot)
        } else if self.check(&TokenKind::PlusPlus) {
            Some(UnaryOperator::PrefixIncrement)
        } else if self.check(&TokenKind::MinusMinus) {
            Some(UnaryOperator::PrefixDecrement)
        } else {
            None
        };
        if let Some(operator) = operator {
            let token = self.advance();
            let operand = self.parse_unary()?;
            let span = token.span.merge(operand.span());
            return Ok(Expression::Unary { operator, operand: Box::new(operand), operator_span: token.span, span });
        }
        self.parse_postfix()
    }

    pub(super) fn parse_postfix(&mut self) -> (result: Result<Expression, Diagnostic>)
        requires
            old(self).wf(),
        ensures
            advanced(*final(self), *old(self)),
            result is Ok ==> progressed(*final(self), *old(self)),
            result matches Ok(node) ==> node.spec_span().source_id == old(self).source(),
            lone_literal(*old(self)) ==> (result matches Ok(node) && Some(node) == literal_expression(old(self).cur())
                && final(self).position() == old(self).position() + 1 && final(self).token_seq() == old(self).token_seq()),
            literal_operand(*old(self), 0) ==> (result matches Ok(node) && Some(node) == literal_expression(old(self).cur())
                && final(self).position() == old(self).position() + 1 && final(self).token_seq() == old(self).token_seq()),
        decreases old(self).remaining(), old(self).lexlen(), 35nat,
    {
        let mut expression = self.parse_primary()?;
        let mut safe_navigation_chain = false;
        loop
            invariant
                progressed(*self, *old(self)),
                expression.spec_span().source_id == old(self).source(),
                literal_operand(*old(self), 0) ==> (Some(expression) == literal_expression(old(self).cur())
                    && self.position() == old(self).position() + 1 && self.token_seq() == old(self).token_seq()),
                lone_literal(*old(self)) ==> (Some(expression) == literal_expression(old(self).cur())
                    && self.position() == old(self).position() + 1 && self.token_seq() == old(self).token_seq()),
            decreases self.remaining(), self.lexlen(),
        {
            if self.check(&TokenKind::LeftBracket) {
                if safe_navigation_chain {
                    return Err(Diagnostic::new("indexed access in a safe-navigation chain is unsupported", self.current().span));
                }
                self.advance();
                let index = self.parse_expression()?;
                let end = self.expect_simple(TokenKind::RightBracket, "expected `]` after index expression")?;
                let span = expression.span().merge(end.span);
                expression = Expression::Index { collection: Box::new(expression), index: Box::new(index), span };
            } else if self.check(&TokenKind::Dot) || self.check(&TokenKind::SafeNavigation) {
                let navigation = self.advance();
                if matches!(navigation.kind, TokenKind::SafeNavigation) {
                    safe_navigation_chain = true;
                }
                let safe_navigation = safe_navigation_chain;
                let member = if self.check(&TokenKind::New) {
                    let token = self.advance();
                    Identifier::new(token.lexeme, token.span)
                } else {
                    self.expect_identifier("expected a member name after `.`")?
                };
                if self.check(&TokenKind::LeftParen) {
                    let (arguments, end) = self.parse_argument_list()?;
                    let span = expression.span().merge(end);
                    expression = Expression::MethodCall {
                        receiver: Box::new(expression),
                        method: member,
                        arguments,
                        safe_navigation,
                        navigation_span: navigation.span,
                        span,
                    };
                } else {
                    let span = expression.span().merge(member.span);
                    expression = Expression::MemberAccess {
                        receiver: Box::new(expression),
                        member,
                        safe_navigation,
                        navigation_span: navigation.span,
                        span,
                    };
                }
            } else if self.check(&TokenKind::PlusPlus) || self.check(&TokenKind::MinusMinus) {
                let operator = if self.check(&TokenKind::PlusPlus) {
                    PostfixOperator::Increment
                } else {
                    PostfixOperator::Decrement
                };
                let token = self.advance();
                let span = expression.span().merge(token.span);
                expression = Expression::Postfix { operand: Box::new(expression), operator, operator_span: token.span, span };
            } else {
                break;
            }
        }
        Ok(expression)
    }

    pub(super) fn parse_primary(&mut self) -> (result: Result<Expression, Diagnostic>)
        requires
            old(self).wf(),
        ensures
            advanced(*final(self), *old(self)),
            result is Ok ==> progressed(*final(self), *old(self)),
            result matches Ok(node) ==> node.spec_span().source_id == old(self).source(),
            lone_literal(*old(self)) ==> (result matches Ok(node) && Some(node) == literal_expression(old(self).cur())
                && final(self).position() == old(self).position() + 1 && final(self).token_seq() == old(self).token_seq()),
            literal_expression(old(self).cur()) is Some ==> (result matches Ok(node) && Some(node) == literal_expression(
                old(self).cur(),
            ) && final(self).position() == old(self).position() + 1 && final(self).token_seq() == old(self).token_seq()),
        decreases old(self).remaining(), old(self).lexlen(), 34nat,
    {
        let token = self.current().clone();
        match token.kind {
            TokenKind::StringLiteral(value) => {
                self.advance();
                Ok(Expression::StringLiteral(value, token.span))
            },
            TokenKind::BooleanLiteral(value) => {
                self.advance();
                Ok(Expression::BooleanLiteral(value, token.span))
            },
            TokenKind::IntegerLiteral(value) => {
                self.advance();
                Ok(Expression::IntegerLiteral(value, token.span))
            },
            TokenKind::LongLiteral(value) => {
                self.advance();
                Ok(Expression::LongLiteral(value, token.span))
            },
            TokenKind::DecimalLiteral(value) => {
                self.advance();
                Ok(Expression::DecimalLiteral(value, token.span))
            },
            TokenKind::Null => {
                self.advance();
                Ok(Expression::NullLiteral(token.span))
            },
            TokenKind::Identifier(spelling) => {
                if self.is_type_literal_start() {
                    let (ty, type_span) = self.parse_type_name()?;
                    self.advance();
                    let end = self.advance();
                    return Ok(Expression::TypeLiteral { ty, span: type_span.merge(end.span) });
                }
                let name = Identifier::new(spelling, token.span);
                self.advance();
                if self.check(&TokenKind::LeftParen) {
                    let (arguments, end) = self.parse_argument_list()?;
                    return Ok(Expression::FunctionCall { name, arguments, span: token.span.merge(end) });
                }
                Ok(Expression::Variable(name))
            },
            TokenKind::New => self.parse_new_expression(),
            TokenKind::LeftBracket => self.parse_query_expression(),
            TokenKind::LeftParen => {
                if self.is_cast_start() {
                    let start = self.advance();
                    let (ty, _) = self.parse_type_name()?;
                    self.expect_simple(TokenKind::RightParen, "expected `)` after cast type")?;
                    let expression = self.parse_unary()?;
                    let span = start.span.merge(expression.span());
                    return Ok(Expression::Cast { ty, expression: Box::new(expression), span });
                }
                self.advance();
                let expression = self.parse_expression()?;
                self.expect_simple(TokenKind::RightParen, "expected `)` after expression")?;
                Ok(expression)
            },
            _ => Err(Diagnostic::new("expected an expression", token.span)),
        }
    }

    /// Whether `Type.class` starts here.
    fn is_type_literal_start(&self) -> (result: bool)
        requires
            self.wf(),
        ensures
            simple_named_type_ahead(*self, 0) && self.ahead(1).kind is Dot && self.ahead(2).kind is Class ==> result,
    {
        let mut probe = self.probe();
        probe.parse_type_name().is_ok() && probe.check(&TokenKind::Dot) && matches!(probe.peek(1).kind, TokenKind::Class)
    }

    pub(super) fn parse_new_expression(&mut self) -> (result: Result<Expression, Diagnostic>)
        requires
            old(self).wf(),
        ensures
            advanced(*final(self), *old(self)),
            result is Ok ==> progressed(*final(self), *old(self)),
            result matches Ok(node) ==> node.spec_span().source_id == old(self).source(),
            old(self).cur().kind is New && simple_named_type_ahead(*old(self), 1) && old(self).ahead(2).kind is LeftParen
                && old(self).ahead(3).kind is RightParen ==> (result is Ok && final(self).position() == old(self).position()
                + 4 && final(self).token_seq() == old(self).token_seq()),
            !(old(self).cur().kind is New) || !(old(self).ahead(1).kind is Identifier) ==> result is Err,
        decreases old(self).remaining(), old(self).lexlen(), 33nat,
    {
        let start = self.expect_simple(TokenKind::New, "expected `new`")?;
        let (ty, _) = self.parse_type_name()?;

        if self.check(&TokenKind::LeftBracket) {
            return self.parse_new_array_expression(start, ty);
        }

        if ty.is_exception() {
            if !self.check(&TokenKind::LeftParen) {
                return Err(Diagnostic::new("expected `(` after exception type", self.current().span));
            }
            let (arguments, end) = self.parse_argument_list()?;
            return Ok(Expression::NewException { exception_type: ty, arguments, span: start.span.merge(end) });
        }

        if matches!(ty, TypeName::Custom(_) | TypeName::Http | TypeName::HttpRequest | TypeName::HttpResponse) {
            if !self.check(&TokenKind::LeftParen) {
                return Err(Diagnostic::new("expected `(` after class name", self.current().span));
            }
            let (arguments, end) = self.parse_argument_list()?;
            return Ok(Expression::NewObject { ty, arguments, span: start.span.merge(end) });
        }

        let (initializer, end) = if self.check(&TokenKind::LeftParen) {
            let (arguments, end) = self.parse_argument_list()?;
            (CollectionInitializer::Arguments(arguments), end)
        } else if self.check(&TokenKind::LeftBrace) {
            self.parse_collection_initializer(&ty)?
        } else {
            return Err(Diagnostic::new(
                "expected constructor arguments, collection initializer, or array size",
                self.current().span,
            ));
        };
        Ok(Expression::NewCollection { ty, initializer, span: start.span.merge(end) })
    }

    fn parse_new_array_expression(&mut self, start: Token, element_type: TypeName) -> (result: Result<Expression, Diagnostic>)
        requires
            old(self).wf(),
            start.span.source_id == old(self).source(),
        ensures
            advanced(*final(self), *old(self)),
            result is Ok ==> progressed(*final(self), *old(self)),
            result matches Ok(node) ==> node.spec_span().source_id == old(self).source(),
            old(self).cur().kind is LeftBracket && old(self).ahead(1).kind is RightBracket && old(self).ahead(2).kind is LeftBrace
                && old(self).ahead(3).kind is RightBrace ==> (result matches Ok(
                Expression::NewCollection { ty, initializer, span },
            ) && ty == TypeName::List(Box::new(element_type)) && initializer is Elements
                && initializer->Elements_0@.len() == 0 && span == start.span.spec_merge(old(self).ahead(3).span) && final(self).position()
                == old(self).position() + 4 && final(self).token_seq() == old(self).token_seq()),
            old(self).cur().kind is LeftBracket && old(self).ahead(1).kind is RightBracket && !(old(self).ahead(
                2,
            ).kind is LeftBrace) ==> result is Err,
            old(self).cur().kind is LeftBracket && literal_expression(old(self).ahead(1)) is Some && old(self).ahead(
                2,
            ).kind is RightBracket ==> (result matches Ok(Expression::NewCollection { ty, initializer, span })
                && ty == TypeName::List(Box::new(element_type)) && initializer is SizedArray && Some(
                *initializer->SizedArray_0,
            ) == literal_expression(old(self).ahead(1)) && span == start.span.spec_merge(
                old(self).ahead(2).span,
            ) && final(self).position() == old(self).position() + 3 && final(self).token_seq() == old(self).token_seq()),
        decreases old(self).remaining(), old(self).lexlen(), 32nat,
    {
        self.expect_simple(TokenKind::LeftBracket, "expected `[`")?;
        let ty = TypeName::List(Box::new(element_type));
        let (initializer, end) = if self.check(&TokenKind::RightBracket) {
            self.advance();
            if !self.check(&TokenKind::LeftBrace) {
                return Err(Diagnostic::new("expected an array initializer after `[]`", self.current().span));
            }
            self.parse_collection_initializer(&ty)?
        } else {
            let size = self.parse_expression()?;
            let end = self.expect_simple(TokenKind::RightBracket, "expected `]` after array size")?;
            (CollectionInitializer::SizedArray(Box::new(size)), end.span)
        };
        Ok(Expression::NewCollection { ty, initializer, span: start.span.merge(end) })
    }

    pub(super) fn parse_collection_initializer(&mut self, ty: &TypeName) -> (result: Result<(CollectionInitializer, Span), Diagnostic>)
        requires
            old(self).wf(),
        ensures
            advanced(*final(self), *old(self)),
            result is Ok ==> progressed(*final(self), *old(self)),
            result matches Ok((initializer, _)) ==> (ty is MapOf <==> initializer is MapEntries),
            result matches Ok((_, span)) ==> span.source_id == old(self).source(),
            old(self).cur().kind is LeftBrace && old(self).ahead(1).kind is RightBrace ==> (result matches Ok(
                (initializer, span),
            ) && (match initializer {
                CollectionInitializer::MapEntries(entries) => entries@.len() == 0,
                CollectionInitializer::Elements(elements) => elements@.len() == 0,
                _ => false,
            }) && span == old(self).ahead(1).span && final(self).position() == old(self).position() + 2
                && final(self).token_seq() == old(self).token_seq()),
            !(old(self).cur().kind is LeftBrace) ==> result is Err,
        decreases old(self).remaining(), old(self).lexlen(), 31nat,
    {
        self.expect_simple(TokenKind::LeftBrace, "expected `{`")?;
        if matches!(ty, TypeName::MapOf(..)) {
            let mut entries: Vec<MapEntry> = Vec::new();
            if !self.check(&TokenKind::RightBrace) {
                loop
                    invariant
                        progressed(*self, *old(self)),
                        !(old(self).cur().kind is LeftBrace && old(self).ahead(1).kind is RightBrace),
                    decreases self.remaining(), self.lexlen(),
                {
                    let key = self.parse_expression()?;
                    self.expect_simple(TokenKind::FatArrow, "expected `=>` after map key")?;
                    let value = self.parse_expression()?;
                    let span = key.span().merge(value.span());
                    entries.push(MapEntry { key, value, span });
                    if !self.check(&TokenKind::Comma) {
                        break;
                    }
                    self.advance();
                }
            }
            let end = self.expect_simple(TokenKind::RightBrace, "expected `}` after map initializer")?;
            Ok((CollectionInitializer::MapEntries(entries), end.span))
        } else {
            let mut elements: Vec<Expression> = Vec::new();
            if !self.check(&TokenKind::RightBrace) {
                loop
                    invariant
                        progressed(*self, *old(self)),
                        !(old(self).cur().kind is LeftBrace && old(self).ahead(1).kind is RightBrace),
                    decreases self.remaining(), self.lexlen(),
                {
                    elements.push(self.parse_expression()?);
                    if !self.check(&TokenKind::Comma) {
                        break;
                    }
                    self.advance();
                }
            }
            let end = self.expect_simple(TokenKind::RightBrace, "expected `}` after collection initializer")?;
            Ok((CollectionInitializer::Elements(elements), end.span))
        }
    }

    pub(super) fn parse_argument_list(&mut self) -> (result: Result<(Vec<Expression>, Span), Diagnostic>)
        requires
            old(self).wf(),
        ensures
            advanced(*final(self), *old(self)),
            result is Ok ==> progressed(*final(self), *old(self)),
            result matches Ok((_, span)) ==> span.source_id == old(self).source(),
            old(self).cur().kind is LeftParen && old(self).ahead(1).kind is RightParen ==> (result matches Ok(
                (arguments, _),
            ) && arguments@.len() == 0 && final(self).position() == old(self).position() + 2
                && final(self).token_seq() == old(self).token_seq()),
            old(self).cur().kind is LeftParen && literal_expression(old(self).ahead(1)) is Some && old(self).ahead(
                2,
            ).kind is RightParen ==> (result matches Ok((arguments, _)) && arguments@.len() == 1 && Some(arguments@[0])
                == literal_expression(old(self).ahead(1)) && final(self).position() == old(self).position() + 3
                && final(self).token_seq() == old(self).token_seq()),
        decreases old(self).remaining(), old(self).lexlen(), 30nat,
    {
        self.expect_simple(TokenKind::LeftParen, "expected `(`")?;
        let mut arguments: Vec<Expression> = Vec::new();
        if !self.check(&TokenKind::RightParen) {
            loop
                invariant_except_break
                    old(self).cur().kind is LeftParen && literal_expression(old(self).ahead(1)) is Some && old(self).ahead(
                        2,
                    ).kind is RightParen ==> (arguments@.len() == 0 && self.position() == old(self).position() + 1
                        && self.token_seq() == old(self).token_seq()),
                invariant
                    progressed(*self, *old(self)),
                    !(old(self).cur().kind is LeftParen && old(self).ahead(1).kind is RightParen),
                ensures
                    progressed(*self, *old(self)),
                    old(self).cur().kind is LeftParen && literal_expression(old(self).ahead(1)) is Some && old(self).ahead(
                        2,
                    ).kind is RightParen ==> (arguments@.len() == 1 && Some(arguments@[0]) == literal_expression(
                        old(self).ahead(1),
                    ) && self.position() == old(self).position() + 2 && self.token_seq() == old(self).token_seq()),
                decreases self.remaining(), self.lexlen(),
            {
                arguments.push(self.parse_expression()?);
                if !self.check(&TokenKind::Comma) {
                    break;
                }
                self.advance();
            }
        }
        let end = self.expect_simple(TokenKind::RightParen, "expected `)` after arguments")?;
        Ok((arguments, end.span))
    }
}

} // verus!
