use vstd::prelude::*;

use super::declarations::{identifier_spelling, sharing_at};
use super::{advanced, is_keyword_token, progressed, Parser};
use crate::ast::{
    spec_builtin_from_lower, NamedType, ReturnType, TypeArgument, TypeName, TypeRef,
};
use crate::diagnostic::Diagnostic;
use crate::span::Span;
use crate::text::{ascii_lower, chars_are, chars_of, eq_ignore_ascii_case};
use crate::token::{Token, TokenKind};

verus! {

/// Whether a token kind is that of a literal.
pub open spec fn literal_token_kind(kind: TokenKind) -> bool {
    kind is StringLiteral || kind is BooleanLiteral || kind is IntegerLiteral || kind is LongLiteral
        || kind is DecimalLiteral || kind is Null
}

/// A one-word type reference starts `k` tokens ahead: an identifier that
/// neither `.` and a name, nor `<`, nor `[]` continues.
pub open spec fn simple_type_ahead(parser: Parser, k: int) -> bool {
    &&& parser.ahead(k).kind is Identifier
    &&& !(parser.ahead(k + 1).kind is Less)
    &&& !(parser.ahead(k + 1).kind is Dot && parser.ahead(k + 2).kind is Identifier)
    &&& !(parser.ahead(k + 1).kind is LeftBracket && parser.ahead(k + 2).kind is RightBracket)
}

/// A one-word type with two `[]` suffixes, which no third follows, starts
/// at the parser.
pub open spec fn double_suffix_type_ahead(parser: Parser) -> bool {
    &&& parser.cur().kind is Identifier
    &&& parser.ahead(1).kind is LeftBracket
    &&& parser.ahead(2).kind is RightBracket
    &&& parser.ahead(3).kind is LeftBracket
    &&& parser.ahead(4).kind is RightBracket
    &&& !(parser.ahead(5).kind is LeftBracket && parser.ahead(6).kind is RightBracket)
}

/// A one-word type other than a collection, which needs type arguments,
/// starts `k` tokens ahead.
pub open spec fn simple_named_type_ahead(parser: Parser, k: int) -> bool {
    &&& simple_type_ahead(parser, k)
    &&& identifier_spelling(parser.ahead(k)) matches Some(spelling) && !is_collection_name(ascii_lower(spelling))
}

/// Whether a token can begin a unary expression.
pub open spec fn spec_is_unary_expression_start(kind: TokenKind) -> bool {
    kind is Identifier || kind is StringLiteral || kind is BooleanLiteral || kind is IntegerLiteral
        || kind is LongLiteral || kind is DecimalLiteral || kind is Null || kind is New || kind is LeftBracket
        || kind is LeftParen || kind is Plus || kind is PlusPlus || kind is Minus || kind is MinusMinus
        || kind is Bang || kind is Tilde
}

fn is_unary_expression_start(kind: &TokenKind) -> (result: bool)
    ensures
        result == spec_is_unary_expression_start(*kind),
{
    matches!(
        kind,
        TokenKind::Identifier(_) | TokenKind::StringLiteral(_) | TokenKind::BooleanLiteral(_)
            | TokenKind::IntegerLiteral(_) | TokenKind::LongLiteral(_) | TokenKind::DecimalLiteral(_)
            | TokenKind::Null | TokenKind::New | TokenKind::LeftBracket | TokenKind::LeftParen | TokenKind::Plus
            | TokenKind::PlusPlus | TokenKind::Minus | TokenKind::MinusMinus | TokenKind::Bang | TokenKind::Tilde
    )
}

impl Parser {
    pub(super) fn parse_type_name(&mut self) -> (result: Result<(TypeName, Span), Diagnostic>)
        requires
            old(self).wf(),
        ensures
            advanced(*final(self), *old(self)),
            result is Ok ==> progressed(*final(self), *old(self)),
            result matches Ok((_, span)) ==> span.source_id == old(self).source(),
            !(old(self).cur().kind is Identifier) ==> result is Err && *final(self) == *old(self),
            simple_named_type_ahead(*old(self), 0) ==> (result is Ok && final(self).position() == old(self).position() + 1
                && final(self).token_seq() == old(self).token_seq()),
            double_suffix_type_ahead(*old(self)) ==> (result matches Err(error) && error.message@
                == "only one array suffix is supported"@ && final(self).position() == old(self).position() + 5
                && final(self).token_seq() == old(self).token_seq()),
    {
        let syntax = self.parse_type_ref()?;
        let span = syntax.span;
        Ok((type_name_from_ref(&syntax)?, span))
    }

    pub(super) fn parse_return_type(&mut self) -> (result: Result<(ReturnType, Span), Diagnostic>)
        requires
            old(self).wf(),
        ensures
            advanced(*final(self), *old(self)),
            result is Ok ==> progressed(*final(self), *old(self)),
            old(self).cur().kind is Void ==> (result matches Ok((ReturnType::Void, span)) && span
                == old(self).cur().span),
            !(old(self).cur().kind is Void) && !(old(self).cur().kind is Identifier) ==> result is Err,
            double_suffix_type_ahead(*old(self)) ==> result is Err,
            old(self).cur().kind is Void || simple_named_type_ahead(*old(self), 0) ==> (result is Ok
                && final(self).position() == old(self).position() + 1 && final(self).token_seq() == old(self).token_seq()),
            result matches Ok((_, span)) ==> span.source_id == old(self).source(),
            !(old(self).cur().kind is Void) ==> (result matches Ok((return_type, _)) ==> return_type is Value),
    {
        if self.check(&TokenKind::Void) {
            let token = self.advance();
            return Ok((ReturnType::Void, token.span));
        }
        let (ty, span) = self.parse_type_name()?;
        Ok((ReturnType::Value(ty), span))
    }

    pub(super) fn parse_named_type(&mut self) -> (result: Result<NamedType, Diagnostic>)
        requires
            old(self).wf(),
        ensures
            advanced(*final(self), *old(self)),
            result is Ok ==> progressed(*final(self), *old(self)),
            result matches Ok(named) ==> named.span.source_id == old(self).source(),
            simple_type_ahead(*old(self), 0) ==> (result is Ok && final(self).position() == old(self).position() + 1
                && final(self).token_seq() == old(self).token_seq()),
    {
        let syntax = self.parse_type_ref()?;
        if syntax.array_suffixes.len() > 0 {
            return Err(Diagnostic::new("hierarchy and trigger types cannot use array suffixes", syntax.array_suffixes[0]));
        }
        named_type_from_ref(&syntax)
    }

    /// One type reference: dotted name, optional generic arguments, and `[]` suffixes.
    pub(super) fn parse_type_ref(&mut self) -> (result: Result<TypeRef, Diagnostic>)
        requires
            old(self).wf(),
        ensures
            advanced(*final(self), *old(self)),
            result is Ok ==> progressed(*final(self), *old(self)),
            !(old(self).cur().kind is Identifier) ==> result is Err && *final(self) == *old(self),
            result matches Ok(syntax) ==> syntax.span.source_id == old(self).source(),
            simple_type_ahead(*old(self), 0) ==> (result matches Ok(syntax) && syntax.segments@.len() == 1
                && Some(syntax.segments@[0].spelling@) == identifier_spelling(old(self).cur())
                && syntax.segments@[0].canonical@ == ascii_lower(syntax.segments@[0].spelling@)
                && syntax.type_arguments@.len() == 0 && syntax.array_suffixes@.len() == 0
                && final(self).position() == old(self).position() + 1 && final(self).token_seq() == old(self).token_seq()),
            double_suffix_type_ahead(*old(self)) ==> (result matches Ok(syntax) && syntax.array_suffixes@.len() == 2
                && final(self).position() == old(self).position() + 5 && final(self).token_seq() == old(self).token_seq()),
        decreases old(self).remaining(), old(self).lexlen(),
    {
        let first = self.expect_identifier("expected a type name")?;
        let mut span = first.span;
        let mut segments: Vec<crate::ast::Identifier> = Vec::new();
        segments.push(first);
        let ghost start = *old(self);
        let ghost head = segments@[0];
        assert(Some(head.spelling@) == identifier_spelling(old(self).cur()));
        while self.check(&TokenKind::Dot) && matches!(self.peek(1).kind, TokenKind::Identifier(_))
            invariant
                progressed(*self, start),
                start == *old(self),
                span.source_id == start.source(),
                segments@.len() >= 1,
                segments@[0] == head,
                simple_type_ahead(start, 0) ==> (segments@.len() == 1 && self.position() == start.position() + 1
                    && self.token_seq() == start.token_seq()),
                double_suffix_type_ahead(start) ==> (self.position() == start.position() + 1 && self.token_seq()
                    == start.token_seq()),
            decreases self.remaining(),
        {
            self.advance();
            let segment = self.expect_identifier("expected a type name after `.`")?;
            span = span.merge(segment.span);
            segments.push(segment);
        }

        let mut type_arguments: Vec<TypeRef> = Vec::new();
        if self.check(&TokenKind::Less) {
            self.advance();
            loop
                invariant
                    progressed(*self, start),
                    start == *old(self),
                    span.source_id == start.source(),
                    !simple_type_ahead(start, 0),
                    !double_suffix_type_ahead(start),
                    start.cur().kind is Identifier,
                decreases self.remaining(), self.lexlen(),
            {
                type_arguments.push(self.parse_type_ref()?);
                if !self.check(&TokenKind::Comma) {
                    break;
                }
                self.advance();
            }
            let end = self.expect_type_greater("expected `>` after type argument")?;
            span = span.merge(end.span);
        }

        let mut array_suffixes: Vec<Span> = Vec::new();
        while self.check(&TokenKind::LeftBracket) && matches!(self.peek(1).kind, TokenKind::RightBracket)
            invariant
                progressed(*self, start),
                span.source_id == start.source(),
                start == *old(self),
                segments@.len() >= 1,
                segments@[0] == head,
                simple_type_ahead(start, 0) ==> (segments@.len() == 1 && self.position() == start.position() + 1
                    && self.token_seq() == start.token_seq() && type_arguments@.len() == 0
                    && array_suffixes@.len() == 0),
                double_suffix_type_ahead(start) ==> (array_suffixes@.len() <= 2 && self.position() == start.position()
                    + 1 + 2 * array_suffixes@.len() && self.token_seq() == start.token_seq()),
            decreases self.remaining(),
        {
            let open = self.advance().span;
            let close = self.advance().span;
            let suffix = open.merge(close);
            span = span.merge(suffix);
            array_suffixes.push(suffix);
        }
        Ok(TypeRef { segments, type_arguments, array_suffixes, span })
    }
}

/// Whether a canonical type name is one of the generic collection names.
pub open spec fn is_collection_name(canonical: Seq<char>) -> bool {
    canonical == "list"@ || canonical == "set"@ || canonical == "iterable"@ || canonical == "map"@
}

/// A named type with its generic arguments converted to types.
fn named_type_from_ref(syntax: &TypeRef) -> (result: Result<NamedType, Diagnostic>)
    ensures
        result matches Ok(named) ==> {
            &&& named.spelling@ == syntax.spec_spelling()
            &&& named.canonical@ == syntax.spec_canonical()
            &&& named.span == syntax.span
            &&& named.type_arguments@.len() == syntax.type_arguments@.len()
        },
        syntax.type_arguments@.len() == 0 ==> result is Ok,
    decreases *syntax, 0nat,
{
    let mut type_arguments: Vec<TypeArgument> = Vec::new();
    let mut i: usize = 0;
    while i < syntax.type_arguments.len()
        invariant
            i <= syntax.type_arguments@.len(),
            type_arguments@.len() == i,
        decreases syntax.type_arguments@.len() - i,
    {
        let argument = &syntax.type_arguments[i];
        assert(decreases_to!(syntax.type_arguments@ => syntax.type_arguments@[i as int]));
        let ty = type_name_from_ref(argument)?;
        type_arguments.push(TypeArgument { syntax: argument.deep_copy(), ty, span: argument.span });
        i += 1;
    }
    let copy = syntax.deep_copy();
    proof {
        assert(copy.spec_spelling() == syntax.spec_spelling());
        assert(copy.spec_canonical() == syntax.spec_canonical());
    }
    Ok(NamedType::from_type_ref(copy, type_arguments))
}

/// The checked type that a type reference denotes.
fn type_name_from_ref(syntax: &TypeRef) -> (result: Result<TypeName, Diagnostic>)
    ensures
        syntax.array_suffixes@.len() > 1 ==> (result matches Err(error) && error.message@
            == "only one array suffix is supported"@ && error.span == syntax.array_suffixes@[1]),
        result is Ok ==> syntax.array_suffixes@.len() <= 1,
        (syntax.spec_canonical() == "list"@ || syntax.spec_canonical() == "set"@ || syntax.spec_canonical()
            == "iterable"@) && syntax.type_arguments@.len() != 1 ==> result is Err,
        syntax.spec_canonical() == "map"@ && syntax.type_arguments@.len() != 2 ==> result is Err,
        !is_collection_name(syntax.spec_canonical()) && spec_builtin_from_lower(ascii_lower(syntax.spec_canonical())) is Some
            && syntax.type_arguments@.len() > 0 ==> result is Err,
        !is_collection_name(syntax.spec_canonical()) && syntax.type_arguments@.len() == 0
            && syntax.array_suffixes@.len() == 0 && spec_builtin_from_lower(ascii_lower(syntax.spec_canonical()))
            is Some ==> result == Ok::<TypeName, Diagnostic>(
            spec_builtin_from_lower(ascii_lower(syntax.spec_canonical())).unwrap(),
        ),
        !is_collection_name(syntax.spec_canonical()) && syntax.type_arguments@.len() == 0
            && syntax.array_suffixes@.len() == 1 && spec_builtin_from_lower(ascii_lower(syntax.spec_canonical()))
            is Some ==> result == Ok::<TypeName, Diagnostic>(
            TypeName::List(Box::new(spec_builtin_from_lower(ascii_lower(syntax.spec_canonical())).unwrap())),
        ),
        !is_collection_name(syntax.spec_canonical()) && spec_builtin_from_lower(ascii_lower(syntax.spec_canonical())) is None
            && syntax.array_suffixes@.len() == 0 ==> (result matches Ok(ty) ==> ty matches TypeName::Custom(
            named,
        ) && named.canonical@ == syntax.spec_canonical() && named.spelling@ == syntax.spec_spelling()),
        !is_collection_name(syntax.spec_canonical()) && syntax.type_arguments@.len() == 0
            && syntax.array_suffixes@.len() <= 1 ==> result is Ok,
    decreases *syntax, 1nat,
{
    if syntax.array_suffixes.len() > 1 {
        return Err(Diagnostic::new("only one array suffix is supported", syntax.array_suffixes[1]));
    }
    proof {
        reveal_strlit("list");
        reveal_strlit("set");
        reveal_strlit("iterable");
        reveal_strlit("map");
        assert("map"@ != "list"@) by {
            assert("map"@.len() != "list"@.len());
        }
        assert("map"@ != "set"@) by {
            assert("map"@[0] != "set"@[0]);
        }
        assert("map"@ != "iterable"@) by {
            assert("map"@.len() != "iterable"@.len());
        }
    }
    let canonical = syntax.canonical();
    let canonical_chars = chars_of(canonical.as_str());
    let mut arguments: Vec<TypeName> = Vec::new();
    let mut i: usize = 0;
    while i < syntax.type_arguments.len()
        invariant
            i <= syntax.type_arguments@.len(),
            arguments@.len() == i,
            syntax.array_suffixes@.len() <= 1,
        decreases syntax.type_arguments@.len() - i,
    {
        assert(decreases_to!(syntax.type_arguments@ => syntax.type_arguments@[i as int]));
        arguments.push(type_name_from_ref(&syntax.type_arguments[i])?);
        i += 1;
    }
    let is_list = chars_are(canonical_chars.as_slice(), "list");
    let is_set = chars_are(canonical_chars.as_slice(), "set");
    let is_iterable = chars_are(canonical_chars.as_slice(), "iterable");
    let mut ty = if is_list || is_set || is_iterable {
        if arguments.len() != 1 {
            let mut message: Vec<char> = Vec::new();
            let spelling = syntax.spelling();
            crate::text::push_str(&mut message, spelling.as_str());
            crate::text::push_str(&mut message, " requires exactly one type argument");
            let message = crate::text::string_from_chars(message.as_slice());
            return Err(Diagnostic::new(message.as_str(), syntax.span));
        }
        let element = arguments.pop().unwrap();
        if is_list {
            TypeName::List(Box::new(element))
        } else if is_set {
            TypeName::SetOf(Box::new(element))
        } else {
            TypeName::Iterable(Box::new(element))
        }
    } else if chars_are(canonical_chars.as_slice(), "map") {
        if arguments.len() != 2 {
            return Err(Diagnostic::new("Map requires exactly two type arguments", syntax.span));
        }
        let value = arguments.pop().unwrap();
        let key = arguments.pop().unwrap();
        TypeName::MapOf(Box::new(key), Box::new(value))
    } else {
        match TypeName::from_apex_name(canonical.as_str()) {
            Some(builtin) => {
                if arguments.len() > 0 {
                    let mut message: Vec<char> = Vec::new();
                    let spelling = syntax.spelling();
                    crate::text::push_str(&mut message, spelling.as_str());
                    crate::text::push_str(&mut message, " does not accept type arguments");
                    let message = crate::text::string_from_chars(message.as_slice());
                    return Err(Diagnostic::new(message.as_str(), syntax.span));
                }
                builtin
            },
            None => {
                TypeName::Custom(named_type_from_ref(syntax)?)
            },
        }
    };
    if syntax.array_suffixes.len() == 1 {
        ty = TypeName::List(Box::new(ty));
    }
    Ok(ty)
}

/// The token at `i`, or the last token past the end.
pub open spec fn token_or_last(t: Seq<Token>, i: int) -> Token {
    if 0 <= i < t.len() {
        t[i]
    } else {
        t.last()
    }
}

/// Scanning from the `(` at or after `c` with `depth` parentheses open: the
/// index just past the parenthesis that closes them and `true`, or the
/// index of the end-of-input token and `false`.
pub open spec fn paren_scan(t: Seq<Token>, c: int, depth: nat) -> (int, bool)
    decreases t.len() - c,
{
    if c < 0 || c >= t.len() {
        (c, false)
    } else {
        match t[c].kind {
            TokenKind::LeftParen => paren_scan(t, c + 1, depth + 1),
            TokenKind::RightParen => if depth <= 1 {
                (c + 1, true)
            } else {
                paren_scan(t, c + 1, (depth - 1) as nat)
            },
            TokenKind::Eof => (c, false),
            _ => paren_scan(t, c + 1, depth),
        }
    }
}

/// The index just past the annotations that start at `c`, each `@`, a name
/// and an optional parenthesized argument list; where an annotation is cut
/// short, the index where it stops.
pub open spec fn annotation_prefix_end(t: Seq<Token>, c: int) -> int
    decreases t.len() - c,
{
    if c < 0 || c + 2 > t.len() || !(token_or_last(t, c).kind is At) {
        c
    } else if !(token_or_last(t, c + 1).kind is Identifier) {
        c + 1
    } else if token_or_last(t, c + 2).kind is LeftParen {
        let (e, closed) = paren_scan(t, c + 2, 0);
        if closed && c < e <= t.len() {
            annotation_prefix_end(t, e)
        } else {
            e
        }
    } else {
        annotation_prefix_end(t, c + 2)
    }
}

/// Whether a token is a modifier keyword that may precede a type declaration.
pub open spec fn declaration_modifier(kind: TokenKind) -> bool {
    kind is Public || kind is Private || kind is Protected || kind is Global || kind is Static || kind is Virtual
        || kind is Abstract || kind is Override || kind is Final || kind is Transient
}

/// The index just past the modifiers, sharing modifiers included, at `c`.
pub open spec fn modifier_prefix_end(t: Seq<Token>, c: int) -> int
    decreases t.len() - c,
{
    if c < 0 || c >= t.len() {
        c
    } else if declaration_modifier(t[c].kind) {
        modifier_prefix_end(t, c + 1)
    } else if sharing_at(t, c) is Some {
        modifier_prefix_end(t, c + 2)
    } else {
        c
    }
}

/// Whether a class, interface or enum declaration starts at `c`.
pub open spec fn class_declaration_at(t: Seq<Token>, c: int) -> bool {
    let k = modifier_prefix_end(t, annotation_prefix_end(t, c));
    token_or_last(t, k).kind is Class || token_or_last(t, k).kind is Interface || is_keyword_token(
        token_or_last(t, k),
        "enum"@,
    )
}

impl Parser {
    /// Whether a local variable declaration starts here: optional `final` or
    /// `transient`, a type, then a name.
    pub(super) fn is_declaration_start(&self) -> (result: bool)
        requires
            self.wf(),
        ensures
            simple_named_type_ahead(*self, 0) && self.ahead(1).kind is Identifier ==> result,
            double_suffix_type_ahead(*self) && self.ahead(5).kind is Identifier ==> result,
            !(self.cur().kind is Identifier) && !(self.cur().kind is Final) && !(self.cur().kind is Transient) ==> !result,
    {
        let mut probe = self.probe();
        while matches!(probe.current().kind, TokenKind::Final | TokenKind::Transient)
            invariant
                probe.wf(),
                simple_named_type_ahead(*self, 0) ==> (probe.position() == self.position() && probe.token_seq()
                    == self.token_seq()),
                double_suffix_type_ahead(*self) ==> (probe.position() == self.position() && probe.token_seq()
                    == self.token_seq()),
                !(self.cur().kind is Identifier) && !(self.cur().kind is Final) && !(self.cur().kind is Transient) ==> (
                probe.position() == self.position() && probe.token_seq() == self.token_seq()),
            decreases probe.remaining(),
        {
            probe.advance();
        }
        match probe.parse_type_name() {
            Ok(_) => matches!(probe.current().kind, TokenKind::Identifier(_)),
            Err(error) => {
                if chars_are(chars_of(error.message.as_str()).as_slice(), "only one array suffix is supported") {
                    matches!(probe.current().kind, TokenKind::Identifier(_))
                } else {
                    false
                }
            },
        }
    }

    /// Whether a top-level method declaration starts here: a return type, a name, and `(`.
    pub(super) fn is_method_declaration_start(&self) -> (result: bool)
        requires
            self.wf(),
        ensures
            (self.cur().kind is Void || simple_named_type_ahead(*self, 0)) && self.ahead(1).kind is Identifier
                && self.ahead(2).kind is LeftParen ==> result,
            simple_named_type_ahead(*self, 0) && !(self.ahead(2).kind is LeftParen) ==> !result,
            !(self.cur().kind is Void) && !(self.cur().kind is Identifier) ==> !result,
            double_suffix_type_ahead(*self) ==> !result,
    {
        let mut probe = self.probe();
        match probe.parse_return_type() {
            Ok(_) => matches!(probe.current().kind, TokenKind::Identifier(_)) && matches!(
                probe.peek(1).kind,
                TokenKind::LeftParen
            ),
            Err(_) => false,
        }
    }

    /// Whether a class, interface or enum declaration starts here, after any
    /// annotations and modifiers.
    pub(super) fn is_class_declaration_start(&self) -> (result: bool)
        requires
            self.wf(),
        ensures
            result == class_declaration_at(self.token_seq(), self.position()),
    {
        let mut cursor = self.annotation_prefix_end_at(self.cursor_index());
        let ghost after_annotations = cursor as int;
        let count = self.tokens_len();
        loop
            invariant
                self.wf(),
                count == self.token_seq().len(),
                cursor <= self.token_seq().len(),
                after_annotations == annotation_prefix_end(self.token_seq(), self.position()),
                modifier_prefix_end(self.token_seq(), after_annotations) == modifier_prefix_end(
                    self.token_seq(),
                    cursor as int,
                ),
            ensures
                cursor <= self.token_seq().len(),
                modifier_prefix_end(self.token_seq(), after_annotations) == cursor,
            decreases self.token_seq().len() - cursor,
        {
            let kind = &self.token_at(cursor).kind;
            if matches!(
                kind,
                TokenKind::Public | TokenKind::Private | TokenKind::Protected | TokenKind::Global | TokenKind::Static
                    | TokenKind::Virtual | TokenKind::Abstract | TokenKind::Override | TokenKind::Final
                    | TokenKind::Transient
            ) {
                cursor += 1;
            } else if self.is_sharing_modifier_at(cursor) {
                assert(sharing_at(self.token_seq(), cursor as int) is Some);
                cursor += 2;
            } else {
                assert(cursor < self.token_seq().len() ==> sharing_at(self.token_seq(), cursor as int) is None);
                break;
            }
        }
        matches!(self.token_at(cursor).kind, TokenKind::Class | TokenKind::Interface) || match &self.token_at(
            cursor,
        ).kind {
            TokenKind::Identifier(spelling) => eq_ignore_ascii_case(spelling.as_str(), "enum"),
            _ => false,
        }
    }

    /// Whether `with sharing`, `without sharing` or `inherited sharing` starts at `index`.
    pub(super) fn is_sharing_modifier_at(&self, index: usize) -> (result: bool)
        requires
            self.wf(),
        ensures
            result ==> index + 2 < self.token_seq().len(),
            result == (index < self.token_seq().len() && (is_keyword_token(self.token_at_spec(index as int), "with"@)
                || is_keyword_token(self.token_at_spec(index as int), "without"@) || is_keyword_token(
                self.token_at_spec(index as int),
                "inherited"@,
            )) && is_keyword_token(self.token_at_spec(index + 1), "sharing"@)),
    {
        if index >= self.tokens_len() {
            return false;
        }
        let first = match &self.token_at(index).kind {
            TokenKind::Identifier(spelling) => eq_ignore_ascii_case(spelling.as_str(), "with")
                || eq_ignore_ascii_case(spelling.as_str(), "without") || eq_ignore_ascii_case(
                spelling.as_str(),
                "inherited",
            ),
            _ => false,
        };
        if !first {
            return false;
        }
        match &self.token_at(index + 1).kind {
            TokenKind::Identifier(next) => eq_ignore_ascii_case(next.as_str(), "sharing"),
            _ => false,
        }
    }

    /// Index just past any annotations (with their parenthesized arguments) starting at `cursor`.
    pub(super) fn annotation_prefix_end_at(&self, start: usize) -> (result: usize)
        requires
            self.wf(),
            start <= self.token_seq().len(),
        ensures
            start <= result <= self.token_seq().len(),
            result == annotation_prefix_end(self.token_seq(), start as int),
    {
        let ghost t = self.token_seq();
        let mut cursor = start;
        let count = self.tokens_len();
        while matches!(self.token_at(cursor).kind, TokenKind::At)
            invariant
                self.wf(),
                t == self.token_seq(),
                count == self.token_seq().len(),
                cursor <= self.token_seq().len(),
                cursor >= start,
                annotation_prefix_end(t, start as int) == annotation_prefix_end(t, cursor as int),
            decreases self.token_seq().len() - cursor,
        {
            let ghost round = cursor;
            assert(cursor + 2 <= t.len());
            cursor += 1;
            if !matches!(self.token_at(cursor).kind, TokenKind::Identifier(_)) {
                return cursor;
            }
            cursor += 1;
            if matches!(self.token_at(cursor).kind, TokenKind::LeftParen) {
                let ghost open = cursor as int;
                let mut depth: usize = 0;
                loop
                    invariant_except_break
                        cursor < self.token_seq().len(),
                        depth > 0 || self.token_seq()[cursor as int].kind is LeftParen,
                        depth <= cursor,
                        paren_scan(t, open, 0) == paren_scan(t, cursor as int, depth as nat),
                    invariant
                        self.wf(),
                        t == self.token_seq(),
                        count == self.token_seq().len(),
                        cursor >= start,
                        cursor > round,
                        cursor <= self.token_seq().len(),
                        round + 2 == open,
                        open < t.len(),
                        token_or_last(t, open).kind is LeftParen,
                        token_or_last(t, round as int).kind is At,
                        token_or_last(t, round + 1).kind is Identifier,
                        annotation_prefix_end(t, start as int) == annotation_prefix_end(t, round as int),
                    ensures
                        paren_scan(t, open, 0) == (cursor as int, true),
                    decreases self.token_seq().len() - cursor,
                {
                    match self.token_at(cursor).kind {
                        TokenKind::LeftParen => {
                            depth += 1;
                        },
                        TokenKind::RightParen => {
                            depth -= 1;
                            cursor += 1;
                            if depth == 0 {
                                break;
                            }
                            continue;
                        },
                        TokenKind::Eof => return cursor,
                        _ => {},
                    }
                    cursor += 1;
                }
            }
        }
        cursor
    }
}

impl Parser {
    /// Whether a parenthesized type followed by an operand starts here, which
    /// makes `(T) operand` a cast rather than a grouped expression.
    pub(super) fn is_cast_start(&self) -> (result: bool)
        requires
            self.wf(),
        ensures
            result ==> self.cur().kind is LeftParen,
            self.cur().kind is LeftParen && simple_named_type_ahead(*self, 1) && self.ahead(2).kind is RightParen
                && literal_token_kind(self.ahead(3).kind) ==> result,
    {
        if !self.check(&TokenKind::LeftParen) {
            return false;
        }
        let mut probe = self.probe();
        probe.advance();
        let candidate = match probe.parse_type_name() {
            Ok((candidate, _)) => candidate,
            Err(_) => return false,
        };
        if !matches!(probe.current().kind, TokenKind::RightParen) {
            return false;
        }
        probe.advance();
        let numeric_scalar = matches!(
            candidate,
            TypeName::Integer | TypeName::Long | TypeName::Decimal | TypeName::Double
        );
        match &probe.current().kind {
            // Signed unary operands disambiguate only numeric scalar casts;
            // reference-shaped candidates remain grouped binary expressions.
            TokenKind::Plus | TokenKind::Minus => numeric_scalar,
            TokenKind::PlusPlus | TokenKind::MinusMinus => numeric_scalar && is_unary_expression_start(
                &probe.peek(1).kind,
            ),
            // `[` continues a grouped value as indexing unless it starts the
            // supported SOQL/SOSL primary-expression shape.
            TokenKind::LeftBracket => probe.is_query_expression_start_at(probe.cursor_index()),
            operand => is_unary_expression_start(operand),
        }
    }

    /// Whether `Type name :` starts here, the head of an enhanced `for`.
    pub(super) fn is_for_each_start(&self) -> (result: bool)
        requires
            self.wf(),
        ensures
            simple_named_type_ahead(*self, 0) && self.ahead(1).kind is Identifier && self.ahead(2).kind is Colon
                ==> result,
            !(self.cur().kind is Identifier) ==> !result,
    {
        let mut probe = self.probe();
        match probe.parse_type_name() {
            Ok(_) => matches!(probe.current().kind, TokenKind::Identifier(_)) && matches!(
                probe.peek(1).kind,
                TokenKind::Colon
            ),
            Err(_) => false,
        }
    }

    /// Whether the token after `index` is `SELECT` or `FIND`.
    pub(super) fn is_query_expression_start_at(&self, index: usize) -> (result: bool)
        requires
            self.wf(),
            index < self.token_seq().len(),
        ensures
            result == (is_keyword_token(self.token_at_spec(index + 1), "select"@) || is_keyword_token(
                self.token_at_spec(index + 1),
                "find"@,
            )),
    {
        let _count = self.tokens_len();
        match &self.token_at(index + 1).kind {
            TokenKind::Identifier(spelling) => eq_ignore_ascii_case(spelling.as_str(), "select")
                || eq_ignore_ascii_case(spelling.as_str(), "find"),
            _ => false,
        }
    }
}

} // verus!
