use vstd::prelude::*;

use super::types::{simple_named_type_ahead, simple_type_ahead};
use super::{advanced, is_keyword_token, progressed, Parser};
use crate::ast::{
    AccessorKind, Annotation, AnnotationKind, ClassDeclaration, ClassKind, ClassMember,
    ConstructorDeclaration, FieldDeclaration, Identifier, MethodDeclaration, Modifier, NamedType,
    Parameter, PropertyAccessor, PropertyDeclaration, ReturnType, TriggerDeclaration, TriggerEvent,
    TypeName,
};
use crate::diagnostic::Diagnostic;
use crate::span::Span;
use crate::text::{ascii_lower, chars_are, chars_of, eq_ignore_ascii_case, push_str, string_from_chars};
use crate::token::{Token, TokenKind};

verus! {

/// The trigger event named by a lower-cased phase (`before`/`after`) and DML operation.
pub open spec fn spec_trigger_event(phase: Seq<char>, operation: Seq<char>) -> Option<TriggerEvent> {
    if phase == "before"@ && operation == "insert"@ {
        Some(TriggerEvent::BeforeInsert)
    } else if phase == "before"@ && operation == "update"@ {
        Some(TriggerEvent::BeforeUpdate)
    } else if phase == "before"@ && operation == "delete"@ {
        Some(TriggerEvent::BeforeDelete)
    } else if phase == "before"@ && operation == "undelete"@ {
        Some(TriggerEvent::BeforeUndelete)
    } else if phase == "after"@ && operation == "insert"@ {
        Some(TriggerEvent::AfterInsert)
    } else if phase == "after"@ && operation == "update"@ {
        Some(TriggerEvent::AfterUpdate)
    } else if phase == "after"@ && operation == "delete"@ {
        Some(TriggerEvent::AfterDelete)
    } else if phase == "after"@ && operation == "undelete"@ {
        Some(TriggerEvent::AfterUndelete)
    } else {
        None
    }
}

fn trigger_event(phase: &[char], operation: &[char]) -> (result: Option<TriggerEvent>)
    ensures
        result == spec_trigger_event(phase@, operation@),
{
    if chars_are(phase, "before") && chars_are(operation, "insert") {
        Some(TriggerEvent::BeforeInsert)
    } else if chars_are(phase, "before") && chars_are(operation, "update") {
        Some(TriggerEvent::BeforeUpdate)
    } else if chars_are(phase, "before") && chars_are(operation, "delete") {
        Some(TriggerEvent::BeforeDelete)
    } else if chars_are(phase, "before") && chars_are(operation, "undelete") {
        Some(TriggerEvent::BeforeUndelete)
    } else if chars_are(phase, "after") && chars_are(operation, "insert") {
        Some(TriggerEvent::AfterInsert)
    } else if chars_are(phase, "after") && chars_are(operation, "update") {
        Some(TriggerEvent::AfterUpdate)
    } else if chars_are(phase, "after") && chars_are(operation, "delete") {
        Some(TriggerEvent::AfterDelete)
    } else if chars_are(phase, "after") && chars_are(operation, "undelete") {
        Some(TriggerEvent::AfterUndelete)
    } else {
        None
    }
}

/// The modifier a modifier keyword token stands for.
pub open spec fn spec_modifier(kind: TokenKind) -> Option<Modifier> {
    match kind {
        TokenKind::Public => Some(Modifier::Public),
        TokenKind::Private => Some(Modifier::Private),
        TokenKind::Protected => Some(Modifier::Protected),
        TokenKind::Global => Some(Modifier::Global),
        TokenKind::Static => Some(Modifier::Static),
        TokenKind::Virtual => Some(Modifier::Virtual),
        TokenKind::Abstract => Some(Modifier::Abstract),
        TokenKind::Override => Some(Modifier::Override),
        TokenKind::Final => Some(Modifier::Final),
        _ => None,
    }
}

/// `trigger Name on Object ( phase operation ) { }` starts here, with a
/// phase and operation that name a trigger event.
pub open spec fn simple_trigger_ahead(parser: Parser) -> bool {
    &&& is_keyword_token(parser.cur(), "trigger"@)
    &&& parser.ahead(1).kind is Identifier
    &&& is_keyword_token(parser.ahead(2), "on"@)
    &&& simple_type_ahead(parser, 3)
    &&& parser.ahead(4).kind is LeftParen
    &&& identifier_spelling(parser.ahead(5)) matches Some(phase) && identifier_spelling(parser.ahead(6)) matches Some(
        operation,
    ) && spec_trigger_event(ascii_lower(phase), ascii_lower(operation)) is Some
    &&& parser.ahead(7).kind is RightParen
    &&& parser.ahead(8).kind is LeftBrace
    &&& parser.ahead(9).kind is RightBrace
}

/// The spelling of an identifier token.
pub open spec fn identifier_spelling(token: Token) -> Option<Seq<char>> {
    match token.kind {
        TokenKind::Identifier(spelling) => Some(spelling@),
        _ => None,
    }
}

/// Whether a lower-cased annotation name is one the parser accepts.
pub open spec fn supported_annotation(lower: Seq<char>) -> bool {
    lower == "istest"@ || lower == "testsetup"@ || lower == "future"@
}

/// The sharing modifier spelled by the tokens at `i` and `i + 1`, if any.
pub open spec fn sharing_at(tokens: Seq<Token>, i: int) -> Option<Modifier> {
    if 0 <= i && i + 2 < tokens.len() && is_keyword_token(tokens[i + 1], "sharing"@) {
        if is_keyword_token(tokens[i], "with"@) {
            Some(Modifier::WithSharing)
        } else if is_keyword_token(tokens[i], "without"@) {
            Some(Modifier::WithoutSharing)
        } else if is_keyword_token(tokens[i], "inherited"@) {
            Some(Modifier::InheritedSharing)
        } else {
            None
        }
    } else {
        None
    }
}

/// The modifiers that start at token `i`, in order, and the index of the
/// first token after them.
pub open spec fn modifiers_from(tokens: Seq<Token>, i: int) -> (Seq<Modifier>, int)
    decreases tokens.len() - i,
{
    if i < 0 || i + 1 >= tokens.len() {
        (Seq::empty(), i)
    } else {
        match spec_modifier(tokens[i].kind) {
            Some(m) => (seq![m] + modifiers_from(tokens, i + 1).0, modifiers_from(tokens, i + 1).1),
            None => match sharing_at(tokens, i) {
                Some(m) => (seq![m] + modifiers_from(tokens, i + 2).0, modifiers_from(tokens, i + 2).1),
                None => (Seq::empty(), i),
            },
        }
    }
}

/// An automatic property body `{ get; set; }` starts `k` tokens ahead.
pub open spec fn auto_property_ahead(parser: Parser, k: int) -> bool {
    &&& parser.ahead(k).kind is LeftBrace
    &&& is_keyword_token(parser.ahead(k + 1), "get"@)
    &&& parser.ahead(k + 2).kind is Semicolon
    &&& is_keyword_token(parser.ahead(k + 3), "set"@)
    &&& parser.ahead(k + 4).kind is Semicolon
    &&& parser.ahead(k + 5).kind is RightBrace
}

/// A field `Type name;` with neither annotations nor modifiers starts `k`
/// tokens ahead.
pub open spec fn plain_field_declaration_ahead(parser: Parser, k: int) -> bool {
    &&& simple_named_type_ahead(parser, k)
    &&& parser.ahead(k + 1).kind is Identifier
    &&& !is_keyword_token(parser.ahead(k + 1), "sharing"@)
    &&& parser.ahead(k + 2).kind is Semicolon
}

/// No token is both the keyword `get` and the keyword `set`.
proof fn lemma_get_is_not_set(token: Token)
    ensures
        is_keyword_token(token, "set"@) ==> !is_keyword_token(token, "get"@),
{
    reveal_strlit("get");
    reveal_strlit("set");
    assert(ascii_lower("get"@)[0] != ascii_lower("set"@)[0]);
}

impl Parser {
    pub(super) fn parse_trigger_declaration(&mut self) -> (result: Result<TriggerDeclaration, Diagnostic>)
        requires
            old(self).wf(),
        ensures
            advanced(*final(self), *old(self)),
            result is Ok ==> progressed(*final(self), *old(self)),
            result matches Ok(node) ==> node.span.source_id == old(self).source(),
            simple_trigger_ahead(*old(self)) ==> (result matches Ok(trigger) && trigger.events@.len() == 1
                && Some(trigger.name.spelling@) == identifier_spelling(old(self).ahead(1)) && final(self).position() == old(self).position() + 10 && final(self).token_seq() == old(self).token_seq()),
    {
        let start = self.expect_keyword("trigger", "expected `trigger`")?;
        let name = self.expect_identifier("expected a trigger name")?;
        self.expect_keyword("on", "expected `on` after trigger name")?;
        let object = self.parse_named_type()?;
        self.expect_simple(TokenKind::LeftParen, "expected `(` before trigger events")?;
        let mut events: Vec<TriggerEvent> = Vec::new();
        loop
            invariant_except_break
                simple_trigger_ahead(*old(self)) ==> events@.len() == 0 && self.position() == old(self).position() + 5
                    && self.token_seq() == old(self).token_seq(),
            invariant
                progressed(*self, *old(self)),
            ensures
                progressed(*self, *old(self)),
                simple_trigger_ahead(*old(self)) ==> events@.len() == 1 && self.position() == old(self).position() + 7
                    && self.token_seq() == old(self).token_seq(),
            decreases self.remaining(), self.lexlen(),
        {
            let phase = self.expect_identifier("expected `before` or `after`")?;
            let operation = self.expect_identifier("expected a trigger DML event")?;
            let event = match trigger_event(
                chars_of(phase.canonical.as_str()).as_slice(),
                chars_of(operation.canonical.as_str()).as_slice(),
            ) {
                Some(event) => event,
                None => {
                    let mut message: Vec<char> = Vec::new();
                    push_str(&mut message, "unsupported trigger event `");
                    push_str(&mut message, phase.spelling.as_str());
                    push_str(&mut message, " ");
                    push_str(&mut message, operation.spelling.as_str());
                    push_str(&mut message, "`");
                    let message = string_from_chars(message.as_slice());
                    return Err(Diagnostic::new(message.as_str(), phase.span.merge(operation.span)));
                },
            };
            events.push(event);
            if !self.check(&TokenKind::Comma) {
                break;
            }
            self.advance();
        }
        self.expect_simple(TokenKind::RightParen, "expected `)` after trigger events")?;
        let body = self.parse_block()?;
        let span = start.span.merge(body.span());
        Ok(TriggerDeclaration { name, object, events, body, span })
    }

    pub(super) fn parse_class_declaration(&mut self) -> (result: Result<ClassDeclaration, Diagnostic>)
        requires
            old(self).wf(),
        ensures
            advanced(*final(self), *old(self)),
            result is Ok ==> progressed(*final(self), *old(self)),
            result matches Ok(node) ==> node.span.source_id == old(self).source(),
            old(self).cur().kind is Class && old(self).ahead(1).kind is Identifier && old(self).ahead(2).kind is LeftBrace
                && old(self).ahead(3).kind is RightBrace ==> (result matches Ok(class) && class.kind == ClassKind::Class
                && class.members@.len() == 0 && Some(class.name.spelling@) == identifier_spelling(old(self).ahead(1))
                && final(self).position() == old(self).position() + 4
                && final(self).token_seq() == old(self).token_seq()),
    {
        let annotations = self.parse_annotations()?;
        let mut i: usize = 0;
        while i < annotations.len()
            invariant
                i <= annotations@.len(),
                advanced(*self, *old(self)),
                old(self).cur().kind is Class && old(self).ahead(1).kind is Identifier && old(self).ahead(2).kind is LeftBrace
                && old(self).ahead(3).kind is RightBrace ==> annotations@.len() == 0 && *self == *old(self),
            decreases annotations@.len() - i,
        {
            if annotations[i].kind.is_future() {
                return Err(Diagnostic::new("`@future` is only valid on methods", annotations[i].span));
            }
            i += 1;
        }
        let modifiers = self.parse_modifiers()?;
        let start = self.current().span;
        let kind = if self.check(&TokenKind::Class) {
            self.advance();
            ClassKind::Class
        } else {
            self.expect_simple(TokenKind::Interface, "expected `class` or `interface`")?;
            ClassKind::Interface
        };
        let name = self.expect_identifier("expected a type name")?;
        let (superclass, interfaces) = self.parse_hierarchy_edges(kind)?;
        self.expect_simple(TokenKind::LeftBrace, "expected `{` after type declaration")?;
        let mut members: Vec<ClassMember> = Vec::new();
        while !self.check(&TokenKind::RightBrace) && !self.check(&TokenKind::Eof)
            invariant
                progressed(*self, *old(self)),
                old(self).cur().kind is Class && old(self).ahead(1).kind is Identifier && old(self).ahead(2).kind is LeftBrace
                && old(self).ahead(3).kind is RightBrace ==> members@.len() == 0 && self.position() == old(self).position() + 3
                    && self.token_seq() == old(self).token_seq(),
            decreases self.remaining(), self.lexlen(),
        {
            members.push(self.parse_class_member(&name)?);
        }
        let end = self.expect_simple(TokenKind::RightBrace, "expected `}` after type body")?;
        let qualified_name = NamedType::new(name.spelling.clone(), name.span);
        Ok(ClassDeclaration {
            annotations,
            kind,
            modifiers,
            name,
            qualified_name,
            enclosing_type: None,
            superclass,
            interfaces,
            enum_constants: Vec::new(),
            members,
            span: start.merge(end.span),
        })
    }

    fn parse_hierarchy_edges(&mut self, kind: ClassKind) -> (result: Result<(Option<NamedType>, Vec<NamedType>), Diagnostic>)
        requires
            old(self).wf(),
        ensures
            advanced(*final(self), *old(self)),
            !(old(self).cur().kind is Extends) && !(old(self).cur().kind is Implements) ==> (result matches Ok(
                (superclass, interfaces),
            ) && superclass is None && interfaces@.len() == 0 && *final(self) == *old(self)),
            !(old(self).cur().kind is Extends) && kind == ClassKind::Interface && old(self).cur().kind is Implements
                ==> (result matches Err(error) && error.message@
                == "interfaces extend other interfaces; `implements` is invalid here"@),
            old(self).cur().kind is Extends ==> (result matches Ok((superclass, _)) ==> superclass is Some),
            !(old(self).cur().kind is Extends) ==> (result matches Ok((superclass, _)) ==> superclass is None),
            !(old(self).cur().kind is Extends) && kind == ClassKind::Class && old(self).cur().kind is Implements
                ==> (result matches Ok((_, interfaces)) ==> interfaces@.len() > 0),
    {
        let superclass = if self.check(&TokenKind::Extends) {
            self.advance();
            Some(self.parse_named_type()?)
        } else {
            None
        };

        if kind == ClassKind::Interface && self.check(&TokenKind::Implements) {
            return Err(Diagnostic::new(
                "interfaces extend other interfaces; `implements` is invalid here",
                self.current().span,
            ));
        }

        let mut interfaces: Vec<NamedType> = Vec::new();
        if kind == ClassKind::Class && self.check(&TokenKind::Implements) {
            self.advance();
            loop
                invariant
                    advanced(*self, *old(self)),
                    kind == ClassKind::Class,
                    old(self).cur().kind is Extends || old(self).cur().kind is Implements,
                ensures
                    advanced(*self, *old(self)),
                    interfaces@.len() > 0,
                decreases self.remaining(), self.lexlen(),
            {
                interfaces.push(self.parse_named_type()?);
                if !self.check(&TokenKind::Comma) {
                    break;
                }
                self.advance();
            }
        }
        Ok((superclass, interfaces))
    }

    pub(super) fn parse_class_member(&mut self, class_name: &Identifier) -> (result: Result<ClassMember, Diagnostic>)
        requires
            old(self).wf(),
        ensures
            advanced(*final(self), *old(self)),
            result is Ok ==> progressed(*final(self), *old(self)),
            plain_field_declaration_ahead(*old(self), 0) ==> (result matches Ok(ClassMember::Field(field))
                && field.annotations@.len() == 0 && field.modifiers@.len() == 0 && Some(field.name.spelling@)
                == identifier_spelling(old(self).ahead(1)) && field.initializer is None && final(self).position()
                == old(self).position() + 3 && final(self).token_seq() == old(self).token_seq()),
            old(self).cur().kind is Void && old(self).ahead(1).kind is Identifier && !(old(self).ahead(2).kind is LeftParen)
                ==> (result matches Err(error) && error.message@ == "fields and properties cannot have type void"@),
    {
        proof {
            if plain_field_declaration_ahead(*old(self), 0) {
                let tokens = old(self).token_seq();
                let i = old(self).position() as int;
                assert(spec_modifier(tokens[i].kind) is None);
                assert(i + 1 < tokens.len() ==> tokens[i + 1] == old(self).ahead(1));
                assert(sharing_at(tokens, i) is None);
                assert(modifiers_from(tokens, i) == (Seq::<Modifier>::empty(), i));
            }
        }
        let annotations = self.parse_annotations()?;
        let modifiers = self.parse_modifiers()?;
        let is_constructor = match &self.current().kind {
            TokenKind::Identifier(spelling) => eq_ignore_ascii_case(spelling.as_str(), class_name.spelling.as_str()),
            _ => false,
        } && matches!(self.peek(1).kind, TokenKind::LeftParen);
        if is_constructor {
            if annotations.len() > 0 {
                return Err(Diagnostic::new("annotations are not supported on constructors", annotations[0].span));
            }
            let name = self.expect_identifier("expected constructor name")?;
            let parameters = self.parse_parameters()?;
            let body = self.parse_block()?;
            let span = name.span.merge(body.span());
            return Ok(ClassMember::Constructor(ConstructorDeclaration {
                annotations,
                modifiers,
                name,
                parameters,
                delegation: None,
                body,
                span,
            }));
        }

        let (return_type, start) = self.parse_return_type()?;
        let name = self.expect_identifier("expected a member name")?;
        if self.check(&TokenKind::LeftParen) {
            let parameters = self.parse_parameters()?;
            let (body, end) = if self.check(&TokenKind::Semicolon) {
                (None, self.advance().span)
            } else {
                let body = self.parse_block()?;
                let end = body.span();
                (Some(body), end)
            };
            return Ok(ClassMember::Method(MethodDeclaration {
                annotations,
                modifiers,
                return_type,
                name,
                parameters,
                body,
                span: start.merge(end),
            }));
        }

        let ty = match return_type {
            ReturnType::Value(ty) => ty,
            ReturnType::Void => {
                return Err(Diagnostic::new("fields and properties cannot have type void", start));
            },
        };
        if annotations.len() > 0 {
            return Err(Diagnostic::new("annotations are only supported on classes and methods", annotations[0].span));
        }
        if self.check(&TokenKind::LeftBrace) {
            let property = self.parse_property(modifiers, ty, name, start)?;
            return Ok(ClassMember::Property(property));
        }
        let initializer = if self.check(&TokenKind::Equal) {
            self.advance();
            Some(self.parse_expression()?)
        } else {
            None
        };
        let end = self.expect_simple(TokenKind::Semicolon, "expected `;` after field")?;
        Ok(ClassMember::Field(FieldDeclaration {
            annotations,
            modifiers,
            ty,
            name,
            initializer,
            span: start.merge(end.span),
        }))
    }

    pub(super) fn parse_property(&mut self, modifiers: Vec<Modifier>, ty: TypeName, name: Identifier, start: Span) -> (result: Result<PropertyDeclaration, Diagnostic>)
        requires
            old(self).wf(),
            start.source_id == old(self).source(),
        ensures
            advanced(*final(self), *old(self)),
            result is Ok ==> progressed(*final(self), *old(self)),
            result matches Ok(node) ==> node.span.source_id == old(self).source(),
            result matches Ok(node) ==> node.annotations@.len() == 0 && node.modifiers == modifiers && node.ty == ty
                && node.name == name,
            old(self).cur().kind is LeftBrace && old(self).ahead(1).kind is RightBrace ==> (result matches Ok(node)
                && node.accessors@.len() == 0 && node.span == start.spec_merge(old(self).ahead(1).span)
                && final(self).position() == old(self).position() + 2 && final(self).token_seq() == old(self).token_seq()),
            auto_property_ahead(*old(self), 0) ==> (result matches Ok(node) && node.accessors@.len() == 2
                && node.accessors@[0].kind == AccessorKind::Get && node.accessors@[0].body is None
                && node.accessors@[1].kind == AccessorKind::Setter && node.accessors@[1].body is None
                && node.span == start.spec_merge(old(self).ahead(5).span) && final(self).position()
                == old(self).position() + 6 && final(self).token_seq() == old(self).token_seq()),
            !(old(self).cur().kind is LeftBrace) ==> (result matches Err(error) && error.message@
                == "expected `{` after property name"@),
    {
        self.expect_simple(TokenKind::LeftBrace, "expected `{` after property name")?;
        let mut accessors: Vec<PropertyAccessor> = Vec::new();
        while !self.check(&TokenKind::RightBrace) && !self.check(&TokenKind::Eof)
            invariant
                progressed(*self, *old(self)),
                old(self).cur().kind is LeftBrace,
                old(self).cur().kind is LeftBrace && old(self).ahead(1).kind is RightBrace ==> (accessors@.len() == 0
                    && self.position() == old(self).position() + 1 && self.token_seq() == old(self).token_seq()),
                auto_property_ahead(*old(self), 0) ==> (self.token_seq() == old(self).token_seq() && ((
                accessors@.len() == 0 && self.position() == old(self).position() + 1) || (accessors@.len() == 1
                    && self.position() == old(self).position() + 3 && accessors@[0].kind == AccessorKind::Get
                    && accessors@[0].body is None) || (accessors@.len() == 2 && self.position() == old(self).position()
                    + 5 && accessors@[0].kind == AccessorKind::Get && accessors@[0].body is None && accessors@[1].kind
                    == AccessorKind::Setter && accessors@[1].body is None))),
            decreases self.remaining(), self.lexlen(),
        {
            let accessor_modifier = if self.check(&TokenKind::Public) || self.check(&TokenKind::Private)
                || self.check(&TokenKind::Protected) || self.check(&TokenKind::Global) {
                Some(self.parse_modifier()?)
            } else {
                None
            };
            proof {
                lemma_get_is_not_set(self.cur());
            }
            let accessor_start = self.current().span;
            let kind = if self.check_keyword("get") {
                self.advance();
                AccessorKind::Get
            } else if self.check_keyword("set") {
                self.advance();
                AccessorKind::Setter
            } else {
                return Err(Diagnostic::new("expected `get` or `set` property accessor", self.current().span));
            };
            let (body, end) = if self.check(&TokenKind::Semicolon) {
                (None, self.advance().span)
            } else {
                let body = self.parse_block()?;
                let end = body.span();
                (Some(body), end)
            };
            accessors.push(PropertyAccessor { kind, modifier: accessor_modifier, body, span: accessor_start.merge(end) });
        }
        let end = self.expect_simple(TokenKind::RightBrace, "expected `}` after property")?;
        Ok(PropertyDeclaration {
            annotations: Vec::new(),
            modifiers,
            ty,
            name,
            accessors,
            span: start.merge(end.span),
        })
    }

    pub(super) fn parse_method_declaration(&mut self) -> (result: Result<MethodDeclaration, Diagnostic>)
        requires
            old(self).wf(),
        ensures
            advanced(*final(self), *old(self)),
            result is Ok ==> progressed(*final(self), *old(self)),
            result matches Ok(node) ==> node.span.source_id == old(self).source(),
            (old(self).cur().kind is Void || simple_named_type_ahead(*old(self), 0)) && old(self).ahead(1).kind
                is Identifier && old(self).ahead(2).kind is LeftParen && old(self).ahead(3).kind is RightParen
                && old(self).ahead(4).kind is LeftBrace && old(self).ahead(5).kind is RightBrace ==> (result matches Ok(
                method,
            ) && Some(method.name.spelling@) == identifier_spelling(old(self).ahead(1)) && method.parameters@.len() == 0
                && final(self).position() == old(self).position() + 6 && final(self).token_seq() == old(self).token_seq()),
    {
        let (return_type, start) = self.parse_return_type()?;
        let name = self.expect_identifier("expected a method name")?;
        let parameters = self.parse_parameters()?;
        let body = self.parse_block()?;
        let span = start.merge(body.span());
        Ok(MethodDeclaration {
            annotations: Vec::new(),
            modifiers: Vec::new(),
            return_type,
            name,
            parameters,
            body: Some(body),
            span,
        })
    }

    pub(super) fn parse_parameters(&mut self) -> (result: Result<Vec<Parameter>, Diagnostic>)
        requires
            old(self).wf(),
        ensures
            advanced(*final(self), *old(self)),
            result is Ok ==> progressed(*final(self), *old(self)),
            old(self).cur().kind is LeftParen && old(self).ahead(1).kind is RightParen ==> (result matches Ok(parameters)
                && parameters@.len() == 0 && final(self).position() == old(self).position() + 2 && final(self).token_seq() == old(self).token_seq()),
            old(self).cur().kind is LeftParen && simple_named_type_ahead(*old(self), 1) && old(self).ahead(2).kind
                is Identifier && old(self).ahead(3).kind is RightParen ==> (result matches Ok(parameters)
                && parameters@.len() == 1 && final(self).position() == old(self).position() + 4 && final(self).token_seq() == old(self).token_seq()),
    {
        self.expect_simple(TokenKind::LeftParen, "expected `(`")?;
        let mut parameters: Vec<Parameter> = Vec::new();
        if !self.check(&TokenKind::RightParen) {
            loop
                invariant_except_break
                    old(self).cur().kind is LeftParen && simple_named_type_ahead(*old(self), 1) && old(self).ahead(2).kind
                        is Identifier && old(self).ahead(3).kind is RightParen ==> parameters@.len() == 0
                        && self.position() == old(self).position() + 1 && self.token_seq() == old(self).token_seq(),
                invariant
                    !(old(self).cur().kind is LeftParen && old(self).ahead(1).kind is RightParen),
                    progressed(*self, *old(self)),
                ensures
                    progressed(*self, *old(self)),
                    old(self).cur().kind is LeftParen && simple_named_type_ahead(*old(self), 1) && old(self).ahead(2).kind
                        is Identifier && old(self).ahead(3).kind is RightParen ==> parameters@.len() == 1
                        && self.position() == old(self).position() + 3 && self.token_seq() == old(self).token_seq(),
                decreases self.remaining(), self.lexlen(),
            {
                let (ty, type_span) = self.parse_type_name()?;
                let name = self.expect_identifier("expected a parameter name")?;
                let span = type_span.merge(name.span);
                parameters.push(Parameter { ty, name, span });
                if !self.check(&TokenKind::Comma) {
                    break;
                }
                self.advance();
            }
        }
        self.expect_simple(TokenKind::RightParen, "expected `)` after method parameters")?;
        Ok(parameters)
    }

    /// Modifier keywords and `with`/`without`/`inherited sharing`, in source order.
    pub(super) fn parse_modifiers(&mut self) -> (result: Result<Vec<Modifier>, Diagnostic>)
        requires
            old(self).wf(),
        ensures
            advanced(*final(self), *old(self)),
            result is Ok,
            result matches Ok(modifiers) && modifiers@ == modifiers_from(old(self).token_seq(), old(self).position()).0,
            final(self).position() == modifiers_from(old(self).token_seq(), old(self).position()).1,
            final(self).token_seq() == old(self).token_seq(),
    {
        let mut modifiers: Vec<Modifier> = Vec::new();
        loop
            invariant
                advanced(*self, *old(self)),
                self.token_seq() == old(self).token_seq(),
                modifiers_from(old(self).token_seq(), old(self).position()) == (
                    modifiers@ + modifiers_from(self.token_seq(), self.position()).0,
                    modifiers_from(self.token_seq(), self.position()).1,
                ),
            ensures
                advanced(*self, *old(self)),
                self.token_seq() == old(self).token_seq(),
                modifiers_from(old(self).token_seq(), old(self).position()) == (modifiers@, self.position()),
            decreases self.remaining(), self.lexlen(),
        {
            let ghost here = self.position();
            let ghost tokens = self.token_seq();
            if self.is_simple_modifier() {
                assert(here + 1 < tokens.len());
                match self.parse_modifier() {
                    Ok(modifier) => {
                        modifiers.push(modifier);
                        assert(modifiers_from(tokens, here).0 =~= seq![modifier] + modifiers_from(tokens, here + 1).0);
                    },
                    Err(error) => return Err(error),
                }
                continue;
            }
            let sharing = if self.is_sharing_modifier_at(self.cursor_index()) {
                match &self.current().kind {
                    TokenKind::Identifier(spelling) => {
                        if eq_ignore_ascii_case(spelling.as_str(), "with") {
                            Some(Modifier::WithSharing)
                        } else if eq_ignore_ascii_case(spelling.as_str(), "without") {
                            Some(Modifier::WithoutSharing)
                        } else {
                            Some(Modifier::InheritedSharing)
                        }
                    },
                    _ => None,
                }
            } else {
                None
            };
            assert(sharing == sharing_at(tokens, here));
            let sharing = match sharing {
                Some(sharing) => sharing,
                None => {
                    assert(modifiers_from(tokens, here).0 =~= Seq::<Modifier>::empty());
                    assert(modifiers_from(tokens, here).1 == here);
                    assert(modifiers@ + modifiers_from(tokens, here).0 =~= modifiers@);
                    break;
                },
            };
            self.advance();
            self.advance();
            modifiers.push(sharing);
            assert(modifiers_from(tokens, here).0 =~= seq![sharing] + modifiers_from(tokens, here + 2).0);
        }
        Ok(modifiers)
    }

    /// Annotations (`@IsTest`, `@IsTest(SeeAllData=...)`, `@TestSetup`, `@future`) in source order.
    pub(super) fn parse_annotations(&mut self) -> (result: Result<Vec<Annotation>, Diagnostic>)
        requires
            old(self).wf(),
        ensures
            advanced(*final(self), *old(self)),
            !(old(self).cur().kind is At) ==> (result matches Ok(annotations) && annotations@.len() == 0
                && *final(self) == *old(self)),
            old(self).cur().kind is At ==> (result matches Ok(annotations) ==> annotations@.len() > 0),
            old(self).cur().kind is At && identifier_spelling(old(self).ahead(1)) is None ==> (result matches Err(
                error,
            ) && error.message@ == "expected an annotation name after `@`"@),
            old(self).cur().kind is At ==> (identifier_spelling(old(self).ahead(1)) matches Some(name)
                ==> (!supported_annotation(ascii_lower(name)) ==> (result matches Err(error) && error.message@
                == "unsupported annotation `@"@ + name + "`"@))),
    {
        let mut annotations: Vec<Annotation> = Vec::new();
        while self.check(&TokenKind::At)
            invariant
                advanced(*self, *old(self)),
                !(old(self).cur().kind is At) ==> annotations@.len() == 0 && *self == *old(self),
                annotations@.len() == 0 ==> *self == *old(self),
                annotations@.len() > 0 ==> old(self).cur().kind is At && identifier_spelling(old(self).ahead(1))
                    is Some && supported_annotation(ascii_lower(identifier_spelling(old(self).ahead(1))->0)),
            decreases self.remaining(), self.lexlen(),
        {
            let ghost first = annotations@.len() == 0;
            let start = self.advance().span;
            assert(first ==> self.cur() == old(self).ahead(1));
            let name = self.expect_identifier("expected an annotation name after `@`")?;
            assert(first ==> identifier_spelling(old(self).ahead(1)) == Some(name.spelling@));
            let canonical = chars_of(name.canonical.as_str());
            let kind = if chars_are(canonical.as_slice(), "istest") {
                let see_all_data = if self.check(&TokenKind::LeftParen) {
                    self.advance();
                    let argument = self.expect_identifier("expected `SeeAllData` in `@IsTest` annotation")?;
                    if !chars_are(chars_of(argument.canonical.as_str()).as_slice(), "seealldata") {
                        return Err(Diagnostic::new("only `SeeAllData` is supported in `@IsTest`", argument.span));
                    }
                    self.expect_simple(TokenKind::Equal, "expected `=` after `SeeAllData`")?;
                    let value = match self.current().kind {
                        TokenKind::BooleanLiteral(value) => {
                            self.advance();
                            value
                        },
                        _ => {
                            return Err(Diagnostic::new("`SeeAllData` requires a Boolean literal", self.current().span));
                        },
                    };
                    self.expect_simple(TokenKind::RightParen, "expected `)` after `@IsTest` arguments")?;
                    Some(value)
                } else {
                    None
                };
                AnnotationKind::IsTest { see_all_data, is_parallel: None }
            } else if chars_are(canonical.as_slice(), "testsetup") {
                if self.check(&TokenKind::LeftParen) {
                    return Err(Diagnostic::new("`@TestSetup` does not accept arguments", self.current().span));
                }
                AnnotationKind::TestSetup
            } else if chars_are(canonical.as_slice(), "future") {
                if self.check(&TokenKind::LeftParen) {
                    return Err(Diagnostic::new("`@future` options are not supported", self.current().span));
                }
                AnnotationKind::Future
            } else {
                let mut message: Vec<char> = Vec::new();
                push_str(&mut message, "unsupported annotation `@");
                push_str(&mut message, name.spelling.as_str());
                push_str(&mut message, "`");
                assert(message@ =~= "unsupported annotation `@"@ + name.spelling@ + "`"@);
                let message = string_from_chars(message.as_slice());
                return Err(Diagnostic::new(message.as_str(), name.span));
            };
            assert(supported_annotation(ascii_lower(name.spelling@)));
            let end = self.peek(0).span.start;
            annotations.push(Annotation {
                name,
                arguments: Vec::new(),
                kind,
                span: Span::new_in(start.source_id, start.start, end),
            });
        }
        Ok(annotations)
    }

    /// One modifier keyword.
    pub(super) fn parse_modifier(&mut self) -> (result: Result<Modifier, Diagnostic>)
        requires
            old(self).wf(),
        ensures
            advanced(*final(self), *old(self)),
            result is Ok ==> progressed(*final(self), *old(self)),
            final(self).token_seq() == old(self).token_seq(),
            !(old(self).cur().kind is Eof) ==> final(self).position() == old(self).position() + 1,
            match spec_modifier(old(self).cur().kind) {
                Some(modifier) => result == Ok::<Modifier, Diagnostic>(modifier),
                None => result is Err,
            },
    {
        let token = self.advance();
        match token.kind {
            TokenKind::Public => Ok(Modifier::Public),
            TokenKind::Private => Ok(Modifier::Private),
            TokenKind::Protected => Ok(Modifier::Protected),
            TokenKind::Global => Ok(Modifier::Global),
            TokenKind::Static => Ok(Modifier::Static),
            TokenKind::Virtual => Ok(Modifier::Virtual),
            TokenKind::Abstract => Ok(Modifier::Abstract),
            TokenKind::Override => Ok(Modifier::Override),
            TokenKind::Final => Ok(Modifier::Final),
            _ => Err(Diagnostic::new("expected a modifier", token.span)),
        }
    }

    pub(super) fn is_simple_modifier(&self) -> (result: bool)
        requires
            self.wf(),
        ensures
            result == spec_modifier(self.cur().kind) is Some,
    {
        matches!(
            self.current().kind,
            TokenKind::Public | TokenKind::Private | TokenKind::Protected | TokenKind::Global | TokenKind::Static
                | TokenKind::Virtual | TokenKind::Abstract | TokenKind::Override | TokenKind::Final
        )
    }
}

} // verus!
