use vstd::prelude::*;

use crate::span::Span;

verus! {

/// The lexical category of one token, with the value of a literal or the
/// spelling of an identifier.
#[derive(Debug, PartialEq, Eq)]
pub enum TokenKind {
    Identifier(String),
    StringLiteral(String),
    BooleanLiteral(bool),
    IntegerLiteral(i64),
    LongLiteral(i128),
    DecimalLiteral(String),
    Null,
    If,
    Else,
    For,
    While,
    Do,
    Break,
    Continue,
    Return,
    New,
    Class,
    Interface,
    Extends,
    Implements,
    Public,
    Private,
    Protected,
    Global,
    Static,
    Virtual,
    Abstract,
    Override,
    Final,
    Transient,
    Void,
    Try,
    Catch,
    Finally,
    Throw,
    Instanceof,
    Dot,
    SafeNavigation,
    Comma,
    Colon,
    Semicolon,
    At,
    Question,
    NullCoalesce,
    LeftParen,
    RightParen,
    LeftBrace,
    RightBrace,
    LeftBracket,
    RightBracket,
    Equal,
    EqualEqual,
    FatArrow,
    Bang,
    BangEqual,
    Less,
    LessEqual,
    Greater,
    GreaterEqual,
    ShiftLeft,
    ShiftLeftEqual,
    ShiftRight,
    ShiftRightEqual,
    UnsignedShiftRight,
    UnsignedShiftRightEqual,
    Plus,
    PlusPlus,
    PlusEqual,
    Minus,
    MinusMinus,
    MinusEqual,
    Star,
    StarEqual,
    Slash,
    SlashEqual,
    Percent,
    PercentEqual,
    AndAnd,
    Ampersand,
    AmpersandEqual,
    OrOr,
    Pipe,
    PipeEqual,
    Caret,
    CaretEqual,
    Tilde,
    Eof,
}

/// One token: its category, its source span and its exact source text.
#[derive(Debug, PartialEq, Eq)]
pub struct Token {
    pub kind: TokenKind,
    pub span: Span,
    pub lexeme: String,
}

impl Clone for TokenKind {
    fn clone(&self) -> (result: Self)
        ensures
            result == *self,
    {
        match self {
            TokenKind::Identifier(s) => TokenKind::Identifier(s.clone()),
            TokenKind::StringLiteral(s) => TokenKind::StringLiteral(s.clone()),
            TokenKind::BooleanLiteral(b) => TokenKind::BooleanLiteral(*b),
            TokenKind::IntegerLiteral(v) => TokenKind::IntegerLiteral(*v),
            TokenKind::LongLiteral(v) => TokenKind::LongLiteral(*v),
            TokenKind::DecimalLiteral(s) => TokenKind::DecimalLiteral(s.clone()),
            TokenKind::Null => TokenKind::Null,
            TokenKind::If => TokenKind::If,
            TokenKind::Else => TokenKind::Else,
            TokenKind::For => TokenKind::For,
            TokenKind::While => TokenKind::While,
            TokenKind::Do => TokenKind::Do,
            TokenKind::Break => TokenKind::Break,
            TokenKind::Continue => TokenKind::Continue,
            TokenKind::Return => TokenKind::Return,
            TokenKind::New => TokenKind::New,
            TokenKind::Class => TokenKind::Class,
            TokenKind::Interface => TokenKind::Interface,
            TokenKind::Extends => TokenKind::Extends,
            TokenKind::Implements => TokenKind::Implements,
            TokenKind::Public => TokenKind::Public,
            TokenKind::Private => TokenKind::Private,
            TokenKind::Protected => TokenKind::Protected,
            TokenKind::Global => TokenKind::Global,
            TokenKind::Static => TokenKind::Static,
            TokenKind::Virtual => TokenKind::Virtual,
            TokenKind::Abstract => TokenKind::Abstract,
            TokenKind::Override => TokenKind::Override,
            TokenKind::Final => TokenKind::Final,
            TokenKind::Transient => TokenKind::Transient,
            TokenKind::Void => TokenKind::Void,
            TokenKind::Try => TokenKind::Try,
            TokenKind::Catch => TokenKind::Catch,
            TokenKind::Finally => TokenKind::Finally,
            TokenKind::Throw => TokenKind::Throw,
            TokenKind::Instanceof => TokenKind::Instanceof,
            TokenKind::Dot => TokenKind::Dot,
            TokenKind::SafeNavigation => TokenKind::SafeNavigation,
            TokenKind::Comma => TokenKind::Comma,
            TokenKind::Colon => TokenKind::Colon,
            TokenKind::Semicolon => TokenKind::Semicolon,
            TokenKind::At => TokenKind::At,
            TokenKind::Question => TokenKind::Question,
            TokenKind::NullCoalesce => TokenKind::NullCoalesce,
            TokenKind::LeftParen => TokenKind::LeftParen,
            TokenKind::RightParen => TokenKind::RightParen,
            TokenKind::LeftBrace => TokenKind::LeftBrace,
            TokenKind::RightBrace => TokenKind::RightBrace,
            TokenKind::LeftBracket => TokenKind::LeftBracket,
            TokenKind::RightBracket => TokenKind::RightBracket,
            TokenKind::Equal => TokenKind::Equal,
            TokenKind::EqualEqual => TokenKind::EqualEqual,
            TokenKind::FatArrow => TokenKind::FatArrow,
            TokenKind::Bang => TokenKind::Bang,
            TokenKind::BangEqual => TokenKind::BangEqual,
            TokenKind::Less => TokenKind::Less,
            TokenKind::LessEqual => TokenKind::LessEqual,
            TokenKind::Greater => TokenKind::Greater,
            TokenKind::GreaterEqual => TokenKind::GreaterEqual,
            TokenKind::ShiftLeft => TokenKind::ShiftLeft,
            TokenKind::ShiftLeftEqual => TokenKind::ShiftLeftEqual,
            TokenKind::ShiftRight => TokenKind::ShiftRight,
            TokenKind::ShiftRightEqual => TokenKind::ShiftRightEqual,
            TokenKind::UnsignedShiftRight => TokenKind::UnsignedShiftRight,
            TokenKind::UnsignedShiftRightEqual => TokenKind::UnsignedShiftRightEqual,
            TokenKind::Plus => TokenKind::Plus,
            TokenKind::PlusPlus => TokenKind::PlusPlus,
            TokenKind::PlusEqual => TokenKind::PlusEqual,
            TokenKind::Minus => TokenKind::Minus,
            TokenKind::MinusMinus => TokenKind::MinusMinus,
            TokenKind::MinusEqual => TokenKind::MinusEqual,
            TokenKind::Star => TokenKind::Star,
            TokenKind::StarEqual => TokenKind::StarEqual,
            TokenKind::Slash => TokenKind::Slash,
            TokenKind::SlashEqual => TokenKind::SlashEqual,
            TokenKind::Percent => TokenKind::Percent,
            TokenKind::PercentEqual => TokenKind::PercentEqual,
            TokenKind::AndAnd => TokenKind::AndAnd,
            TokenKind::Ampersand => TokenKind::Ampersand,
            TokenKind::AmpersandEqual => TokenKind::AmpersandEqual,
            TokenKind::OrOr => TokenKind::OrOr,
            TokenKind::Pipe => TokenKind::Pipe,
            TokenKind::PipeEqual => TokenKind::PipeEqual,
            TokenKind::Caret => TokenKind::Caret,
            TokenKind::CaretEqual => TokenKind::CaretEqual,
            TokenKind::Tilde => TokenKind::Tilde,
            TokenKind::Eof => TokenKind::Eof,
        }
    }
}

impl Clone for Token {
    fn clone(&self) -> (result: Self)
        ensures
            result == *self,
    {
        Token { kind: self.kind.clone(), span: self.span, lexeme: self.lexeme.clone() }
    }
}

impl TokenKind {
    /// Whether two kinds are the same category, ignoring any carried value.
    pub open spec fn same_category(self, other: TokenKind) -> bool {
        match (self, other) {
            (TokenKind::Identifier(_), TokenKind::Identifier(_)) => true,
            (TokenKind::StringLiteral(_), TokenKind::StringLiteral(_)) => true,
            (TokenKind::BooleanLiteral(_), TokenKind::BooleanLiteral(_)) => true,
            (TokenKind::IntegerLiteral(_), TokenKind::IntegerLiteral(_)) => true,
            (TokenKind::LongLiteral(_), TokenKind::LongLiteral(_)) => true,
            (TokenKind::DecimalLiteral(_), TokenKind::DecimalLiteral(_)) => true,
            _ => self == other,
        }
    }

    /// Executable form of [`TokenKind::same_category`].
    pub fn is_same_category(&self, other: &TokenKind) -> (result: bool)
        ensures
            result == self.same_category(*other),
    {
        match self {
            TokenKind::Identifier(_) => matches!(other, TokenKind::Identifier(_)),
            TokenKind::StringLiteral(_) => matches!(other, TokenKind::StringLiteral(_)),
            TokenKind::BooleanLiteral(_) => matches!(other, TokenKind::BooleanLiteral(_)),
            TokenKind::IntegerLiteral(_) => matches!(other, TokenKind::IntegerLiteral(_)),
            TokenKind::LongLiteral(_) => matches!(other, TokenKind::LongLiteral(_)),
            TokenKind::DecimalLiteral(_) => matches!(other, TokenKind::DecimalLiteral(_)),
            TokenKind::Null => matches!(other, TokenKind::Null),
            TokenKind::If => matches!(other, TokenKind::If),
            TokenKind::Else => matches!(other, TokenKind::Else),
            TokenKind::For => matches!(other, TokenKind::For),
            TokenKind::While => matches!(other, TokenKind::While),
            TokenKind::Do => matches!(other, TokenKind::Do),
            TokenKind::Break => matches!(other, TokenKind::Break),
            TokenKind::Continue => matches!(other, TokenKind::Continue),
            TokenKind::Return => matches!(other, TokenKind::Return),
            TokenKind::New => matches!(other, TokenKind::New),
            TokenKind::Class => matches!(other, TokenKind::Class),
            TokenKind::Interface => matches!(other, TokenKind::Interface),
            TokenKind::Extends => matches!(other, TokenKind::Extends),
            TokenKind::Implements => matches!(other, TokenKind::Implements),
            TokenKind::Public => matches!(other, TokenKind::Public),
            TokenKind::Private => matches!(other, TokenKind::Private),
            TokenKind::Protected => matches!(other, TokenKind::Protected),
            TokenKind::Global => matches!(other, TokenKind::Global),
            TokenKind::Static => matches!(other, TokenKind::Static),
            TokenKind::Virtual => matches!(other, TokenKind::Virtual),
            TokenKind::Abstract => matches!(other, TokenKind::Abstract),
            TokenKind::Override => matches!(other, TokenKind::Override),
            TokenKind::Final => matches!(other, TokenKind::Final),
            TokenKind::Transient => matches!(other, TokenKind::Transient),
            TokenKind::Void => matches!(other, TokenKind::Void),
            TokenKind::Try => matches!(other, TokenKind::Try),
            TokenKind::Catch => matches!(other, TokenKind::Catch),
            TokenKind::Finally => matches!(other, TokenKind::Finally),
            TokenKind::Throw => matches!(other, TokenKind::Throw),
            TokenKind::Instanceof => matches!(other, TokenKind::Instanceof),
            TokenKind::Dot => matches!(other, TokenKind::Dot),
            TokenKind::SafeNavigation => matches!(other, TokenKind::SafeNavigation),
            TokenKind::Comma => matches!(other, TokenKind::Comma),
            TokenKind::Colon => matches!(other, TokenKind::Colon),
            TokenKind::Semicolon => matches!(other, TokenKind::Semicolon),
            TokenKind::At => matches!(other, TokenKind::At),
            TokenKind::Question => matches!(other, TokenKind::Question),
            TokenKind::NullCoalesce => matches!(other, TokenKind::NullCoalesce),
            TokenKind::LeftParen => matches!(other, TokenKind::LeftParen),
            TokenKind::RightParen => matches!(other, TokenKind::RightParen),
            TokenKind::LeftBrace => matches!(other, TokenKind::LeftBrace),
            TokenKind::RightBrace => matches!(other, TokenKind::RightBrace),
            TokenKind::LeftBracket => matches!(other, TokenKind::LeftBracket),
            TokenKind::RightBracket => matches!(other, TokenKind::RightBracket),
            TokenKind::Equal => matches!(other, TokenKind::Equal),
            TokenKind::EqualEqual => matches!(other, TokenKind::EqualEqual),
            TokenKind::FatArrow => matches!(other, TokenKind::FatArrow),
            TokenKind::Bang => matches!(other, TokenKind::Bang),
            TokenKind::BangEqual => matches!(other, TokenKind::BangEqual),
            TokenKind::Less => matches!(other, TokenKind::Less),
            TokenKind::LessEqual => matches!(other, TokenKind::LessEqual),
            TokenKind::Greater => matches!(other, TokenKind::Greater),
            TokenKind::GreaterEqual => matches!(other, TokenKind::GreaterEqual),
            TokenKind::ShiftLeft => matches!(other, TokenKind::ShiftLeft),
            TokenKind::ShiftLeftEqual => matches!(other, TokenKind::ShiftLeftEqual),
            TokenKind::ShiftRight => matches!(other, TokenKind::ShiftRight),
            TokenKind::ShiftRightEqual => matches!(other, TokenKind::ShiftRightEqual),
            TokenKind::UnsignedShiftRight => matches!(other, TokenKind::UnsignedShiftRight),
            TokenKind::UnsignedShiftRightEqual => matches!(other, TokenKind::UnsignedShiftRightEqual),
            TokenKind::Plus => matches!(other, TokenKind::Plus),
            TokenKind::PlusPlus => matches!(other, TokenKind::PlusPlus),
            TokenKind::PlusEqual => matches!(other, TokenKind::PlusEqual),
            TokenKind::Minus => matches!(other, TokenKind::Minus),
            TokenKind::MinusMinus => matches!(other, TokenKind::MinusMinus),
            TokenKind::MinusEqual => matches!(other, TokenKind::MinusEqual),
            TokenKind::Star => matches!(other, TokenKind::Star),
            TokenKind::StarEqual => matches!(other, TokenKind::StarEqual),
            TokenKind::Slash => matches!(other, TokenKind::Slash),
            TokenKind::SlashEqual => matches!(other, TokenKind::SlashEqual),
            TokenKind::Percent => matches!(other, TokenKind::Percent),
            TokenKind::PercentEqual => matches!(other, TokenKind::PercentEqual),
            TokenKind::AndAnd => matches!(other, TokenKind::AndAnd),
            TokenKind::Ampersand => matches!(other, TokenKind::Ampersand),
            TokenKind::AmpersandEqual => matches!(other, TokenKind::AmpersandEqual),
            TokenKind::OrOr => matches!(other, TokenKind::OrOr),
            TokenKind::Pipe => matches!(other, TokenKind::Pipe),
            TokenKind::PipeEqual => matches!(other, TokenKind::PipeEqual),
            TokenKind::Caret => matches!(other, TokenKind::Caret),
            TokenKind::CaretEqual => matches!(other, TokenKind::CaretEqual),
            TokenKind::Tilde => matches!(other, TokenKind::Tilde),
            TokenKind::Eof => matches!(other, TokenKind::Eof),
        }
    }
}

} // verus!
