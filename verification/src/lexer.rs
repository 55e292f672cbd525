use vstd::prelude::*;

use crate::diagnostic::Diagnostic;
use crate::span::{SourceId, Span};
use crate::text::{
    spec_is_whitespace,
    ascii_lower, byte_offsets, eq_ignore_case, chars_are, chars_of, is_ascii_alphabetic, is_ascii_digit,
    is_whitespace, lemma_utf8_len_at_least_len, lemma_utf8_len_monotone, lower_chars, push_str, spec_is_ascii_alphabetic,
    spec_is_ascii_digit, string_from_chars, utf8_len, utf8_len_fits,
};
use crate::token::{Token, TokenKind};

verus! {

/// Turns Apex source text into tokens.
///
/// The lexer walks the text character by character; spans are byte offsets
/// into the UTF-8 text, so `offsets[i]` is the byte offset of character `i`.
pub struct Lexer {
    chars: Vec<char>,
    offsets: Vec<usize>,
    cursor: usize,
    source_id: SourceId,
}

pub open spec fn spec_is_identifier_start(c: char) -> bool {
    c == '_' || spec_is_ascii_alphabetic(c)
}

pub open spec fn spec_is_identifier_continue(c: char) -> bool {
    spec_is_identifier_start(c) || spec_is_ascii_digit(c)
}

fn is_identifier_start(c: char) -> (result: bool)
    ensures
        result == spec_is_identifier_start(c),
{
    c == '_' || is_ascii_alphabetic(c)
}

fn is_identifier_continue(c: char) -> (result: bool)
    ensures
        result == spec_is_identifier_continue(c),
{
    is_identifier_start(c) || is_ascii_digit(c)
}

/// The keyword token spelled by a lower-cased word, if the word is a keyword.
pub open spec fn spec_keyword(lower: Seq<char>) -> Option<TokenKind> {
    if lower == "true"@ { Some(TokenKind::BooleanLiteral(true)) }
    else if lower == "false"@ { Some(TokenKind::BooleanLiteral(false)) }
    else if lower == "null"@ { Some(TokenKind::Null) }
    else if lower == "if"@ { Some(TokenKind::If) }
    else if lower == "else"@ { Some(TokenKind::Else) }
    else if lower == "for"@ { Some(TokenKind::For) }
    else if lower == "while"@ { Some(TokenKind::While) }
    else if lower == "do"@ { Some(TokenKind::Do) }
    else if lower == "break"@ { Some(TokenKind::Break) }
    else if lower == "continue"@ { Some(TokenKind::Continue) }
    else if lower == "return"@ { Some(TokenKind::Return) }
    else if lower == "new"@ { Some(TokenKind::New) }
    else { spec_declaration_keyword(lower) }
}

pub open spec fn spec_declaration_keyword(lower: Seq<char>) -> Option<TokenKind> {
    if lower == "class"@ { Some(TokenKind::Class) }
    else if lower == "interface"@ { Some(TokenKind::Interface) }
    else if lower == "extends"@ { Some(TokenKind::Extends) }
    else if lower == "implements"@ { Some(TokenKind::Implements) }
    else if lower == "public"@ { Some(TokenKind::Public) }
    else if lower == "private"@ { Some(TokenKind::Private) }
    else if lower == "protected"@ { Some(TokenKind::Protected) }
    else if lower == "global"@ { Some(TokenKind::Global) }
    else if lower == "static"@ { Some(TokenKind::Static) }
    else if lower == "virtual"@ { Some(TokenKind::Virtual) }
    else if lower == "abstract"@ { Some(TokenKind::Abstract) }
    else if lower == "override"@ { Some(TokenKind::Override) }
    else if lower == "final"@ { Some(TokenKind::Final) }
    else if lower == "transient"@ { Some(TokenKind::Transient) }
    else if lower == "void"@ { Some(TokenKind::Void) }
    else if lower == "try"@ { Some(TokenKind::Try) }
    else if lower == "catch"@ { Some(TokenKind::Catch) }
    else if lower == "finally"@ { Some(TokenKind::Finally) }
    else if lower == "throw"@ { Some(TokenKind::Throw) }
    else if lower == "instanceof"@ { Some(TokenKind::Instanceof) }
    else { None }
}

fn keyword(lower: &[char]) -> (result: Option<TokenKind>)
    ensures
        result == spec_keyword(lower@),
{
    if chars_are(lower, "true") { Some(TokenKind::BooleanLiteral(true)) }
    else if chars_are(lower, "false") { Some(TokenKind::BooleanLiteral(false)) }
    else if chars_are(lower, "null") { Some(TokenKind::Null) }
    else if chars_are(lower, "if") { Some(TokenKind::If) }
    else if chars_are(lower, "else") { Some(TokenKind::Else) }
    else if chars_are(lower, "for") { Some(TokenKind::For) }
    else if chars_are(lower, "while") { Some(TokenKind::While) }
    else if chars_are(lower, "do") { Some(TokenKind::Do) }
    else if chars_are(lower, "break") { Some(TokenKind::Break) }
    else if chars_are(lower, "continue") { Some(TokenKind::Continue) }
    else if chars_are(lower, "return") { Some(TokenKind::Return) }
    else if chars_are(lower, "new") { Some(TokenKind::New) }
    else { declaration_keyword(lower) }
}

fn declaration_keyword(lower: &[char]) -> (result: Option<TokenKind>)
    ensures
        result == spec_declaration_keyword(lower@),
{
    if chars_are(lower, "class") { Some(TokenKind::Class) }
    else if chars_are(lower, "interface") { Some(TokenKind::Interface) }
    else if chars_are(lower, "extends") { Some(TokenKind::Extends) }
    else if chars_are(lower, "implements") { Some(TokenKind::Implements) }
    else if chars_are(lower, "public") { Some(TokenKind::Public) }
    else if chars_are(lower, "private") { Some(TokenKind::Private) }
    else if chars_are(lower, "protected") { Some(TokenKind::Protected) }
    else if chars_are(lower, "global") { Some(TokenKind::Global) }
    else if chars_are(lower, "static") { Some(TokenKind::Static) }
    else if chars_are(lower, "virtual") { Some(TokenKind::Virtual) }
    else if chars_are(lower, "abstract") { Some(TokenKind::Abstract) }
    else if chars_are(lower, "override") { Some(TokenKind::Override) }
    else if chars_are(lower, "final") { Some(TokenKind::Final) }
    else if chars_are(lower, "transient") { Some(TokenKind::Transient) }
    else if chars_are(lower, "void") { Some(TokenKind::Void) }
    else if chars_are(lower, "try") { Some(TokenKind::Try) }
    else if chars_are(lower, "catch") { Some(TokenKind::Catch) }
    else if chars_are(lower, "finally") { Some(TokenKind::Finally) }
    else if chars_are(lower, "throw") { Some(TokenKind::Throw) }
    else if chars_are(lower, "instanceof") { Some(TokenKind::Instanceof) }
    else { None }
}

/// The value of a run of decimal digits.
pub open spec fn digits_value(s: Seq<char>) -> nat
    decreases s.len(),
{
    if s.len() == 0 {
        0
    } else {
        digits_value(s.drop_last()) * 10 + ((s.last() as u32) - ('0' as u32)) as nat
    }
}

/// Whether `token` spells the characters its span covers in `text`.
pub open spec fn spells(token: Token, text: Seq<char>) -> bool {
    exists|a: int, b: int|
        0 <= a <= b <= text.len() && token.span.start == utf8_len(#[trigger] text.take(a)) && token.span.end == utf8_len(
            #[trigger] text.take(b),
        ) && token.lexeme@ == text.subrange(a, b)
}

/// The punctuation or operator token spelled by one character.
pub open spec fn one_char_symbol(c: char) -> Option<TokenKind> {
    if c == '.' { Some(TokenKind::Dot) }
    else if c == ',' { Some(TokenKind::Comma) }
    else if c == ':' { Some(TokenKind::Colon) }
    else if c == ';' { Some(TokenKind::Semicolon) }
    else if c == '@' { Some(TokenKind::At) }
    else if c == '~' { Some(TokenKind::Tilde) }
    else if c == '(' { Some(TokenKind::LeftParen) }
    else if c == ')' { Some(TokenKind::RightParen) }
    else if c == '{' { Some(TokenKind::LeftBrace) }
    else if c == '}' { Some(TokenKind::RightBrace) }
    else if c == '[' { Some(TokenKind::LeftBracket) }
    else if c == ']' { Some(TokenKind::RightBracket) }
    else if c == '?' { Some(TokenKind::Question) }
    else if c == '=' { Some(TokenKind::Equal) }
    else if c == '!' { Some(TokenKind::Bang) }
    else if c == '<' { Some(TokenKind::Less) }
    else if c == '>' { Some(TokenKind::Greater) }
    else if c == '+' { Some(TokenKind::Plus) }
    else if c == '-' { Some(TokenKind::Minus) }
    else if c == '*' { Some(TokenKind::Star) }
    else if c == '/' { Some(TokenKind::Slash) }
    else if c == '%' { Some(TokenKind::Percent) }
    else if c == '&' { Some(TokenKind::Ampersand) }
    else if c == '|' { Some(TokenKind::Pipe) }
    else if c == '^' { Some(TokenKind::Caret) }
    else { None }
}

/// The operator token spelled by two characters.
pub open spec fn two_char_symbol(a: char, b: char) -> Option<TokenKind> {
    if a == '?' && b == '.' { Some(TokenKind::SafeNavigation) }
    else if a == '?' && b == '?' { Some(TokenKind::NullCoalesce) }
    else if a == '=' && b == '=' { Some(TokenKind::EqualEqual) }
    else if a == '=' && b == '>' { Some(TokenKind::FatArrow) }
    else if a == '!' && b == '=' { Some(TokenKind::BangEqual) }
    else if a == '<' && b == '<' { Some(TokenKind::ShiftLeft) }
    else if a == '<' && b == '=' { Some(TokenKind::LessEqual) }
    else if a == '>' && b == '>' { Some(TokenKind::ShiftRight) }
    else if a == '>' && b == '=' { Some(TokenKind::GreaterEqual) }
    else if a == '+' && b == '+' { Some(TokenKind::PlusPlus) }
    else if a == '+' && b == '=' { Some(TokenKind::PlusEqual) }
    else if a == '-' && b == '-' { Some(TokenKind::MinusMinus) }
    else if a == '-' && b == '=' { Some(TokenKind::MinusEqual) }
    else if a == '*' && b == '=' { Some(TokenKind::StarEqual) }
    else if a == '/' && b == '=' { Some(TokenKind::SlashEqual) }
    else if a == '%' && b == '=' { Some(TokenKind::PercentEqual) }
    else if a == '&' && b == '&' { Some(TokenKind::AndAnd) }
    else if a == '&' && b == '=' { Some(TokenKind::AmpersandEqual) }
    else if a == '|' && b == '|' { Some(TokenKind::OrOr) }
    else if a == '|' && b == '=' { Some(TokenKind::PipeEqual) }
    else if a == '^' && b == '=' { Some(TokenKind::CaretEqual) }
    else { None }
}

/// The punctuation or operator token spelled by `lexeme`.
pub open spec fn symbol_kind(lexeme: Seq<char>) -> Option<TokenKind> {
    if lexeme.len() == 1 {
        one_char_symbol(lexeme[0])
    } else if lexeme.len() == 2 {
        two_char_symbol(lexeme[0], lexeme[1])
    } else if lexeme.len() == 3 && lexeme[0] == '<' && lexeme[1] == '<' && lexeme[2] == '=' {
        Some(TokenKind::ShiftLeftEqual)
    } else if lexeme.len() == 3 && lexeme[0] == '>' && lexeme[1] == '>' && lexeme[2] == '>' {
        Some(TokenKind::UnsignedShiftRight)
    } else if lexeme.len() == 3 && lexeme[0] == '>' && lexeme[1] == '>' && lexeme[2] == '=' {
        Some(TokenKind::ShiftRightEqual)
    } else if lexeme.len() == 4 && lexeme[0] == '>' && lexeme[1] == '>' && lexeme[2] == '>' && lexeme[3] == '=' {
        Some(TokenKind::UnsignedShiftRightEqual)
    } else {
        None
    }
}

/// Whether `kind` is the token a word spells: its keyword, compared without
/// ASCII case, or else an identifier with the word's exact spelling.
pub open spec fn is_word_kind(kind: TokenKind, lexeme: Seq<char>) -> bool {
    match spec_keyword(ascii_lower(lexeme)) {
        Some(keyword) => kind == keyword,
        None => kind matches TokenKind::Identifier(spelling) && spelling@ == lexeme,
    }
}

/// Whether `kind` is the token that `lexeme` spells: a word, a run of decimal
/// digits with its value, a quoted string, or punctuation and operators.
pub open spec fn spells_kind(kind: TokenKind, lexeme: Seq<char>) -> bool {
    if lexeme.len() > 0 && spec_is_identifier_start(lexeme[0]) {
        is_word_kind(kind, lexeme)
    } else if lexeme.len() > 0 && spec_is_ascii_digit(lexeme[0]) {
        kind matches TokenKind::IntegerLiteral(value) && value == digits_value(lexeme)
            && forall|i: int| 0 <= i < lexeme.len() ==> spec_is_ascii_digit(#[trigger] lexeme[i])
    } else if lexeme.len() > 0 && lexeme[0] == '\'' {
        kind is StringLiteral
    } else {
        symbol_kind(lexeme) == Some(kind)
    }
}

/// Appending a digit to a run of digits multiplies its value by ten and adds the digit.
pub proof fn lemma_digits_value_step(s: Seq<char>, a: int, i: int)
    requires
        0 <= a <= i < s.len(),
    ensures
        digits_value(s.subrange(a, i + 1)) == digits_value(s.subrange(a, i)) * 10 + ((s[i] as u32) - ('0' as u32)) as nat,
{
    assert(s.subrange(a, i + 1).drop_last() =~= s.subrange(a, i));
}

/// Whether character `k` of `s` is `c`.
pub open spec fn char_at(s: Seq<char>, k: int, c: char) -> bool {
    0 <= k < s.len() && s[k] == c
}

/// The end of the run of identifier characters from `i`.
pub open spec fn identifier_end(s: Seq<char>, i: int) -> int
    decreases s.len() - i,
{
    if i < 0 || i >= s.len() || !spec_is_identifier_continue(s[i]) {
        i
    } else {
        identifier_end(s, i + 1)
    }
}

/// The end of the run of decimal digits from `i`.
pub open spec fn digit_end(s: Seq<char>, i: int) -> int
    decreases s.len() - i,
{
    if i < 0 || i >= s.len() || !spec_is_ascii_digit(s[i]) {
        i
    } else {
        digit_end(s, i + 1)
    }
}

/// The end of an operator that began with `>` just before `k`.
pub open spec fn greater_end(s: Seq<char>, k: int) -> int {
    if char_at(s, k, '>') {
        if char_at(s, k + 1, '>') {
            if char_at(s, k + 2, '=') {
                k + 3
            } else {
                k + 2
            }
        } else if char_at(s, k + 1, '=') {
            k + 2
        } else {
            k + 1
        }
    } else if char_at(s, k, '=') {
        k + 1
    } else {
        k
    }
}

/// The end of the longest operator that starts with `first` at `j`, where
/// each of `nexts` may follow it.
pub open spec fn one_of_two(s: Seq<char>, j: int, a: char, b: char) -> int {
    if char_at(s, j + 1, a) || char_at(s, j + 1, b) {
        j + 2
    } else {
        j + 1
    }
}

/// Where the token that starts at character `j` ends, or `None` when no
/// token starts there: a stray character, a double-quoted string, an
/// unterminated string, or an integer too large for 64 signed bits.
pub open spec fn token_end(s: Seq<char>, j: int) -> Option<int> {
    if j < 0 || j >= s.len() {
        None
    } else {
        let c = s[j];
        if c == '.' || c == ',' || c == ':' || c == ';' || c == '@' || c == '~' || c == '(' || c == ')' || c == '{'
            || c == '}' || c == '[' || c == ']' {
            Some(j + 1)
        } else if c == '?' {
            Some(one_of_two(s, j, '.', '?'))
        } else if c == '=' {
            Some(one_of_two(s, j, '=', '>'))
        } else if c == '!' || c == '*' || c == '/' || c == '%' || c == '^' {
            Some(one_of_two(s, j, '=', '='))
        } else if c == '<' {
            if char_at(s, j + 1, '<') {
                Some(if char_at(s, j + 2, '=') {
                    j + 3
                } else {
                    j + 2
                })
            } else {
                Some(one_of_two(s, j, '=', '='))
            }
        } else if c == '>' {
            Some(greater_end(s, j + 1))
        } else if c == '+' {
            Some(one_of_two(s, j, '+', '='))
        } else if c == '-' {
            Some(one_of_two(s, j, '-', '='))
        } else if c == '&' {
            Some(one_of_two(s, j, '&', '='))
        } else if c == '|' {
            Some(one_of_two(s, j, '|', '='))
        } else if c == '\'' {
            match string_rest(s, j + 1) {
                Some((end, _)) => Some(end),
                None => None,
            }
        } else if spec_is_identifier_start(c) {
            Some(identifier_end(s, j + 1))
        } else if spec_is_ascii_digit(c) {
            if digits_value(s.subrange(j, digit_end(s, j + 1))) <= i64::MAX {
                Some(digit_end(s, j + 1))
            } else {
                None
            }
        } else {
            None
        }
    }
}

/// Whether the text from character `i` on splits into tokens: trivia, then
/// a token, again and again until the end.
pub open spec fn lexes_from(s: Seq<char>, i: int) -> bool
    decreases s.len() - i,
{
    if i < 0 || i > s.len() {
        false
    } else {
        match trivia_end(s, i, 0) {
            None => false,
            Some(j) => if j < i || j > s.len() {
                false
            } else if j == s.len() {
                true
            } else {
                match token_end(s, j) {
                    None => false,
                    Some(e) => if e <= j || e > s.len() {
                        false
                    } else {
                        lexes_from(s, e)
                    },
                }
            },
        }
    }
}

/// The character ranges of the tokens from character `i` on, in order, as
/// far as the text splits into trivia and tokens.
pub open spec fn token_bounds(s: Seq<char>, i: int) -> Seq<(int, int)>
    decreases s.len() - i,
{
    if i < 0 || i > s.len() {
        Seq::empty()
    } else {
        match trivia_end(s, i, 0) {
            None => Seq::empty(),
            Some(j) => if j < i || j >= s.len() {
                Seq::empty()
            } else {
                match token_end(s, j) {
                    None => Seq::empty(),
                    Some(e) => if e <= j || e > s.len() {
                        Seq::empty()
                    } else {
                        seq![(j, e)] + token_bounds(s, e)
                    },
                }
            },
        }
    }
}

/// Where the block comment that is still open when trivia from `i` reaches
/// the end of the text began; `open` is where the comment being read in
/// `mode` `2` began.
pub open spec fn unclosed_comment_start(s: Seq<char>, i: int, mode: int, open: int) -> int
    decreases s.len() - i, mode,
{
    if i < 0 || i > s.len() || mode < 0 || mode > 2 {
        open
    } else if mode == 1 {
        if i < s.len() && s[i] != '\n' {
            unclosed_comment_start(s, i + 1, 1, 0)
        } else {
            unclosed_comment_start(s, i, 0, 0)
        }
    } else if mode == 2 {
        if i + 1 < s.len() && s[i] == '*' && s[i + 1] == '/' {
            unclosed_comment_start(s, i + 2, 0, 0)
        } else if i < s.len() {
            unclosed_comment_start(s, i + 1, 2, open)
        } else {
            open
        }
    } else if i < s.len() && spec_is_whitespace(s[i]) {
        unclosed_comment_start(s, i + 1, 0, 0)
    } else if i + 1 < s.len() && s[i] == '/' && s[i + 1] == '/' {
        unclosed_comment_start(s, i + 2, 1, 0)
    } else if i + 1 < s.len() && s[i] == '/' && s[i + 1] == '*' {
        unclosed_comment_start(s, i + 2, 2, i)
    } else {
        open
    }
}

/// Where reading a string literal from character `i`, just after its
/// opening quote, stops: past its closing quote, past the line break that
/// ends it, or at the end of the text.
pub open spec fn string_stop(s: Seq<char>, i: int) -> int
    decreases s.len() - i,
{
    if i < 0 || i >= s.len() {
        s.len() as int
    } else if s[i] == '\'' {
        i + 1
    } else if s[i] == '\\' {
        if i + 1 >= s.len() {
            s.len() as int
        } else {
            string_stop(s, i + 2)
        }
    } else if s[i] == '\n' || s[i] == '\r' {
        i + 1
    } else {
        string_stop(s, i + 1)
    }
}

/// The message of the error at character `j`, where no token starts, and
/// the character where the text it points at ends.
pub open spec fn token_error(s: Seq<char>, j: int) -> (Seq<char>, int) {
    if s[j] == '\'' {
        ("unterminated string literal"@, string_stop(s, j + 1))
    } else if spec_is_ascii_digit(s[j]) {
        ("integer literal is out of range"@, digit_end(s, j + 1))
    } else if s[j] == '"' {
        ("Apex string literals must use single quotes"@, j + 1)
    } else {
        ("unexpected character `"@ + seq![s[j]] + "`"@, j + 1)
    }
}

/// The first error in the text from character `i` on: its message and the
/// characters it points at; `None` when the text splits into tokens.
pub open spec fn lex_error(s: Seq<char>, i: int) -> Option<(Seq<char>, int, int)>
    decreases s.len() - i,
{
    if i < 0 || i > s.len() {
        None
    } else {
        match trivia_end(s, i, 0) {
            None => Some(("unterminated block comment"@, unclosed_comment_start(s, i, 0, 0), s.len() as int)),
            Some(j) => if j < i || j >= s.len() {
                None
            } else {
                match token_end(s, j) {
                    None => Some((token_error(s, j).0, j, token_error(s, j).1)),
                    Some(e) => if e <= j || e > s.len() {
                        None
                    } else {
                        lex_error(s, e)
                    },
                }
            },
        }
    }
}

/// Whether `token` is the token that characters `a` to `b` of `s` spell in
/// `source_id`: its span, its text, its kind and, for a string literal, the
/// characters it stands for.
pub open spec fn token_spelled_at(token: Token, s: Seq<char>, source_id: SourceId, a: int, b: int) -> bool {
    &&& token.span.source_id == source_id
    &&& token.span.start == utf8_len(s.take(a))
    &&& token.span.end == utf8_len(s.take(b))
    &&& token.span.start < token.span.end
    &&& token.lexeme@ == s.subrange(a, b)
    &&& token.lexeme@.len() > 0
    &&& !(token.kind is Eof)
    &&& spells_kind(token.kind, token.lexeme@)
    &&& s[a] == '\'' ==> (string_rest(s, a + 1) matches Some((_, value)) && string_literal_value(token.kind)
        == Some(value))
}

/// Whether `tokens` is exactly what lexing `s` from character `i` in
/// `source_id` gives: one token for each range of [`token_bounds`], then the
/// end-of-input token, empty, at the end of the text.
pub open spec fn lexed_exactly(tokens: Seq<Token>, s: Seq<char>, source_id: SourceId, i: int) -> bool {
    &&& tokens.len() == token_bounds(s, i).len() + 1
    &&& forall|k: int| 0 <= k < tokens.len() - 1 ==> token_spelled_at(
        #[trigger] tokens[k],
        s,
        source_id,
        token_bounds(s, i)[k].0,
        token_bounds(s, i)[k].1,
    )
    &&& tokens.last().kind is Eof
    &&& tokens.last().lexeme@.len() == 0
    &&& tokens.last().span.source_id == source_id
    &&& tokens.last().span.start == utf8_len(s)
    &&& tokens.last().span.end == utf8_len(s)
}

/// Trivia ends between where it starts and the end of the text.
proof fn lemma_trivia_end_bounds(s: Seq<char>, i: int, mode: int)
    requires
        0 <= i <= s.len(),
    ensures
        trivia_end(s, i, mode) matches Some(j) ==> i <= j <= s.len(),
    decreases s.len() - i, mode,
{
    if 0 <= mode <= 2 {
        if mode == 1 {
            if i < s.len() && s[i] != '\n' {
                lemma_trivia_end_bounds(s, i + 1, 1);
            } else {
                lemma_trivia_end_bounds(s, i, 0);
            }
        } else if mode == 2 {
            if i + 1 < s.len() && s[i] == '*' && s[i + 1] == '/' {
                lemma_trivia_end_bounds(s, i + 2, 0);
            } else if i < s.len() {
                lemma_trivia_end_bounds(s, i + 1, 2);
            }
        } else if i < s.len() && spec_is_whitespace(s[i]) {
            lemma_trivia_end_bounds(s, i + 1, 0);
        } else if i + 1 < s.len() && s[i] == '/' && s[i + 1] == '/' {
            lemma_trivia_end_bounds(s, i + 2, 1);
        } else if i + 1 < s.len() && s[i] == '/' && s[i + 1] == '*' {
            lemma_trivia_end_bounds(s, i + 2, 2);
        }
    }
}

/// Where the whitespace and comments from character `i` end, reading in
/// `mode` (`0` code, `1` a line comment, `2` a block comment); `None` when a
/// block comment is still open at the end of the text.
pub open spec fn trivia_end(s: Seq<char>, i: int, mode: int) -> Option<int>
    decreases s.len() - i, mode,
{
    if i < 0 || i > s.len() || mode < 0 || mode > 2 {
        None
    } else if mode == 1 {
        if i < s.len() && s[i] != '\n' {
            trivia_end(s, i + 1, 1)
        } else {
            trivia_end(s, i, 0)
        }
    } else if mode == 2 {
        if i + 1 < s.len() && s[i] == '*' && s[i + 1] == '/' {
            trivia_end(s, i + 2, 0)
        } else if i < s.len() {
            trivia_end(s, i + 1, 2)
        } else {
            None
        }
    } else if i < s.len() && spec_is_whitespace(s[i]) {
        trivia_end(s, i + 1, 0)
    } else if i + 1 < s.len() && s[i] == '/' && s[i + 1] == '/' {
        trivia_end(s, i + 2, 1)
    } else if i + 1 < s.len() && s[i] == '/' && s[i + 1] == '*' {
        trivia_end(s, i + 2, 2)
    } else {
        Some(i)
    }
}

/// What an escape sequence `\c` stands for in a string literal.
pub open spec fn escape_value(c: char) -> Seq<char> {
    if c == 'n' {
        seq!['\n']
    } else if c == 'r' {
        seq!['\r']
    } else if c == 't' {
        seq!['\t']
    } else if c == '\'' {
        seq!['\'']
    } else if c == '\\' {
        seq!['\\']
    } else {
        seq!['\\', c]
    }
}

/// The rest of a string literal from character `i`, just after its opening
/// quote: the index past its closing quote and the characters it stands for,
/// or `None` when the text or the line ends first.
pub open spec fn string_rest(s: Seq<char>, i: int) -> Option<(int, Seq<char>)>
    decreases s.len() - i,
{
    if i < 0 || i >= s.len() {
        None
    } else if s[i] == '\'' {
        Some((i + 1, Seq::empty()))
    } else if s[i] == '\\' {
        if i + 1 >= s.len() {
            None
        } else {
            prepended(escape_value(s[i + 1]), string_rest(s, i + 2))
        }
    } else if s[i] == '\n' || s[i] == '\r' {
        None
    } else {
        prepended(seq![s[i]], string_rest(s, i + 1))
    }
}

/// The characters a string-literal token stands for.
pub open spec fn string_literal_value(kind: TokenKind) -> Option<Seq<char>> {
    match kind {
        TokenKind::StringLiteral(literal) => Some(literal@),
        _ => None,
    }
}

/// `rest` with `prefix` in front of its value.
pub open spec fn prepended(prefix: Seq<char>, rest: Option<(int, Seq<char>)>) -> Option<(int, Seq<char>)> {
    match rest {
        Some((end, value)) => Some((end, prefix + value)),
        None => None,
    }
}

/// A longer run of digits has at least the value of its prefix.
proof fn lemma_digits_value_monotone(s: Seq<char>, a: int, i: int, j: int)
    requires
        0 <= a <= i <= j <= s.len(),
        forall|k: int| a <= k < j ==> spec_is_ascii_digit(#[trigger] s[k]),
    ensures
        digits_value(s.subrange(a, i)) <= digits_value(s.subrange(a, j)),
    decreases j - i,
{
    if i < j {
        lemma_digits_value_monotone(s, a, i, j - 1);
        lemma_digits_value_step(s, a, j - 1);
        assert(spec_is_ascii_digit(s[j - 1]));
    }
}

/// Every token of a stream lies in one source, in order, without overlap, and
/// only the last token is the end of input.
pub open spec fn valid_token_stream(tokens: Seq<Token>) -> bool {
    &&& tokens.len() > 0
    &&& forall|i: int| 0 <= i < tokens.len() ==> (#[trigger] tokens[i]).span.source_id == tokens[0].span.source_id
    &&& forall|i: int| 0 <= i < tokens.len() ==> (#[trigger] tokens[i]).span.start <= tokens[i].span.end
    &&& forall|i: int| 0 < i < tokens.len() ==> (#[trigger] tokens[i]).span.start >= tokens[i - 1].span.end
    &&& tokens.last().kind is Eof
    &&& forall|i: int| 0 <= i < tokens.len() - 1 ==> !((#[trigger] tokens[i]).kind is Eof)
}

impl Lexer {
    /// The lexer's view of its text: characters, their byte offsets, and a cursor.
    pub closed spec fn wf(self) -> bool {
        &&& self.offsets@.len() == self.chars@.len() + 1
        &&& forall|i: int| 0 <= i <= self.chars@.len() ==> #[trigger] self.offsets@[i] == utf8_len(self.chars@.take(i))
        &&& self.cursor <= self.chars@.len()
        &&& self.chars@.len() <= usize::MAX
    }

    pub closed spec fn text(self) -> Seq<char> {
        self.chars@
    }

    pub closed spec fn source_id(self) -> SourceId {
        self.source_id
    }

    pub closed spec fn position(self) -> nat {
        self.cursor as nat
    }

    pub fn new(source: &str) -> (result: Lexer)
        ensures
            result.wf(),
            result.text() == source@,
            result.source_id() == SourceId::ANONYMOUS,
            result.position() == 0,
    {
        Self::with_source(source, SourceId::ANONYMOUS)
    }

    pub fn with_source(source: &str, source_id: SourceId) -> (result: Lexer)
        ensures
            result.wf(),
            result.text() == source@,
            result.source_id() == source_id,
            result.position() == 0,
    {
        utf8_len_fits(source);
        let chars = chars_of(source);
        proof {
            lemma_utf8_len_at_least_len(chars@);
        }
        let offsets = byte_offsets(chars.as_slice());
        Lexer { chars, offsets, cursor: 0, source_id }
    }
}

/// Appending the end-of-input token after ordered tokens that end no later
/// than it yields a valid stream.
proof fn lemma_push_end(before: Seq<Token>, after: Seq<Token>, source_id: SourceId, end: usize)
    requires
        after.len() == before.len() + 1,
        forall|i: int| 0 <= i < before.len() ==> after[i] == before[i],
        after.last().kind is Eof,
        after.last().span == (Span { source_id, start: end, end }),
        forall|i: int| 0 <= i < before.len() ==> (#[trigger] before[i]).span.source_id == source_id,
        forall|i: int| 0 <= i < before.len() ==> (#[trigger] before[i]).span.start <= before[i].span.end,
        forall|i: int| 0 < i < before.len() ==> (#[trigger] before[i]).span.start >= before[i - 1].span.end,
        forall|i: int| 0 <= i < before.len() ==> !((#[trigger] before[i]).kind is Eof),
        forall|i: int| 0 <= i < before.len() ==> (#[trigger] before[i]).span.end <= end,
    ensures
        valid_token_stream(after),
        after[0].span.source_id == source_id,
        forall|i: int| 0 <= i < after.len() ==> (#[trigger] after[i]).span.end <= end,
{
    assert forall|i: int| 0 <= i < after.len() implies (#[trigger] after[i]).span.source_id == after[0].span.source_id by {
        if i < before.len() {
            assert(after[i] == before[i]);
        }
        if before.len() > 0 {
            assert(after[0] == before[0]);
        }
    }
    assert forall|i: int| 0 < i < after.len() implies (#[trigger] after[i]).span.start >= after[i - 1].span.end by {
        assert(after[i - 1] == before[i - 1]);
        if i < before.len() {
            assert(after[i] == before[i]);
        }
    }
    assert forall|i: int| 0 <= i < after.len() implies (#[trigger] after[i]).span.start <= after[i].span.end by {
        if i < before.len() {
            assert(after[i] == before[i]);
        }
    }
    assert forall|i: int| 0 <= i < after.len() - 1 implies !((#[trigger] after[i]).kind is Eof) by {
        assert(after[i] == before[i]);
    }
    assert forall|i: int| 0 <= i < after.len() implies (#[trigger] after[i]).span.end <= end by {
        if i < before.len() {
            assert(after[i] == before[i]);
        }
    }
}

impl Lexer {
    /// Tokenizes the whole text; the result always ends with one end-of-input token.
    pub fn tokenize(self) -> (result: Result<Vec<Token>, Diagnostic>)
        requires
            self.wf(),
        ensures
            result matches Ok(tokens) ==> {
                &&& valid_token_stream(tokens@)
                &&& tokens@[0].span.source_id == self.source_id()
                &&& tokens@.last().span.start == utf8_len(self.text())
                &&& tokens@.last().span.end == utf8_len(self.text())
                &&& forall|i: int| 0 <= i < tokens@.len() ==> (#[trigger] tokens@[i]).span.end <= utf8_len(self.text())
                &&& forall|i: int| 0 <= i < tokens@.len() ==> spells(#[trigger] tokens@[i], self.text())
                &&& forall|i: int| 0 <= i < tokens@.len() - 1 ==> spells_kind((#[trigger] tokens@[i]).kind, tokens@[i].lexeme@)
            },
            result is Ok <==> lexes_from(self.text(), self.position() as int),
            result matches Ok(tokens) ==> lexed_exactly(tokens@, self.text(), self.source_id(), self.position() as int),
            result matches Err(error) ==> (lex_error(self.text(), self.position() as int) matches Some((message, a, b))
                && error.message@ == message && error.span.source_id == self.source_id() && error.span.start == utf8_len(
                self.text().take(a),
            ) && error.span.end == utf8_len(self.text().take(b))),
    {
        let mut lexer = self;
        let mut tokens: Vec<Token> = Vec::new();
        lexer.lex_tokens(&mut tokens)?;
        let end = lexer.offsets[lexer.chars.len()];
        let ghost before = tokens@;
        let empty = String::new();
        tokens.push(Token { kind: TokenKind::Eof, span: Span::new_in(lexer.source_id, end, end), lexeme: empty });
        proof {
            assert(lexer.chars@.take(lexer.chars@.len() as int) =~= lexer.chars@);
            lemma_push_end(before, tokens@, lexer.source_id, end);
            let n = lexer.chars@.len() as int;
            assert(lexer.chars@.subrange(n, n) =~= tokens@.last().lexeme@);
            assert(spells(tokens@.last(), lexer.chars@)) by {
                assert(utf8_len(lexer.chars@.take(n)) == end);
            }
            assert forall|i: int| 0 <= i < tokens@.len() implies spells(#[trigger] tokens@[i], self.text()) by {
                if i < before.len() {
                    assert(tokens@[i] == before[i]);
                }
            }
            assert forall|i: int| 0 <= i < tokens@.len() - 1 implies spells_kind((#[trigger] tokens@[i]).kind, tokens@[i].lexeme@) by {
                assert(tokens@[i] == before[i]);
            }
            assert forall|k: int| 0 <= k < tokens@.len() - 1 implies token_spelled_at(
                #[trigger] tokens@[k],
                self.text(),
                self.source_id(),
                token_bounds(self.text(), self.position() as int)[k].0,
                token_bounds(self.text(), self.position() as int)[k].1,
            ) by {
                assert(tokens@[k] == before[k]);
            }
        }
        Ok(tokens)
    }

    /// Appends the tokens of the rest of the text, stopping at its end.
    fn lex_tokens(&mut self, tokens: &mut Vec<Token>) -> (result: Result<(), Diagnostic>)
        requires
            old(self).wf(),
            old(tokens)@.len() == 0,
        ensures
            same_text(*final(self), *old(self)),
            result is Ok ==> {
                &&& forall|i: int| 0 <= i < final(tokens)@.len() ==> (#[trigger] final(tokens)@[i]).span.source_id == old(self).source_id
                &&& forall|i: int| 0 <= i < final(tokens)@.len() ==> (#[trigger] final(tokens)@[i]).span.start <= final(tokens)@[i].span.end
                &&& forall|i: int| 0 < i < final(tokens)@.len() ==> (#[trigger] final(tokens)@[i]).span.start >= final(tokens)@[i - 1].span.end
                &&& forall|i: int| 0 <= i < final(tokens)@.len() ==> !((#[trigger] final(tokens)@[i]).kind is Eof)
                &&& forall|i: int| 0 <= i < final(tokens)@.len() ==> (#[trigger] final(tokens)@[i]).span.end
                    <= utf8_len(old(self).chars@)
                &&& forall|i: int| 0 <= i < final(tokens)@.len() ==> spells(#[trigger] final(tokens)@[i], old(self).chars@)
                &&& forall|i: int| 0 <= i < final(tokens)@.len() ==> spells_kind(
                    (#[trigger] final(tokens)@[i]).kind,
                    final(tokens)@[i].lexeme@,
                )
            },
            result is Ok <==> lexes_from(old(self).chars@, old(self).cursor as int),
            result is Ok ==> final(tokens)@.len() == token_bounds(old(self).chars@, old(self).cursor as int).len() && forall|
                k: int,
            | 0 <= k < final(tokens)@.len() ==> token_spelled_at(
                #[trigger] final(tokens)@[k],
                old(self).chars@,
                old(self).source_id,
                token_bounds(old(self).chars@, old(self).cursor as int)[k].0,
                token_bounds(old(self).chars@, old(self).cursor as int)[k].1,
            ),
            result matches Err(error) ==> (lex_error(old(self).chars@, old(self).cursor as int) matches Some(
                (message, a, b),
            ) && error.message@ == message && error.span.source_id == old(self).source_id && error.span.start
                == utf8_len(old(self).chars@.take(a)) && error.span.end == utf8_len(old(self).chars@.take(b))),
    {
        let ghost bounds: Seq<(int, int)> = Seq::empty();
        while self.cursor < self.chars.len()
            invariant
                same_text(*self, *old(self)),
                self.cursor <= self.chars@.len(),
                token_bounds(old(self).chars@, old(self).cursor as int) == bounds + token_bounds(self.chars@, self.cursor as int),
                lex_error(old(self).chars@, old(self).cursor as int) == lex_error(self.chars@, self.cursor as int),
                tokens@.len() == bounds.len(),
                forall|k: int| 0 <= k < tokens@.len() ==> token_spelled_at(
                    #[trigger] tokens@[k],
                    self.chars@,
                    self.source_id,
                    bounds[k].0,
                    bounds[k].1,
                ),
                forall|i: int| 0 <= i < tokens@.len() ==> (#[trigger] tokens@[i]).span.source_id == self.source_id,
                forall|i: int| 0 <= i < tokens@.len() ==> (#[trigger] tokens@[i]).span.start <= tokens@[i].span.end,
                forall|i: int| 0 < i < tokens@.len() ==> (#[trigger] tokens@[i]).span.start >= tokens@[i - 1].span.end,
                forall|i: int| 0 <= i < tokens@.len() ==> !((#[trigger] tokens@[i]).kind is Eof),
                forall|i: int| 0 <= i < tokens@.len() ==> (#[trigger] tokens@[i]).span.end <= self.offsets@[self.cursor as int],
                forall|i: int| 0 <= i < tokens@.len() ==> spells(#[trigger] tokens@[i], self.chars@),
                forall|i: int| 0 <= i < tokens@.len() ==> spells_kind((#[trigger] tokens@[i]).kind, tokens@[i].lexeme@),
                lexes_from(old(self).chars@, old(self).cursor as int) == lexes_from(self.chars@, self.cursor as int),
            ensures
                self.cursor >= self.chars@.len(),
            decreases self.chars@.len() - self.cursor,
        {
            let ghost before = self.cursor;
            proof {
                lemma_trivia_end_bounds(self.chars@, before as int, 0);
            }
            let skipped = self.skip_trivia();
            if skipped.is_err() {
                proof {
                    assert(self.chars@.take(self.chars@.len() as int) =~= self.chars@);
                }
                return skipped;
            }
            proof {
                lemma_utf8_len_monotone(self.chars@, before as int, self.cursor as int);
            }
            if self.cursor >= self.chars.len() {
                proof {
                    let n = self.chars@.len() as int;
                    assert(trivia_end(self.chars@, n, 0) == Some(n));
                    assert(token_bounds(self.chars@, before as int) =~= Seq::<(int, int)>::empty());
                    assert(token_bounds(self.chars@, n) =~= Seq::<(int, int)>::empty());
                    assert(bounds + token_bounds(self.chars@, n) =~= bounds);
                    assert(bounds + token_bounds(self.chars@, before as int) =~= bounds);
                }
                break;
            }
            let ghost token_start = self.cursor;
            let next = self.next_token();
            let token = match next {
                Ok(token) => token,
                Err(error) => {
                    proof {
                        assert(self.offsets@[token_start as int] == utf8_len(self.chars@.take(token_start as int)));
                        assert(self.offsets@[self.cursor as int] == utf8_len(self.chars@.take(self.cursor as int)));
                    }
                    return Err(error);
                },
            };
            proof {
                lemma_utf8_len_monotone(self.chars@, token_start as int, self.cursor as int);
                assert(token_bounds(self.chars@, before as int) == seq![(token_start as int, self.cursor as int)]
                    + token_bounds(self.chars@, self.cursor as int));
                assert(bounds + token_bounds(self.chars@, before as int) =~= bounds.push(
                    (token_start as int, self.cursor as int),
                ) + token_bounds(self.chars@, self.cursor as int));
                assert(spells(token, self.chars@)) by {
                    assert(self.offsets@[token_start as int] == utf8_len(self.chars@.take(token_start as int)));
                    assert(self.offsets@[self.cursor as int] == utf8_len(self.chars@.take(self.cursor as int)));
                }
            }
            let ghost before_tokens = tokens@;
            let ghost before_bounds = bounds;
            tokens.push(token);
            proof {
                bounds = bounds.push((token_start as int, self.cursor as int));
                assert(self.offsets@[token_start as int] == utf8_len(self.chars@.take(token_start as int)));
                assert(self.offsets@[self.cursor as int] == utf8_len(self.chars@.take(self.cursor as int)));
                assert forall|k: int| 0 <= k < tokens@.len() implies token_spelled_at(
                    #[trigger] tokens@[k],
                    self.chars@,
                    self.source_id,
                    bounds[k].0,
                    bounds[k].1,
                ) by {
                    if k < before_tokens.len() {
                        assert(tokens@[k] == before_tokens[k]);
                        assert(bounds[k] == before_bounds[k]);
                    }
                }
                assert forall|i: int| 0 <= i < tokens@.len() implies spells(#[trigger] tokens@[i], self.chars@)
                    && spells_kind(tokens@[i].kind, tokens@[i].lexeme@) by {
                    if i < before_tokens.len() {
                        assert(tokens@[i] == before_tokens[i]);
                    }
                }
            }
        }
        proof {
            lemma_utf8_len_monotone(self.chars@, self.cursor as int, self.chars@.len() as int);
            assert(self.chars@.take(self.chars@.len() as int) =~= self.chars@);
            let n = self.chars@.len() as int;
            assert(self.cursor == n);
            assert(trivia_end(self.chars@, n, 0) == Some(n));
            assert(lexes_from(self.chars@, n));
        }
        Ok(())
    }

    fn peek(&self) -> (result: Option<char>)
        requires
            self.wf(),
        ensures
            self.cursor < self.chars@.len() ==> result == Some(self.chars@[self.cursor as int]),
            self.cursor >= self.chars@.len() ==> result is None,
    {
        if self.cursor < self.chars.len() {
            Some(self.chars[self.cursor])
        } else {
            None
        }
    }

    /// Whether the text at the cursor continues with the characters `first`, `second`.
    fn at_pair(&self, first: char, second: char) -> (result: bool)
        requires
            self.wf(),
        ensures
            result == (self.cursor + 1 < self.chars@.len() && self.chars@[self.cursor as int] == first
                && self.chars@[self.cursor + 1] == second),
    {
        self.cursor < self.chars.len() && self.chars.len() - self.cursor > 1 && self.chars[self.cursor] == first
            && self.chars[self.cursor + 1] == second
    }

    fn bump(&mut self) -> (result: Option<char>)
        requires
            old(self).wf(),
        ensures
            final(self).wf(),
            final(self).chars == old(self).chars,
            final(self).offsets == old(self).offsets,
            final(self).source_id == old(self).source_id,
            old(self).cursor < old(self).chars@.len() ==> result == Some(old(self).chars@[old(self).cursor as int])
                && final(self).cursor == old(self).cursor + 1,
            old(self).cursor >= old(self).chars@.len() ==> result is None && final(self).cursor == old(self).cursor,
    {
        if self.cursor < self.chars.len() {
            let c = self.chars[self.cursor];
            self.cursor = self.cursor + 1;
            Some(c)
        } else {
            None
        }
    }

    /// Consumes the next character if it is `expected`.
    fn take(&mut self, expected: char) -> (result: bool)
        requires
            old(self).wf(),
        ensures
            final(self).wf(),
            final(self).chars == old(self).chars,
            final(self).offsets == old(self).offsets,
            final(self).source_id == old(self).source_id,
            result == (old(self).cursor < old(self).chars@.len() && old(self).chars@[old(self).cursor as int] == expected),
            final(self).cursor == if result { old(self).cursor + 1 } else { old(self).cursor as int },
    {
        if self.cursor < self.chars.len() && self.chars[self.cursor] == expected {
            self.cursor = self.cursor + 1;
            true
        } else {
            false
        }
    }

    /// Skips whitespace, line comments and block comments.
    fn skip_trivia(&mut self) -> (result: Result<(), Diagnostic>)
        requires
            old(self).wf(),
        ensures
            final(self).wf(),
            final(self).chars == old(self).chars,
            final(self).offsets == old(self).offsets,
            final(self).source_id == old(self).source_id,
            final(self).cursor >= old(self).cursor,
            match trivia_end(old(self).chars@, old(self).cursor as int, 0) {
                Some(end) => result is Ok && final(self).cursor == end,
                None => result matches Err(error) && error.message@ == "unterminated block comment"@
                    && error.span.source_id == old(self).source_id && error.span.start == utf8_len(
                    old(self).chars@.take(unclosed_comment_start(old(self).chars@, old(self).cursor as int, 0, 0)),
                ) && error.span.end == utf8_len(old(self).chars@),
            },
    {
        loop
            invariant
                self.wf(),
                self.chars == old(self).chars,
                self.offsets == old(self).offsets,
                self.source_id == old(self).source_id,
                self.cursor >= old(self).cursor,
                trivia_end(old(self).chars@, old(self).cursor as int, 0) == trivia_end(self.chars@, self.cursor as int, 0),
                unclosed_comment_start(old(self).chars@, old(self).cursor as int, 0, 0) == unclosed_comment_start(
                    self.chars@,
                    self.cursor as int,
                    0,
                    0,
                ),
            decreases self.chars@.len() - self.cursor,
        {
            let ghost round = self.cursor;
            while self.cursor < self.chars.len() && is_whitespace(self.chars[self.cursor])
                invariant
                    self.wf(),
                    self.chars == old(self).chars,
                    self.offsets == old(self).offsets,
                    self.source_id == old(self).source_id,
                    self.cursor >= round,
                    round >= old(self).cursor,
                    trivia_end(old(self).chars@, old(self).cursor as int, 0) == trivia_end(self.chars@, self.cursor as int, 0),
                    unclosed_comment_start(old(self).chars@, old(self).cursor as int, 0, 0) == unclosed_comment_start(
                        self.chars@,
                        self.cursor as int,
                        0,
                        0,
                    ),
                decreases self.chars@.len() - self.cursor,
            {
                self.cursor = self.cursor + 1;
            }
            if self.at_pair('/', '/') {
                self.cursor = self.cursor + 2;
                while self.cursor < self.chars.len() && self.chars[self.cursor] != '\n'
                    invariant
                        self.wf(),
                        self.chars == old(self).chars,
                        self.offsets == old(self).offsets,
                        self.source_id == old(self).source_id,
                        self.cursor > round,
                        round >= old(self).cursor,
                        trivia_end(old(self).chars@, old(self).cursor as int, 0) == trivia_end(self.chars@, self.cursor as int, 1),
                        unclosed_comment_start(old(self).chars@, old(self).cursor as int, 0, 0) == unclosed_comment_start(
                            self.chars@,
                            self.cursor as int,
                            1,
                            0,
                        ),
                    decreases self.chars@.len() - self.cursor,
                {
                    self.cursor = self.cursor + 1;
                }
            } else if self.at_pair('/', '*') {
                let start = self.offsets[self.cursor];
                let ghost open = self.cursor as int;
                self.cursor = self.cursor + 2;
                while !self.at_pair('*', '/')
                    invariant
                        self.wf(),
                        self.chars == old(self).chars,
                        self.offsets == old(self).offsets,
                        self.source_id == old(self).source_id,
                        self.cursor > round,
                        round >= old(self).cursor,
                        trivia_end(old(self).chars@, old(self).cursor as int, 0) == trivia_end(self.chars@, self.cursor as int, 2),
                        unclosed_comment_start(old(self).chars@, old(self).cursor as int, 0, 0) == unclosed_comment_start(
                            self.chars@,
                            self.cursor as int,
                            2,
                            open,
                        ),
                        0 <= open <= self.chars@.len(),
                        start == self.offsets@[open],
                    decreases self.chars@.len() - self.cursor,
                {
                    if self.bump().is_none() {
                        proof {
                            assert(self.chars@.take(self.chars@.len() as int) =~= self.chars@);
                        }
                        let end = self.offsets[self.chars.len()];
                        return Err(Diagnostic::new("unterminated block comment", Span::new_in(self.source_id, start, end)));
                    }
                }
                self.cursor = self.cursor + 2;
            } else {
                return Ok(());
            }
        }
    }

    /// A token of the given kind spanning from character `start` to the cursor.
    fn token(&self, start: usize, kind: TokenKind) -> (result: Token)
        requires
            self.wf(),
            start <= self.cursor,
        ensures
            result.kind == kind,
            result.span == (Span { source_id: self.source_id, start: self.offsets@[start as int], end: self.offsets@[self.cursor as int] }),
            result.lexeme@ == self.chars@.subrange(start as int, self.cursor as int),
    {
        proof {
            lemma_utf8_len_monotone(self.chars@, start as int, self.cursor as int);
        }
        let mut lexeme: Vec<char> = Vec::new();
        let mut i = start;
        while i < self.cursor
            invariant
                self.wf(),
                start <= i <= self.cursor,
                lexeme@ == self.chars@.subrange(start as int, i as int),
            decreases self.cursor - i,
        {
            lexeme.push(self.chars[i]);
            i += 1;
            assert(lexeme@ =~= self.chars@.subrange(start as int, i as int));
        }
        Token {
            kind,
            span: Span::new_in(self.source_id, self.offsets[start], self.offsets[self.cursor]),
            lexeme: string_from_chars(lexeme.as_slice()),
        }
    }

    /// A diagnostic spanning from character `start` to the cursor.
    fn error_here(&self, start: usize, message: &str) -> (result: Diagnostic)
        requires
            self.wf(),
            start <= self.cursor,
        ensures
            result.message@ == message@,
            result.span == (Span { source_id: self.source_id, start: self.offsets@[start as int], end: self.offsets@[self.cursor as int] }),
    {
        Diagnostic::new(message, Span::new_in(self.source_id, self.offsets[start], self.offsets[self.cursor]))
    }
}

/// Ensures shared by every step that consumes characters of the text.
pub closed spec fn same_text(after: Lexer, before: Lexer) -> bool {
    &&& after.wf()
    &&& after.chars == before.chars
    &&& after.offsets == before.offsets
    &&& after.source_id == before.source_id
}

impl Lexer {
    fn next_token(&mut self) -> (result: Result<Token, Diagnostic>)
        requires
            old(self).wf(),
            old(self).cursor < old(self).chars@.len(),
        ensures
            same_text(*final(self), *old(self)),
            final(self).cursor > old(self).cursor,
            result matches Ok(token) ==> token.span == (Span {
                source_id: old(self).source_id,
                start: old(self).offsets@[old(self).cursor as int],
                end: old(self).offsets@[final(self).cursor as int],
            }) && !(token.kind is Eof) && token.lexeme@ == old(self).chars@.subrange(
                old(self).cursor as int,
                final(self).cursor as int,
            ) && spells_kind(token.kind, token.lexeme@),
            match token_end(old(self).chars@, old(self).cursor as int) {
                Some(end) => result is Ok && final(self).cursor == end,
                None => result matches Err(error) && error.message@ == token_error(
                    old(self).chars@,
                    old(self).cursor as int,
                ).0 && final(self).cursor == token_error(old(self).chars@, old(self).cursor as int).1 && error.span == (
                Span {
                    source_id: old(self).source_id,
                    start: old(self).offsets@[old(self).cursor as int],
                    end: old(self).offsets@[final(self).cursor as int],
                }),
            },
            old(self).chars@[old(self).cursor as int] == '\'' ==> (result matches Ok(token) ==> (string_rest(
                old(self).chars@,
                old(self).cursor + 1,
            ) matches Some((_, value)) && string_literal_value(token.kind) == Some(value))),
    {
        let start = self.cursor;
        let ch = self.chars[self.cursor];
        self.cursor = self.cursor + 1;
        let kind = if ch == '.' {
            TokenKind::Dot
        } else if ch == ',' {
            TokenKind::Comma
        } else if ch == ':' {
            TokenKind::Colon
        } else if ch == ';' {
            TokenKind::Semicolon
        } else if ch == '@' {
            TokenKind::At
        } else if ch == '~' {
            TokenKind::Tilde
        } else if ch == '(' {
            TokenKind::LeftParen
        } else if ch == ')' {
            TokenKind::RightParen
        } else if ch == '{' {
            TokenKind::LeftBrace
        } else if ch == '}' {
            TokenKind::RightBrace
        } else if ch == '[' {
            TokenKind::LeftBracket
        } else if ch == ']' {
            TokenKind::RightBracket
        } else if ch == '?' {
            if self.take('.') {
                TokenKind::SafeNavigation
            } else if self.take('?') {
                TokenKind::NullCoalesce
            } else {
                TokenKind::Question
            }
        } else if ch == '=' {
            if self.take('=') {
                TokenKind::EqualEqual
            } else if self.take('>') {
                TokenKind::FatArrow
            } else {
                TokenKind::Equal
            }
        } else if ch == '!' {
            if self.take('=') {
                TokenKind::BangEqual
            } else {
                TokenKind::Bang
            }
        } else if ch == '<' {
            if self.take('<') {
                if self.take('=') {
                    TokenKind::ShiftLeftEqual
                } else {
                    TokenKind::ShiftLeft
                }
            } else if self.take('=') {
                TokenKind::LessEqual
            } else {
                TokenKind::Less
            }
        } else if ch == '>' {
            self.greater_family()
        } else if ch == '+' {
            if self.take('+') {
                TokenKind::PlusPlus
            } else if self.take('=') {
                TokenKind::PlusEqual
            } else {
                TokenKind::Plus
            }
        } else if ch == '-' {
            if self.take('-') {
                TokenKind::MinusMinus
            } else if self.take('=') {
                TokenKind::MinusEqual
            } else {
                TokenKind::Minus
            }
        } else if ch == '*' {
            if self.take('=') {
                TokenKind::StarEqual
            } else {
                TokenKind::Star
            }
        } else if ch == '/' {
            if self.take('=') {
                TokenKind::SlashEqual
            } else {
                TokenKind::Slash
            }
        } else if ch == '%' {
            if self.take('=') {
                TokenKind::PercentEqual
            } else {
                TokenKind::Percent
            }
        } else if ch == '&' {
            if self.take('&') {
                TokenKind::AndAnd
            } else if self.take('=') {
                TokenKind::AmpersandEqual
            } else {
                TokenKind::Ampersand
            }
        } else if ch == '|' {
            if self.take('|') {
                TokenKind::OrOr
            } else if self.take('=') {
                TokenKind::PipeEqual
            } else {
                TokenKind::Pipe
            }
        } else if ch == '^' {
            if self.take('=') {
                TokenKind::CaretEqual
            } else {
                TokenKind::Caret
            }
        } else if ch == '\'' {
            return self.string_token(start);
        } else if is_identifier_start(ch) {
            self.word(start)
        } else if is_ascii_digit(ch) {
            self.integer(start)?
        } else if ch == '"' {
            return Err(self.error_here(start, "Apex string literals must use single quotes"));
        } else {
            let mut message: Vec<char> = Vec::new();
            push_str(&mut message, "unexpected character `");
            message.push(ch);
            push_str(&mut message, "`");
            let message = string_from_chars(message.as_slice());
            return Err(self.error_here(start, message.as_str()));
        };
        Ok(self.token(start, kind))
    }

    /// The rest of a token that began with `>`.
    fn greater_family(&mut self) -> (result: TokenKind)
        requires
            old(self).wf(),
            old(self).cursor > 0,
            old(self).chars@[old(self).cursor - 1] == '>',
        ensures
            same_text(*final(self), *old(self)),
            final(self).cursor >= old(self).cursor,
            !(result is Eof),
            symbol_kind(final(self).chars@.subrange(old(self).cursor - 1, final(self).cursor as int)) == Some(result),
            final(self).cursor == greater_end(old(self).chars@, old(self).cursor as int),
    {
        if self.take('>') {
            if self.take('>') {
                if self.take('=') {
                    TokenKind::UnsignedShiftRightEqual
                } else {
                    TokenKind::UnsignedShiftRight
                }
            } else if self.take('=') {
                TokenKind::ShiftRightEqual
            } else {
                TokenKind::ShiftRight
            }
        } else if self.take('=') {
            TokenKind::GreaterEqual
        } else {
            TokenKind::Greater
        }
    }

    /// An identifier or keyword whose first character is at `start`.
    fn word(&mut self, start: usize) -> (result: TokenKind)
        requires
            old(self).wf(),
            start < old(self).cursor,
        ensures
            same_text(*final(self), *old(self)),
            final(self).cursor >= old(self).cursor,
            !(result is Eof),
            spec_keyword(ascii_lower(final(self).chars@.subrange(start as int, final(self).cursor as int))) matches Some(
                kind,
            ) ==> result == kind,
            spec_keyword(ascii_lower(final(self).chars@.subrange(start as int, final(self).cursor as int))) is None
                ==> (result matches TokenKind::Identifier(spelling) && spelling@ == final(self).chars@.subrange(
                start as int,
                final(self).cursor as int,
            )),
            final(self).cursor == identifier_end(old(self).chars@, old(self).cursor as int),
    {
        while self.cursor < self.chars.len() && is_identifier_continue(self.chars[self.cursor])
            invariant
                same_text(*self, *old(self)),
                self.cursor >= old(self).cursor,
                identifier_end(old(self).chars@, old(self).cursor as int) == identifier_end(self.chars@, self.cursor as int),
            decreases self.chars@.len() - self.cursor,
        {
            self.cursor = self.cursor + 1;
        }
        let mut text: Vec<char> = Vec::new();
        let mut i = start;
        while i < self.cursor
            invariant
                same_text(*self, *old(self)),
                start <= i <= self.cursor,
                text@ == self.chars@.subrange(start as int, i as int),
                self.cursor == identifier_end(old(self).chars@, old(self).cursor as int),
            decreases self.cursor - i,
        {
            text.push(self.chars[i]);
            i += 1;
            assert(text@ =~= self.chars@.subrange(start as int, i as int));
        }
        let lower = lower_chars(text.as_slice());
        match keyword(lower.as_slice()) {
            Some(kind) => kind,
            None => TokenKind::Identifier(string_from_chars(text.as_slice())),
        }
    }

    /// An integer literal whose first digit is at `start`.
    fn integer(&mut self, start: usize) -> (result: Result<TokenKind, Diagnostic>)
        requires
            old(self).wf(),
            start < old(self).cursor,
            forall|i: int| start <= i < old(self).cursor ==> spec_is_ascii_digit(#[trigger] old(self).chars@[i]),
        ensures
            same_text(*final(self), *old(self)),
            final(self).cursor >= old(self).cursor,
            result matches Ok(kind) ==> kind matches TokenKind::IntegerLiteral(value) && value == digits_value(
                final(self).chars@.subrange(start as int, final(self).cursor as int),
            ),
            forall|i: int| start <= i < final(self).cursor ==> spec_is_ascii_digit(#[trigger] final(self).chars@[i]),
            final(self).cursor == final(self).chars@.len() || !spec_is_ascii_digit(
                final(self).chars@[final(self).cursor as int],
            ),
            result is Ok <==> digits_value(final(self).chars@.subrange(start as int, final(self).cursor as int))
                <= i64::MAX,
            result matches Err(error) ==> error.message@ == "integer literal is out of range"@ && error.span == (Span {
                source_id: old(self).source_id,
                start: old(self).offsets@[start as int],
                end: old(self).offsets@[final(self).cursor as int],
            }),
            final(self).cursor == digit_end(old(self).chars@, old(self).cursor as int),
    {
        while self.cursor < self.chars.len() && is_ascii_digit(self.chars[self.cursor])
            invariant
                same_text(*self, *old(self)),
                self.cursor >= old(self).cursor,
                digit_end(old(self).chars@, old(self).cursor as int) == digit_end(self.chars@, self.cursor as int),
                forall|i: int| start <= i < self.cursor ==> spec_is_ascii_digit(#[trigger] self.chars@[i]),
            decreases self.chars@.len() - self.cursor,
        {
            self.cursor = self.cursor + 1;
        }
        let mut value: i64 = 0;
        let mut i = start;
        assert(self.chars@.subrange(start as int, start as int) =~= Seq::<char>::empty());
        let ghost end = self.cursor;
        while i < self.cursor
            invariant
                same_text(*self, *old(self)),
                self.cursor >= old(self).cursor,
                self.cursor == end,
                end == digit_end(old(self).chars@, old(self).cursor as int),
                end == self.chars@.len() || !spec_is_ascii_digit(self.chars@[end as int]),
                start <= i <= self.cursor,
                forall|k: int| start <= k < self.cursor ==> spec_is_ascii_digit(#[trigger] self.chars@[k]),
                value >= 0,
                value == digits_value(self.chars@.subrange(start as int, i as int)),
            decreases self.cursor - i,
        {
            let c = self.chars[i];
            proof {
                assert(spec_is_ascii_digit(self.chars@[i as int]));
                lemma_digits_value_step(self.chars@, start as int, i as int);
            }
            let d: i64 = (c as u32 - '0' as u32) as i64;
            proof {
                lemma_digits_value_monotone(self.chars@, start as int, i + 1, self.cursor as int);
            }
            match value.checked_mul(10) {
                Some(shifted) => match shifted.checked_add(d) {
                    Some(next) => {
                        value = next;
                    },
                    None => return Err(self.error_here(start, "integer literal is out of range")),
                },
                None => return Err(self.error_here(start, "integer literal is out of range")),
            }
            i += 1;
        }
        Ok(TokenKind::IntegerLiteral(value))
    }

    /// A string literal whose opening quote is at `start`.
    fn string_token(&mut self, start: usize) -> (result: Result<Token, Diagnostic>)
        requires
            old(self).wf(),
            start < old(self).cursor,
        ensures
            same_text(*final(self), *old(self)),
            final(self).cursor >= old(self).cursor,
            result matches Ok(token) ==> token.span == (Span {
                source_id: old(self).source_id,
                start: old(self).offsets@[start as int],
                end: old(self).offsets@[final(self).cursor as int],
            }) && token.kind is StringLiteral && token.lexeme@ == old(self).chars@.subrange(start as int, final(self).cursor as int),
            match string_rest(old(self).chars@, old(self).cursor as int) {
                Some((end, value)) => result matches Ok(token) && final(self).cursor == end
                    && string_literal_value(token.kind) == Some(value),
                None => result matches Err(error) && error.message@ == "unterminated string literal"@
                    && final(self).cursor == string_stop(old(self).chars@, old(self).cursor as int) && error.span == (Span {
                    source_id: old(self).source_id,
                    start: old(self).offsets@[start as int],
                    end: old(self).offsets@[final(self).cursor as int],
                }),
            },
    {
        let mut value: Vec<char> = Vec::new();
        loop
            invariant
                same_text(*self, *old(self)),
                self.cursor >= old(self).cursor,
                start < self.cursor,
                string_stop(old(self).chars@, old(self).cursor as int) == string_stop(self.chars@, self.cursor as int),
                string_rest(old(self).chars@, old(self).cursor as int) == prepended(
                    value@,
                    string_rest(self.chars@, self.cursor as int),
                ),
            decreases self.chars@.len() - self.cursor,
        {
            match self.bump() {
                Some(c) => {
                    if c == '\'' {
                        let literal = string_from_chars(value.as_slice());
                        return Ok(self.token(start, TokenKind::StringLiteral(literal)));
                    } else if c == '\\' {
                        match self.bump() {
                            Some(escaped) => {
                                if escaped == 'n' {
                                    value.push('\n');
                                } else if escaped == 'r' {
                                    value.push('\r');
                                } else if escaped == 't' {
                                    value.push('\t');
                                } else if escaped == '\'' {
                                    value.push('\'');
                                } else if escaped == '\\' {
                                    value.push('\\');
                                } else {
                                    value.push('\\');
                                    value.push(escaped);
                                }
                            },
                            None => return Err(self.error_here(start, "unterminated string literal")),
                        }
                    } else if c == '\n' || c == '\r' {
                        return Err(self.error_here(start, "unterminated string literal"));
                    } else {
                        value.push(c);
                    }
                },
                None => return Err(self.error_here(start, "unterminated string literal")),
            }
        }
    }
}

} // verus!

verus! {

/// How a character is written inside a single-quoted string literal: a
/// backslash, a quote, the two line breaks and a tab by their escapes, any
/// other character as itself.
pub open spec fn written_char(c: char) -> Seq<char> {
    if c == '\\' {
        seq!['\\', '\\']
    } else if c == '\'' {
        seq!['\\', '\'']
    } else if c == '\n' {
        seq!['\\', 'n']
    } else if c == '\r' {
        seq!['\\', 'r']
    } else if c == '\t' {
        seq!['\\', 't']
    } else {
        seq![c]
    }
}

/// How a text is written between the quotes of a string literal.
pub open spec fn written_text(value: Seq<char>) -> Seq<char>
    decreases value.len(),
{
    if value.len() == 0 {
        Seq::empty()
    } else {
        written_char(value[0]) + written_text(value.drop_first())
    }
}

/// Reading a string literal gives back any text it was written from: when
/// the characters from `i` on are the written form of `value` and then the
/// closing quote, the literal ends just past that quote and stands for
/// exactly `value`. In particular `\\` stands for one backslash and `\'`
/// for one quote.
pub proof fn lemma_string_literal_reads_back(value: Seq<char>, s: Seq<char>, i: int)
    requires
        0 <= i,
        i + written_text(value).len() < s.len(),
        s.subrange(i, i + written_text(value).len()) == written_text(value),
        s[i + written_text(value).len()] == '\'',
    ensures
        string_rest(s, i) == Some((i + written_text(value).len() + 1, value)),
    decreases value.len(),
{
    let w = written_text(value);
    if value.len() == 0 {
        assert(w.len() == 0);
    } else {
        let c = value[0];
        let rest = value.drop_first();
        let head = written_char(c);
        let tail = written_text(rest);
        assert(w == head + tail);
        assert(s.subrange(i, i + w.len())[0] == s[i]);
        assert(s[i] == head[0]);
        assert forall|k: int| 0 <= k < tail.len() implies s.subrange(i + head.len(), i + head.len() + tail.len())[k]
            == tail[k] by {
            assert(s.subrange(i, i + w.len())[head.len() + k] == w[head.len() + k]);
        }
        assert(s.subrange(i + head.len(), i + head.len() + tail.len()) =~= tail);
        assert(s[i + head.len() + tail.len()] == '\'');
        lemma_string_literal_reads_back(rest, s, i + head.len());
        if head.len() == 2 {
            assert(s.subrange(i, i + w.len())[1] == s[i + 1]);
            assert(s[i + 1] == head[1]);
        }
        assert(value =~= seq![c] + rest);
    }
}

/// A keyword is recognized whatever the ASCII case of its letters: two words
/// that differ only in case spell the same keyword.
pub proof fn lemma_keywords_ignore_case(kind: TokenKind, a: Seq<char>, b: Seq<char>)
    requires
        eq_ignore_case(a, b),
        spec_keyword(ascii_lower(a)) is Some,
        is_word_kind(kind, a),
    ensures
        is_word_kind(kind, b),
{
}

} // verus!
