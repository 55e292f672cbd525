//! Normalized observations of Salesforce and local compilation results.

pub mod comparison;
pub mod conformance;

use vstd::prelude::*;

use crate::json::{
    as_signed, as_text, as_truth, as_unsigned, entry_of, entry_value, first_found, first_found_in_entries,
    first_found_in_items, found_value, member, member_of, text_of, truth_of, unsigned_of, JsonValue,
};
use crate::lexer::{digits_value, lemma_digits_value_step};
use crate::text::{
    ascii_lower, chars_end_with, chars_of, chars_start_with, comma_trimmed, contains_run, contains_str,
    ends_with, eq_ignore_case, find_char, find_last_char, find_run, first_index, first_run, is_ascii_digit,
    last_index, lower_chars, push_str, slice_chars, spec_is_ascii_digit, spec_is_whitespace, starts_with,
    string_from_chars, trim_chars, trim_commas, trimmed, is_whitespace, chars_equal, find_last_run, last_run,
    chars_lt, text_lt, lemma_text_lt_total, lemma_text_lt_transitive, lemma_text_lt_asymmetric,
    to_ascii_lowercase,
};

verus! {

/// Broad, stable class of a compiler message, whichever compiler wrote it.
#[derive(Clone, Copy, Debug, PartialEq, Eq, PartialOrd, Ord, Structural)]
pub enum DiagnosticCategory {
    Lexical,
    Syntax,
    Semantic,
    Project,
    Io,
    Transport,
    Unknown,
}

/// The category of a message, read from the phrases it holds in any ASCII case:
/// syntax phrases first, then lexical ones, then semantic ones.
pub open spec fn spec_classify_diagnostic(message: Seq<char>) -> DiagnosticCategory {
    let lower = ascii_lower(message);
    if contains_run(lower, "unexpected token"@) || contains_run(lower, "expecting"@)
        || contains_run(lower, "unexpected character"@) || contains_run(lower, "unexpected syntax"@) {
        DiagnosticCategory::Syntax
    } else if contains_run(lower, "invalid identifier"@) || contains_run(lower, "illegal character"@) {
        DiagnosticCategory::Lexical
    } else if contains_run(lower, "variable does not exist"@) || contains_run(lower, "invalid type"@)
        || contains_run(lower, "method does not exist"@) || contains_run(lower, "unknown"@)
        || contains_run(lower, "cannot assign"@) || contains_run(lower, "incompatible"@) {
        DiagnosticCategory::Semantic
    } else {
        DiagnosticCategory::Unknown
    }
}

/// Classifies a compiler message by the phrases it holds.
pub fn classify_diagnostic(message: &str) -> (result: DiagnosticCategory)
    ensures
        result == spec_classify_diagnostic(message@),
{
    let lower = lower_chars(chars_of(message).as_slice());
    let lower = lower.as_slice();
    if contains_str(lower, "unexpected token") || contains_str(lower, "expecting")
        || contains_str(lower, "unexpected character") || contains_str(lower, "unexpected syntax") {
        DiagnosticCategory::Syntax
    } else if contains_str(lower, "invalid identifier") || contains_str(lower, "illegal character") {
        DiagnosticCategory::Lexical
    } else if contains_str(lower, "variable does not exist") || contains_str(lower, "invalid type")
        || contains_str(lower, "method does not exist") || contains_str(lower, "unknown")
        || contains_str(lower, "cannot assign") || contains_str(lower, "incompatible") {
        DiagnosticCategory::Semantic
    } else {
        DiagnosticCategory::Unknown
    }
}


/// One frame of a Salesforce stack trace: the method and its line, if given.
#[derive(Clone, Debug, PartialEq, Eq)]
pub struct StackObservation {
    pub method: String,
    pub line: Option<usize>,
}

/// The exception type named before the first `:` of a Salesforce error
/// message, without a `System.` namespace; `RuntimeError` when the message
/// names no exception type.
pub open spec fn spec_salesforce_exception_type(message: Seq<char>) -> Seq<char> {
    let colon = first_index(message, ':', 0);
    if colon < 0 {
        "RuntimeError"@
    } else {
        let declared = trimmed(message.take(colon));
        let name = if starts_with(declared, "System."@) { declared.skip("System."@.len() as int) } else { declared };
        if ends_with(name, "Exception"@) { name } else { "RuntimeError"@ }
    }
}

/// The exception type a Salesforce error message names.
pub fn salesforce_exception_type(message: &str) -> (result: String)
    ensures
        result@ == spec_salesforce_exception_type(message@),
{
    let chars = chars_of(message);
    match find_char(chars.as_slice(), ':') {
        None => "RuntimeError".to_owned(),
        Some(colon) => {
            let head = slice_chars(chars.as_slice(), 0, colon);
            assert(head@ =~= message@.take(colon as int));
            let declared = trim_chars(head.as_slice());
            let name = if chars_start_with(declared.as_slice(), "System.") {
                let prefix = chars_of("System.");
                let rest = slice_chars(declared.as_slice(), prefix.len(), declared.len());
                assert(rest@ =~= declared@.skip("System."@.len() as int));
                rest
            } else {
                declared
            };
            if chars_end_with(name.as_slice(), "Exception") {
                string_from_chars(name.as_slice())
            } else {
                "RuntimeError".to_owned()
            }
        },
    }
}

/// The message without a leading `SomeException:` type, trimmed; the whole
/// message when it does not start with an exception type.
pub open spec fn spec_strip_exception_type(message: Seq<char>) -> Seq<char> {
    let colon = first_index(message, ':', 0);
    if colon >= 0 && ends_with(trimmed(message.take(colon)), "Exception"@) {
        trimmed(message.skip(colon + 1))
    } else {
        message
    }
}

/// A Salesforce error message without its exception type.
pub fn strip_exception_type(message: &str) -> (result: String)
    ensures
        result@ == spec_strip_exception_type(message@),
{
    let chars = chars_of(message);
    assert(chars@.len() == chars.len());
    if let Some(colon) = find_char(chars.as_slice(), ':') {
        let head = slice_chars(chars.as_slice(), 0, colon);
        assert(head@ =~= message@.take(colon as int));
        if chars_end_with(trim_chars(head.as_slice()).as_slice(), "Exception") {
            let tail = slice_chars(chars.as_slice(), colon + 1, chars.len());
            assert(tail@ =~= message@.skip(colon + 1));
            return string_from_chars(trim_chars(tail.as_slice()).as_slice());
        }
    }
    message.to_owned()
}

/// The trimmed text after the first `marker`, up to the next `|`.
pub open spec fn spec_value_text_after(line: Seq<char>, marker: Seq<char>) -> Option<Seq<char>> {
    let at = first_run(line, marker, 0);
    if at < 0 {
        None
    } else {
        let tail = line.skip(at + marker.len());
        let bar = first_index(tail, '|', 0);
        Some(trimmed(if bar < 0 { tail } else { tail.take(bar) }))
    }
}

/// The trimmed text after the first `marker` in `line`, up to the next `|`.
pub fn value_text_after(line: &str, marker: &str) -> (result: Option<String>)
    ensures
        match spec_value_text_after(line@, marker@) {
            Some(text) => result matches Some(found) && found@ == text,
            None => result is None,
        },
{
    let chars = chars_of(line);
    let at = match find_run(chars.as_slice(), marker) {
        Some(at) => at,
        None => return None,
    };
    let marker_len = chars_of(marker).len();
    assert(chars@.len() == chars.len());
    let tail = slice_chars(chars.as_slice(), at + marker_len, chars.len());
    assert(tail@ =~= line@.skip(at + marker@.len()));
    let field = match find_char(tail.as_slice(), '|') {
        Some(bar) => {
            let field = slice_chars(tail.as_slice(), 0, bar);
            assert(field@ =~= tail@.take(bar as int));
            field
        },
        None => tail,
    };
    Some(string_from_chars(trim_chars(field.as_slice()).as_slice()))
}

/// Number of ASCII digits that `s` starts with, counting from `i`.
pub open spec fn digit_run_end(s: Seq<char>, i: int) -> int
    decreases s.len() - i,
{
    if i < 0 || i >= s.len() || !spec_is_ascii_digit(s[i]) {
        i
    } else {
        digit_run_end(s, i + 1)
    }
}

/// The number that the digits at the start of the text after `marker` spell,
/// if there are such digits and their value fits in `usize`.
pub open spec fn spec_value_after(line: Seq<char>, marker: Seq<char>) -> Option<usize> {
    match spec_value_text_after(line, marker) {
        None => None,
        Some(text) => {
            let digits = text.take(digit_run_end(text, 0));
            if digits.len() == 0 || digits_value(digits) > usize::MAX {
                None
            } else {
                Some(digits_value(digits) as usize)
            }
        },
    }
}

/// A longer run of digits never has a smaller value.
proof fn lemma_digits_prefix_monotone(s: Seq<char>, i: int, j: int)
    requires
        0 <= i <= j <= s.len(),
        forall|k: int| 0 <= k < j ==> spec_is_ascii_digit(#[trigger] s[k]),
    ensures
        digits_value(s.subrange(0, i)) <= digits_value(s.subrange(0, j)),
    decreases j - i,
{
    if i < j {
        lemma_digits_prefix_monotone(s, i, j - 1);
        lemma_digits_value_step(s, 0, j - 1);
    }
}

/// The number written at the start of the text after `marker` in `line`.
pub fn value_after(line: &str, marker: &str) -> (result: Option<usize>)
    ensures
        result == spec_value_after(line@, marker@),
{
    let text = match value_text_after(line, marker) {
        Some(text) => text,
        None => return None,
    };
    let chars = chars_of(text.as_str());
    let mut end: usize = 0;
    while end < chars.len() && is_ascii_digit(chars[end])
        invariant
            end <= chars@.len(),
            digit_run_end(chars@, 0) == digit_run_end(chars@, end as int),
            forall|k: int| 0 <= k < end ==> spec_is_ascii_digit(#[trigger] chars@[k]),
        decreases chars@.len() - end,
    {
        end += 1;
    }
    assert(chars@.take(end as int) =~= chars@.subrange(0, end as int));
    assert(digit_run_end(chars@, 0) == end);
    if end == 0 {
        return None;
    }
    let mut value: usize = 0;
    let mut i: usize = 0;
    assert(chars@.subrange(0, 0) =~= Seq::<char>::empty());
    while i < end
        invariant
            i <= end <= chars@.len(),
            forall|k: int| 0 <= k < end ==> spec_is_ascii_digit(#[trigger] chars@[k]),
            value == digits_value(chars@.subrange(0, i as int)),
            digit_run_end(chars@, 0) == end,
            chars@.take(end as int) == chars@.subrange(0, end as int),
            chars@ == text@,
            spec_value_text_after(line@, marker@) == Some(text@),
        decreases end - i,
    {
        proof {
            lemma_digits_value_step(chars@, 0, i as int);
            assert(spec_is_ascii_digit(chars@[i as int]));
        }
        let d = (chars[i] as u32 - '0' as u32) as usize;
        assert(digits_value(chars@.subrange(0, i + 1)) == value * 10 + d);
        match value.checked_mul(10) {
            Some(shifted) => match shifted.checked_add(d) {
                Some(next) => {
                    value = next;
                },
                None => {
                    proof {
                        lemma_digits_prefix_monotone(chars@, i + 1, end as int);
                        assert(digit_run_end(chars@, 0) == end);
                    }
                    return None;
                },
            },
            None => {
                proof {
                    lemma_digits_prefix_monotone(chars@, i + 1, end as int);
                    assert(digit_run_end(chars@, 0) == end);
                }
                return None;
            },
        }
        i += 1;
    }
    Some(value)
}

} // verus!

verus! {

/// The whitespace-separated words of `s` from position `i` on, `current`
/// being the part of a word already read.
pub open spec fn words_from(s: Seq<char>, i: int, current: Seq<char>) -> Seq<Seq<char>>
    decreases s.len() - i,
{
    if i < 0 || i >= s.len() {
        if current.len() > 0 { seq![current] } else { Seq::empty() }
    } else if spec_is_whitespace(s[i]) {
        (if current.len() > 0 { seq![current] } else { Seq::empty() }) + words_from(s, i + 1, Seq::empty())
    } else {
        words_from(s, i + 1, current.push(s[i]))
    }
}

/// The whitespace-separated words of `s`, in order.
pub open spec fn words(s: Seq<char>) -> Seq<Seq<char>> {
    words_from(s, 0, Seq::empty())
}

/// The characters of each string.
pub open spec fn texts_of(strings: Seq<String>) -> Seq<Seq<char>> {
    Seq::new(strings.len(), |i: int| strings[i]@)
}

/// The words that follow a `from` (in any ASCII case), from word `i` on,
/// without surrounding commas.
pub open spec fn from_objects(words: Seq<Seq<char>>, i: int) -> Seq<Seq<char>>
    decreases words.len() - i,
{
    if i < 0 || i + 1 >= words.len() {
        Seq::empty()
    } else {
        (if eq_ignore_case(words[i], "from"@) { seq![comma_trimmed(words[i + 1])] } else { Seq::empty() })
            + from_objects(words, i + 1)
    }
}

/// The whitespace-separated words of `s`, in order.
pub(crate) fn split_words(s: &[char]) -> (result: Vec<Vec<char>>)
    ensures
        Seq::new(result@.len(), |k: int| result@[k]@) == words(s@),
{
    let mut out: Vec<Vec<char>> = Vec::new();
    let mut current: Vec<char> = Vec::new();
    let mut i: usize = 0;
    while i < s.len()
        invariant
            i <= s@.len(),
            Seq::new(out@.len(), |k: int| out@[k]@) + words_from(s@, i as int, current@) == words(s@),
        decreases s@.len() - i,
    {
        let ghost done = Seq::new(out@.len(), |k: int| out@[k]@);
        if is_whitespace(s[i]) {
            if current.len() > 0 {
                let word = current;
                out.push(word);
                current = Vec::new();
                proof {
                    assert(Seq::new(out@.len(), |k: int| out@[k]@) =~= done.push(word@));
                    assert(done + (seq![word@] + words_from(s@, i + 1, Seq::empty())) =~= done.push(word@)
                        + words_from(s@, i + 1, Seq::empty()));
                }
            } else {
                assert(Seq::<Seq<char>>::empty() + words_from(s@, i + 1, Seq::empty()) =~= words_from(
                    s@,
                    i + 1,
                    Seq::empty(),
                ));
            }
            assert(current@ =~= Seq::<char>::empty());
        } else {
            current.push(s[i]);
        }
        i += 1;
    }
    let ghost done = Seq::new(out@.len(), |k: int| out@[k]@);
    if current.len() > 0 {
        out.push(current);
        assert(Seq::new(out@.len(), |k: int| out@[k]@) =~= done + words_from(s@, i as int, current@));
    } else {
        assert(done + words_from(s@, i as int, current@) =~= done);
    }
    out
}

/// The objects a SOQL statement reads: each word after a `from`.
pub fn soql_objects(statement: &str) -> (result: Vec<String>)
    ensures
        texts_of(result@) == from_objects(words(statement@), 0),
{
    let chars = chars_of(statement);
    let parts = split_words(chars.as_slice());
    let ghost ws = Seq::new(parts@.len(), |k: int| parts@[k]@);
    let mut out: Vec<String> = Vec::new();
    let mut i: usize = 0;
    assert(texts_of(out@) + from_objects(ws, 0) =~= from_objects(ws, 0));
    while i < parts.len() && i + 1 < parts.len()
        invariant
            ws == Seq::new(parts@.len(), |k: int| parts@[k]@),
            ws == words(statement@),
            i <= parts@.len(),
            texts_of(out@) + from_objects(ws, i as int) == from_objects(ws, 0),
        decreases parts@.len() - i,
    {
        let ghost done = texts_of(out@);
        let lower = lower_chars(parts[i].as_slice());
        let from = chars_equal(lower.as_slice(), chars_of("from").as_slice());
        proof {
            reveal_strlit("from");
            assert(ascii_lower("from"@) =~= "from"@);
        }
        if from {
            let object = trim_commas(parts[i + 1].as_slice());
            out.push(string_from_chars(object.as_slice()));
            assert(texts_of(out@) =~= done.push(comma_trimmed(ws[i + 1])));
            assert(done + (seq![comma_trimmed(ws[i + 1])] + from_objects(ws, i + 1)) =~= done.push(
                comma_trimmed(ws[i + 1]),
            ) + from_objects(ws, i + 1));
        } else {
            assert(Seq::<Seq<char>>::empty() + from_objects(ws, i + 1) =~= from_objects(ws, i + 1));
        }
        i += 1;
    }
    assert(from_objects(ws, i as int) =~= Seq::<Seq<char>>::empty());
    assert(texts_of(out@) + Seq::<Seq<char>>::empty() =~= texts_of(out@));
    out
}

} // verus!

verus! {

/// A line without the `\r` of a `\r\n` ending.
pub open spec fn without_cr(line: Seq<char>) -> Seq<char> {
    if line.len() > 0 && line.last() == '\r' { line.drop_last() } else { line }
}

/// The lines of `s` from position `i` on, `current` being the part of a line
/// already read: split at `\n`, a `\r` before the `\n` dropped, and no empty
/// line after a final `\n`.
pub open spec fn lines_from(s: Seq<char>, i: int, current: Seq<char>) -> Seq<Seq<char>>
    decreases s.len() - i,
{
    if i < 0 || i >= s.len() {
        if current.len() > 0 { seq![current] } else { Seq::empty() }
    } else if s[i] == '\n' {
        seq![without_cr(current)] + lines_from(s, i + 1, Seq::empty())
    } else {
        lines_from(s, i + 1, current.push(s[i]))
    }
}

/// The lines of `s`, in order.
pub open spec fn lines(s: Seq<char>) -> Seq<Seq<char>> {
    lines_from(s, 0, Seq::empty())
}

/// The method named by a trimmed stack line: after `Class.` up to the next
/// `:`, or else up to the first `:`, or else the whole line.
pub open spec fn stack_method(line: Seq<char>) -> Seq<char> {
    let rest = line.skip("Class."@.len() as int);
    if starts_with(line, "Class."@) && first_index(rest, ':', 0) >= 0 {
        rest.take(first_index(rest, ':', 0))
    } else if first_index(line, ':', 0) >= 0 {
        line.take(first_index(line, ':', 0))
    } else {
        line
    }
}

/// The part after the last `.`, or all of `name`.
pub open spec fn last_segment(name: Seq<char>) -> Seq<char> {
    let dot = last_index(name, '.', name.len() as int);
    if dot < 0 { name } else { name.skip(dot + 1) }
}

/// The frames of the stack lines from `i` on: each line that names a method
/// gives its last dotted segment and the number after `line `.
pub open spec fn stack_frames(lines: Seq<Seq<char>>, i: int) -> Seq<(Seq<char>, Option<usize>)>
    decreases lines.len() - i,
{
    if i < 0 || i >= lines.len() {
        Seq::empty()
    } else {
        let line = trimmed(lines[i]);
        let method = stack_method(line);
        (if method.len() == 0 {
            Seq::empty()
        } else {
            seq![(last_segment(method), spec_value_after(line, "line "@))]
        }) + stack_frames(lines, i + 1)
    }
}

/// The method and line of each frame.
pub open spec fn frame_views(frames: Seq<StackObservation>) -> Seq<(Seq<char>, Option<usize>)> {
    Seq::new(frames.len(), |i: int| (frames[i].method@, frames[i].line))
}

/// The lines of `s`, in order.
pub(crate) fn split_lines(s: &[char]) -> (result: Vec<Vec<char>>)
    ensures
        Seq::new(result@.len(), |k: int| result@[k]@) == lines(s@),
{
    let mut out: Vec<Vec<char>> = Vec::new();
    let mut current: Vec<char> = Vec::new();
    let mut i: usize = 0;
    while i < s.len()
        invariant
            i <= s@.len(),
            Seq::new(out@.len(), |k: int| out@[k]@) + lines_from(s@, i as int, current@) == lines(s@),
        decreases s@.len() - i,
    {
        let ghost done = Seq::new(out@.len(), |k: int| out@[k]@);
        if s[i] == '\n' {
            let ghost cur = current@;
            let mut line = current;
            if line.len() > 0 && line[line.len() - 1] == '\r' {
                line.pop();
            }
            assert(line@ =~= without_cr(cur));
            let ghost line_view = line@;
            out.push(line);
            current = Vec::new();
            proof {
                assert(Seq::new(out@.len(), |k: int| out@[k]@) =~= done.push(line_view));
                assert(done + (seq![line_view] + lines_from(s@, i + 1, Seq::empty())) =~= done.push(line_view)
                    + lines_from(s@, i + 1, Seq::empty()));
            }
            assert(current@ =~= Seq::<char>::empty());
        } else {
            current.push(s[i]);
        }
        i += 1;
    }
    let ghost done = Seq::new(out@.len(), |k: int| out@[k]@);
    if current.len() > 0 {
        out.push(current);
        assert(Seq::new(out@.len(), |k: int| out@[k]@) =~= done + lines_from(s@, i as int, current@));
    } else {
        assert(done + lines_from(s@, i as int, current@) =~= done);
    }
    out
}


/// The method named by a trimmed stack line.
fn stack_method_of(line: &[char]) -> (result: Vec<char>)
    ensures
        result@ == stack_method(line@),
{
    if chars_start_with(line, "Class.") {
        let prefix = chars_of("Class.");
        let rest = slice_chars(line, prefix.len(), line.len());
        assert(rest@ =~= line@.skip("Class."@.len() as int));
        if let Some(colon) = find_char(rest.as_slice(), ':') {
            let method = slice_chars(rest.as_slice(), 0, colon);
            assert(method@ =~= rest@.take(colon as int));
            return method;
        }
    }
    if let Some(colon) = find_char(line, ':') {
        let method = slice_chars(line, 0, colon);
        assert(method@ =~= line@.take(colon as int));
        return method;
    }
    let whole = slice_chars(line, 0, line.len());
    assert(whole@ =~= line@);
    whole
}

/// The part of `name` after its last `.`.
fn last_segment_of(name: &[char]) -> (result: Vec<char>)
    ensures
        result@ == last_segment(name@),
{
    assert(name@.len() == name.len());
    match find_last_char(name, '.') {
        Some(dot) => {
            let tail = slice_chars(name, dot + 1, name.len());
            assert(tail@ =~= name@.skip(dot + 1));
            tail
        },
        None => {
            let whole = slice_chars(name, 0, name.len());
            assert(whole@ =~= name@);
            whole
        },
    }
}

/// The frames of a Salesforce stack trace, one per line that names a method.
pub fn parse_salesforce_stack(stack: &str) -> (result: Vec<StackObservation>)
    ensures
        frame_views(result@) == stack_frames(lines(stack@), 0),
{
    let chars = chars_of(stack);
    let parts = split_lines(chars.as_slice());
    let ghost ls = Seq::new(parts@.len(), |k: int| parts@[k]@);
    let mut out: Vec<StackObservation> = Vec::new();
    let mut i: usize = 0;
    assert(frame_views(out@) + stack_frames(ls, 0) =~= stack_frames(ls, 0));
    while i < parts.len()
        invariant
            ls == Seq::new(parts@.len(), |k: int| parts@[k]@),
            ls == lines(stack@),
            i <= parts@.len(),
            frame_views(out@) + stack_frames(ls, i as int) == stack_frames(ls, 0),
        decreases parts@.len() - i,
    {
        let ghost done = frame_views(out@);
        let line = trim_chars(parts[i].as_slice());
        let method = stack_method_of(line.as_slice());
        if method.len() > 0 {
            let name = last_segment_of(method.as_slice());
            let text = string_from_chars(line.as_slice());
            let number = value_after(text.as_str(), "line ");
            let frame = StackObservation { method: string_from_chars(name.as_slice()), line: number };
            let ghost view = (frame.method@, frame.line);
            out.push(frame);
            assert(frame_views(out@) =~= done.push(view));
            assert(done + (seq![view] + stack_frames(ls, i + 1)) =~= done.push(view) + stack_frames(ls, i + 1));
        } else {
            assert(Seq::<(Seq<char>, Option<usize>)>::empty() + stack_frames(ls, i + 1) =~= stack_frames(ls, i + 1));
        }
        i += 1;
    }
    assert(frame_views(out@) + Seq::<(Seq<char>, Option<usize>)>::empty() =~= frame_views(out@));
    out
}

} // verus!

verus! {

/// What a conformance fixture runs.
#[derive(Clone, Debug, PartialEq, Eq)]
pub enum FixtureEntrypoint {
    Compile,
    Invoke { target: String },
    Test { filter: String },
}

/// One dimension along which local and Salesforce results are compared.
#[derive(Clone, Copy, Debug, PartialEq, Eq, PartialOrd, Ord, Hash, Structural)]
pub enum ComparisonScope {
    Compile,
    Values,
    Output,
    Exceptions,
    Queries,
    Dml,
    Triggers,
    Tests,
}

impl ComparisonScope {
    /// The scope's name as written in messages.
    pub open spec fn spec_name(self) -> Seq<char> {
        match self {
            ComparisonScope::Compile => "Compile"@,
            ComparisonScope::Values => "Values"@,
            ComparisonScope::Output => "Output"@,
            ComparisonScope::Exceptions => "Exceptions"@,
            ComparisonScope::Queries => "Queries"@,
            ComparisonScope::Dml => "Dml"@,
            ComparisonScope::Triggers => "Triggers"@,
            ComparisonScope::Tests => "Tests"@,
        }
    }

    /// The scope's name as written in messages.
    pub fn name(self) -> (result: &'static str)
        ensures
            result@ == self.spec_name(),
    {
        match self {
            ComparisonScope::Compile => "Compile",
            ComparisonScope::Values => "Values",
            ComparisonScope::Output => "Output",
            ComparisonScope::Exceptions => "Exceptions",
            ComparisonScope::Queries => "Queries",
            ComparisonScope::Dml => "Dml",
            ComparisonScope::Triggers => "Triggers",
            ComparisonScope::Tests => "Tests",
        }
    }
}

/// The error for a fixture name, if it is blank or holds a path separator.
pub open spec fn fixture_name_error(name: Seq<char>) -> Option<Seq<char>> {
    if trimmed(name).len() == 0 {
        Some("oracle fixture name cannot be empty"@)
    } else if name.contains('/') || name.contains('\\') {
        Some("oracle fixture name `"@ + name + "` cannot contain path separators"@)
    } else {
        None
    }
}

/// Whether `c` occurs in `s`.
fn chars_contain(s: &[char], c: char) -> (result: bool)
    ensures
        result == s@.contains(c),
{
    let mut i: usize = 0;
    while i < s.len()
        invariant
            i <= s@.len(),
            forall|k: int| 0 <= k < i ==> s@[k] != c,
        decreases s@.len() - i,
    {
        if s[i] == c {
            assert(s@[i as int] == c);
            return true;
        }
        i += 1;
    }
    false
}

/// Checks that a fixture name is not blank and holds no path separator.
pub fn validate_fixture_name(name: &str) -> (result: Result<(), String>)
    ensures
        match fixture_name_error(name@) {
            Some(message) => result matches Err(error) && error@ == message,
            None => result is Ok,
        },
{
    let chars = chars_of(name);
    if trim_chars(chars.as_slice()).len() == 0 {
        return Err("oracle fixture name cannot be empty".to_owned());
    }
    if chars_contain(chars.as_slice(), '/') || chars_contain(chars.as_slice(), '\\') {
        return Err(crate::text::concat3("oracle fixture name `", name, "` cannot contain path separators"));
    }
    Ok(())
}

/// The `Class.method` that an entrypoint names, if it names one.
pub open spec fn entrypoint_target(entrypoint: FixtureEntrypoint) -> Option<Seq<char>> {
    match entrypoint {
        FixtureEntrypoint::Compile => None,
        FixtureEntrypoint::Invoke { target } => Some(target@),
        FixtureEntrypoint::Test { filter } => Some(filter@),
    }
}

/// Whether a target has the form `Class.method`: a non-empty class, one `.`,
/// and a non-empty method without further dots.
pub open spec fn is_class_method(target: Seq<char>) -> bool {
    let dot = first_index(target, '.', 0);
    &&& dot > 0
    &&& dot + 1 < target.len()
    &&& !target.skip(dot + 1).contains('.')
}

/// The message for a target that is not `Class.method`.
pub open spec fn target_form_message(name: Seq<char>) -> Seq<char> {
    "fixture `"@ + name + "` target must have the form Class.method"@
}

/// Checks that an invoking or testing fixture names a `Class.method` target.
pub fn validate_entrypoint(name: &str, entrypoint: &FixtureEntrypoint) -> (result: Result<(), String>)
    ensures
        match entrypoint_target(*entrypoint) {
            Some(target) => if is_class_method(target) {
                result is Ok
            } else {
                result matches Err(error) && error@ == target_form_message(name@)
            },
            None => result is Ok,
        },
{
    let target = match entrypoint {
        FixtureEntrypoint::Compile => return Ok(()),
        FixtureEntrypoint::Invoke { target } => target,
        FixtureEntrypoint::Test { filter } => filter,
    };
    let chars = chars_of(target.as_str());
    assert(chars@.len() == chars.len());
    let dot = match find_char(chars.as_slice(), '.') {
        Some(dot) => dot,
        None => return Err(crate::text::concat3("fixture `", name, "` target must have the form Class.method")),
    };
    let method = slice_chars(chars.as_slice(), dot + 1, chars.len());
    assert(method@ =~= target@.skip(dot + 1));
    if dot == 0 || method.len() == 0 || chars_contain(method.as_slice(), '.') {
        return Err(crate::text::concat3("fixture `", name, "` target must have the form Class.method"));
    }
    Ok(())
}

/// Index of the first scope that repeats an earlier one, from `i` on, or `-1`.
pub open spec fn first_repeat(scopes: Seq<ComparisonScope>, i: int) -> int
    decreases scopes.len() - i,
{
    if i < 0 || i >= scopes.len() {
        -1
    } else if scopes.take(i).contains(scopes[i]) {
        i
    } else {
        first_repeat(scopes, i + 1)
    }
}

/// The error for a fixture's comparison scopes, if any: none selected, one
/// repeated, no compile scope, or more than compile for a compile-only fixture.
pub open spec fn scopes_error(name: Seq<char>, entrypoint: FixtureEntrypoint, scopes: Seq<ComparisonScope>) -> Option<Seq<char>> {
    if scopes.len() == 0 {
        Some("fixture `"@ + name + "` must select at least one comparison scope"@)
    } else if first_repeat(scopes, 0) >= 0 {
        Some("fixture `"@ + name + "` repeats comparison scope `"@ + scopes[first_repeat(scopes, 0)].spec_name() + "`"@)
    } else if !scopes.contains(ComparisonScope::Compile) {
        Some("fixture `"@ + name + "` must always compare compile behavior"@)
    } else if entrypoint is Compile && scopes.len() != 1 {
        Some("compile-only fixture `"@ + name + "` can compare only the compile scope"@)
    } else {
        None
    }
}

/// Whether `scope` is among the first `n` of `scopes`.
fn scope_among(scopes: &[ComparisonScope], n: usize, scope: ComparisonScope) -> (result: bool)
    requires
        n <= scopes@.len(),
    ensures
        result == scopes@.take(n as int).contains(scope),
{
    let mut i: usize = 0;
    while i < n
        invariant
            i <= n <= scopes@.len(),
            forall|k: int| 0 <= k < i ==> scopes@[k] != scope,
        decreases n - i,
    {
        if scopes[i] == scope {
            assert(scopes@.take(n as int)[i as int] == scope);
            return true;
        }
        i += 1;
    }
    assert forall|k: int| 0 <= k < n implies scopes@.take(n as int)[k] != scope by {
        assert(scopes@.take(n as int)[k] == scopes@[k]);
    }
    false
}

/// Checks a fixture's comparison scopes.
pub fn validate_scopes(name: &str, entrypoint: &FixtureEntrypoint, scopes: &[ComparisonScope]) -> (result: Result<(), String>)
    ensures
        match scopes_error(name@, *entrypoint, scopes@) {
            Some(message) => result matches Err(error) && error@ == message,
            None => result is Ok,
        },
{
    if scopes.len() == 0 {
        return Err(crate::text::concat3("fixture `", name, "` must select at least one comparison scope"));
    }
    let mut i: usize = 0;
    while i < scopes.len()
        invariant
            i <= scopes@.len(),
            first_repeat(scopes@, 0) == first_repeat(scopes@, i as int),
        decreases scopes@.len() - i,
    {
        if scope_among(scopes, i, scopes[i]) {
            let mut out: Vec<char> = Vec::new();
            push_str(&mut out, "fixture `");
            push_str(&mut out, name);
            push_str(&mut out, "` repeats comparison scope `");
            push_str(&mut out, scopes[i].name());
            push_str(&mut out, "`");
            return Err(string_from_chars(out.as_slice()));
        }
        i += 1;
    }
    if !scope_among(scopes, scopes.len(), ComparisonScope::Compile) {
        assert(scopes@.take(scopes@.len() as int) =~= scopes@);
        return Err(crate::text::concat3("fixture `", name, "` must always compare compile behavior"));
    }
    assert(scopes@.take(scopes@.len() as int) =~= scopes@);
    if matches!(entrypoint, FixtureEntrypoint::Compile) && scopes.len() != 1 {
        return Err(crate::text::concat3("compile-only fixture `", name, "` can compare only the compile scope"));
    }
    Ok(())
}

} // verus!

verus! {

/// One SOQL query that an execution log records.
#[derive(Clone, Debug, PartialEq, Eq)]
pub struct QueryObservation {
    pub kind: String,
    pub objects: Vec<String>,
    pub rows: usize,
    pub succeeded: bool,
}

/// One DML operation that an execution log records.
#[derive(Clone, Debug, PartialEq, Eq)]
pub struct DmlObservation {
    pub operation: String,
    pub objects: Vec<String>,
    pub records: usize,
    pub succeeded: bool,
}

/// The entry into or exit from a trigger that an execution log records.
#[derive(Clone, Debug, PartialEq, Eq)]
pub struct TriggerObservation {
    pub trigger: String,
    pub object: String,
    pub operation: String,
    pub phase: String,
    pub stage: String,
}

/// The text after the first `marker` in `s`, if `marker` occurs.
pub open spec fn after_first(s: Seq<char>, marker: Seq<char>) -> Option<Seq<char>> {
    let at = first_run(s, marker, 0);
    if at < 0 { None } else { Some(s.skip(at + marker.len())) }
}

/// The text after the last `|` of `s`, or all of `s`.
pub open spec fn after_last_bar(s: Seq<char>) -> Seq<char> {
    s.skip(last_index(s, '|', s.len() as int) + 1)
}

/// The text before the first `|` of `s`, or all of `s`.
pub open spec fn before_first_bar(s: Seq<char>) -> Seq<char> {
    let bar = first_index(s, '|', 0);
    if bar < 0 { s } else { s.take(bar) }
}

/// The text after the first `marker` in `s`, if `marker` occurs.
fn after_first_of(s: &[char], marker: &str) -> (result: Option<Vec<char>>)
    ensures
        match after_first(s@, marker@) {
            Some(text) => result matches Some(found) && found@ == text,
            None => result is None,
        },
{
    assert(s@.len() == s.len());
    match find_run(s, marker) {
        Some(at) => {
            let n = chars_of(marker).len();
            let tail = slice_chars(s, at + n, s.len());
            assert(tail@ =~= s@.skip(at + marker@.len()));
            Some(tail)
        },
        None => None,
    }
}

/// The text after the last `|` of `s`, or all of `s`.
fn after_last_bar_of(s: &[char]) -> (result: Vec<char>)
    ensures
        result@ == after_last_bar(s@),
{
    assert(s@.len() == s.len());
    let from = match find_last_char(s, '|') {
        Some(bar) => bar + 1,
        None => 0,
    };
    let tail = slice_chars(s, from, s.len());
    assert(tail@ =~= after_last_bar(s@));
    tail
}

/// The text before the first `|` of `s`, or all of `s`.
fn before_first_bar_of(s: &[char]) -> (result: Vec<char>)
    ensures
        result@ == before_first_bar(s@),
{
    let to = match find_char(s, '|') {
        Some(bar) => bar,
        None => s.len(),
    };
    let head = slice_chars(s, 0, to);
    assert(head@ =~= before_first_bar(s@));
    head
}

/// The message of a `USER_DEBUG` log line: the trimmed text after the
/// `|USER_DEBUG|` marker and, where present, after a `|DEBUG|` level.
pub open spec fn debug_message(line: Seq<char>) -> Option<Seq<char>> {
    match after_first(line, "|USER_DEBUG|"@) {
        None => None,
        Some(message) => Some(
            trimmed(
                match after_first(message, "|DEBUG|"@) {
                    Some(text) => text,
                    None => message,
                },
            ),
        ),
    }
}

/// The debug messages of the log lines from `i` on.
pub open spec fn debug_messages(lines: Seq<Seq<char>>, i: int) -> Seq<Seq<char>>
    decreases lines.len() - i,
{
    if i >= lines.len() {
        Seq::empty()
    } else {
        (match debug_message(lines[i]) {
            Some(message) => seq![message],
            None => Seq::empty(),
        }) + debug_messages(lines, i + 1)
    }
}

/// The messages that a Salesforce execution log's `USER_DEBUG` lines carry,
/// in log order.
pub fn salesforce_debug_output(logs: &str) -> (result: Vec<String>)
    ensures
        texts_of(result@) == debug_messages(lines(logs@), 0),
{
    let chars = chars_of(logs);
    let parts = split_lines(chars.as_slice());
    let ghost ls = Seq::new(parts@.len(), |k: int| parts@[k]@);
    let mut out: Vec<String> = Vec::new();
    let mut i: usize = 0;
    assert(texts_of(out@) + debug_messages(ls, 0) =~= debug_messages(ls, 0));
    while i < parts.len()
        invariant
            ls == Seq::new(parts@.len(), |k: int| parts@[k]@),
            ls == lines(logs@),
            i <= parts@.len(),
            texts_of(out@) + debug_messages(ls, i as int) == debug_messages(ls, 0),
        decreases parts@.len() - i,
    {
        let ghost done = texts_of(out@);
        match after_first_of(parts[i].as_slice(), "|USER_DEBUG|") {
            Some(message) => {
                let text = match after_first_of(message.as_slice(), "|DEBUG|") {
                    Some(text) => text,
                    None => message,
                };
                let trimmed_text = trim_chars(text.as_slice());
                let ghost view = trimmed_text@;
                out.push(string_from_chars(trimmed_text.as_slice()));
                assert(texts_of(out@) =~= done.push(view));
                assert(done + (seq![view] + debug_messages(ls, i + 1)) =~= done.push(view) + debug_messages(
                    ls,
                    i + 1,
                ));
            },
            None => {
                assert(Seq::<Seq<char>>::empty() + debug_messages(ls, i + 1) =~= debug_messages(ls, i + 1));
            },
        }
        i += 1;
    }
    assert(texts_of(out@) + Seq::<Seq<char>>::empty() =~= texts_of(out@));
    out
}

/// A query as plain values: kind, objects, rows, success.
pub open spec fn query_view(query: QueryObservation) -> (Seq<char>, Seq<Seq<char>>, usize, bool) {
    (query.kind@, texts_of(query.objects@), query.rows, query.succeeded)
}

/// Each query as plain values.
pub open spec fn query_views(queries: Seq<QueryObservation>) -> Seq<(Seq<char>, Seq<Seq<char>>, usize, bool)> {
    Seq::new(queries.len(), |i: int| query_view(queries[i]))
}

/// A SOQL query of `statement`, as plain values.
pub open spec fn soql_view(statement: Seq<char>, rows: usize, succeeded: bool) -> (
    Seq<char>,
    Seq<Seq<char>>,
    usize,
    bool,
) {
    ("soql"@, from_objects(words(statement), 0), rows, succeeded)
}

/// The number after `Rows:` on a log line, or zero.
pub open spec fn rows_in(line: Seq<char>) -> usize {
    match spec_value_after(line, "Rows:"@) {
        Some(rows) => rows,
        None => 0,
    }
}

/// The queries of the log lines from `i` on, `pending` being the statement of
/// a query begun and not yet ended: a begin line starts a query (dropping an
/// unended one), an end line completes the pending query with its rows, and
/// a query still pending at the end of the log is recorded as unfinished.
pub open spec fn queries_from(lines: Seq<Seq<char>>, i: int, pending: Option<Seq<char>>) -> Seq<
    (Seq<char>, Seq<Seq<char>>, usize, bool),
>
    decreases lines.len() - i,
{
    if i >= lines.len() {
        match pending {
            Some(statement) => seq![soql_view(statement, 0, false)],
            None => Seq::empty(),
        }
    } else if contains_run(lines[i], "|SOQL_EXECUTE_BEGIN|"@) {
        queries_from(lines, i + 1, Some(after_last_bar(lines[i])))
    } else if contains_run(lines[i], "|SOQL_EXECUTE_END|"@) && pending is Some {
        seq![soql_view(pending->0, rows_in(lines[i]), true)] + queries_from(lines, i + 1, None)
    } else {
        queries_from(lines, i + 1, pending)
    }
}

/// The SOQL queries that a Salesforce execution log records, in log order.
pub fn parse_salesforce_queries(logs: &str) -> (result: Vec<QueryObservation>)
    ensures
        query_views(result@) == queries_from(lines(logs@), 0, None),
{
    let chars = chars_of(logs);
    let parts = split_lines(chars.as_slice());
    let ghost ls = Seq::new(parts@.len(), |k: int| parts@[k]@);
    let mut out: Vec<QueryObservation> = Vec::new();
    let mut pending: Option<QueryObservation> = None;
    let ghost mut statement: Option<Seq<char>> = None;
    let mut i: usize = 0;
    assert(query_views(out@) + queries_from(ls, 0, None) =~= queries_from(ls, 0, None));
    while i < parts.len()
        invariant
            ls == Seq::new(parts@.len(), |k: int| parts@[k]@),
            ls == lines(logs@),
            i <= parts@.len(),
            query_views(out@) + queries_from(ls, i as int, statement) == queries_from(ls, 0, None),
            pending is Some <==> statement is Some,
            pending matches Some(query) ==> query_view(query) == soql_view(statement->0, 0, false),
        decreases parts@.len() - i,
    {
        let ghost done = query_views(out@);
        let line = parts[i].as_slice();
        if contains_str(line, "|SOQL_EXECUTE_BEGIN|") {
            let text = after_last_bar_of(line);
            let query = QueryObservation {
                kind: "soql".to_string(),
                objects: soql_objects(string_from_chars(text.as_slice()).as_str()),
                rows: 0,
                succeeded: false,
            };
            proof {
                statement = Some(text@);
            }
            pending = Some(query);
        } else if contains_str(line, "|SOQL_EXECUTE_END|") && pending.is_some() {
            let mut query = pending.unwrap();
            let text = string_from_chars(line);
            query.rows = match value_after(text.as_str(), "Rows:") {
                Some(rows) => rows,
                None => 0,
            };
            query.succeeded = true;
            let ghost view = query_view(query);
            assert(view == soql_view(statement->0, rows_in(ls[i as int]), true));
            out.push(query);
            pending = None;
            proof {
                statement = None;
            }
            assert(query_views(out@) =~= done.push(view));
            assert(done + (seq![view] + queries_from(ls, i + 1, None)) =~= done.push(view) + queries_from(
                ls,
                i + 1,
                None,
            ));
        }
        i += 1;
    }
    let ghost done = query_views(out@);
    match pending {
        Some(query) => {
            let ghost view = query_view(query);
            out.push(query);
            assert(query_views(out@) =~= done.push(view));
        },
        None => {
            assert(done + Seq::empty() =~= done);
        },
    }
    out
}


/// A DML operation as plain values: operation, objects, records, success.
pub open spec fn dml_view(event: DmlObservation) -> (Seq<char>, Seq<Seq<char>>, usize, bool) {
    (event.operation@, texts_of(event.objects@), event.records, event.succeeded)
}

/// Each DML operation as plain values.
pub open spec fn dml_views(events: Seq<DmlObservation>) -> Seq<(Seq<char>, Seq<Seq<char>>, usize, bool)> {
    Seq::new(events.len(), |i: int| dml_view(events[i]))
}

/// The operation a `DML_BEGIN` line starts, not yet ended: its lower-cased
/// `Op:` (or `unknown`), its `Type:` as the one object (or none), and its
/// `Rows:` (or zero).
pub open spec fn dml_begin(line: Seq<char>) -> (Seq<char>, Seq<Seq<char>>, usize, bool) {
    (
        ascii_lower(
            match spec_value_text_after(line, "Op:"@) {
                Some(operation) => operation,
                None => "unknown"@,
            },
        ),
        match spec_value_text_after(line, "Type:"@) {
            Some(object) => seq![object],
            None => Seq::empty(),
        },
        rows_in(line),
        false,
    )
}

/// The DML operations of the log lines from `i` on, `pending` being one begun
/// and not yet ended: a begin line starts one (dropping an unended one), an
/// end line completes the pending one, and one still pending at the end of
/// the log is recorded as unfinished.
pub open spec fn dml_from(
    lines: Seq<Seq<char>>,
    i: int,
    pending: Option<(Seq<char>, Seq<Seq<char>>, usize, bool)>,
) -> Seq<(Seq<char>, Seq<Seq<char>>, usize, bool)>
    decreases lines.len() - i,
{
    if i >= lines.len() {
        match pending {
            Some(event) => seq![event],
            None => Seq::empty(),
        }
    } else if contains_run(lines[i], "|DML_BEGIN|"@) {
        dml_from(lines, i + 1, Some(dml_begin(lines[i])))
    } else if contains_run(lines[i], "|DML_END|"@) && pending is Some {
        let event = pending->0;
        seq![(event.0, event.1, event.2, true)] + dml_from(lines, i + 1, None)
    } else {
        dml_from(lines, i + 1, pending)
    }
}

/// The DML operation that a `DML_BEGIN` line starts.
fn dml_begin_of(line: &[char]) -> (result: DmlObservation)
    ensures
        dml_view(result) == dml_begin(line@),
{
    let text = string_from_chars(line);
    let operation = match value_text_after(text.as_str(), "Op:") {
        Some(operation) => to_ascii_lowercase(operation.as_str()),
        None => to_ascii_lowercase("unknown"),
    };
    let mut objects: Vec<String> = Vec::new();
    if let Some(object) = value_text_after(text.as_str(), "Type:") {
        objects.push(object);
    }
    let records = match value_after(text.as_str(), "Rows:") {
        Some(rows) => rows,
        None => 0,
    };
    let event = DmlObservation { operation, objects, records, succeeded: false };
    assert(texts_of(event.objects@) =~= dml_begin(line@).1);
    event
}

/// The DML operations that a Salesforce execution log records, in log order.
pub fn parse_salesforce_dml(logs: &str) -> (result: Vec<DmlObservation>)
    ensures
        dml_views(result@) == dml_from(lines(logs@), 0, None),
{
    let chars = chars_of(logs);
    let parts = split_lines(chars.as_slice());
    let ghost ls = Seq::new(parts@.len(), |k: int| parts@[k]@);
    let mut out: Vec<DmlObservation> = Vec::new();
    let mut pending: Option<DmlObservation> = None;
    let ghost mut begun: Option<(Seq<char>, Seq<Seq<char>>, usize, bool)> = None;
    let mut i: usize = 0;
    assert(dml_views(out@) + dml_from(ls, 0, None) =~= dml_from(ls, 0, None));
    while i < parts.len()
        invariant
            ls == Seq::new(parts@.len(), |k: int| parts@[k]@),
            ls == lines(logs@),
            i <= parts@.len(),
            dml_views(out@) + dml_from(ls, i as int, begun) == dml_from(ls, 0, None),
            pending is Some <==> begun is Some,
            pending matches Some(event) ==> dml_view(event) == begun->0,
        decreases parts@.len() - i,
    {
        let ghost done = dml_views(out@);
        let line = parts[i].as_slice();
        if contains_str(line, "|DML_BEGIN|") {
            let event = dml_begin_of(line);
            proof {
                begun = Some(dml_view(event));
            }
            pending = Some(event);
        } else if contains_str(line, "|DML_END|") && pending.is_some() {
            let mut event = pending.unwrap();
            event.succeeded = true;
            let ghost view = dml_view(event);
            out.push(event);
            pending = None;
            proof {
                begun = None;
            }
            assert(dml_views(out@) =~= done.push(view));
            assert(done + (seq![view] + dml_from(ls, i + 1, None)) =~= done.push(view) + dml_from(
                ls,
                i + 1,
                None,
            ));
        }
        i += 1;
    }
    let ghost done = dml_views(out@);
    match pending {
        Some(event) => {
            let ghost view = dml_view(event);
            out.push(event);
            assert(dml_views(out@) =~= done.push(view));
        },
        None => {
            assert(done + Seq::empty() =~= done);
        },
    }
    out
}

/// A trigger event as plain values: trigger, object, operation, phase, stage.
pub open spec fn trigger_view(event: TriggerObservation) -> (Seq<char>, Seq<char>, Seq<char>, Seq<char>, Seq<char>) {
    (event.trigger@, event.object@, event.operation@, event.phase@, event.stage@)
}

/// Each trigger event as plain values.
pub open spec fn trigger_views(events: Seq<TriggerObservation>) -> Seq<
    (Seq<char>, Seq<char>, Seq<char>, Seq<char>, Seq<char>),
> {
    Seq::new(events.len(), |i: int| trigger_view(events[i]))
}

/// The trigger event of a code-unit log line, if it records one: `enter` for
/// a started unit and `exit` for a finished one; the unit after the last `|`
/// before ` trigger event `, split at its last ` on ` into trigger and
/// object; and the event up to the next `|`, lower-cased, split into a
/// `before` or `after` phase and the operation that follows it.
pub open spec fn trigger_event(line: Seq<char>) -> Option<(Seq<char>, Seq<char>, Seq<char>, Seq<char>, Seq<char>)> {
    let stage = if contains_run(line, "|CODE_UNIT_STARTED|"@) {
        Some("enter"@)
    } else if contains_run(line, "|CODE_UNIT_FINISHED|"@) {
        Some("exit"@)
    } else {
        None
    };
    let split = first_run(line, " trigger event "@, 0);
    if stage is None || split < 0 {
        None
    } else {
        let unit = after_last_bar(line.take(split));
        let on = last_run(unit, " on "@, unit.len() - " on "@.len());
        let event = ascii_lower(before_first_bar(line.skip(split + " trigger event "@.len())));
        if on < 0 {
            None
        } else if starts_with(event, "before"@) {
            Some((unit.take(on), unit.skip(on + " on "@.len()), event.skip("before"@.len() as int), "before"@, stage->0))
        } else if starts_with(event, "after"@) {
            Some((unit.take(on), unit.skip(on + " on "@.len()), event.skip("after"@.len() as int), "after"@, stage->0))
        } else {
            None
        }
    }
}

/// The trigger events of the log lines from `i` on.
pub open spec fn trigger_events(lines: Seq<Seq<char>>, i: int) -> Seq<
    (Seq<char>, Seq<char>, Seq<char>, Seq<char>, Seq<char>),
>
    decreases lines.len() - i,
{
    if i >= lines.len() {
        Seq::empty()
    } else {
        (match trigger_event(lines[i]) {
            Some(event) => seq![event],
            None => Seq::empty(),
        }) + trigger_events(lines, i + 1)
    }
}

/// The trigger event that a log line records, if any.
fn trigger_event_of(line: &[char]) -> (result: Option<TriggerObservation>)
    ensures
        match trigger_event(line@) {
            Some(view) => result matches Some(event) && trigger_view(event) == view,
            None => result is None,
        },
{
    let stage = if contains_str(line, "|CODE_UNIT_STARTED|") {
        "enter"
    } else if contains_str(line, "|CODE_UNIT_FINISHED|") {
        "exit"
    } else {
        return None;
    };
    assert(line@.len() == line.len());
    let split = match find_run(line, " trigger event ") {
        Some(split) => split,
        None => return None,
    };
    let marker_len = chars_of(" trigger event ").len();
    let left = slice_chars(line, 0, split);
    assert(left@ =~= line@.take(split as int));
    let rest = slice_chars(line, split + marker_len, line.len());
    assert(rest@ =~= line@.skip(split + " trigger event "@.len()));
    let unit = after_last_bar_of(left.as_slice());
    assert(unit@.len() == unit.len());
    let on = match find_last_run(unit.as_slice(), " on ") {
        Some(on) => on,
        None => return None,
    };
    let on_len = chars_of(" on ").len();
    let trigger = slice_chars(unit.as_slice(), 0, on);
    assert(trigger@ =~= unit@.take(on as int));
    let object = slice_chars(unit.as_slice(), on + on_len, unit.len());
    assert(object@ =~= unit@.skip(on + " on "@.len()));
    let event = lower_chars(before_first_bar_of(rest.as_slice()).as_slice());
    assert(event@.len() == event.len());
    let phase = if chars_start_with(event.as_slice(), "before") {
        "before"
    } else if chars_start_with(event.as_slice(), "after") {
        "after"
    } else {
        return None;
    };
    let phase_len = chars_of(phase).len();
    let operation = slice_chars(event.as_slice(), phase_len, event.len());
    assert(operation@ =~= event@.skip(phase@.len() as int));
    Some(
        TriggerObservation {
            trigger: string_from_chars(trigger.as_slice()),
            object: string_from_chars(object.as_slice()),
            operation: string_from_chars(operation.as_slice()),
            phase: phase.to_string(),
            stage: stage.to_string(),
        },
    )
}

/// The trigger entries and exits that a Salesforce execution log records,
/// in log order.
pub fn parse_salesforce_triggers(logs: &str) -> (result: Vec<TriggerObservation>)
    ensures
        trigger_views(result@) == trigger_events(lines(logs@), 0),
{
    let chars = chars_of(logs);
    let parts = split_lines(chars.as_slice());
    let ghost ls = Seq::new(parts@.len(), |k: int| parts@[k]@);
    let mut out: Vec<TriggerObservation> = Vec::new();
    let mut i: usize = 0;
    assert(trigger_views(out@) + trigger_events(ls, 0) =~= trigger_events(ls, 0));
    while i < parts.len()
        invariant
            ls == Seq::new(parts@.len(), |k: int| parts@[k]@),
            ls == lines(logs@),
            i <= parts@.len(),
            trigger_views(out@) + trigger_events(ls, i as int) == trigger_events(ls, 0),
        decreases parts@.len() - i,
    {
        let ghost done = trigger_views(out@);
        match trigger_event_of(parts[i].as_slice()) {
            Some(event) => {
                let ghost view = trigger_view(event);
                out.push(event);
                assert(trigger_views(out@) =~= done.push(view));
                assert(done + (seq![view] + trigger_events(ls, i + 1)) =~= done.push(view) + trigger_events(
                    ls,
                    i + 1,
                ));
            },
            None => {
                assert(Seq::<(Seq<char>, Seq<char>, Seq<char>, Seq<char>, Seq<char>)>::empty() + trigger_events(
                    ls,
                    i + 1,
                ) =~= trigger_events(ls, i + 1));
            },
        }
        i += 1;
    }
    assert(trigger_views(out@) + Seq::<(Seq<char>, Seq<char>, Seq<char>, Seq<char>, Seq<char>)>::empty()
        =~= trigger_views(out@));
    out
}

} // verus!

verus! {

/// Looks for the member `key` among an object's own entries.
pub open spec fn member_probe(key: Seq<char>) -> spec_fn(Seq<(String, JsonValue)>) -> Option<JsonValue> {
    |entries: Seq<(String, JsonValue)>| entry_value(entries, key)
}

/// The value of the first member named `key` in document order, whatever
/// its kind.
pub fn find_key<'a>(value: &'a JsonValue, key: &str) -> (result: Option<&'a JsonValue>)
    ensures
        found_value(result) == first_found(*value, member_probe(key@)),
    decreases *value,
{
    match value {
        JsonValue::Object(entries) => {
            if let Some(found) = entry_of(entries, key) {
                return Some(found);
            }
            let mut i: usize = 0;
            assert(entries@.skip(0) =~= entries@);
            while i < entries.len()
                invariant
                    *value == JsonValue::Object(*entries),
                    i <= entries@.len(),
                    first_found(*value, member_probe(key@)) == first_found_in_entries(entries@, member_probe(key@)),
                    first_found_in_entries(entries@, member_probe(key@)) == first_found_in_entries(
                        entries@.skip(i as int),
                        member_probe(key@),
                    ),
                decreases entries@.len() - i,
            {
                assert(entries@.skip(i as int).drop_first() =~= entries@.skip(i + 1));
                assert(entries@.skip(i as int)[0] == entries@[i as int]);
                assert(decreases_to!(*value => entries@[i as int].1)) by {
                    assert(decreases_to!(*value => *entries));
                    assert(decreases_to!(*entries => entries@));
                    assert(decreases_to!(entries@ => entries@[i as int]));
                    assert(decreases_to!(entries@[i as int] => entries@[i as int].1));
                }
                if let Some(found) = find_key(&entries[i].1, key) {
                    return Some(found);
                }
                i += 1;
            }
            None
        },
        JsonValue::Array(items) => {
            let mut i: usize = 0;
            assert(items@.skip(0) =~= items@);
            while i < items.len()
                invariant
                    *value == JsonValue::Array(*items),
                    i <= items@.len(),
                    first_found_in_items(items@, member_probe(key@)) == first_found_in_items(
                        items@.skip(i as int),
                        member_probe(key@),
                    ),
                decreases items@.len() - i,
            {
                assert(items@.skip(i as int).drop_first() =~= items@.skip(i + 1));
                assert(items@.skip(i as int)[0] == items@[i as int]);
                assert(decreases_to!(*value => items@[i as int])) by {
                    assert(decreases_to!(*value => *items));
                    assert(decreases_to!(*items => items@));
                    assert(decreases_to!(items@ => items@[i as int]));
                }
                if let Some(found) = find_key(&items[i], key) {
                    return Some(found);
                }
                i += 1;
            }
            None
        },
        _ => None,
    }
}


/// Whether each text comes strictly before the next: sorted, without repeats.
/// (The characters' order is the byte order of their UTF-8 encodings, so this
/// is also the order of `String`s.)
pub open spec fn strictly_ascending(texts: Seq<Seq<char>>) -> bool {
    forall|i: int, j: int| 0 <= i < j < texts.len() ==> text_lt(#[trigger] texts[i], #[trigger] texts[j])
}

/// Adds `item` to a strictly ascending list of strings unless it is there.
pub fn insert_ascending(out: &mut Vec<String>, item: String)
    requires
        strictly_ascending(texts_of(old(out)@)),
    ensures
        strictly_ascending(texts_of(final(out)@)),
        texts_of(final(out)@).to_set() == texts_of(old(out)@).to_set().insert(item@),
{
    let ghost before = texts_of(out@);
    let wanted = chars_of(item.as_str());
    let mut p: usize = 0;
    while p < out.len() && chars_lt(chars_of(out[p].as_str()).as_slice(), wanted.as_slice())
        invariant
            p <= out@.len(),
            before == texts_of(out@),
            wanted@ == item@,
            forall|k: int| 0 <= k < p ==> text_lt(#[trigger] before[k], item@),
        decreases out@.len() - p,
    {
        p += 1;
    }
    if p < out.len() && chars_equal(chars_of(out[p].as_str()).as_slice(), wanted.as_slice()) {
        assert(before[p as int] == item@);
        assert(before.to_set().insert(item@) =~= before.to_set());
        return;
    }
    proof {
        if p < before.len() {
            lemma_text_lt_total(before[p as int], item@);
        }
    }
    let ghost text = item@;
    out.insert(p, item);
    let ghost after = texts_of(out@);
    assert(after =~= before.insert(p as int, text));
    proof {
        before.insert_ensures(p as int, text);
        assert forall|i: int, j: int| 0 <= i < j < after.len() implies text_lt(#[trigger] after[i], #[trigger] after[j]) by {
            if j < p {
                assert(after[i] == before[i] && after[j] == before[j]);
            } else if j == p {
                assert(after[i] == before[i]);
            } else if i < p {
                assert(after[j] == before[j - 1]);
                assert(text_lt(before[p as int], before[j - 1]) || p == j - 1);
                assert(text_lt(before[i], text));
                assert(text_lt(text, before[p as int]));
                if p < j - 1 {
                    lemma_text_lt_transitive(text, before[p as int], before[j - 1]);
                }
                lemma_text_lt_transitive(before[i], text, before[j - 1]);
            } else if i == p {
                assert(after[j] == before[j - 1]);
                if p < j - 1 {
                    lemma_text_lt_transitive(text, before[p as int], before[j - 1]);
                }
            } else {
                assert(after[i] == before[i - 1] && after[j] == before[j - 1]);
            }
        }
        assert forall|x: Seq<char>| after.to_set().contains(x) <==> before.to_set().insert(text).contains(x) by {
            if after.contains(x) {
                let k = choose|k: int| 0 <= k < after.len() && after[k] == x;
                if k < p {
                    assert(before[k] == x);
                } else if k > p {
                    assert(before[k - 1] == x);
                }
            }
            if before.contains(x) {
                let k = choose|k: int| 0 <= k < before.len() && before[k] == x;
                if k < p {
                    assert(after[k] == x);
                } else {
                    assert(after[k + 1] == x);
                }
            }
            if x == text {
                assert(after[p as int] == x);
            }
        }
        assert(after.to_set() =~= before.to_set().insert(text));
    }
}


/// The truth value of the first member named `key`, if it is a boolean.
pub fn find_bool(value: &JsonValue, key: &str) -> (result: Option<bool>)
    ensures
        result == as_truth(first_found(*value, member_probe(key@))),
{
    truth_of(find_key(value, key))
}

/// The number of the first member named `key`, if it fits in `u64`.
pub fn find_u64(value: &JsonValue, key: &str) -> (result: Option<u64>)
    ensures
        result == as_unsigned(first_found(*value, member_probe(key@))),
{
    unsigned_of(find_key(value, key))
}

/// The text of the first member named `key`, if it is a string.
pub fn find_string<'a>(value: &'a JsonValue, key: &str) -> (result: Option<&'a str>)
    ensures
        as_text(first_found(*value, member_probe(key@))) == match result {
            Some(text) => Some(text@),
            None => None,
        },
{
    text_of(find_key(value, key))
}

/// The non-empty string that an object's own member `key` holds, if any.
pub open spec fn own_key_string(entries: Seq<(String, JsonValue)>, key: Seq<char>) -> Seq<Seq<char>> {
    match as_text(entry_value(entries, key)) {
        Some(text) => if text.len() > 0 { seq![text] } else { Seq::empty() },
        None => Seq::empty(),
    }
}

/// Every non-empty string held by a member named `key`, in document order.
pub open spec fn key_strings(value: JsonValue, key: Seq<char>) -> Seq<Seq<char>>
    decreases value,
{
    match value {
        JsonValue::Object(entries) => own_key_string(entries@, key) + key_strings_in_entries(entries@, key),
        JsonValue::Array(items) => key_strings_in_items(items@, key),
        _ => Seq::empty(),
    }
}

/// The strings of `key_strings` within the members' values, in order.
pub open spec fn key_strings_in_entries(entries: Seq<(String, JsonValue)>, key: Seq<char>) -> Seq<Seq<char>>
    decreases entries,
{
    if entries.len() == 0 {
        Seq::empty()
    } else {
        key_strings(entries[0].1, key) + key_strings_in_entries(entries.drop_first(), key)
    }
}

/// The strings of `key_strings` within the elements, in order.
pub open spec fn key_strings_in_items(items: Seq<JsonValue>, key: Seq<char>) -> Seq<Seq<char>>
    decreases items,
{
    if items.len() == 0 {
        Seq::empty()
    } else {
        key_strings(items[0], key) + key_strings_in_items(items.drop_first(), key)
    }
}

/// Appends every non-empty string held by a member named `key`, in document
/// order.
pub fn collect_key_strings(value: &JsonValue, key: &str, results: &mut Vec<String>)
    ensures
        texts_of(final(results)@) == texts_of(old(results)@) + key_strings(*value, key@),
    decreases *value,
{
    let ghost start = texts_of(results@);
    match value {
        JsonValue::Object(entries) => {
            match text_of(entry_of(entries, key)) {
                Some(text) => {
                    if chars_of(text).len() > 0 {
                        results.push(text.to_string());
                    }
                },
                None => {},
            }
            assert(texts_of(results@) =~= start + own_key_string(entries@, key@));
            let mut i: usize = 0;
            assert(entries@.skip(0) =~= entries@);
            while i < entries.len()
                invariant
                    *value == JsonValue::Object(*entries),
                    i <= entries@.len(),
                    start + key_strings(*value, key@) == texts_of(results@) + key_strings_in_entries(
                        entries@.skip(i as int),
                        key@,
                    ),
                decreases entries@.len() - i,
            {
                assert(entries@.skip(i as int).drop_first() =~= entries@.skip(i + 1));
                assert(entries@.skip(i as int)[0] == entries@[i as int]);
                assert(decreases_to!(*value => entries@[i as int].1)) by {
                    assert(decreases_to!(*value => *entries));
                    assert(decreases_to!(*entries => entries@));
                    assert(decreases_to!(entries@ => entries@[i as int]));
                    assert(decreases_to!(entries@[i as int] => entries@[i as int].1));
                }
                let ghost before = texts_of(results@);
                collect_key_strings(&entries[i].1, key, results);
                assert(before + key_strings_in_entries(entries@.skip(i as int), key@) =~= texts_of(results@)
                    + key_strings_in_entries(entries@.skip(i + 1), key@));
                i += 1;
            }
            assert(key_strings_in_entries(entries@.skip(i as int), key@) =~= Seq::<Seq<char>>::empty());
            assert(texts_of(results@) + Seq::<Seq<char>>::empty() =~= texts_of(results@));
        },
        JsonValue::Array(items) => {
            let mut i: usize = 0;
            assert(items@.skip(0) =~= items@);
            assert(texts_of(results@) =~= start);
            while i < items.len()
                invariant
                    *value == JsonValue::Array(*items),
                    i <= items@.len(),
                    start + key_strings(*value, key@) == texts_of(results@) + key_strings_in_items(
                        items@.skip(i as int),
                        key@,
                    ),
                decreases items@.len() - i,
            {
                assert(items@.skip(i as int).drop_first() =~= items@.skip(i + 1));
                assert(items@.skip(i as int)[0] == items@[i as int]);
                assert(decreases_to!(*value => items@[i as int])) by {
                    assert(decreases_to!(*value => *items));
                    assert(decreases_to!(*items => items@));
                    assert(decreases_to!(items@ => items@[i as int]));
                }
                let ghost before = texts_of(results@);
                collect_key_strings(&items[i], key, results);
                assert(before + key_strings_in_items(items@.skip(i as int), key@) =~= texts_of(results@)
                    + key_strings_in_items(items@.skip(i + 1), key@));
                i += 1;
            }
            assert(key_strings_in_items(items@.skip(i as int), key@) =~= Seq::<Seq<char>>::empty());
            assert(texts_of(results@) + Seq::<Seq<char>>::empty() =~= texts_of(results@));
        },
        _ => {
            assert(texts_of(results@) =~= start + Seq::<Seq<char>>::empty());
        },
    }
}

/// The distinct failure messages of a Salesforce response, in ascending
/// order: every non-empty `problem` and `message` string anywhere in it.
pub fn collect_failure_messages(value: &JsonValue) -> (result: Vec<String>)
    ensures
        strictly_ascending(texts_of(result@)),
        texts_of(result@).to_set() == (key_strings(*value, "problem"@) + key_strings(*value, "message"@)).to_set(),
{
    let mut found: Vec<String> = Vec::new();
    collect_key_strings(value, "problem", &mut found);
    collect_key_strings(value, "message", &mut found);
    let ghost all = texts_of(found@);
    assert(all =~= Seq::<Seq<char>>::empty() + key_strings(*value, "problem"@) + key_strings(*value, "message"@));
    let mut messages: Vec<String> = Vec::new();
    let mut i: usize = 0;
    assert(texts_of(messages@).to_set() =~= all.take(0).to_set());
    while i < found.len()
        invariant
            all == texts_of(found@),
            i <= found@.len(),
            strictly_ascending(texts_of(messages@)),
            texts_of(messages@).to_set() == all.take(i as int).to_set(),
        decreases found@.len() - i,
    {
        insert_ascending(&mut messages, found[i].clone());
        assert(all.take(i + 1) =~= all.take(i as int).push(all[i as int]));
        proof {
            all.take(i as int).lemma_push_to_set_commute(all[i as int]);
        }
        i += 1;
    }
    assert(all.take(all.len() as int) =~= all);
    messages
}


/// The outcome of one test method.
#[derive(Clone, Debug, PartialEq, Eq)]
pub struct TestObservation {
    pub name: String,
    pub outcome: String,
    pub message: Option<String>,
    pub stack: Option<String>,
}

/// A test outcome as plain values: name, outcome, message, stack.
pub open spec fn test_view(test: TestObservation) -> (Seq<char>, Seq<char>, Option<Seq<char>>, Option<Seq<char>>) {
    (
        test.name@,
        test.outcome@,
        match test.message {
            Some(message) => Some(message@),
            None => None,
        },
        match test.stack {
            Some(stack) => Some(stack@),
            None => None,
        },
    )
}

/// Each test outcome as plain values.
pub open spec fn test_views(tests: Seq<TestObservation>) -> Seq<(Seq<char>, Seq<char>, Option<Seq<char>>, Option<Seq<char>>)> {
    Seq::new(tests.len(), |i: int| test_view(tests[i]))
}

/// The first of two lookups that finds something.
pub open spec fn either(first: Option<JsonValue>, second: Option<JsonValue>) -> Option<JsonValue> {
    match first {
        Some(value) => Some(value),
        None => second,
    }
}

/// The member `key` of a value that was found.
pub open spec fn member_of_found(value: Option<JsonValue>, key: Seq<char>) -> Option<JsonValue> {
    match value {
        Some(value) => member(value, key),
        None => None,
    }
}

/// A text, unless it is empty.
pub open spec fn non_empty(text: Option<Seq<char>>) -> Option<Seq<char>> {
    match text {
        Some(text) => if text.len() > 0 { Some(text) } else { None },
        None => None,
    }
}

/// The test that an object of a test-run response describes: its class (the
/// `Name` of its `ApexClass`, or its `className`), method and outcome must be
/// strings; the outcome is `pass` for `pass` in any ASCII case and `fail`
/// otherwise; a non-empty message and stack trace are kept.
pub open spec fn described_test(entries: Seq<(String, JsonValue)>) -> Option<
    (Seq<char>, Seq<char>, Option<Seq<char>>, Option<Seq<char>>),
> {
    let method = as_text(either(entry_value(entries, "MethodName"@), entry_value(entries, "methodName"@)));
    let class = as_text(
        either(member_of_found(entry_value(entries, "ApexClass"@), "Name"@), entry_value(entries, "className"@)),
    );
    let outcome = as_text(either(entry_value(entries, "Outcome"@), entry_value(entries, "outcome"@)));
    match (class, method, outcome) {
        (Some(class), Some(method), Some(outcome)) => Some(
            (
                class + "."@ + method,
                if eq_ignore_case(outcome, "pass"@) { "pass"@ } else { "fail"@ },
                non_empty(as_text(either(entry_value(entries, "Message"@), entry_value(entries, "message"@)))),
                non_empty(as_text(either(entry_value(entries, "StackTrace"@), entry_value(entries, "stackTrace"@)))),
            ),
        ),
        _ => None,
    }
}

/// `found` adds the test an object describes unless a test of that name is
/// already there.
pub open spec fn with_described(
    found: Seq<(Seq<char>, Seq<char>, Option<Seq<char>>, Option<Seq<char>>)>,
    test: Option<(Seq<char>, Seq<char>, Option<Seq<char>>, Option<Seq<char>>)>,
) -> Seq<(Seq<char>, Seq<char>, Option<Seq<char>>, Option<Seq<char>>)> {
    match test {
        Some(test) => if exists|j: int| 0 <= j < found.len() && #[trigger] found[j].0 == test.0 {
            found
        } else {
            found.push(test)
        },
        None => found,
    }
}

/// `found` with the tests described in a response, in document order, each
/// name once.
pub open spec fn described_tests(
    value: JsonValue,
    found: Seq<(Seq<char>, Seq<char>, Option<Seq<char>>, Option<Seq<char>>)>,
) -> Seq<(Seq<char>, Seq<char>, Option<Seq<char>>, Option<Seq<char>>)>
    decreases value,
{
    match value {
        JsonValue::Object(entries) => described_tests_in_entries(entries@, with_described(found, described_test(entries@))),
        JsonValue::Array(items) => described_tests_in_items(items@, found),
        _ => found,
    }
}

/// `found` with the tests described within the members' values, in order.
pub open spec fn described_tests_in_entries(
    entries: Seq<(String, JsonValue)>,
    found: Seq<(Seq<char>, Seq<char>, Option<Seq<char>>, Option<Seq<char>>)>,
) -> Seq<(Seq<char>, Seq<char>, Option<Seq<char>>, Option<Seq<char>>)>
    decreases entries,
{
    if entries.len() == 0 {
        found
    } else {
        described_tests_in_entries(entries.drop_first(), described_tests(entries[0].1, found))
    }
}

/// `found` with the tests described within the elements, in order.
pub open spec fn described_tests_in_items(
    items: Seq<JsonValue>,
    found: Seq<(Seq<char>, Seq<char>, Option<Seq<char>>, Option<Seq<char>>)>,
) -> Seq<(Seq<char>, Seq<char>, Option<Seq<char>>, Option<Seq<char>>)>
    decreases items,
{
    if items.len() == 0 {
        found
    } else {
        described_tests_in_items(items.drop_first(), described_tests(items[0], found))
    }
}

/// The first of two lookups that finds something.
fn either_of<'a>(first: Option<&'a JsonValue>, second: Option<&'a JsonValue>) -> (result: Option<&'a JsonValue>)
    ensures
        found_value(result) == either(found_value(first), found_value(second)),
{
    match first {
        Some(value) => Some(value),
        None => second,
    }
}

/// A text, unless it is empty.
fn non_empty_text(text: Option<&str>) -> (result: Option<String>)
    ensures
        match result {
            Some(found) => Some(found@),
            None => None,
        } == non_empty(
            match text {
                Some(text) => Some(text@),
                None => None,
            },
        ),
{
    match text {
        Some(text) => if chars_of(text).len() > 0 { Some(text.to_string()) } else { None },
        None => None,
    }
}

/// The test that an object of a test-run response describes, if any.
fn described_test_of(entries: &Vec<(String, JsonValue)>) -> (result: Option<TestObservation>)
    ensures
        match result {
            Some(test) => Some(test_view(test)),
            None => None,
        } == described_test(entries@),
{
    let method = text_of(either_of(entry_of(entries, "MethodName"), entry_of(entries, "methodName")));
    let apex_class = entry_of(entries, "ApexClass");
    let class_name = match apex_class {
        Some(apex_class) => member_of(apex_class, "Name"),
        None => None,
    };
    let class = text_of(either_of(class_name, entry_of(entries, "className")));
    let outcome = text_of(either_of(entry_of(entries, "Outcome"), entry_of(entries, "outcome")));
    match (class, method, outcome) {
        (Some(class), Some(method), Some(outcome)) => {
            let mut name: Vec<char> = Vec::new();
            push_str(&mut name, class);
            push_str(&mut name, ".");
            push_str(&mut name, method);
            let passed = chars_equal(lower_chars(chars_of(outcome).as_slice()).as_slice(), chars_of("pass").as_slice());
            proof {
                reveal_strlit("pass");
                assert(ascii_lower("pass"@) =~= "pass"@);
                lemma_lower_equals_lower_literal(outcome@, "pass"@);
            }
            let message = non_empty_text(text_of(either_of(entry_of(entries, "Message"), entry_of(entries, "message"))));
            let stack = non_empty_text(text_of(either_of(entry_of(entries, "StackTrace"), entry_of(entries, "stackTrace"))));
            Some(
                TestObservation {
                    name: string_from_chars(name.as_slice()),
                    outcome: if passed { "pass".to_string() } else { "fail".to_string() },
                    message,
                    stack,
                },
            )
        },
        _ => None,
    }
}

/// Comparing a lower-cased text with a lower-case literal compares the two
/// without case.
proof fn lemma_lower_equals_lower_literal(text: Seq<char>, literal: Seq<char>)
    requires
        ascii_lower(literal) == literal,
    ensures
        (ascii_lower(text) == literal) == eq_ignore_case(text, literal),
{
}

/// Whether some test already has `name`.
fn has_test_named(tests: &Vec<TestObservation>, name: &String) -> (result: bool)
    ensures
        result == exists|j: int| 0 <= j < tests@.len() && #[trigger] test_views(tests@)[j].0 == name@,
{
    let wanted = chars_of(name.as_str());
    let mut i: usize = 0;
    while i < tests.len()
        invariant
            i <= tests@.len(),
            wanted@ == name@,
            forall|j: int| 0 <= j < i ==> #[trigger] test_views(tests@)[j].0 != name@,
        decreases tests@.len() - i,
    {
        if chars_equal(chars_of(tests[i].name.as_str()).as_slice(), wanted.as_slice()) {
            assert(test_views(tests@)[i as int].0 == name@);
            return true;
        }
        i += 1;
    }
    false
}

/// Appends the tests a test-run response describes, in document order,
/// skipping any whose name is already among the results.
pub fn collect_test_results(value: &JsonValue, results: &mut Vec<TestObservation>)
    ensures
        test_views(final(results)@) == described_tests(*value, test_views(old(results)@)),
    decreases *value,
{
    match value {
        JsonValue::Object(entries) => {
            let ghost start = test_views(results@);
            match described_test_of(entries) {
                Some(test) => {
                    if !has_test_named(results, &test.name) {
                        let ghost view = test_view(test);
                        results.push(test);
                        assert(test_views(results@) =~= start.push(view));
                    }
                },
                None => {},
            }
            assert(test_views(results@) == with_described(start, described_test(entries@)));
            let mut i: usize = 0;
            assert(entries@.skip(0) =~= entries@);
            while i < entries.len()
                invariant
                    *value == JsonValue::Object(*entries),
                    i <= entries@.len(),
                    described_tests(*value, start) == described_tests_in_entries(
                        entries@.skip(i as int),
                        test_views(results@),
                    ),
                decreases entries@.len() - i,
            {
                assert(entries@.skip(i as int).drop_first() =~= entries@.skip(i + 1));
                assert(entries@.skip(i as int)[0] == entries@[i as int]);
                assert(decreases_to!(*value => entries@[i as int].1)) by {
                    assert(decreases_to!(*value => *entries));
                    assert(decreases_to!(*entries => entries@));
                    assert(decreases_to!(entries@ => entries@[i as int]));
                    assert(decreases_to!(entries@[i as int] => entries@[i as int].1));
                }
                collect_test_results(&entries[i].1, results);
                i += 1;
            }
        },
        JsonValue::Array(items) => {
            let ghost start = test_views(results@);
            let mut i: usize = 0;
            assert(items@.skip(0) =~= items@);
            while i < items.len()
                invariant
                    *value == JsonValue::Array(*items),
                    i <= items@.len(),
                    described_tests(*value, start) == described_tests_in_items(items@.skip(i as int), test_views(results@)),
                decreases items@.len() - i,
            {
                assert(items@.skip(i as int).drop_first() =~= items@.skip(i + 1));
                assert(items@.skip(i as int)[0] == items@[i as int]);
                assert(decreases_to!(*value => items@[i as int])) by {
                    assert(decreases_to!(*value => *items));
                    assert(decreases_to!(*items => items@));
                    assert(decreases_to!(items@ => items@[i as int]));
                }
                collect_test_results(&items[i], results);
                i += 1;
            }
        },
        _ => {},
    }
}


/// Whether the code compiled, and how it failed where it did not.
#[derive(Clone, Debug, PartialEq, Eq)]
pub struct CompileObservation {
    pub success: bool,
    pub diagnostic_category: Option<DiagnosticCategory>,
    pub diagnostics: Vec<String>,
}

/// An exception that ended a run: its type, message and stack.
#[derive(Clone, Debug, PartialEq, Eq)]
pub struct ExceptionObservation {
    pub exception_type: String,
    pub message: String,
    pub stack: Vec<StackObservation>,
}

/// Everything observed of one fixture: compilation, named values, output,
/// exception, queries, DML, trigger events and test outcomes. The named
/// values are kept in ascending order of name, each name once.
#[derive(Debug, PartialEq, Eq)]
pub struct FixtureObservation {
    pub name: String,
    pub compile: CompileObservation,
    pub values: Vec<(String, JsonValue)>,
    pub output: Vec<String>,
    pub exception: Option<ExceptionObservation>,
    pub queries: Vec<QueryObservation>,
    pub dml: Vec<DmlObservation>,
    pub triggers: Vec<TriggerObservation>,
    pub tests: Vec<TestObservation>,
}

/// Who produced a snapshot.
#[derive(Clone, Copy, Debug, PartialEq, Eq, Structural)]
pub enum OracleProvider {
    ApexExec,
    Salesforce,
}

/// The observations of every fixture by one provider against one target.
#[derive(Debug, PartialEq, Eq)]
pub struct OracleSnapshot {
    pub schema_version: u32,
    pub provider: OracleProvider,
    pub target: String,
    pub fixtures: Vec<FixtureObservation>,
}

/// A failed compilation with one message.
pub fn compile_failure(category: DiagnosticCategory, message: String) -> (result: CompileObservation)
    ensures
        !result.success,
        result.diagnostic_category == Some(category),
        result.diagnostics@ == seq![message],
{
    let mut diagnostics: Vec<String> = Vec::new();
    diagnostics.push(message);
    CompileObservation { success: false, diagnostic_category: Some(category), diagnostics }
}

/// Whether a deployment response reports success: its first `success` flag
/// where it has one, and otherwise a `status` of `0` or `Succeeded` in any
/// ASCII case.
pub open spec fn deploy_succeeded(response: JsonValue) -> bool {
    match as_truth(first_found(response, member_probe("success"@))) {
        Some(success) => success,
        None => as_unsigned(first_found(response, member_probe("status"@))) == Some(0u64) || (as_text(
            first_found(response, member_probe("status"@)),
        ) matches Some(status) && eq_ignore_case(status, "succeeded"@)),
    }
}

/// The category of a failed compilation: that of its first message, or
/// `Unknown` when it has none.
pub open spec fn failure_category(messages: Seq<Seq<char>>) -> DiagnosticCategory {
    if messages.len() > 0 {
        spec_classify_diagnostic(messages[0])
    } else {
        DiagnosticCategory::Unknown
    }
}

/// Whether an observation records nothing but its name and compilation.
pub open spec fn only_compiled(observation: FixtureObservation) -> bool {
    &&& observation.values@.len() == 0
    &&& observation.output@.len() == 0
    &&& observation.exception is None
    &&& observation.queries@.len() == 0
    &&& observation.dml@.len() == 0
    &&& observation.triggers@.len() == 0
    &&& observation.tests@.len() == 0
}

/// The compilation a Salesforce deployment response reports for a fixture:
/// whether it succeeded, its distinct failure messages in ascending order,
/// and, when it failed, the category of the first of them.
pub fn parse_salesforce_deploy(name: &str, response: &JsonValue) -> (result: FixtureObservation)
    ensures
        result.name@ == name@,
        result.compile.success == deploy_succeeded(*response),
        strictly_ascending(texts_of(result.compile.diagnostics@)),
        texts_of(result.compile.diagnostics@).to_set() == (key_strings(*response, "problem"@) + key_strings(
            *response,
            "message"@,
        )).to_set(),
        result.compile.diagnostic_category == if result.compile.success {
            None
        } else {
            Some(failure_category(texts_of(result.compile.diagnostics@)))
        },
        only_compiled(result),
{
    let success = match find_bool(response, "success") {
        Some(success) => success,
        None => {
            let zero = match find_u64(response, "status") {
                Some(status) => status == 0,
                None => false,
            };
            let succeeded = match find_string(response, "status") {
                Some(status) => {
                    proof {
                        reveal_strlit("succeeded");
                        assert(ascii_lower("succeeded"@) =~= "succeeded"@);
                        lemma_lower_equals_lower_literal(status@, "succeeded"@);
                    }
                    chars_equal(lower_chars(chars_of(status).as_slice()).as_slice(), chars_of("succeeded").as_slice())
                },
                None => false,
            };
            zero || succeeded
        },
    };
    let diagnostics = collect_failure_messages(response);
    let diagnostic_category = if success {
        None
    } else if diagnostics.len() > 0 {
        Some(classify_diagnostic(diagnostics[0].as_str()))
    } else {
        Some(DiagnosticCategory::Unknown)
    };
    FixtureObservation {
        name: name.to_string(),
        compile: CompileObservation { success, diagnostic_category, diagnostics },
        values: Vec::new(),
        output: Vec::new(),
        exception: None,
        queries: Vec::new(),
        dml: Vec::new(),
        triggers: Vec::new(),
        tests: Vec::new(),
    }
}

/// The message for a fixture recorded twice in a snapshot.
pub open spec fn duplicate_fixture_message(name: Seq<char>) -> Seq<char> {
    "oracle snapshot contains duplicate fixture `"@ + name + "`"@
}

/// The first problem with the fixture names from `i` on: a name that is
/// blank or holds a path separator, or one that an earlier fixture already
/// has in any ASCII case.
pub open spec fn snapshot_names_error(fixtures: Seq<FixtureObservation>, i: int) -> Option<Seq<char>>
    decreases fixtures.len() - i,
{
    if i < 0 || i >= fixtures.len() {
        None
    } else if fixture_name_error(fixtures[i].name@) is Some {
        fixture_name_error(fixtures[i].name@)
    } else if exists|j: int| 0 <= j < i && #[trigger] ascii_lower(fixtures[j].name@) == ascii_lower(fixtures[i].name@) {
        Some(duplicate_fixture_message(fixtures[i].name@))
    } else {
        snapshot_names_error(fixtures, i + 1)
    }
}

/// Checks that every fixture of a snapshot has a valid name, and that no two
/// share one in any ASCII case.
pub fn validate_snapshot_names(snapshot: &OracleSnapshot) -> (result: Result<(), String>)
    ensures
        match snapshot_names_error(snapshot.fixtures@, 0) {
            Some(message) => result matches Err(error) && error@ == message,
            None => result is Ok,
        },
{
    let mut seen: Vec<Vec<char>> = Vec::new();
    let mut i: usize = 0;
    while i < snapshot.fixtures.len()
        invariant
            i <= snapshot.fixtures@.len(),
            seen@.len() == i,
            forall|j: int| 0 <= j < i ==> #[trigger] seen@[j]@ == ascii_lower(snapshot.fixtures@[j].name@),
            snapshot_names_error(snapshot.fixtures@, 0) == snapshot_names_error(snapshot.fixtures@, i as int),
        decreases snapshot.fixtures@.len() - i,
    {
        let name = snapshot.fixtures[i].name.as_str();
        if let Err(error) = validate_fixture_name(name) {
            return Err(error);
        }
        let lower = lower_chars(chars_of(name).as_slice());
        let mut j: usize = 0;
        while j < seen.len()
            invariant
                j <= seen@.len(),
                seen@.len() == i,
                i < snapshot.fixtures@.len(),
                lower@ == ascii_lower(snapshot.fixtures@[i as int].name@),
                name@ == snapshot.fixtures@[i as int].name@,
                fixture_name_error(snapshot.fixtures@[i as int].name@) is None,
                snapshot_names_error(snapshot.fixtures@, 0) == snapshot_names_error(snapshot.fixtures@, i as int),
                forall|k: int| 0 <= k < i ==> #[trigger] seen@[k]@ == ascii_lower(snapshot.fixtures@[k].name@),
                forall|k: int| 0 <= k < j ==> ascii_lower(#[trigger] snapshot.fixtures@[k].name@) != ascii_lower(snapshot.fixtures@[i as int].name@),
            decreases seen@.len() - j,
        {
            if chars_equal(seen[j].as_slice(), lower.as_slice()) {
                assert(ascii_lower(snapshot.fixtures@[j as int].name@) == ascii_lower(snapshot.fixtures@[i as int].name@));
                assert(snapshot_names_error(snapshot.fixtures@, i as int) == Some(
                    duplicate_fixture_message(snapshot.fixtures@[i as int].name@),
                ));
                return Err(crate::text::concat3("oracle snapshot contains duplicate fixture `", name, "`"));
            }
            j += 1;
        }
        seen.push(lower);
        i += 1;
    }
    Ok(())
}


/// Whether a test's name is `key` once lower-cased.
pub open spec fn named_like(key: Seq<char>) -> spec_fn((Seq<char>, Seq<char>, Option<Seq<char>>, Option<Seq<char>>)) -> bool {
    |test: (Seq<char>, Seq<char>, Option<Seq<char>>, Option<Seq<char>>)| ascii_lower(test.0) == key
}

/// Whether tests come in ascending order of their lower-cased names.
pub open spec fn sorted_by_lower_name(tests: Seq<(Seq<char>, Seq<char>, Option<Seq<char>>, Option<Seq<char>>)>) -> bool {
    forall|i: int, j: int| 0 <= i < j < tests.len() ==> !text_lt(ascii_lower(#[trigger] tests[j].0), ascii_lower(#[trigger] tests[i].0))
}

/// Whether `sorted` keeps the tests of `tests`, those of each lower-cased
/// name in their original order.
pub open spec fn same_tests_stably(
    sorted: Seq<(Seq<char>, Seq<char>, Option<Seq<char>>, Option<Seq<char>>)>,
    tests: Seq<(Seq<char>, Seq<char>, Option<Seq<char>>, Option<Seq<char>>)>,
) -> bool {
    forall|key: Seq<char>| #[trigger] sorted.filter(named_like(key)) == tests.filter(named_like(key))
}

/// The order of lower-cased names, with equal names allowed.
proof fn lemma_not_before_chain(a: Seq<char>, b: Seq<char>, c: Seq<char>)
    requires
        text_lt(a, b),
        b == c || !text_lt(c, b),
    ensures
        text_lt(a, c),
{
    if b != c {
        lemma_text_lt_total(b, c);
        lemma_text_lt_transitive(a, b, c);
    }
}

/// A copy of a test outcome.
fn copy_test(test: &TestObservation) -> (result: TestObservation)
    ensures
        test_view(result) == test_view(*test),
{
    TestObservation {
        name: test.name.clone(),
        outcome: test.outcome.clone(),
        message: match &test.message {
            Some(message) => Some(message.clone()),
            None => None,
        },
        stack: match &test.stack {
            Some(stack) => Some(stack.clone()),
            None => None,
        },
    }
}

/// Tests in ascending order of lower-cased name, those of one name in their
/// original order.
pub fn sort_tests_by_lower_name(tests: Vec<TestObservation>) -> (result: Vec<TestObservation>)
    ensures
        sorted_by_lower_name(test_views(result@)),
        same_tests_stably(test_views(result@), test_views(tests@)),
{
    let ghost input = test_views(tests@);
    let mut out: Vec<TestObservation> = Vec::new();
    let mut keys: Vec<Vec<char>> = Vec::new();
    let mut i: usize = 0;
    proof {
        assert forall|key: Seq<char>| #[trigger] test_views(out@).filter(named_like(key)) == input.take(0).filter(named_like(key)) by {
            assert(test_views(out@) =~= Seq::empty());
            assert(input.take(0) =~= Seq::empty());
            reveal(Seq::filter);
        }
    }
    while i < tests.len()
        invariant
            input == test_views(tests@),
            i <= tests@.len(),
            keys@.len() == out@.len(),
            forall|k: int| 0 <= k < out@.len() ==> #[trigger] keys@[k]@ == ascii_lower(test_views(out@)[k].0),
            sorted_by_lower_name(test_views(out@)),
            forall|key: Seq<char>| #[trigger] test_views(out@).filter(named_like(key)) == input.take(i as int).filter(named_like(key)),
        decreases tests@.len() - i,
    {
        let ghost before = test_views(out@);
        let test = copy_test(&tests[i]);
        let ghost x = test_view(test);
        assert(x == input[i as int]);
        let key = lower_chars(chars_of(test.name.as_str()).as_slice());
        let mut p: usize = 0;
        while p < out.len() && !chars_lt(key.as_slice(), keys[p].as_slice())
            invariant
                p <= out@.len(),
                keys@.len() == out@.len(),
                before == test_views(out@),
                key@ == ascii_lower(x.0),
                forall|k: int| 0 <= k < out@.len() ==> #[trigger] keys@[k]@ == ascii_lower(test_views(out@)[k].0),
                forall|k: int| 0 <= k < p ==> !text_lt(ascii_lower(x.0), ascii_lower(#[trigger] before[k].0)),
            decreases out@.len() - p,
        {
            p += 1;
        }
        proof {
            if p < before.len() {
                assert(text_lt(ascii_lower(x.0), ascii_lower(before[p as int].0)));
            }
        }
        out.insert(p, test);
        keys.insert(p, key);
        let ghost after = test_views(out@);
        assert(after =~= before.insert(p as int, x));
        proof {
            before.insert_ensures(p as int, x);
            keys@.len();
            assert forall|k: int| 0 <= k < out@.len() implies #[trigger] keys@[k]@ == ascii_lower(test_views(out@)[k].0) by {
                if k < p {
                } else if k == p {
                } else {
                }
            }
            assert forall|a: int, b: int| 0 <= a < b < after.len() implies !text_lt(ascii_lower(#[trigger] after[b].0), ascii_lower(#[trigger] after[a].0)) by {
                if b < p {
                    assert(after[a] == before[a] && after[b] == before[b]);
                } else if b == p {
                    assert(after[a] == before[a]);
                } else if a < p {
                    assert(after[a] == before[a] && after[b] == before[b - 1]);
                    if p < b - 1 {
                        assert(!text_lt(ascii_lower(before[b - 1].0), ascii_lower(before[p as int].0)));
                    }
                    lemma_not_before_chain(ascii_lower(x.0), ascii_lower(before[p as int].0), ascii_lower(before[b - 1].0));
                    lemma_text_lt_asymmetric(ascii_lower(x.0), ascii_lower(before[b - 1].0));
                    if text_lt(ascii_lower(before[b - 1].0), ascii_lower(before[a].0)) {
                        lemma_text_lt_total(ascii_lower(x.0), ascii_lower(before[a].0));
                        if ascii_lower(x.0) != ascii_lower(before[a].0) {
                            lemma_text_lt_transitive(ascii_lower(before[b - 1].0), ascii_lower(before[a].0), ascii_lower(x.0));
                        }
                    }
                } else if a == p {
                    assert(after[b] == before[b - 1]);
                    if p < b - 1 {
                        assert(!text_lt(ascii_lower(before[b - 1].0), ascii_lower(before[p as int].0)));
                    }
                    lemma_not_before_chain(ascii_lower(x.0), ascii_lower(before[p as int].0), ascii_lower(before[b - 1].0));
                    lemma_text_lt_asymmetric(ascii_lower(x.0), ascii_lower(before[b - 1].0));
                } else {
                    assert(after[a] == before[a - 1] && after[b] == before[b - 1]);
                }
            }
            assert forall|key: Seq<char>| #[trigger] after.filter(named_like(key)) == input.take(i + 1).filter(named_like(key)) by {
                let head = before.take(p as int);
                let tail = before.skip(p as int);
                assert(before =~= head + tail);
                assert(after =~= head + seq![x] + tail);
                Seq::filter_distributes_over_add(head, tail, named_like(key));
                Seq::filter_distributes_over_add(head + seq![x], tail, named_like(key));
                Seq::filter_distributes_over_add(head, seq![x], named_like(key));
                assert(input.take(i + 1) =~= input.take(i as int).push(x));
                input.take(i as int).lemma_filter_push(x, named_like(key));
                reveal(Seq::filter);
                assert(seq![x].drop_last() =~= Seq::<(Seq<char>, Seq<char>, Option<Seq<char>>, Option<Seq<char>>)>::empty());
                if ascii_lower(x.0) == key {
                    assert forall|k: int| 0 <= k < tail.len() implies !named_like(key)(#[trigger] tail[k]) by {
                        assert(tail[k] == before[p + k]);
                        if k > 0 {
                            assert(!text_lt(ascii_lower(before[p + k].0), ascii_lower(before[p as int].0)));
                        }
                        lemma_not_before_chain(ascii_lower(x.0), ascii_lower(before[p as int].0), ascii_lower(before[p + k].0));
                        lemma_text_lt_asymmetric(ascii_lower(x.0), ascii_lower(before[p + k].0));
                    }
                    tail.lemma_all_neg_filter_empty(named_like(key));
                    assert(head.filter(named_like(key)) + tail.filter(named_like(key)) =~= head.filter(named_like(key)));
                    assert(head.filter(named_like(key)) + seq![x] =~= head.filter(named_like(key)).push(x));
                } else {
                    let none = Seq::<(Seq<char>, Seq<char>, Option<Seq<char>>, Option<Seq<char>>)>::empty();
                    assert(seq![x] =~= none.push(x));
                    none.lemma_filter_push(x, named_like(key));
                    assert(none.filter(named_like(key)) =~= none);
                    assert(seq![x].filter(named_like(key)) =~= Seq::empty());
                    assert(head.filter(named_like(key)) + Seq::empty() =~= head.filter(named_like(key)));
                }
            }
        }
        i += 1;
    }
    proof {
        assert(input.take(tests@.len() as int) =~= input);
    }
    out
}


/// Whether two observations agree in everything but their tests.
pub open spec fn same_but_tests(a: FixtureObservation, b: FixtureObservation) -> bool {
    &&& a.name == b.name
    &&& a.compile == b.compile
    &&& a.values == b.values
    &&& a.output == b.output
    &&& a.exception == b.exception
    &&& a.queries == b.queries
    &&& a.dml == b.dml
    &&& a.triggers == b.triggers
}

/// Records the tests a Salesforce test-run response describes: each name
/// once, ordered by lower-cased name, tests of one such name in document order.
pub fn apply_salesforce_tests(observation: &mut FixtureObservation, response: &JsonValue)
    ensures
        same_but_tests(*final(observation), *old(observation)),
        sorted_by_lower_name(test_views(final(observation).tests@)),
        same_tests_stably(test_views(final(observation).tests@), described_tests(*response, Seq::empty())),
{
    let mut tests: Vec<TestObservation> = Vec::new();
    assert(test_views(tests@) =~= Seq::empty());
    collect_test_results(response, &mut tests);
    observation.tests = sort_tests_by_lower_name(tests);
}


/// The prefix of a debug line that carries a named value.
pub open spec fn value_marker() -> Seq<char> {
    "APEX_EXEC_ORACLE_VALUE|"@
}

/// The name and encoded value a debug line carries: after the marker, a
/// non-empty name up to the next `|`, and the rest as the encoding.
pub open spec fn marked_value(line: Seq<char>) -> Option<(Seq<char>, Seq<char>)> {
    if !starts_with(line, value_marker()) {
        None
    } else {
        let rest = line.skip(value_marker().len() as int);
        let bar = first_index(rest, '|', 0);
        if bar <= 0 {
            None
        } else {
            Some((rest.take(bar), rest.skip(bar + 1)))
        }
    }
}

/// The named values that the debug lines from `i` on carry, in order.
pub open spec fn marked_values(lines: Seq<Seq<char>>, i: int) -> Seq<(Seq<char>, Seq<char>)>
    decreases lines.len() - i,
{
    if i < 0 || i >= lines.len() {
        Seq::empty()
    } else {
        (match marked_value(lines[i]) {
            Some(value) => seq![value],
            None => Seq::empty(),
        }) + marked_values(lines, i + 1)
    }
}

/// The debug lines from `i` on that carry no named value, in order.
pub open spec fn unmarked_lines(lines: Seq<Seq<char>>, i: int) -> Seq<Seq<char>>
    decreases lines.len() - i,
{
    if i < 0 || i >= lines.len() {
        Seq::empty()
    } else {
        (if marked_value(lines[i]) is Some { Seq::empty() } else { seq![lines[i]] }) + unmarked_lines(lines, i + 1)
    }
}

/// Each pair of texts as plain values.
pub open spec fn pair_texts(pairs: Seq<(String, String)>) -> Seq<(Seq<char>, Seq<char>)> {
    Seq::new(pairs.len(), |i: int| (pairs[i].0@, pairs[i].1@))
}

/// Splits debug lines into the named values they carry, each as its name and
/// its encoding, and the remaining output lines.
pub fn extract_values(lines: Vec<String>) -> (result: (Vec<(String, String)>, Vec<String>))
    ensures
        pair_texts(result.0@) == marked_values(texts_of(lines@), 0),
        texts_of(result.1@) == unmarked_lines(texts_of(lines@), 0),
{
    let ghost ls = texts_of(lines@);
    let mut values: Vec<(String, String)> = Vec::new();
    let mut output: Vec<String> = Vec::new();
    let mut i: usize = 0;
    assert(pair_texts(values@) + marked_values(ls, 0) =~= marked_values(ls, 0));
    assert(texts_of(output@) + unmarked_lines(ls, 0) =~= unmarked_lines(ls, 0));
    while i < lines.len()
        invariant
            ls == texts_of(lines@),
            i <= lines@.len(),
            pair_texts(values@) + marked_values(ls, i as int) == marked_values(ls, 0),
            texts_of(output@) + unmarked_lines(ls, i as int) == unmarked_lines(ls, 0),
        decreases lines@.len() - i,
    {
        let ghost done_values = pair_texts(values@);
        let ghost done_output = texts_of(output@);
        let line = chars_of(lines[i].as_str());
        assert(line@.len() == line.len());
        let mut carried: Option<(String, String)> = None;
        if chars_start_with(line.as_slice(), "APEX_EXEC_ORACLE_VALUE|") {
            let marker = chars_of("APEX_EXEC_ORACLE_VALUE|").len();
            let rest = slice_chars(line.as_slice(), marker, line.len());
            assert(rest@ =~= ls[i as int].skip(value_marker().len() as int));
            assert(rest@.len() == rest.len());
            if let Some(bar) = find_char(rest.as_slice(), '|') {
                if bar > 0 {
                    let name = slice_chars(rest.as_slice(), 0, bar);
                    let encoded = slice_chars(rest.as_slice(), bar + 1, rest.len());
                    assert(name@ =~= rest@.take(bar as int));
                    assert(encoded@ =~= rest@.skip(bar + 1));
                    carried = Some((string_from_chars(name.as_slice()), string_from_chars(encoded.as_slice())));
                }
            }
        }
        match carried {
            Some(pair) => {
                let ghost view = (pair.0@, pair.1@);
                values.push(pair);
                assert(pair_texts(values@) =~= done_values.push(view));
                assert(done_values + (seq![view] + marked_values(ls, i + 1)) =~= done_values.push(view)
                    + marked_values(ls, i + 1));
                assert(Seq::<Seq<char>>::empty() + unmarked_lines(ls, i + 1) =~= unmarked_lines(ls, i + 1));
            },
            None => {
                let ghost view = ls[i as int];
                output.push(lines[i].clone());
                assert(texts_of(output@) =~= done_output.push(view));
                assert(done_output + (seq![view] + unmarked_lines(ls, i + 1)) =~= done_output.push(view)
                    + unmarked_lines(ls, i + 1));
                assert(Seq::<(Seq<char>, Seq<char>)>::empty() + marked_values(ls, i + 1) =~= marked_values(ls, i + 1));
            },
        }
        i += 1;
    }
    assert(pair_texts(values@) + Seq::<(Seq<char>, Seq<char>)>::empty() =~= pair_texts(values@));
    assert(texts_of(output@) + Seq::<Seq<char>>::empty() =~= texts_of(output@));
    (values, output)
}

/// The text of the first member named `key`, or `fallback`.
pub open spec fn text_or(response: JsonValue, key: Seq<char>, fallback: Seq<char>) -> Seq<char> {
    match as_text(first_found(response, member_probe(key))) {
        Some(text) => text,
        None => fallback,
    }
}

/// An exception as plain values: type, message, frames.
pub open spec fn exception_view(exception: ExceptionObservation) -> (Seq<char>, Seq<char>, Seq<(Seq<char>, Option<usize>)>) {
    (exception.exception_type@, exception.message@, frame_views(exception.stack@))
}

/// What a Salesforce execution response says of a fixture that compiled, as
/// an observation `after` updated from `before`, with the named values left
/// out: the debug output without the value lines; an exception from the
/// message and stack trace where the run failed (otherwise the exception
/// stays); and the queries, DML and trigger events of the logs.
pub open spec fn executed(before: FixtureObservation, after: FixtureObservation, response: JsonValue) -> bool {
    let logs = text_or(response, "logs"@, Seq::empty());
    let debug = debug_messages(lines(logs), 0);
    let message = text_or(response, "exceptionMessage"@, "Salesforce execution failed"@);
    &&& after.name == before.name
    &&& after.compile == before.compile
    &&& after.tests == before.tests
    &&& after.values@.len() == 0
    &&& texts_of(after.output@) == unmarked_lines(debug, 0)
    &&& if as_truth(first_found(response, member_probe("success"@))) == Some(false) {
        after.exception matches Some(exception) && exception_view(exception) == (
            spec_salesforce_exception_type(message),
            spec_strip_exception_type(message),
            stack_frames(lines(text_or(response, "exceptionStackTrace"@, Seq::empty())), 0),
        )
    } else {
        after.exception == before.exception
    }
    &&& query_views(after.queries@) == queries_from(lines(logs), 0, None)
    &&& dml_views(after.dml@) == dml_from(lines(logs), 0, None)
    &&& trigger_views(after.triggers@) == trigger_events(lines(logs), 0)
}

/// Records what a Salesforce execution response says of a fixture. Where
/// the code did not compile, the compilation fails with the response's
/// `compileProblem` (or `compile failed`), and the result is `None`.
/// Otherwise the observation takes the response's output, exception,
/// queries, DML and trigger events, its named values are cleared, and the
/// result holds the name and encoding of each value the debug output
/// carries, in order, for the caller to decode.
pub fn apply_salesforce_execution(observation: &mut FixtureObservation, response: &JsonValue) -> (result: Option<
    Vec<(String, String)>,
>)
    ensures
        as_truth(first_found(*response, member_probe("compiled"@))) == Some(false) ==> {
            let problem = text_or(*response, "compileProblem"@, "compile failed"@);
            &&& result is None
            &&& !final(observation).compile.success
            &&& final(observation).compile.diagnostic_category == Some(spec_classify_diagnostic(problem))
            &&& texts_of(final(observation).compile.diagnostics@) == seq![problem]
            &&& same_but_compile(*final(observation), *old(observation))
        },
        as_truth(first_found(*response, member_probe("compiled"@))) != Some(false) ==> {
            &&& result matches Some(values) && pair_texts(values@) == marked_values(
                debug_messages(lines(text_or(*response, "logs"@, Seq::empty())), 0),
                0,
            )
            &&& executed(*old(observation), *final(observation), *response)
        },
{
    if find_bool(response, "compiled") == Some(false) {
        let problem = match find_string(response, "compileProblem") {
            Some(problem) => problem,
            None => "compile failed",
        };
        observation.compile.success = false;
        observation.compile.diagnostic_category = Some(classify_diagnostic(problem));
        let mut diagnostics: Vec<String> = Vec::new();
        diagnostics.push(problem.to_string());
        assert(texts_of(diagnostics@) =~= seq![problem@]);
        observation.compile.diagnostics = diagnostics;
        return None;
    }
    let logs = match find_string(response, "logs") {
        Some(logs) => logs,
        None => "",
    };
    proof {
        reveal_strlit("");
    }
    let debug = salesforce_debug_output(logs);
    let (values, output) = extract_values(debug);
    observation.values = Vec::new();
    observation.output = output;
    if find_bool(response, "success") == Some(false) {
        let message = match find_string(response, "exceptionMessage") {
            Some(message) => message,
            None => "Salesforce execution failed",
        };
        let stack = match find_string(response, "exceptionStackTrace") {
            Some(stack) => stack,
            None => "",
        };
        observation.exception = Some(
            ExceptionObservation {
                exception_type: salesforce_exception_type(message),
                message: strip_exception_type(message),
                stack: parse_salesforce_stack(stack),
            },
        );
    }
    observation.queries = parse_salesforce_queries(logs);
    observation.dml = parse_salesforce_dml(logs);
    observation.triggers = parse_salesforce_triggers(logs);
    Some(values)
}

/// Whether two observations agree in everything but their compilation.
pub open spec fn same_but_compile(a: FixtureObservation, b: FixtureObservation) -> bool {
    &&& a.name == b.name
    &&& a.values == b.values
    &&& a.output == b.output
    &&& a.exception == b.exception
    &&& a.queries == b.queries
    &&& a.dml == b.dml
    &&& a.triggers == b.triggers
    &&& a.tests == b.tests
}

} // verus!
