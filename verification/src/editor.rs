//! Editor positions: the lines and columns that editors show for byte offsets,
//! and the byte offsets that editors' lines and columns denote.

use vstd::prelude::*;

use std::path::PathBuf;

use crate::diagnostic::{clamped_on_boundary, location, spec_location, Diagnostic};
use crate::span::Span;
use crate::text::{
    boundary_index, byte_offsets, chars_of, count_char, find_line_end, is_ascii_alphabetic,
    is_ascii_digit, is_boundary, lemma_utf8_len_at_least_len, lemma_utf8_len_monotone,
    lemma_utf8_len_prefix, line_end_index, line_start_index, spec_is_ascii_alphabetic,
    spec_is_ascii_digit, utf8_len, utf8_len_fits,
};

verus! {

/// A range of source text as an editor shows it: lines and columns from one.
#[derive(Debug, PartialEq, Eq)]
pub struct Location {
    pub path: PathBuf,
    pub line: usize,
    pub column: usize,
    pub end_line: usize,
    pub end_column: usize,
}

/// A replacement of the text at a location.
#[derive(Debug, PartialEq, Eq)]
pub struct TextEdit {
    pub location: Location,
    pub new_text: String,
}

/// A diagnostic with the editor range of its span.
#[derive(Clone, Debug, PartialEq, Eq)]
pub struct EditorDiagnostic {
    pub message: String,
    pub line: usize,
    pub column: usize,
    pub end_line: usize,
    pub end_column: usize,
}

/// Whether tests ran a line.
#[derive(Clone, Copy, Debug, PartialEq, Eq, Structural)]
pub enum CoverageState {
    Covered,
    Uncovered,
}

/// The covered and uncovered lines of one file.
#[derive(Debug, PartialEq, Eq)]
pub struct CoverageOverlay {
    pub path: PathBuf,
    pub lines: Vec<(usize, CoverageState)>,
}

/// Line and column, from one and in characters, of a byte offset clamped to
/// the text; the clamped offset must fall on a character boundary. (No text
/// in memory reaches `usize::MAX` bytes.)
pub fn line_column(source: &str, offset: usize) -> (result: (usize, usize))
    requires
        clamped_on_boundary(source@, offset as int),
        utf8_len(source@) < usize::MAX,
    ensures
        (result.0 as nat, result.1 as nat) == spec_location(source@, offset as int),
{
    utf8_len_fits(source);
    let chars = chars_of(source);
    proof {
        lemma_utf8_len_at_least_len(chars@);
    }
    let offsets = byte_offsets(chars.as_slice());
    proof {
        assert(chars@.take(chars@.len() as int) =~= chars@);
    }
    location(chars.as_slice(), &offsets, offset)
}

/// The editor range of a diagnostic's span; both ends, clamped to the text,
/// must fall on character boundaries.
pub fn editor_diagnostic(source: &str, diagnostic: &Diagnostic) -> (result: EditorDiagnostic)
    requires
        utf8_len(source@) < usize::MAX,
        clamped_on_boundary(source@, diagnostic.span.start as int),
        clamped_on_boundary(source@, diagnostic.span.end as int),
    ensures
        result.message@ == diagnostic.message@,
        (result.line as nat, result.column as nat) == spec_location(source@, diagnostic.span.start as int),
        (result.end_line as nat, result.end_column as nat) == spec_location(source@, diagnostic.span.end as int),
{
    let (line, column) = line_column(source, diagnostic.span.start);
    let (end_line, end_column) = line_column(source, diagnostic.span.end);
    EditorDiagnostic { message: diagnostic.message.clone(), line, column, end_line, end_column }
}

/// The editor location of a span of a file's text; both ends, clamped to the
/// text, must fall on character boundaries.
pub fn location_for_span(path: PathBuf, source: &str, span: Span) -> (result: Location)
    requires
        utf8_len(source@) < usize::MAX,
        clamped_on_boundary(source@, span.start as int),
        clamped_on_boundary(source@, span.end as int),
    ensures
        result.path == path,
        (result.line as nat, result.column as nat) == spec_location(source@, span.start as int),
        (result.end_line as nat, result.end_column as nat) == spec_location(source@, span.end as int),
{
    let (line, column) = line_column(source, span.start);
    let (end_line, end_column) = line_column(source, span.end);
    Location { path, line, column, end_line, end_column }
}

} // verus!

verus! {

/// Index of the `n`-th line break, counting from zero, at or after `from`, or `-1`.
pub open spec fn nth_newline(s: Seq<char>, n: nat, from: int) -> int
    decreases s.len() - from,
{
    if from < 0 || from >= s.len() {
        -1
    } else if s[from] == '\n' {
        if n == 0 { from } else { nth_newline(s, (n - 1) as nat, from + 1) }
    } else {
        nth_newline(s, n, from + 1)
    }
}

/// Character index where line `line` (from one) starts, if the text has it.
pub open spec fn line_start_of(s: Seq<char>, line: nat) -> Option<int> {
    if line <= 1 {
        Some(0)
    } else {
        let k = nth_newline(s, (line - 2) as nat, 0);
        if k < 0 { None } else { Some(k + 1) }
    }
}

/// The byte offset that an editor's line and column (from one, columns in
/// characters) denote; a column past the end of its line denotes the line's end.
pub open spec fn spec_offset_at(s: Seq<char>, line: nat, column: nat) -> Option<nat> {
    if line == 0 || column == 0 {
        None
    } else {
        match line_start_of(s, line) {
            None => None,
            Some(start) => {
                let end = line_end_index(s, start);
                let target = if start + column - 1 < end { start + column - 1 } else { end };
                Some(utf8_len(s.take(target)))
            },
        }
    }
}

/// The byte offset of an editor's line and column, if the text has that line.
pub fn offset_at(source: &str, line: usize, column: usize) -> (result: Option<usize>)
    ensures
        match spec_offset_at(source@, line as nat, column as nat) {
            Some(offset) => result == Some(offset as usize) && offset <= usize::MAX,
            None => result is None,
        },
{
    if line == 0 || column == 0 {
        return None;
    }
    utf8_len_fits(source);
    let chars = chars_of(source);
    proof {
        lemma_utf8_len_at_least_len(chars@);
    }
    let offsets = byte_offsets(chars.as_slice());
    let start: usize = if line == 1 {
        0
    } else {
        let wanted: usize = line - 2;
        let mut seen: usize = 0;
        let mut i: usize = 0;
        let mut found: Option<usize> = None;
        while i < chars.len()
            invariant_except_break
                found is None,
                nth_newline(chars@, wanted as nat, 0) == nth_newline(chars@, (wanted - seen) as nat, i as int),
            invariant
                i <= chars@.len(),
                seen <= wanted,
                wanted == line - 2,
            ensures
                found is None ==> nth_newline(chars@, wanted as nat, 0) == -1,
                found matches Some(k) ==> nth_newline(chars@, wanted as nat, 0) == k && k < chars@.len(),
            decreases chars@.len() - i,
        {
            if chars[i] == '\n' {
                if seen == wanted {
                    assert(nth_newline(chars@, 0, i as int) == i as int);
                    found = Some(i);
                    break;
                }
                seen += 1;
            }
            i += 1;
        }
        match found {
            Some(k) => k + 1,
            None => return None,
        }
    };
    proof {
        assert(line_start_of(chars@, line as nat) == Some(start as int));
    }
    let end = find_line_end(chars.as_slice(), start);
    let target = if column - 1 < end - start { start + (column - 1) } else { end };
    Some(offsets[target])
}

/// Whether `name` can be an Apex identifier: a letter or `_`, then letters,
/// digits and `_`.
pub open spec fn is_identifier(name: Seq<char>) -> bool {
    &&& name.len() > 0
    &&& (name[0] == '_' || spec_is_ascii_alphabetic(name[0]))
    &&& forall|i: int| 1 <= i < name.len() ==> (#[trigger] name[i] == '_' || spec_is_ascii_alphabetic(name[i])
        || spec_is_ascii_digit(name[i]))
}

/// Whether `name` can be an Apex identifier.
pub fn valid_identifier(name: &str) -> (result: bool)
    ensures
        result == is_identifier(name@),
{
    let chars = chars_of(name);
    if chars.len() == 0 || !(chars[0] == '_' || is_ascii_alphabetic(chars[0])) {
        return false;
    }
    let mut i: usize = 1;
    while i < chars.len()
        invariant
            1 <= i <= chars@.len(),
            chars@ == name@,
            forall|k: int| 1 <= k < i ==> (#[trigger] chars@[k] == '_' || spec_is_ascii_alphabetic(chars@[k])
                || spec_is_ascii_digit(chars@[k])),
        decreases chars@.len() - i,
    {
        let c = chars[i];
        if !(c == '_' || is_ascii_alphabetic(c) || is_ascii_digit(c)) {
            return false;
        }
        i += 1;
    }
    true
}


/// One more character in the prefix adds one to the count when it is `c`.
proof fn lemma_count_step(s: Seq<char>, c: char, i: int)
    requires
        0 <= i < s.len(),
    ensures
        count_char(s.take(i + 1), c) == count_char(s.take(i), c) + if s[i] == c { 1nat } else { 0nat },
{
    assert(s.take(i + 1).drop_last() =~= s.take(i));
}

/// The count of `c` grows with the prefix.
proof fn lemma_count_monotone(s: Seq<char>, c: char, i: int, j: int)
    requires
        0 <= i <= j <= s.len(),
    ensures
        count_char(s.take(i), c) <= count_char(s.take(j), c),
    decreases j - i,
{
    if i < j {
        lemma_count_step(s, c, j - 1);
        lemma_count_monotone(s, c, i, j - 1);
    }
}

/// A line break is the one that `nth_newline` finds when asked for as many
/// breaks as lie before it.
proof fn lemma_nth_newline_finds(s: Seq<char>, from: int, j: int)
    requires
        0 <= from <= j < s.len(),
        s[j] == '\n',
    ensures
        nth_newline(s, (count_char(s.take(j), '\n') - count_char(s.take(from), '\n')) as nat, from) == j,
    decreases j - from,
{
    lemma_count_monotone(s, '\n', from, j);
    if from < j {
        lemma_count_step(s, '\n', from);
        lemma_count_monotone(s, '\n', from + 1, j);
        lemma_nth_newline_finds(s, from + 1, j);
    }
}

/// Where the line of position `k` starts: no line break lies between it and
/// `k`, and a line break (or the start of the text) lies just before it.
proof fn lemma_line_start(s: Seq<char>, k: int)
    requires
        0 <= k <= s.len(),
    ensures
        0 <= line_start_index(s, k) <= k,
        line_start_index(s, k) > 0 ==> s[line_start_index(s, k) - 1] == '\n',
        forall|j: int| line_start_index(s, k) <= j < k ==> s[j] != '\n',
        count_char(s.take(k), '\n') == count_char(s.take(line_start_index(s, k)), '\n'),
    decreases k,
{
    if k > 0 && s[k - 1] != '\n' {
        lemma_line_start(s, k - 1);
        lemma_count_step(s, '\n', k - 1);
    }
}

/// The end of a line lies at or after every position of the line.
proof fn lemma_line_end_after(s: Seq<char>, m: int, k: int)
    requires
        0 <= m <= k <= s.len(),
        forall|j: int| m <= j < k ==> s[j] != '\n',
    ensures
        line_end_index(s, m) >= k,
    decreases s.len() - m,
{
    if m < s.len() && s[m] != '\n' {
        lemma_line_end_after(s, m + 1, if k > m { k } else { m + 1 });
    }
}

/// Turning a character boundary into an editor line and column and back
/// gives the same byte offset.
pub proof fn lemma_offset_at_undoes_location(s: Seq<char>, offset: int)
    requires
        is_boundary(s, offset),
    ensures
        spec_offset_at(s, spec_location(s, offset).0, spec_location(s, offset).1) == Some(offset as nat),
{
    let w = choose|w: int| 0 <= w <= s.len() && #[trigger] utf8_len(s.take(w)) == offset;
    lemma_utf8_len_prefix(s, w);
    let k = boundary_index(s, offset);
    if k < w {
        lemma_utf8_len_monotone(s, k, w);
    } else if w < k {
        lemma_utf8_len_monotone(s, w, k);
    }
    assert(k == w);
    lemma_line_start(s, k);
    let ls = line_start_index(s, k);
    let n = count_char(s.take(k), '\n');
    assert(s.take(0) =~= Seq::<char>::empty());
    if ls > 0 {
        lemma_count_step(s, '\n', ls - 1);
        lemma_nth_newline_finds(s, 0, ls - 1);
        assert(line_start_of(s, n + 1) == Some(ls));
    } else {
        assert(line_start_of(s, n + 1) == Some(0int));
    }
    lemma_line_end_after(s, ls, k);
}

} // verus!
