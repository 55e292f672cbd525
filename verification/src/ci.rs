//! Hermetic CI: how the selected tests are split into shards, how a selection
//! is described, and where a rendered compile diagnostic points.

use vstd::prelude::*;

use std::path::PathBuf;

use crate::oracle::{lines, split_lines, texts_of};
use crate::text::{
    chars_of, chars_start_with, decimal, find_last_char, last_index, parse_bounded, parse_unsigned,
    push_decimal, push_str, slice_chars, starts_with, string_from_chars, trim_start_chars,
    trimmed_start,
};

verus! {

/// Schema version of CI manifests.
pub const CI_SCHEMA_VERSION: u32 = 1;

/// One shard of a CI run: the zero-based `index` among `total` shards.
#[derive(Clone, Copy, Debug, PartialEq, Eq, Structural)]
pub struct CiShard {
    pub index: usize,
    pub total: usize,
}

impl Default for CiShard {
    /// The single shard that runs everything.
    fn default() -> (result: Self)
        ensures
            result == (CiShard { index: 0, total: 1 }),
    {
        CiShard { index: 0, total: 1 }
    }
}

/// How the tests of a run were selected.
#[derive(Clone, Copy, Debug, PartialEq, Eq, Structural)]
pub enum SelectionMode {
    All,
    Impacted,
    ConservativeAll,
}

impl SelectionMode {
    /// The words that describe the selection.
    pub open spec fn spec_label(self) -> Seq<char> {
        match self {
            SelectionMode::All => "all tests"@,
            SelectionMode::Impacted => "dependency-impacted tests"@,
            SelectionMode::ConservativeAll => "all tests (conservative fallback)"@,
        }
    }

    /// The words that describe the selection.
    pub fn label(self) -> (result: &'static str)
        ensures
            result@ == self.spec_label(),
    {
        match self {
            SelectionMode::All => "all tests",
            SelectionMode::Impacted => "dependency-impacted tests",
            SelectionMode::ConservativeAll => "all tests (conservative fallback)",
        }
    }
}

/// A compile failure as CI reports it: its message, its rendering, and the
/// file, line and column it points at where known.
#[derive(Debug, PartialEq, Eq)]
pub struct CiDiagnostic {
    pub message: String,
    pub rendered: String,
    pub path: Option<PathBuf>,
    pub line: Option<usize>,
    pub column: Option<usize>,
}

/// The message that rejects a shard.
pub open spec fn shard_message(shard: CiShard) -> Seq<char> {
    "invalid CI shard "@ + decimal(shard.index as nat) + "/"@ + decimal(shard.total as nat)
        + "; index is zero-based and must be below a positive total"@
}

/// Accepts a shard whose index lies below a positive total.
pub fn validate_shard(shard: CiShard) -> (result: Result<(), String>)
    ensures
        result is Ok <==> (shard.total > 0 && shard.index < shard.total),
        result matches Err(message) ==> message@ == shard_message(shard),
{
    if shard.total == 0 || shard.index >= shard.total {
        let mut out: Vec<char> = Vec::new();
        push_str(&mut out, "invalid CI shard ");
        push_decimal(&mut out, shard.index);
        push_str(&mut out, "/");
        push_decimal(&mut out, shard.total);
        push_str(&mut out, "; index is zero-based and must be below a positive total");
        return Err(string_from_chars(out.as_slice()));
    }
    Ok(())
}

/// The positions from `from` on, below `n`, that belong to `shard`: those
/// whose remainder by the shard total is the shard index.
pub open spec fn shard_positions(n: int, from: int, shard: CiShard) -> Seq<int>
    decreases n - from,
{
    if from >= n {
        Seq::empty()
    } else {
        (if from % (shard.total as int) == shard.index { seq![from] } else { Seq::empty() })
            + shard_positions(n, from + 1, shard)
    }
}

/// The entries of `names` at the positions that belong to `shard`, from
/// `from` on, in order.
pub open spec fn shard_names(names: Seq<Seq<char>>, from: int, shard: CiShard) -> Seq<Seq<char>>
    decreases names.len() - from,
{
    if from >= names.len() {
        Seq::empty()
    } else {
        (if from % (shard.total as int) == shard.index { seq![names[from]] } else { Seq::empty() })
            + shard_names(names, from + 1, shard)
    }
}

/// The selected tests that one shard runs: those at the positions whose
/// remainder by the shard total is the shard index, in order.
pub fn shard_tests(selected: Vec<String>, shard: CiShard) -> (result: Vec<String>)
    requires
        shard.total > 0,
    ensures
        texts_of(result@) == shard_names(texts_of(selected@), 0, shard),
{
    let ghost names = texts_of(selected@);
    let mut out: Vec<String> = Vec::new();
    let mut i: usize = 0;
    assert(texts_of(out@) + shard_names(names, 0, shard) =~= shard_names(names, 0, shard));
    while i < selected.len()
        invariant
            names == texts_of(selected@),
            i <= selected@.len(),
            shard.total > 0,
            texts_of(out@) + shard_names(names, i as int, shard) == shard_names(names, 0, shard),
        decreases selected@.len() - i,
    {
        let ghost done = texts_of(out@);
        if i % shard.total == shard.index {
            let name = selected[i].clone();
            out.push(name);
            assert(texts_of(out@) =~= done.push(names[i as int]));
            assert(done + (seq![names[i as int]] + shard_names(names, i + 1, shard)) =~= done.push(
                names[i as int],
            ) + shard_names(names, i + 1, shard));
        } else {
            assert(Seq::<Seq<char>>::empty() + shard_names(names, i + 1, shard) =~= shard_names(
                names,
                i + 1,
                shard,
            ));
        }
        i += 1;
    }
    assert(texts_of(out@) + Seq::<Seq<char>>::empty() =~= texts_of(out@));
    out
}


/// The positions of a shard are the ones in range with its remainder.
proof fn lemma_shard_positions_members(n: int, from: int, shard: CiShard)
    requires
        shard.total > 0,
        0 <= from,
    ensures
        forall|p: int| #[trigger] shard_positions(n, from, shard).contains(p) <==> (from <= p < n && p % (
        shard.total as int) == shard.index),
    decreases n - from,
{
    if from < n {
        lemma_shard_positions_members(n, from + 1, shard);
        let head: Seq<int> = if from % (shard.total as int) == shard.index { seq![from] } else { Seq::empty() };
        let rest = shard_positions(n, from + 1, shard);
        assert(shard_positions(n, from, shard) == head + rest);
        assert forall|p: int| #[trigger] shard_positions(n, from, shard).contains(p) <==> (from <= p < n && p % (
            shard.total as int) == shard.index) by {
            if head.contains(p) {
                let k = choose|k: int| 0 <= k < head.len() && head[k] == p;
                assert((head + rest)[k] == p);
            }
            if rest.contains(p) {
                let k = choose|k: int| 0 <= k < rest.len() && rest[k] == p;
                assert((head + rest)[head.len() + k] == p);
            }
            if (head + rest).contains(p) {
                let k = choose|k: int| 0 <= k < (head + rest).len() && (head + rest)[k] == p;
                if k < head.len() {
                    assert(head[k] == p);
                } else {
                    assert(rest[k - head.len()] == p);
                }
            }
            if p == from && from % (shard.total as int) == shard.index {
                assert(head[0] == p);
            }
        }
    }
}

/// A shard's names are the names at its positions.
proof fn lemma_shard_names_at_positions(names: Seq<Seq<char>>, from: int, shard: CiShard)
    requires
        0 <= from,
    ensures
        shard_names(names, from, shard) == shard_positions(names.len() as int, from, shard).map_values(
            |p: int| names[p],
        ),
    decreases names.len() - from,
{
    if from < names.len() {
        lemma_shard_names_at_positions(names, from + 1, shard);
        let head: Seq<int> = if from % (shard.total as int) == shard.index { seq![from] } else { Seq::empty() };
        let rest = shard_positions(names.len() as int, from + 1, shard);
        assert((head + rest).map_values(|p: int| names[p]) =~= head.map_values(|p: int| names[p])
            + rest.map_values(|p: int| names[p]));
    } else {
        assert(shard_positions(names.len() as int, from, shard).map_values(|p: int| names[p])
            =~= Seq::<Seq<char>>::empty());
    }
}

/// Shards split a selection without loss or overlap: the shard with a given
/// index runs, in order, exactly the selected tests whose position leaves that
/// index as its remainder by the shard total, so each test runs in one shard.
pub proof fn lemma_shards_partition_the_selection(names: Seq<Seq<char>>, shard: CiShard)
    requires
        shard.total > 0,
    ensures
        shard_names(names, 0, shard) == shard_positions(names.len() as int, 0, shard).map_values(
            |p: int| names[p],
        ),
        forall|p: int| #[trigger] shard_positions(names.len() as int, 0, shard).contains(p) <==> (0 <= p
            < names.len() && p % (shard.total as int) == shard.index),
{
    lemma_shard_positions_members(names.len() as int, 0, shard);
    lemma_shard_names_at_positions(names, 0, shard);
}

/// The text after `--> ` on the first line of `lines` from `i` on that starts
/// with it once leading whitespace is skipped.
pub open spec fn location_text(lines: Seq<Seq<char>>, i: int) -> Option<Seq<char>>
    decreases lines.len() - i,
{
    if i >= lines.len() {
        None
    } else if starts_with(trimmed_start(lines[i]), "--> "@) {
        Some(trimmed_start(lines[i]).skip("--> "@.len() as int))
    } else {
        location_text(lines, i + 1)
    }
}

/// The number that `text` spells, if it is a `usize`.
pub open spec fn usize_in(text: Seq<char>) -> Option<usize> {
    match parse_unsigned(text) {
        Some(value) => if value <= usize::MAX { Some(value as usize) } else { None },
        None => None,
    }
}

/// The path, line and column of a rendered diagnostic's `--> path:line:column`
/// line: the last two `:` separate the numbers from the path.
pub open spec fn spec_rendered_location(rendered: Seq<char>) -> Option<(Seq<char>, usize, usize)> {
    match location_text(lines(rendered), 0) {
        None => None,
        Some(location) => {
            let last = last_index(location, ':', location.len() as int);
            let before = location.take(last);
            let second = last_index(before, ':', before.len() as int);
            if last < 0 || second < 0 {
                None
            } else {
                match (usize_in(before.skip(second + 1)), usize_in(location.skip(last + 1))) {
                    (Some(line), Some(column)) => Some((before.take(second), line, column)),
                    _ => None,
                }
            }
        },
    }
}

/// The path, line and column that a rendered diagnostic points at, if its
/// `-->` line names them.
pub fn rendered_location(rendered: &str) -> (result: Option<(String, usize, usize)>)
    ensures
        match spec_rendered_location(rendered@) {
            Some((path, line, column)) => result matches Some(found) && found.0@ == path && found.1 == line
                && found.2 == column,
            None => result is None,
        },
{
    let chars = chars_of(rendered);
    let parts = split_lines(chars.as_slice());
    let ghost ls = Seq::new(parts@.len(), |k: int| parts@[k]@);
    let mut i: usize = 0;
    let mut found: Option<Vec<char>> = None;
    while i < parts.len()
        invariant_except_break
            found is None,
            location_text(ls, 0) == location_text(ls, i as int),
        invariant
            ls == Seq::new(parts@.len(), |k: int| parts@[k]@),
            ls == lines(rendered@),
            i <= parts@.len(),
        ensures
            found is None ==> location_text(ls, 0) is None,
            found matches Some(text) ==> location_text(ls, 0) == Some(text@),
        decreases parts@.len() - i,
    {
        let line = trim_start_chars(parts[i].as_slice());
        if chars_start_with(line.as_slice(), "--> ") {
            let marker = chars_of("--> ").len();
            assert(line@.len() == line.len());
            let rest = slice_chars(line.as_slice(), marker, line.len());
            assert(rest@ =~= trimmed_start(ls[i as int]).skip("--> "@.len() as int));
            found = Some(rest);
            break;
        }
        i += 1;
    }
    let location = match found {
        Some(location) => location,
        None => return None,
    };
    assert(location@.len() == location.len());
    let last = match find_last_char(location.as_slice(), ':') {
        Some(last) => last,
        None => return None,
    };
    let before = slice_chars(location.as_slice(), 0, last);
    assert(before@ =~= location@.take(last as int));
    assert(before@.len() == before.len());
    let second = match find_last_char(before.as_slice(), ':') {
        Some(second) => second,
        None => return None,
    };
    let line_text = slice_chars(before.as_slice(), second + 1, before.len());
    assert(line_text@ =~= before@.skip(second + 1));
    let column_text = slice_chars(location.as_slice(), last + 1, location.len());
    assert(column_text@ =~= location@.skip(last + 1));
    let column = match parse_bounded(column_text.as_slice(), usize::MAX) {
        Some(column) => column,
        None => return None,
    };
    let line = match parse_bounded(line_text.as_slice(), usize::MAX) {
        Some(line) => line,
        None => return None,
    };
    let path = slice_chars(before.as_slice(), 0, second);
    assert(path@ =~= before@.take(second as int));
    Some((string_from_chars(path.as_slice()), line, column))
}

} // verus!
