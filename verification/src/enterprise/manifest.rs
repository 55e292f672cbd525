//! The candidate project that a baseline binds, and the digests that pin its
//! inputs.

use vstd::prelude::*;

use std::path::PathBuf;

use sha2::Digest;

use crate::enterprise::salesforce::joined;
use crate::oracle::texts_of;
use crate::text::{
    chars_equal, chars_lt, chars_are, lemma_text_lt_asymmetric, lemma_text_lt_total, lemma_text_lt_transitive, text_lt,
    chars_of, chars_start_with, decimal, push_decimal, find_char, parse_bounded, parse_unsigned, push_str, slice_chars,
    starts_with, string_from_chars, trim_chars, trimmed, first_index,
};

verus! {

/// Schema version of enterprise manifests.
pub const ENTERPRISE_SCHEMA_VERSION: u32 = 1;

/// The immutable third-party project a baseline measures.
#[derive(Clone, Debug, PartialEq, Eq)]
pub struct CandidateIdentity {
    pub name: String,
    pub repository: String,
    pub git_commit: String,
    pub git_tag: String,
    pub api_version: String,
}

/// One input file of a baseline and the digest of its contents. The path is
/// kept as its parts: `/` for the root, `.` and `..` for the current and the
/// parent directory, and the names in between.
#[derive(Debug, PartialEq, Eq)]
pub struct EnterpriseInput {
    pub path: Vec<String>,
    pub sha256: String,
}

/// How a path part sorts against others of another kind: the root, then
/// `.`, then `..`, then names.
pub open spec fn part_rank(part: Seq<char>) -> int {
    if part == "/"@ {
        0
    } else if part == "."@ {
        1
    } else if part == ".."@ {
        2
    } else {
        3
    }
}

/// The order of path parts: by kind, and names by their characters.
pub open spec fn part_lt(a: Seq<char>, b: Seq<char>) -> bool {
    part_rank(a) < part_rank(b) || (part_rank(a) == 3 && part_rank(b) == 3 && text_lt(a, b))
}

/// The order of paths: part by part, a proper prefix first.
pub open spec fn path_lt(a: Seq<Seq<char>>, b: Seq<Seq<char>>) -> bool
    decreases a.len(),
{
    if a.len() == 0 {
        b.len() > 0
    } else if b.len() == 0 {
        false
    } else if a[0] != b[0] {
        part_lt(a[0], b[0])
    } else {
        path_lt(a.drop_first(), b.drop_first())
    }
}

/// No path comes before itself, and of two paths at most one comes first.
pub proof fn lemma_path_lt_asymmetric(a: Seq<Seq<char>>, b: Seq<Seq<char>>)
    ensures
        !(path_lt(a, b) && path_lt(b, a)),
        !path_lt(a, a),
    decreases a.len(),
{
    if a.len() > 0 && b.len() > 0 {
        if a[0] == b[0] {
            lemma_path_lt_asymmetric(a.drop_first(), b.drop_first());
        } else {
            lemma_text_lt_asymmetric(a[0], b[0]);
        }
    }
    if a.len() > 0 {
        lemma_path_lt_asymmetric(a.drop_first(), a.drop_first());
    }
}

/// The order of paths is transitive.
pub proof fn lemma_path_lt_transitive(a: Seq<Seq<char>>, b: Seq<Seq<char>>, c: Seq<Seq<char>>)
    requires
        path_lt(a, b),
        path_lt(b, c),
    ensures
        path_lt(a, c),
    decreases a.len(),
{
    if a.len() > 0 && b.len() > 0 && c.len() > 0 {
        if a[0] == b[0] && b[0] == c[0] {
            lemma_path_lt_transitive(a.drop_first(), b.drop_first(), c.drop_first());
        } else if a[0] != b[0] && b[0] != c[0] && a[0] != c[0] {
            if part_rank(a[0]) == 3 && part_rank(b[0]) == 3 && part_rank(c[0]) == 3 {
                lemma_text_lt_transitive(a[0], b[0], c[0]);
            }
        } else if a[0] != b[0] && b[0] != c[0] {
            lemma_text_lt_asymmetric(a[0], b[0]);
        }
    }
}

/// Of two different paths, one comes first.
pub proof fn lemma_path_lt_total(a: Seq<Seq<char>>, b: Seq<Seq<char>>)
    requires
        a != b,
    ensures
        path_lt(a, b) || path_lt(b, a),
    decreases a.len(),
{
    if a.len() == 0 {
        assert(b.len() > 0) by {
            if b.len() == 0 {
                assert(a =~= b);
            }
        }
    } else if b.len() > 0 {
        if a[0] == b[0] {
            assert(a.drop_first() != b.drop_first()) by {
                if a.drop_first() == b.drop_first() {
                    assert(a =~= seq![a[0]] + a.drop_first());
                    assert(b =~= seq![b[0]] + b.drop_first());
                }
            }
            lemma_path_lt_total(a.drop_first(), b.drop_first());
        } else if part_rank(a[0]) == 3 && part_rank(b[0]) == 3 {
            lemma_text_lt_total(a[0], b[0]);
        }
    }
}

/// Whether `c` is a digit or a lower-case letter from `a` to `f`.
pub open spec fn is_lower_hex(c: char) -> bool {
    ('0' <= c && c <= '9') || ('a' <= c && c <= 'f')
}

/// Whether `s` is `length` lower-case hexadecimal digits.
pub open spec fn lower_hex_of_length(s: Seq<char>, length: nat) -> bool {
    s.len() == length && forall|i: int| 0 <= i < s.len() ==> is_lower_hex(#[trigger] s[i])
}

/// Whether the characters are `length` lower-case hexadecimal digits. (Such
/// text is ASCII, so its length in bytes and in characters agree.)
pub fn chars_lower_hex(s: &[char], length: usize) -> (result: bool)
    ensures
        result == lower_hex_of_length(s@, length as nat),
{
    if s.len() != length {
        return false;
    }
    let mut i: usize = 0;
    while i < s.len()
        invariant
            i <= s@.len(),
            forall|k: int| 0 <= k < i ==> is_lower_hex(#[trigger] s@[k]),
        decreases s@.len() - i,
    {
        let c = s[i];
        if !(('0' <= c && c <= '9') || ('a' <= c && c <= 'f')) {
            assert(!is_lower_hex(s@[i as int]));
            return false;
        }
        i += 1;
    }
    true
}

/// The message for an input digest that is not 64 lower-case hexadecimal digits.
pub open spec fn digest_message(label: Seq<char>) -> Seq<char> {
    "enterprise "@ + label + " has an invalid SHA-256 digest"@
}

/// Accepts a SHA-256 digest written as 64 lower-case hexadecimal digits.
pub fn validate_sha256(digest: &str, label: &str) -> (result: Result<(), String>)
    ensures
        result is Ok <==> lower_hex_of_length(digest@, 64),
        result matches Err(message) ==> message@ == digest_message(label@),
{
    if !chars_lower_hex(chars_of(digest).as_slice(), 64) {
        let mut out: Vec<char> = Vec::new();
        push_str(&mut out, "enterprise ");
        push_str(&mut out, label);
        push_str(&mut out, " has an invalid SHA-256 digest");
        return Err(string_from_chars(out.as_slice()));
    }
    Ok(())
}

/// Whether `text` is a `major.minor` version: two numbers that fit in `u32`,
/// each as Rust's unsigned `from_str` reads it, joined by the only `.`.
pub open spec fn is_major_minor(text: Seq<char>) -> bool {
    let dot = first_index(text, '.', 0);
    &&& dot >= 0
    &&& first_index(text, '.', dot + 1) < 0
    &&& parse_unsigned(text.take(dot)) matches Some(major) && major <= u32::MAX
    &&& parse_unsigned(text.skip(dot + 1)) matches Some(minor) && minor <= u32::MAX
}

/// The first rule that a candidate identity breaks, if any.
pub open spec fn candidate_error(candidate: CandidateIdentity) -> Option<Seq<char>> {
    if trimmed(candidate.name@).len() == 0 || trimmed(candidate.repository@).len() == 0 || trimmed(
        candidate.git_tag@,
    ).len() == 0 || trimmed(candidate.api_version@).len() == 0 {
        Some("enterprise candidate identity fields cannot be empty"@)
    } else if !starts_with(candidate.repository@, "https://"@) {
        Some("enterprise candidate repository must use an HTTPS URL"@)
    } else if !lower_hex_of_length(candidate.git_commit@, 40) {
        Some("enterprise candidate commit must be a lowercase 40-character SHA"@)
    } else if !is_major_minor(candidate.api_version@) {
        Some("enterprise candidate API version must have `major.minor` form"@)
    } else {
        None
    }
}

/// Whether the text is a `major.minor` version.
fn major_minor(text: &str) -> (result: bool)
    ensures
        result == is_major_minor(text@),
{
    let chars = chars_of(text);
    assert(chars@.len() == chars.len());
    let dot = match find_char(chars.as_slice(), '.') {
        Some(dot) => dot,
        None => return false,
    };
    let rest = slice_chars(chars.as_slice(), dot + 1, chars.len());
    assert(rest@ =~= text@.skip(dot + 1));
    if find_char(rest.as_slice(), '.').is_some() {
        proof {
            lemma_first_index_shift(text@, '.', dot + 1, 0);
        }
        return false;
    }
    proof {
        lemma_first_index_shift(text@, '.', dot + 1, 0);
    }
    let major = slice_chars(chars.as_slice(), 0, dot);
    assert(major@ =~= text@.take(dot as int));
    parse_bounded(major.as_slice(), 0xffff_ffffusize).is_some() && parse_bounded(rest.as_slice(), 0xffff_ffffusize).is_some()
}

/// Looking for `c` in a tail finds it at the same place, less the offset.
proof fn lemma_first_index_shift(s: Seq<char>, c: char, offset: int, from: int)
    requires
        0 <= offset <= s.len(),
        0 <= from,
    ensures
        first_index(s.skip(offset), c, from) < 0 <==> first_index(s, c, offset + from) < 0,
    decreases s.len() - offset - from,
{
    if offset + from < s.len() {
        assert(s.skip(offset)[from] == s[offset + from]);
        lemma_first_index_shift(s, c, offset, from + 1);
    }
}

/// Accepts a candidate whose fields are filled in, whose repository is an
/// HTTPS URL, whose commit is a full lower-case SHA and whose API version has
/// `major.minor` form; otherwise reports the first rule it breaks.
pub fn validate_candidate(candidate: &CandidateIdentity) -> (result: Result<(), String>)
    ensures
        match candidate_error(*candidate) {
            Some(message) => result matches Err(found) && found@ == message,
            None => result is Ok,
        },
{
    if trim_chars(chars_of(candidate.name.as_str()).as_slice()).len() == 0 || trim_chars(
        chars_of(candidate.repository.as_str()).as_slice(),
    ).len() == 0 || trim_chars(chars_of(candidate.git_tag.as_str()).as_slice()).len() == 0
        || trim_chars(chars_of(candidate.api_version.as_str()).as_slice()).len() == 0 {
        return Err("enterprise candidate identity fields cannot be empty".to_string());
    }
    if !chars_start_with(chars_of(candidate.repository.as_str()).as_slice(), "https://") {
        return Err("enterprise candidate repository must use an HTTPS URL".to_string());
    }
    if !chars_lower_hex(chars_of(candidate.git_commit.as_str()).as_slice(), 40) {
        return Err("enterprise candidate commit must be a lowercase 40-character SHA".to_string());
    }
    if !major_minor(candidate.api_version.as_str()) {
        return Err("enterprise candidate API version must have `major.minor` form".to_string());
    }
    Ok(())
}

/// The SHA-256 digest of a byte string, as `sha2` computes it.
pub uninterp spec fn sha256_digest(bytes: Seq<u8>) -> Seq<u8>;

/// Calls `sha2::Sha256::digest`: its result is the SHA-256 digest of the
/// bytes, whose output size the crate fixes at 32 bytes.
#[verifier::external_body]
fn sha256_bytes(bytes: &[u8]) -> (result: Vec<u8>)
    ensures
        result@ == sha256_digest(bytes@),
        result@.len() == 32,
{
    sha2::Sha256::digest(bytes).to_vec()
}

/// The lower-case hexadecimal digit for a value below sixteen.
pub open spec fn hex_digit(value: nat) -> char {
    if value < 10 {
        (('0' as u32) + value) as char
    } else {
        (('a' as u32) + value - 10) as char
    }
}

/// Each byte as two lower-case hexadecimal digits, high digit first.
pub open spec fn hex_text(bytes: Seq<u8>) -> Seq<char>
    decreases bytes.len(),
{
    if bytes.len() == 0 {
        Seq::empty()
    } else {
        hex_text(bytes.drop_last()) + seq![hex_digit((bytes.last() / 16) as nat), hex_digit((bytes.last() % 16) as nat)]
    }
}

/// Hexadecimal text has two lower-case digits per byte.
pub proof fn lemma_hex_text_is_lower_hex(bytes: Seq<u8>)
    ensures
        lower_hex_of_length(hex_text(bytes), 2 * bytes.len()),
    decreases bytes.len(),
{
    if bytes.len() > 0 {
        lemma_hex_text_is_lower_hex(bytes.drop_last());
        let head = hex_text(bytes.drop_last());
        let tail = seq![hex_digit((bytes.last() / 16) as nat), hex_digit((bytes.last() % 16) as nat)];
        assert forall|i: int| 0 <= i < (head + tail).len() implies is_lower_hex(#[trigger] (head + tail)[i]) by {
            if i >= head.len() {
                assert((head + tail)[i] == tail[i - head.len()]);
            } else {
                assert((head + tail)[i] == head[i]);
            }
        }
    }
}

/// The lower-case hexadecimal digit for a value below sixteen.
fn hex_digit_of(value: u8) -> (result: char)
    requires
        value < 16,
    ensures
        result == hex_digit(value as nat),
{
    if value < 10 {
        (48u8 + value) as char
    } else {
        (87u8 + value) as char
    }
}

/// Each byte as two lower-case hexadecimal digits, high digit first.
pub fn hex_lower(bytes: &[u8]) -> (result: String)
    ensures
        result@ == hex_text(bytes@),
{
    let mut out: Vec<char> = Vec::new();
    let mut i: usize = 0;
    while i < bytes.len()
        invariant
            i <= bytes@.len(),
            out@ == hex_text(bytes@.take(i as int)),
        decreases bytes@.len() - i,
    {
        let byte = bytes[i];
        out.push(hex_digit_of(byte / 16));
        out.push(hex_digit_of(byte % 16));
        assert(bytes@.take(i + 1).drop_last() =~= bytes@.take(i as int));
        i += 1;
    }
    assert(bytes@.take(bytes@.len() as int) =~= bytes@);
    string_from_chars(out.as_slice())
}

/// The SHA-256 digest of `bytes` in lower-case hexadecimal; every digest this
/// writes passes `validate_sha256`.
pub fn sha256_hex(bytes: &[u8]) -> (result: String)
    ensures
        result@ == hex_text(sha256_digest(bytes@)),
        lower_hex_of_length(result@, 64),
{
    let digest = sha256_bytes(bytes);
    proof {
        lemma_hex_text_is_lower_hex(digest@);
    }
    hex_lower(digest.as_slice())
}


/// The rank of a path part among the kinds of parts.
fn rank_of(part: &str) -> (result: u8)
    ensures
        result as int == part_rank(part@),
{
    let chars = chars_of(part);
    if chars_are(chars.as_slice(), "/") {
        0
    } else if chars_are(chars.as_slice(), ".") {
        1
    } else if chars_are(chars.as_slice(), "..") {
        2
    } else {
        3
    }
}

/// Whether path part `a` sorts before path part `b`.
pub fn part_less(a: &str, b: &str) -> (result: bool)
    ensures
        result == part_lt(a@, b@),
{
    let ra = rank_of(a);
    let rb = rank_of(b);
    ra < rb || (ra == 3 && rb == 3 && chars_lt(chars_of(a).as_slice(), chars_of(b).as_slice()))
}

/// Whether path `a` sorts before path `b`.
pub fn path_less(a: &[String], b: &[String]) -> (result: bool)
    ensures
        result == path_lt(texts_of(a@), texts_of(b@)),
{
    let ghost pa = texts_of(a@);
    let ghost pb = texts_of(b@);
    let mut i: usize = 0;
    assert(pa.skip(0) =~= pa);
    assert(pb.skip(0) =~= pb);
    while i < a.len() && i < b.len()
        invariant
            i <= a@.len(),
            i <= b@.len(),
            pa == texts_of(a@),
            pb == texts_of(b@),
            path_lt(pa, pb) == path_lt(pa.skip(i as int), pb.skip(i as int)),
        decreases a@.len() - i,
    {
        assert(pa.skip(i as int)[0] == a@[i as int]@);
        assert(pb.skip(i as int)[0] == b@[i as int]@);
        if !chars_equal(chars_of(a[i].as_str()).as_slice(), chars_of(b[i].as_str()).as_slice()) {
            return part_less(a[i].as_str(), b[i].as_str());
        }
        assert(pa.skip(i as int).drop_first() =~= pa.skip(i + 1));
        assert(pb.skip(i as int).drop_first() =~= pb.skip(i + 1));
        i += 1;
    }
    i == a.len() && i < b.len()
}

/// Whether two paths have the same parts.
pub fn paths_equal(a: &[String], b: &[String]) -> (result: bool)
    ensures
        result == (texts_of(a@) == texts_of(b@)),
{
    if a.len() != b.len() {
        assert(texts_of(a@).len() != texts_of(b@).len());
        return false;
    }
    let mut i: usize = 0;
    while i < a.len()
        invariant
            i <= a@.len(),
            a@.len() == b@.len(),
            forall|k: int| 0 <= k < i ==> a@[k]@ == b@[k]@,
        decreases a@.len() - i,
    {
        if !chars_equal(chars_of(a[i].as_str()).as_slice(), chars_of(b[i].as_str()).as_slice()) {
            assert(texts_of(a@)[i as int] != texts_of(b@)[i as int]);
            return false;
        }
        i += 1;
    }
    assert(texts_of(a@) =~= texts_of(b@));
    true
}

/// A copy of a path's parts.
fn copy_parts(parts: &[String]) -> (result: Vec<String>)
    ensures
        texts_of(result@) == texts_of(parts@),
{
    let mut out: Vec<String> = Vec::new();
    let mut i: usize = 0;
    while i < parts.len()
        invariant
            i <= parts@.len(),
            out@.len() == i,
            forall|k: int| 0 <= k < i ==> out@[k]@ == parts@[k]@,
        decreases parts@.len() - i,
    {
        out.push(parts[i].clone());
        i += 1;
    }
    assert(texts_of(out@) =~= texts_of(parts@));
    out
}

/// The path of a read file.
pub open spec fn file_path(file: (Vec<String>, Vec<u8>)) -> Seq<Seq<char>> {
    texts_of(file.0@)
}

/// The path of an input.
pub open spec fn input_path(input: EnterpriseInput) -> Seq<Seq<char>> {
    texts_of(input.path@)
}

/// The index of the first file from `from` on whose path is `path`, or `-1`.
pub open spec fn first_file_with(files: Seq<(Vec<String>, Vec<u8>)>, path: Seq<Seq<char>>, from: int) -> int
    decreases files.len() - from,
{
    if from < 0 || from >= files.len() {
        -1
    } else if file_path(files[from]) == path {
        from
    } else {
        first_file_with(files, path, from + 1)
    }
}

/// Whether the inputs come in strictly increasing path order.
pub open spec fn sorted_by_path(inputs: Seq<EnterpriseInput>) -> bool {
    forall|a: int, b: int|
        0 <= a < b < inputs.len() ==> path_lt(#[trigger] input_path(inputs[a]), #[trigger] input_path(inputs[b]))
}

/// Whether some input has path `path`.
pub open spec fn holds_path(inputs: Seq<EnterpriseInput>, path: Seq<Seq<char>>) -> bool {
    exists|k: int| 0 <= k < inputs.len() && #[trigger] input_path(inputs[k]) == path
}

/// Whether `input` is the digest of the first file with its path.
pub open spec fn input_of_file(files: Seq<(Vec<String>, Vec<u8>)>, input: EnterpriseInput) -> bool {
    let first = first_file_with(files, input_path(input), 0);
    0 <= first < files.len() && input.sha256@ == hex_text(sha256_digest(files[first].1@))
}

/// A file whose path no earlier file has is the first with it.
proof fn lemma_first_file_at(files: Seq<(Vec<String>, Vec<u8>)>, path: Seq<Seq<char>>, i: int, from: int)
    requires
        0 <= from <= i < files.len(),
        file_path(files[i]) == path,
        forall|j: int| 0 <= j < i ==> file_path(#[trigger] files[j]) != path,
    ensures
        first_file_with(files, path, from) == i,
    decreases i - from,
{
    if from < i {
        lemma_first_file_at(files, path, i, from + 1);
    }
}

/// The inputs of a baseline from the files read under its package roots:
/// each path once, in path order, with the SHA-256 digest of the first file
/// read with that path.
pub fn enterprise_inputs(files: &[(Vec<String>, Vec<u8>)]) -> (result: Vec<EnterpriseInput>)
    ensures
        sorted_by_path(result@),
        forall|k: int| 0 <= k < result@.len() ==> #[trigger] input_of_file(files@, result@[k]),
        forall|k: int| 0 <= k < result@.len() ==> lower_hex_of_length(#[trigger] result@[k].sha256@, 64),
        forall|j: int| 0 <= j < files@.len() ==> #[trigger] holds_path(result@, file_path(files@[j])),
{
    let mut out: Vec<EnterpriseInput> = Vec::new();
    let mut i: usize = 0;
    while i < files.len()
        invariant
            i <= files@.len(),
            sorted_by_path(out@),
            forall|k: int| 0 <= k < out@.len() ==> #[trigger] input_of_file(files@, out@[k]),
            forall|k: int| 0 <= k < out@.len() ==> lower_hex_of_length(#[trigger] out@[k].sha256@, 64),
            forall|k: int| 0 <= k < out@.len() ==> first_file_with(files@, #[trigger] input_path(out@[k]), 0) < i,
            forall|j: int| 0 <= j < i ==> #[trigger] holds_path(out@, file_path(files@[j])),
        decreases files@.len() - i,
    {
        let ghost p = file_path(files@[i as int]);
        let path = &files[i].0;
        let mut k: usize = 0;
        #[verifier::loop_isolation(false)]
        while k < out.len() && path_less(out[k].path.as_slice(), path.as_slice())
            invariant
                k <= out@.len(),
                p == texts_of(path@),
                forall|m: int| 0 <= m < k ==> path_lt(#[trigger] input_path(out@[m]), p),
            decreases out@.len() - k,
        {
            k += 1;
        }
        if k < out.len() && paths_equal(out[k].path.as_slice(), path.as_slice()) {
            proof {
                assert(input_path(out@[k as int]) == p);
                assert(holds_path(out@, p));
                assert forall|j: int| 0 <= j < i + 1 implies #[trigger] holds_path(out@, file_path(files@[j])) by {
                    if j < i {
                        assert(holds_path(out@, file_path(files@[j])));
                    }
                }
                assert forall|m: int| 0 <= m < out@.len() implies #[trigger] input_of_file(files@, out@[m])
                    && first_file_with(files@, input_path(out@[m]), 0) < i + 1 by {
                    assert(input_of_file(files@, out@[m]));
                }
            }
        } else {
            proof {
                if k < out@.len() {
                    lemma_path_lt_total(p, input_path(out@[k as int]));
                }
                assert forall|m: int| 0 <= m < out@.len() implies #[trigger] input_path(out@[m]) != p by {
                    if m < k {
                        lemma_path_lt_asymmetric(input_path(out@[m]), p);
                    } else {
                        lemma_path_lt_asymmetric(p, p);
                        if m > k {
                            lemma_path_lt_transitive(p, input_path(out@[k as int]), input_path(out@[m]));
                        }
                    }
                }
                assert forall|j: int| 0 <= j < i implies file_path(#[trigger] files@[j]) != p by {
                    assert(holds_path(out@, file_path(files@[j])));
                }
                lemma_first_file_at(files@, p, i as int, 0);
            }
            let sha256 = sha256_hex(files[i].1.as_slice());
            let parts = copy_parts(path.as_slice());
            let ghost old_out = out@;
            let entry = EnterpriseInput { path: parts, sha256 };
            let ghost added = entry;
            assert(lower_hex_of_length(added.sha256@, 64));
            assert(input_path(added) == p);
            assert(added.sha256@ == hex_text(sha256_digest(files@[i as int].1@)));
            out.insert(k, entry);
            proof {
                assert(input_path(out@[k as int]) == p);
                assert forall|a: int, b: int| 0 <= a < b < out@.len() implies path_lt(
                    #[trigger] input_path(out@[a]),
                    #[trigger] input_path(out@[b]),
                ) by {
                    if b < k {
                        assert(out@[a] == old_out[a] && out@[b] == old_out[b]);
                    } else if b == k {
                        assert(out@[a] == old_out[a]);
                    } else if a > k {
                        assert(out@[a] == old_out[a - 1] && out@[b] == old_out[b - 1]);
                    } else if a == k {
                        assert(out@[b] == old_out[b - 1]);
                        if b - 1 > k {
                            lemma_path_lt_transitive(p, input_path(old_out[k as int]), input_path(old_out[b - 1]));
                        }
                    } else {
                        assert(out@[a] == old_out[a] && out@[b] == old_out[b - 1]);
                        if b - 1 > k {
                            lemma_path_lt_transitive(p, input_path(old_out[k as int]), input_path(old_out[b - 1]));
                        }
                        lemma_path_lt_transitive(input_path(old_out[a]), p, input_path(old_out[b - 1]));
                    }
                }
                assert forall|m: int| 0 <= m < out@.len() implies #[trigger] input_of_file(files@, out@[m])
                    && first_file_with(files@, input_path(out@[m]), 0) < i + 1 by {
                    if m < k {
                        assert(out@[m] == old_out[m]);
                        assert(lower_hex_of_length(old_out[m].sha256@, 64));
                        assert(input_of_file(files@, old_out[m]));
                        assert(first_file_with(files@, input_path(old_out[m]), 0) < i);
                    } else if m > k {
                        assert(out@[m] == old_out[m - 1]);
                        assert(lower_hex_of_length(old_out[m - 1].sha256@, 64));
                        assert(input_of_file(files@, old_out[m - 1]));
                    } else {
                        assert(out@[m] == added);
                        assert(first_file_with(files@, input_path(added), 0) == i);
                    }
                }
                assert forall|j: int| 0 <= j < i + 1 implies #[trigger] holds_path(out@, file_path(files@[j])) by {
                    if j < i {
                        assert(holds_path(old_out, file_path(files@[j])));
                        let w = choose|w: int| 0 <= w < old_out.len() && #[trigger] input_path(old_out[w]) == file_path(files@[j]);
                        if w < k {
                            assert(out@[w] == old_out[w]);
                        } else {
                            assert(out@[w + 1] == old_out[w]);
                        }
                    } else {
                        assert(input_path(out@[k as int]) == file_path(files@[j]));
                    }
                }
            }
        }
        i += 1;
    }
    out
}


/// A path as it is shown: its parts joined by `/`, the root shown once.
pub open spec fn path_display(parts: Seq<Seq<char>>) -> Seq<char>
    decreases parts.len(),
{
    if parts.len() == 0 {
        Seq::empty()
    } else if parts.len() == 1 {
        parts[0]
    } else if path_display(parts.drop_last()) == "/"@ {
        path_display(parts.drop_last()) + parts.last()
    } else {
        path_display(parts.drop_last()) + "/"@ + parts.last()
    }
}

/// `word`, then the path shown between backticks.
pub open spec fn path_note(word: Seq<char>, input: EnterpriseInput) -> Seq<char> {
    word + " `"@ + path_display(input_path(input)) + "`"@
}

/// How the current inputs differ from the recorded ones, both in path order:
/// each path recorded with another digest is modified, each recorded path
/// that is gone is missing, and each new path is unrecorded, in path order.
pub open spec fn input_differences(recorded: Seq<EnterpriseInput>, current: Seq<EnterpriseInput>) -> Seq<Seq<char>>
    decreases recorded.len() + current.len(),
{
    if recorded.len() == 0 && current.len() == 0 {
        Seq::empty()
    } else if recorded.len() == 0 {
        seq![path_note("unrecorded"@, current[0])] + input_differences(recorded, current.drop_first())
    } else if current.len() == 0 {
        seq![path_note("missing"@, recorded[0])] + input_differences(recorded.drop_first(), current)
    } else if path_lt(input_path(recorded[0]), input_path(current[0])) {
        seq![path_note("missing"@, recorded[0])] + input_differences(recorded.drop_first(), current)
    } else if path_lt(input_path(current[0]), input_path(recorded[0])) {
        seq![path_note("unrecorded"@, current[0])] + input_differences(recorded, current.drop_first())
    } else if recorded[0].sha256@ != current[0].sha256@ {
        seq![path_note("modified"@, recorded[0])] + input_differences(recorded.drop_first(), current.drop_first())
    } else {
        input_differences(recorded.drop_first(), current.drop_first())
    }
}

/// The inputs as plain values: path and digest.
pub open spec fn inputs_view(inputs: Seq<EnterpriseInput>) -> Seq<(Seq<Seq<char>>, Seq<char>)> {
    Seq::new(inputs.len(), |i: int| (input_path(inputs[i]), inputs[i].sha256@))
}

/// The text that reports differing inputs.
pub open spec fn input_mismatch_message(differences: Seq<Seq<char>>) -> Seq<char> {
    "enterprise candidate input verification failed: "@ + joined(differences)
}

/// A tail of a sorted list is sorted.
proof fn lemma_sorted_tail(inputs: Seq<EnterpriseInput>)
    requires
        sorted_by_path(inputs),
        inputs.len() > 0,
    ensures
        sorted_by_path(inputs.drop_first()),
{
    assert forall|a: int, b: int| 0 <= a < b < inputs.drop_first().len() implies path_lt(
        #[trigger] input_path(inputs.drop_first()[a]),
        #[trigger] input_path(inputs.drop_first()[b]),
    ) by {
        assert(inputs.drop_first()[a] == inputs[a + 1]);
        assert(inputs.drop_first()[b] == inputs[b + 1]);
    }
}

/// Two lists in path order have no differences exactly when they are equal.
proof fn lemma_no_differences(recorded: Seq<EnterpriseInput>, current: Seq<EnterpriseInput>)
    requires
        sorted_by_path(recorded),
        sorted_by_path(current),
    ensures
        (input_differences(recorded, current).len() == 0) == (inputs_view(recorded) == inputs_view(current)),
    decreases recorded.len() + current.len(),
{
    if recorded.len() == 0 && current.len() == 0 {
        assert(inputs_view(recorded) =~= inputs_view(current));
    } else if recorded.len() == 0 || current.len() == 0 {
        assert(inputs_view(recorded).len() != inputs_view(current).len());
    } else {
        let r = input_path(recorded[0]);
        let c = input_path(current[0]);
        if r != c || recorded[0].sha256@ != current[0].sha256@ {
            if r != c {
                lemma_path_lt_total(r, c);
            }
            assert(inputs_view(recorded)[0] != inputs_view(current)[0]);
        } else {
            lemma_path_lt_asymmetric(r, r);
            lemma_sorted_tail(recorded);
            lemma_sorted_tail(current);
            lemma_no_differences(recorded.drop_first(), current.drop_first());
            assert(inputs_view(recorded.drop_first()) =~= inputs_view(recorded).drop_first());
            assert(inputs_view(current.drop_first()) =~= inputs_view(current).drop_first());
            if inputs_view(recorded) == inputs_view(current) {
                assert(inputs_view(recorded).drop_first() == inputs_view(current).drop_first());
            }
            if inputs_view(recorded.drop_first()) == inputs_view(current.drop_first()) {
                assert(inputs_view(recorded).len() == inputs_view(current).len());
                assert forall|i: int| 0 <= i < inputs_view(recorded).len() implies inputs_view(recorded)[i]
                    == inputs_view(current)[i] by {
                    if i > 0 {
                        assert(inputs_view(recorded)[i] == inputs_view(recorded.drop_first())[i - 1]);
                        assert(inputs_view(current)[i] == inputs_view(current.drop_first())[i - 1]);
                    }
                }
                assert(inputs_view(recorded) =~= inputs_view(current));
            }
        }
    }
}

/// A path as it is shown.
pub(crate) fn display_path(parts: &[String]) -> (result: String)
    ensures
        result@ == path_display(texts_of(parts@)),
{
    let ghost view = texts_of(parts@);
    let mut out: Vec<char> = Vec::new();
    let mut i: usize = 0;
    while i < parts.len()
        invariant
            i <= parts@.len(),
            view == texts_of(parts@),
            out@ == path_display(view.take(i as int)),
        decreases parts@.len() - i,
    {
        assert(view.take(i + 1).drop_last() =~= view.take(i as int));
        assert(view.take(i + 1).last() == parts@[i as int]@);
        if i == 0 {
            assert(path_display(view.take(0)) == Seq::<char>::empty());
            push_str(&mut out, parts[i].as_str());
            assert(out@ =~= parts@[0]@);
        } else if chars_are(out.as_slice(), "/") {
            push_str(&mut out, parts[i].as_str());
        } else {
            push_str(&mut out, "/");
            push_str(&mut out, parts[i].as_str());
        }
        i += 1;
    }
    assert(view.take(parts@.len() as int) =~= view);
    string_from_chars(out.as_slice())
}

/// `word`, then the input's path between backticks.
fn note(word: &str, input: &EnterpriseInput) -> (result: String)
    ensures
        result@ == path_note(word@, *input),
{
    let shown = display_path(input.path.as_slice());
    let mut out: Vec<char> = Vec::new();
    push_str(&mut out, word);
    push_str(&mut out, " `");
    push_str(&mut out, shown.as_str());
    push_str(&mut out, "`");
    string_from_chars(out.as_slice())
}

/// Accepts current inputs equal to the recorded ones; otherwise reports each
/// path that was modified, is missing or is unrecorded, in path order.
pub fn verify_enterprise_inputs(recorded: &[EnterpriseInput], current: &[EnterpriseInput]) -> (result: Result<(), String>)
    requires
        sorted_by_path(recorded@),
        sorted_by_path(current@),
    ensures
        result is Ok <==> inputs_view(recorded@) == inputs_view(current@),
        result matches Err(message) ==> message@ == input_mismatch_message(input_differences(recorded@, current@)),
{
    let mut differences: Vec<String> = Vec::new();
    let mut a: usize = 0;
    let mut b: usize = 0;
    assert(recorded@.skip(0) =~= recorded@);
    assert(current@.skip(0) =~= current@);
    while a < recorded.len() || b < current.len()
        invariant
            a <= recorded@.len(),
            b <= current@.len(),
            input_differences(recorded@, current@) == texts_of(differences@) + input_differences(
                recorded@.skip(a as int),
                current@.skip(b as int),
            ),
        decreases recorded@.len() - a + current@.len() - b,
    {
        let ghost before = texts_of(differences@);
        let ghost rs = recorded@.skip(a as int);
        let ghost cs = current@.skip(b as int);
        assert(a < recorded@.len() ==> rs[0] == recorded@[a as int] && rs.drop_first() =~= recorded@.skip(a + 1));
        assert(b < current@.len() ==> cs[0] == current@[b as int] && cs.drop_first() =~= current@.skip(b + 1));
        if a == recorded.len() {
            let n = note("unrecorded", &current[b]);
            proof {
                assert(input_differences(rs, cs) == seq![n@] + input_differences(rs, cs.drop_first()));
            }
            differences.push(n);
            b += 1;
            proof {
                assert(texts_of(differences@) =~= before.push(n@));
                assert(before + (seq![n@] + input_differences(rs, cs.drop_first())) =~= before.push(n@)
                    + input_differences(rs, cs.drop_first()));
            }
        } else if b == current.len() {
            let n = note("missing", &recorded[a]);
            proof {
                assert(input_differences(rs, cs) == seq![n@] + input_differences(rs.drop_first(), cs));
            }
            differences.push(n);
            a += 1;
            proof {
                assert(texts_of(differences@) =~= before.push(n@));
                assert(before + (seq![n@] + input_differences(rs.drop_first(), cs)) =~= before.push(n@)
                    + input_differences(rs.drop_first(), cs));
            }
        } else if path_less(recorded[a].path.as_slice(), current[b].path.as_slice()) {
            let n = note("missing", &recorded[a]);
            proof {
                assert(input_differences(rs, cs) == seq![n@] + input_differences(rs.drop_first(), cs));
            }
            differences.push(n);
            a += 1;
            proof {
                assert(texts_of(differences@) =~= before.push(n@));
                assert(before + (seq![n@] + input_differences(rs.drop_first(), cs)) =~= before.push(n@)
                    + input_differences(rs.drop_first(), cs));
            }
        } else if path_less(current[b].path.as_slice(), recorded[a].path.as_slice()) {
            let n = note("unrecorded", &current[b]);
            proof {
                assert(input_differences(rs, cs) == seq![n@] + input_differences(rs, cs.drop_first()));
            }
            differences.push(n);
            b += 1;
            proof {
                assert(texts_of(differences@) =~= before.push(n@));
                assert(before + (seq![n@] + input_differences(rs, cs.drop_first())) =~= before.push(n@)
                    + input_differences(rs, cs.drop_first()));
            }
        } else if !chars_equal(chars_of(recorded[a].sha256.as_str()).as_slice(), chars_of(current[b].sha256.as_str()).as_slice()) {
            let n = note("modified", &recorded[a]);
            proof {
                assert(input_differences(rs, cs) == seq![n@] + input_differences(rs.drop_first(), cs.drop_first()));
            }
            differences.push(n);
            a += 1;
            b += 1;
            proof {
                assert(texts_of(differences@) =~= before.push(n@));
                assert(before + (seq![n@] + input_differences(rs.drop_first(), cs.drop_first())) =~= before.push(n@)
                    + input_differences(rs.drop_first(), cs.drop_first()));
            }
        } else {
            proof {
                assert(input_differences(rs, cs) == input_differences(rs.drop_first(), cs.drop_first()));
            }
            a += 1;
            b += 1;
        }
    }
    proof {
        assert(recorded@.skip(a as int) =~= Seq::<EnterpriseInput>::empty());
        assert(current@.skip(b as int) =~= Seq::<EnterpriseInput>::empty());
        assert(texts_of(differences@) + Seq::<Seq<char>>::empty() =~= texts_of(differences@));
        lemma_no_differences(recorded@, current@);
    }
    if differences.len() == 0 {
        return Ok(());
    }
    let mut out: Vec<char> = Vec::new();
    push_str(&mut out, "enterprise candidate input verification failed: ");
    let mut i: usize = 0;
    let ghost names = texts_of(differences@);
    while i < differences.len()
        invariant
            i <= differences@.len(),
            names == texts_of(differences@),
            out@ == "enterprise candidate input verification failed: "@ + joined(names.take(i as int)),
        decreases differences@.len() - i,
    {
        assert(names.take(i + 1).drop_last() =~= names.take(i as int));
        assert(names.take(i + 1).last() == differences@[i as int]@);
        if i > 0 {
            push_str(&mut out, ", ");
        }
        push_str(&mut out, differences[i].as_str());
        if i == 0 {
            assert(joined(names.take(1)) == names[0]);
        }
        i += 1;
    }
    assert(names.take(differences@.len() as int) =~= names);
    Err(string_from_chars(out.as_slice()))
}


/// A manifest that binds a candidate project, the package and test roots
/// below it, and the digests of every input file under the package roots.
/// Paths are kept as their parts.
#[derive(Debug, PartialEq, Eq)]
pub struct EnterpriseManifest {
    pub schema_version: u32,
    pub tool_version: String,
    pub candidate: CandidateIdentity,
    pub project: Vec<String>,
    pub package_roots: Vec<Vec<String>>,
    pub test_roots: Vec<Vec<String>>,
    pub inputs: Vec<EnterpriseInput>,
    pub minimum_test_methods: usize,
}

/// A list of paths as plain values.
pub open spec fn paths_view(paths: Seq<Vec<String>>) -> Seq<Seq<Seq<char>>> {
    Seq::new(paths.len(), |i: int| texts_of(paths[i]@))
}

/// Whether a path is a non-empty relative path of names and `.` parts.
pub open spec fn safe_relative(path: Seq<Seq<char>>) -> bool {
    &&& path.len() > 0
    &&& forall|i: int| 0 <= i < path.len() ==> part_rank(#[trigger] path[i]) == 1 || part_rank(path[i]) == 3
}

/// Whether a path is non-empty and does not start at the root.
pub open spec fn relative_path(path: Seq<Seq<char>>) -> bool {
    &&& path.len() > 0
    &&& forall|i: int| 0 <= i < path.len() ==> part_rank(#[trigger] path[i]) != 0
}

/// The message for a path that is not a safe relative path.
pub open spec fn unsafe_path_message(label: Seq<char>, path: Seq<Seq<char>>) -> Seq<char> {
    "enterprise "@ + label + " path `"@ + path_display(path) + "` must be a safe relative path"@
}

/// The first rule that roots from `i` on break: each a safe relative path,
/// each after the one before it.
pub open spec fn roots_error(roots: Seq<Seq<Seq<char>>>, label: Seq<char>, i: int) -> Option<Seq<char>>
    decreases roots.len() - i,
{
    if i < 0 || i >= roots.len() {
        None
    } else if !safe_relative(roots[i]) {
        Some(unsafe_path_message(label, roots[i]))
    } else if i > 0 && !path_lt(roots[i - 1], roots[i]) {
        Some("enterprise "@ + label + " roots must be unique and sorted"@)
    } else {
        roots_error(roots, label, i + 1)
    }
}

/// The first rule that inputs from `i` on break: each path a safe relative
/// path, each digest valid, each path after the one before it.
pub open spec fn inputs_error(inputs: Seq<EnterpriseInput>, i: int) -> Option<Seq<char>>
    decreases inputs.len() - i,
{
    if i < 0 || i >= inputs.len() {
        None
    } else if !safe_relative(input_path(inputs[i])) {
        Some(unsafe_path_message("input"@, input_path(inputs[i])))
    } else if !lower_hex_of_length(inputs[i].sha256@, 64) {
        Some(digest_message("input"@))
    } else if i > 0 && !path_lt(input_path(inputs[i - 1]), input_path(inputs[i])) {
        Some("enterprise inputs must be unique and sorted by relative path"@)
    } else {
        inputs_error(inputs, i + 1)
    }
}

/// The first rule that the recorded fields of a manifest break, checked
/// against the version of the running tool.
pub open spec fn serialized_error(manifest: EnterpriseManifest, tool_version: Seq<char>) -> Option<Seq<char>> {
    if manifest.schema_version != ENTERPRISE_SCHEMA_VERSION {
        Some("unsupported enterprise manifest schema version "@ + decimal(manifest.schema_version as nat)
            + "; expected 1"@)
    } else if manifest.tool_version@ != tool_version {
        Some("enterprise manifest requires apex-exec "@ + manifest.tool_version@ + ", but this binary is "@
            + tool_version)
    } else if candidate_error(manifest.candidate) is Some {
        candidate_error(manifest.candidate)
    } else if manifest.minimum_test_methods < 100 {
        Some("enterprise raw denominator must require at least 100 tests"@)
    } else if manifest.inputs@.len() == 0 {
        Some("enterprise manifest must record at least one input"@)
    } else if !relative_path(texts_of(manifest.project@)) {
        Some("enterprise project path `"@ + path_display(texts_of(manifest.project@)) + "` must be relative"@)
    } else {
        inputs_error(manifest.inputs@, 0)
    }
}

/// The first rule that the package and test roots break, as far as it
/// shows in the paths themselves.
pub open spec fn root_paths_error(package_roots: Seq<Seq<Seq<char>>>, test_roots: Seq<Seq<Seq<char>>>) -> Option<
    Seq<char>,
> {
    if package_roots.len() == 0 {
        Some("enterprise manifest requires at least one package root"@)
    } else if test_roots.len() == 0 {
        Some("enterprise manifest requires at least one test root"@)
    } else if roots_error(package_roots, "package"@, 0) is Some {
        roots_error(package_roots, "package"@, 0)
    } else {
        roots_error(test_roots, "test"@, 0)
    }
}

/// The first rule that a manifest breaks: its recorded fields, then its roots.
pub open spec fn manifest_error(manifest: EnterpriseManifest, tool_version: Seq<char>) -> Option<Seq<char>> {
    if serialized_error(manifest, tool_version) is Some {
        serialized_error(manifest, tool_version)
    } else {
        root_paths_error(paths_view(manifest.package_roots@), paths_view(manifest.test_roots@))
    }
}

/// Whether the path is a safe relative path.
fn is_safe_relative(path: &[String]) -> (result: bool)
    ensures
        result == safe_relative(texts_of(path@)),
{
    if path.len() == 0 {
        return false;
    }
    let mut i: usize = 0;
    while i < path.len()
        invariant
            i <= path@.len(),
            forall|k: int| 0 <= k < i ==> part_rank(#[trigger] texts_of(path@)[k]) == 1 || part_rank(texts_of(path@)[k]) == 3,
        decreases path@.len() - i,
    {
        let rank = rank_of(path[i].as_str());
        assert(texts_of(path@)[i as int] == path@[i as int]@);
        if rank != 1 && rank != 3 {
            return false;
        }
        i += 1;
    }
    true
}

/// Whether the path is relative.
fn is_relative(path: &[String]) -> (result: bool)
    ensures
        result == relative_path(texts_of(path@)),
{
    if path.len() == 0 {
        return false;
    }
    let mut i: usize = 0;
    while i < path.len()
        invariant
            i <= path@.len(),
            forall|k: int| 0 <= k < i ==> part_rank(#[trigger] texts_of(path@)[k]) != 0,
        decreases path@.len() - i,
    {
        let rank = rank_of(path[i].as_str());
        assert(texts_of(path@)[i as int] == path@[i as int]@);
        if rank == 0 {
            return false;
        }
        i += 1;
    }
    true
}

/// The message for a path that is not a safe relative path.
fn unsafe_path(label: &str, path: &[String]) -> (result: String)
    ensures
        result@ == unsafe_path_message(label@, texts_of(path@)),
{
    let shown = display_path(path);
    let mut out: Vec<char> = Vec::new();
    push_str(&mut out, "enterprise ");
    push_str(&mut out, label);
    push_str(&mut out, " path `");
    push_str(&mut out, shown.as_str());
    push_str(&mut out, "` must be a safe relative path");
    string_from_chars(out.as_slice())
}

/// Accepts roots that are safe relative paths in increasing order;
/// otherwise reports the first rule broken.
fn validate_roots(roots: &[Vec<String>], label: &str) -> (result: Result<(), String>)
    ensures
        match roots_error(paths_view(roots@), label@, 0) {
            Some(message) => result matches Err(found) && found@ == message,
            None => result is Ok,
        },
{
    let ghost view = paths_view(roots@);
    let mut i: usize = 0;
    while i < roots.len()
        invariant
            i <= roots@.len(),
            view == paths_view(roots@),
            roots_error(view, label@, 0) == roots_error(view, label@, i as int),
        decreases roots@.len() - i,
    {
        assert(view[i as int] == texts_of(roots@[i as int]@));
        if !is_safe_relative(roots[i].as_slice()) {
            return Err(unsafe_path(label, roots[i].as_slice()));
        }
        if i > 0 {
            assert(view[i - 1] == texts_of(roots@[i - 1]@));
            if !path_less(roots[i - 1].as_slice(), roots[i].as_slice()) {
                let mut out: Vec<char> = Vec::new();
                push_str(&mut out, "enterprise ");
                push_str(&mut out, label);
                push_str(&mut out, " roots must be unique and sorted");
                return Err(string_from_chars(out.as_slice()));
            }
        }
        i += 1;
    }
    Ok(())
}

/// Accepts inputs with safe relative paths, valid digests and increasing
/// paths; otherwise reports the first rule broken.
fn validate_inputs(inputs: &[EnterpriseInput]) -> (result: Result<(), String>)
    ensures
        match inputs_error(inputs@, 0) {
            Some(message) => result matches Err(found) && found@ == message,
            None => result is Ok,
        },
{
    let mut i: usize = 0;
    while i < inputs.len()
        invariant
            i <= inputs@.len(),
            inputs_error(inputs@, 0) == inputs_error(inputs@, i as int),
        decreases inputs@.len() - i,
    {
        if !is_safe_relative(inputs[i].path.as_slice()) {
            return Err(unsafe_path("input", inputs[i].path.as_slice()));
        }
        validate_sha256(inputs[i].sha256.as_str(), "input")?;
        if i > 0 && !path_less(inputs[i - 1].path.as_slice(), inputs[i].path.as_slice()) {
            return Err("enterprise inputs must be unique and sorted by relative path".to_string());
        }
        i += 1;
    }
    Ok(())
}

/// Checks the recorded fields of a manifest against the version of the
/// running tool, and reports the first rule broken.
pub fn validate_serialized(manifest: &EnterpriseManifest, tool_version: &str) -> (result: Result<(), String>)
    ensures
        match serialized_error(*manifest, tool_version@) {
            Some(message) => result matches Err(found) && found@ == message,
            None => result is Ok,
        },
{
    if manifest.schema_version != ENTERPRISE_SCHEMA_VERSION {
        let mut out: Vec<char> = Vec::new();
        push_str(&mut out, "unsupported enterprise manifest schema version ");
        push_decimal(&mut out, manifest.schema_version as usize);
        push_str(&mut out, "; expected 1");
        return Err(string_from_chars(out.as_slice()));
    }
    if !chars_equal(chars_of(manifest.tool_version.as_str()).as_slice(), chars_of(tool_version).as_slice()) {
        let mut out: Vec<char> = Vec::new();
        push_str(&mut out, "enterprise manifest requires apex-exec ");
        push_str(&mut out, manifest.tool_version.as_str());
        push_str(&mut out, ", but this binary is ");
        push_str(&mut out, tool_version);
        return Err(string_from_chars(out.as_slice()));
    }
    validate_candidate(&manifest.candidate)?;
    if manifest.minimum_test_methods < 100 {
        return Err("enterprise raw denominator must require at least 100 tests".to_string());
    }
    if manifest.inputs.len() == 0 {
        return Err("enterprise manifest must record at least one input".to_string());
    }
    if !is_relative(manifest.project.as_slice()) {
        let shown = display_path(manifest.project.as_slice());
        let mut out: Vec<char> = Vec::new();
        push_str(&mut out, "enterprise project path `");
        push_str(&mut out, shown.as_str());
        push_str(&mut out, "` must be relative");
        return Err(string_from_chars(out.as_slice()));
    }
    validate_inputs(manifest.inputs.as_slice())
}

/// Checks the roots as far as the paths themselves show, and reports the
/// first rule broken; that each root is a directory below the project, and
/// each test root inside a package root, only the file system can tell.
pub fn validate_root_paths(package_roots: &[Vec<String>], test_roots: &[Vec<String>]) -> (result: Result<(), String>)
    ensures
        match root_paths_error(paths_view(package_roots@), paths_view(test_roots@)) {
            Some(message) => result matches Err(found) && found@ == message,
            None => result is Ok,
        },
{
    if package_roots.len() == 0 {
        return Err("enterprise manifest requires at least one package root".to_string());
    }
    if test_roots.len() == 0 {
        return Err("enterprise manifest requires at least one test root".to_string());
    }
    validate_roots(package_roots, "package")?;
    validate_roots(test_roots, "test")
}

/// Checks a whole manifest: its recorded fields, then its roots.
pub fn validate_manifest(manifest: &EnterpriseManifest, tool_version: &str) -> (result: Result<(), String>)
    ensures
        match manifest_error(*manifest, tool_version@) {
            Some(message) => result matches Err(found) && found@ == message,
            None => result is Ok,
        },
{
    validate_serialized(manifest, tool_version)?;
    validate_root_paths(manifest.package_roots.as_slice(), manifest.test_roots.as_slice())
}


/// Inputs in increasing path order with valid digests break no input rule
/// exactly when every path is a safe relative path.
proof fn lemma_inputs_error(inputs: Seq<EnterpriseInput>, i: int)
    requires
        0 <= i <= inputs.len(),
        sorted_by_path(inputs),
        forall|k: int| 0 <= k < inputs.len() ==> lower_hex_of_length(#[trigger] inputs[k].sha256@, 64),
    ensures
        (inputs_error(inputs, i) is None) == (forall|k: int| i <= k < inputs.len() ==> safe_relative(
            #[trigger] input_path(inputs[k]),
        )),
    decreases inputs.len() - i,
{
    if i < inputs.len() {
        lemma_inputs_error(inputs, i + 1);
        if i > 0 {
            assert(path_lt(input_path(inputs[i - 1]), input_path(inputs[i])));
        }
        assert(lower_hex_of_length(inputs[i].sha256@, 64));
    }
}

impl EnterpriseManifest {
    /// A manifest for a candidate, its package and test roots, and the files
    /// read under the package roots, each with its path and contents; the
    /// roots are checked first, then the whole manifest.
    pub fn generate(
        candidate: CandidateIdentity,
        package_roots: Vec<Vec<String>>,
        test_roots: Vec<Vec<String>>,
        files: &[(Vec<String>, Vec<u8>)],
        tool_version: &str,
    ) -> (result: Result<EnterpriseManifest, String>)
        ensures
            root_paths_error(paths_view(package_roots@), paths_view(test_roots@)) matches Some(message) ==> (
            result matches Err(found) && found@ == message),
            root_paths_error(paths_view(package_roots@), paths_view(test_roots@)) is None ==> (candidate_error(
                candidate,
            ) matches Some(message) ==> (result matches Err(found) && found@ == message)),
            result is Ok <==> (root_paths_error(paths_view(package_roots@), paths_view(test_roots@)) is None
                && candidate_error(candidate) is None && files@.len() > 0 && forall|j: int|
                0 <= j < files@.len() ==> safe_relative(#[trigger] file_path(files@[j]))),
            result matches Ok(manifest) ==> {
                &&& manifest.schema_version == ENTERPRISE_SCHEMA_VERSION
                &&& manifest.tool_version@ == tool_version@
                &&& manifest.candidate == candidate
                &&& texts_of(manifest.project@) == seq!["."@]
                &&& paths_view(manifest.package_roots@) == paths_view(package_roots@)
                &&& paths_view(manifest.test_roots@) == paths_view(test_roots@)
                &&& manifest.minimum_test_methods == 100
                &&& sorted_by_path(manifest.inputs@)
                &&& forall|k: int| 0 <= k < manifest.inputs@.len() ==> #[trigger] input_of_file(files@, manifest.inputs@[k])
                &&& forall|j: int| 0 <= j < files@.len() ==> #[trigger] holds_path(manifest.inputs@, file_path(files@[j]))
            },
    {
        validate_root_paths(package_roots.as_slice(), test_roots.as_slice())?;
        let inputs = enterprise_inputs(files);
        let mut project: Vec<String> = Vec::new();
        project.push(".".to_string());
        let manifest = EnterpriseManifest {
            schema_version: ENTERPRISE_SCHEMA_VERSION,
            tool_version: tool_version.to_string(),
            candidate,
            project,
            package_roots,
            test_roots,
            inputs,
            minimum_test_methods: 100,
        };
        proof {
            reveal_strlit(".");
            reveal_strlit("/");
            let inputs = manifest.inputs@;
            assert(texts_of(manifest.project@) =~= seq!["."@]);
            assert("."@[0] != "/"@[0]);
            assert(part_rank("."@) == 1);
            assert(relative_path(texts_of(manifest.project@)));
            if files@.len() > 0 {
                assert(holds_path(inputs, file_path(files@[0])));
            }
            if inputs.len() > 0 {
                assert(input_of_file(files@, inputs[0]));
            }
            lemma_inputs_error(inputs, 0);
            assert((forall|k: int| 0 <= k < inputs.len() ==> safe_relative(#[trigger] input_path(inputs[k])))
                == (forall|j: int| 0 <= j < files@.len() ==> safe_relative(#[trigger] file_path(files@[j])))) by {
                if forall|k: int| 0 <= k < inputs.len() ==> safe_relative(#[trigger] input_path(inputs[k])) {
                    assert forall|j: int| 0 <= j < files@.len() implies safe_relative(#[trigger] file_path(files@[j])) by {
                        assert(holds_path(inputs, file_path(files@[j])));
                    }
                }
                if forall|j: int| 0 <= j < files@.len() ==> safe_relative(#[trigger] file_path(files@[j])) {
                    assert forall|k: int| 0 <= k < inputs.len() implies safe_relative(#[trigger] input_path(inputs[k])) by {
                        assert(input_of_file(files@, inputs[k]));
                        let f = first_file_with(files@, input_path(inputs[k]), 0);
                        lemma_first_file_path(files@, input_path(inputs[k]), 0);
                        assert(file_path(files@[f]) == input_path(inputs[k]));
                    }
                }
            }
        }
        validate_manifest(&manifest, tool_version)?;
        Ok(manifest)
    }
}

/// The first file found with a path has that path.
proof fn lemma_first_file_path(files: Seq<(Vec<String>, Vec<u8>)>, path: Seq<Seq<char>>, from: int)
    requires
        0 <= from,
    ensures
        first_file_with(files, path, from) >= 0 ==> file_path(files[first_file_with(files, path, from)]) == path
            && first_file_with(files, path, from) < files.len(),
    decreases files.len() - from,
{
    if from < files.len() && file_path(files[from]) != path {
        lemma_first_file_path(files, path, from + 1);
    }
}

} // verus!
