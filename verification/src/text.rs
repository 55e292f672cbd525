use vstd::prelude::*;

use crate::lexer::digits_value;

verus! {

/// The ASCII lower-case form of one character; other characters are unchanged.
pub open spec fn lower_char(c: char) -> char {
    if 'A' <= c && c <= 'Z' {
        ((c as u32) + 32) as char
    } else {
        c
    }
}

/// The ASCII lower-case form of a text, character by character.
pub open spec fn ascii_lower(s: Seq<char>) -> Seq<char> {
    s.map_values(|c: char| lower_char(c))
}

/// Whether two texts are equal when ASCII letters are compared without case.
pub open spec fn eq_ignore_case(a: Seq<char>, b: Seq<char>) -> bool {
    ascii_lower(a) == ascii_lower(b)
}

/// Number of bytes that the UTF-8 encoding of `c` takes.
pub open spec fn utf8_width(c: char) -> nat {
    if (c as u32) < 0x80 {
        1
    } else if (c as u32) < 0x800 {
        2
    } else if (c as u32) < 0x10000 {
        3
    } else {
        4
    }
}

/// Number of bytes that the UTF-8 encoding of a text takes.
pub open spec fn utf8_len(s: Seq<char>) -> nat
    decreases s.len(),
{
    if s.len() == 0 {
        0
    } else {
        utf8_len(s.drop_last()) + utf8_width(s.last())
    }
}

/// Unicode `White_Space`, the property that `char::is_whitespace` reports.
pub open spec fn spec_is_whitespace(c: char) -> bool {
    let u = c as u32;
    (0x09 <= u && u <= 0x0d) || u == 0x20 || u == 0x85 || u == 0xa0 || u == 0x1680 || (0x2000 <= u
        && u <= 0x200a) || u == 0x2028 || u == 0x2029 || u == 0x202f || u == 0x205f || u == 0x3000
}

pub open spec fn spec_is_ascii_digit(c: char) -> bool {
    '0' <= c && c <= '9'
}

pub open spec fn spec_is_ascii_alphabetic(c: char) -> bool {
    ('a' <= c && c <= 'z') || ('A' <= c && c <= 'Z')
}

pub fn is_whitespace(c: char) -> (result: bool)
    ensures
        result == spec_is_whitespace(c),
{
    let u = c as u32;
    (0x09 <= u && u <= 0x0d) || u == 0x20 || u == 0x85 || u == 0xa0 || u == 0x1680 || (0x2000 <= u
        && u <= 0x200a) || u == 0x2028 || u == 0x2029 || u == 0x202f || u == 0x205f || u == 0x3000
}

pub fn is_ascii_digit(c: char) -> (result: bool)
    ensures
        result == spec_is_ascii_digit(c),
{
    '0' <= c && c <= '9'
}

pub fn is_ascii_alphabetic(c: char) -> (result: bool)
    ensures
        result == spec_is_ascii_alphabetic(c),
{
    ('a' <= c && c <= 'z') || ('A' <= c && c <= 'Z')
}

pub fn char_width(c: char) -> (result: usize)
    ensures
        result == utf8_width(c),
        1 <= result <= 4,
{
    let u = c as u32;
    if u < 0x80 {
        1
    } else if u < 0x800 {
        2
    } else if u < 0x10000 {
        3
    } else {
        4
    }
}

pub fn to_lower_char(c: char) -> (result: char)
    ensures
        result == lower_char(c),
{
    if 'A' <= c && c <= 'Z' {
        let u = (c as u32) + 32;
        assert(0x61 <= u <= 0x7a);
        char_from_ascii(u)
    } else {
        c
    }
}

/// The character with the given code, for a code below 0x80.
fn char_from_ascii(u: u32) -> (result: char)
    requires
        u < 0x80,
    ensures
        result == u as char,
{
    let b = u as u8;
    b as char
}

/// The characters of a text, in order.
pub fn chars_of(s: &str) -> (result: Vec<char>)
    ensures
        result@ == s@,
{
    let mut result: Vec<char> = Vec::new();
    for c in iter: s.chars()
        invariant
            result@ == iter.seq().take(iter.index() as int),
    {
        result.push(c);
    }
    assert(result@ =~= s@);
    result
}

/// A `String` holding exactly the given characters.
#[verifier::external_body]
pub fn string_from_chars(chars: &[char]) -> (result: String)
    ensures
        result@ == chars@,
{
    chars.iter().collect()
}

/// Characters of the text, lower-cased where they are ASCII letters.
pub fn lower_chars(s: &[char]) -> (result: Vec<char>)
    ensures
        result@ == ascii_lower(s@),
{
    let mut result: Vec<char> = Vec::new();
    let mut i: usize = 0;
    while i < s.len()
        invariant
            i <= s@.len(),
            result@ == ascii_lower(s@.take(i as int)),
        decreases s@.len() - i,
    {
        result.push(to_lower_char(s[i]));
        i += 1;
        assert(ascii_lower(s@.take(i as int)) =~= ascii_lower(s@.take(i - 1)).push(lower_char(s@[i - 1])));
    }
    assert(s@.take(s@.len() as int) =~= s@);
    result
}

/// `s` as a `String` of lower-cased ASCII letters, other characters unchanged.
pub fn to_ascii_lowercase(s: &str) -> (result: String)
    ensures
        result@ == ascii_lower(s@),
{
    let chars = chars_of(s);
    let lower = lower_chars(chars.as_slice());
    string_from_chars(lower.as_slice())
}

/// Whether two character sequences are equal.
pub fn chars_equal(a: &[char], b: &[char]) -> (result: bool)
    ensures
        result == (a@ == b@),
{
    if a.len() != b.len() {
        return false;
    }
    let mut i: usize = 0;
    while i < a.len()
        invariant
            a@.len() == b@.len(),
            i <= a@.len(),
            forall|j: int| 0 <= j < i ==> a@[j] == b@[j],
        decreases a@.len() - i,
    {
        if a[i] != b[i] {
            return false;
        }
        i += 1;
    }
    assert(a@ =~= b@);
    true
}

/// Whether a character sequence spells the given text exactly.
pub fn chars_are(a: &[char], text: &str) -> (result: bool)
    ensures
        result == (a@ == text@),
{
    let b = chars_of(text);
    chars_equal(a, b.as_slice())
}

/// Whether two texts are equal ignoring the case of ASCII letters.
pub fn eq_ignore_ascii_case(a: &str, b: &str) -> (result: bool)
    ensures
        result == eq_ignore_case(a@, b@),
{
    let a = lower_chars(chars_of(a).as_slice());
    let b = lower_chars(chars_of(b).as_slice());
    chars_equal(a.as_slice(), b.as_slice())
}

/// Appends all characters of `text` to `out`.
pub fn push_str(out: &mut Vec<char>, text: &str)
    ensures
        final(out)@ == old(out)@ + text@,
{
    let chars = chars_of(text);
    push_chars(out, chars.as_slice());
}

/// Appends all characters of `chars` to `out`.
pub fn push_chars(out: &mut Vec<char>, chars: &[char])
    ensures
        final(out)@ == old(out)@ + chars@,
{
    let ghost start = out@;
    let mut i: usize = 0;
    while i < chars.len()
        invariant
            i <= chars@.len(),
            out@ == start + chars@.take(i as int),
        decreases chars@.len() - i,
    {
        out.push(chars[i]);
        i += 1;
        assert(start + chars@.take(i as int) =~= (start + chars@.take(i - 1)).push(chars@[i - 1]));
    }
    assert(chars@.take(chars@.len() as int) =~= chars@);
}

/// The concatenation of three texts as one `String`.
pub fn concat3(a: &str, b: &str, c: &str) -> (result: String)
    ensures
        result@ == a@ + b@ + c@,
{
    let mut out: Vec<char> = Vec::new();
    push_str(&mut out, a);
    push_str(&mut out, b);
    push_str(&mut out, c);
    assert(out@ =~= a@ + b@ + c@);
    string_from_chars(out.as_slice())
}

/// The decimal digits of a number, without leading zeros (`0` is one digit).
pub open spec fn decimal(n: nat) -> Seq<char>
    decreases n,
{
    if n < 10 {
        seq![digit_char(n)]
    } else {
        decimal(n / 10) + seq![digit_char(n % 10)]
    }
}

pub open spec fn digit_char(d: nat) -> char {
    if d == 0 { '0' }
    else if d == 1 { '1' }
    else if d == 2 { '2' }
    else if d == 3 { '3' }
    else if d == 4 { '4' }
    else if d == 5 { '5' }
    else if d == 6 { '6' }
    else if d == 7 { '7' }
    else if d == 8 { '8' }
    else { '9' }
}

fn digit(d: usize) -> (result: char)
    requires
        d < 10,
    ensures
        result == digit_char(d as nat),
{
    if d == 0 { '0' }
    else if d == 1 { '1' }
    else if d == 2 { '2' }
    else if d == 3 { '3' }
    else if d == 4 { '4' }
    else if d == 5 { '5' }
    else if d == 6 { '6' }
    else if d == 7 { '7' }
    else if d == 8 { '8' }
    else { '9' }
}

/// Appends the decimal digits of `n` to `out`.
pub fn push_decimal(out: &mut Vec<char>, n: usize)
    ensures
        final(out)@ == old(out)@ + decimal(n as nat),
    decreases n,
{
    if n < 10 {
        out.push(digit(n));
    } else {
        push_decimal(out, n / 10);
        out.push(digit(n % 10));
    }
}

/// `count` copies of `c`.
pub open spec fn repeat(c: char, count: nat) -> Seq<char> {
    Seq::new(count, |i: int| c)
}

/// Appends `count` copies of `c` to `out`.
pub fn push_repeat(out: &mut Vec<char>, c: char, count: usize)
    ensures
        final(out)@ == old(out)@ + repeat(c, count as nat),
{
    let ghost start = out@;
    let mut i: usize = 0;
    while i < count
        invariant
            i <= count,
            out@ == start + repeat(c, i as nat),
        decreases count - i,
    {
        out.push(c);
        i += 1;
        assert(out@ =~= start + repeat(c, i as nat));
    }
}

/// Byte offsets of every character boundary: entry `i` is the UTF-8 length of
/// the first `i` characters; the last entry is the length of the whole text.
pub fn byte_offsets(chars: &[char]) -> (result: Vec<usize>)
    requires
        utf8_len(chars@) <= usize::MAX,
    ensures
        result@.len() == chars@.len() + 1,
        forall|i: int| 0 <= i <= chars@.len() ==> #[trigger] result@[i] == utf8_len(chars@.take(i)),
{
    let mut result: Vec<usize> = Vec::new();
    result.push(0);
    let mut total: usize = 0;
    let mut i: usize = 0;
    assert(chars@.take(0) =~= Seq::<char>::empty());
    while i < chars.len()
        invariant
            i <= chars@.len(),
            utf8_len(chars@) <= usize::MAX,
            result@.len() == i + 1,
            total == utf8_len(chars@.take(i as int)),
            forall|j: int| 0 <= j <= i ==> #[trigger] result@[j] == utf8_len(chars@.take(j)),
        decreases chars@.len() - i,
    {
        proof {
            assert(chars@.take(i + 1).drop_last() =~= chars@.take(i as int));
            lemma_utf8_len_prefix(chars@, i + 1);
        }
        total = total + char_width(chars[i]);
        i += 1;
        result.push(total);
    }
    result
}

/// The UTF-8 length of a prefix never exceeds that of the whole text.
pub proof fn lemma_utf8_len_prefix(s: Seq<char>, k: int)
    requires
        0 <= k <= s.len(),
    ensures
        utf8_len(s.take(k)) <= utf8_len(s),
    decreases s.len(),
{
    if k < s.len() {
        assert(s.drop_last().take(k) =~= s.take(k));
        lemma_utf8_len_prefix(s.drop_last(), k);
    } else {
        assert(s.take(k) =~= s);
    }
}

/// The UTF-8 length grows with the prefix.
pub proof fn lemma_utf8_len_monotone(s: Seq<char>, j: int, k: int)
    requires
        0 <= j <= k <= s.len(),
    ensures
        utf8_len(s.take(j)) <= utf8_len(s.take(k)),
        j < k ==> utf8_len(s.take(j)) < utf8_len(s.take(k)),
    decreases k - j,
{
    if j < k {
        assert(s.take(k).drop_last() =~= s.take(k - 1));
        lemma_utf8_len_monotone(s, j, k - 1);
    }
}

/// Whether byte offset `b` falls on a character boundary of the text.
pub open spec fn is_boundary(chars: Seq<char>, b: int) -> bool {
    exists|k: int| 0 <= k <= chars.len() && #[trigger] utf8_len(chars.take(k)) == b
}

/// The number of characters before byte offset `b`, for a boundary `b`.
pub open spec fn boundary_index(chars: Seq<char>, b: int) -> int {
    choose|k: int| 0 <= k <= chars.len() && #[trigger] utf8_len(chars.take(k)) == b
}

/// The character index of a boundary byte offset.
pub fn find_boundary(chars: &[char], offsets: &Vec<usize>, b: usize) -> (result: usize)
    requires
        offsets@.len() == chars@.len() + 1,
        forall|i: int| 0 <= i <= chars@.len() ==> #[trigger] offsets@[i] == utf8_len(chars@.take(i)),
        is_boundary(chars@, b as int),
    ensures
        result == boundary_index(chars@, b as int),
        result <= chars@.len(),
        utf8_len(chars@.take(result as int)) == b,
{
    let ghost k = boundary_index(chars@, b as int);
    let mut i: usize = 0;
    while i < chars.len() && offsets[i] != b
        invariant
            i <= chars@.len(),
            0 <= k <= chars@.len(),
            utf8_len(chars@.take(k)) == b,
            offsets@.len() == chars@.len() + 1,
            forall|j: int| 0 <= j <= chars@.len() ==> #[trigger] offsets@[j] == utf8_len(chars@.take(j)),
            forall|j: int| 0 <= j < i ==> utf8_len(chars@.take(j)) != b,
        decreases chars@.len() - i,
    {
        i += 1;
    }
    proof {
        if offsets@[i as int] != b {
            assert(i == chars@.len());
            assert(k != i as int);
            assert(utf8_len(chars@.take(k)) != b);
        }
        if k < i {
            assert(utf8_len(chars@.take(k)) != b);
        } else if k > i {
            lemma_utf8_len_monotone(chars@, i as int, k);
        }
    }
    i
}

/// Whether byte offset `b` falls on a character boundary of the text.
pub fn check_boundary(chars: &[char], offsets: &Vec<usize>, b: usize) -> (result: bool)
    requires
        chars@.len() < usize::MAX,
        offsets@.len() == chars@.len() + 1,
        forall|i: int| 0 <= i <= chars@.len() ==> #[trigger] offsets@[i] == utf8_len(chars@.take(i)),
    ensures
        result == is_boundary(chars@, b as int),
{
    let mut i: usize = 0;
    while i <= chars.len()
        invariant
            i <= chars@.len() + 1,
            chars@.len() < usize::MAX,
            offsets@.len() == chars@.len() + 1,
            forall|j: int| 0 <= j <= chars@.len() ==> #[trigger] offsets@[j] == utf8_len(chars@.take(j)),
            forall|j: int| 0 <= j < i ==> utf8_len(chars@.take(j)) != b,
        decreases chars@.len() + 1 - i,
    {
        if offsets[i] == b {
            return true;
        }
        i += 1;
    }
    false
}

/// Number of occurrences of `c` in the text.
pub open spec fn count_char(s: Seq<char>, c: char) -> nat
    decreases s.len(),
{
    if s.len() == 0 {
        0
    } else {
        count_char(s.drop_last(), c) + if s.last() == c { 1nat } else { 0nat }
    }
}

/// Index just after the last line break before position `k`, or zero.
pub open spec fn line_start_index(s: Seq<char>, k: int) -> int
    decreases k,
{
    if k <= 0 {
        0
    } else if s[k - 1] == '\n' {
        k
    } else {
        line_start_index(s, k - 1)
    }
}

/// Index of the first line break at or after position `k`, or the length.
pub open spec fn line_end_index(s: Seq<char>, k: int) -> int
    decreases s.len() - k,
{
    if k >= s.len() {
        s.len() as int
    } else if s[k] == '\n' {
        k
    } else {
        line_end_index(s, k + 1)
    }
}

pub fn count_newlines(s: &[char], k: usize) -> (result: usize)
    requires
        k <= s@.len(),
    ensures
        result == count_char(s@.take(k as int), '\n'),
        result <= k,
{
    let mut count: usize = 0;
    let mut i: usize = 0;
    while i < k
        invariant
            i <= k <= s@.len(),
            count == count_char(s@.take(i as int), '\n'),
            count <= i,
        decreases k - i,
    {
        assert(s@.take(i + 1).drop_last() =~= s@.take(i as int));
        if s[i] == '\n' {
            count += 1;
        }
        i += 1;
    }
    count
}

pub fn find_line_start(s: &[char], k: usize) -> (result: usize)
    requires
        k <= s@.len(),
    ensures
        result == line_start_index(s@, k as int),
        result <= k,
{
    let mut i: usize = k;
    while i > 0 && s[i - 1] != '\n'
        invariant
            i <= k <= s@.len(),
            line_start_index(s@, i as int) == line_start_index(s@, k as int),
        decreases i,
    {
        i -= 1;
    }
    i
}

pub fn find_line_end(s: &[char], k: usize) -> (result: usize)
    requires
        k <= s@.len(),
    ensures
        result == line_end_index(s@, k as int),
        k <= result <= s@.len(),
{
    let mut i: usize = k;
    while i < s.len() && s[i] != '\n'
        invariant
            k <= i <= s@.len(),
            line_end_index(s@, i as int) == line_end_index(s@, k as int),
        decreases s@.len() - i,
    {
        i += 1;
    }
    i
}

/// Appends `chars[from..to]` to `out`.
pub fn push_range(out: &mut Vec<char>, chars: &[char], from: usize, to: usize)
    requires
        from <= to <= chars@.len(),
    ensures
        final(out)@ == old(out)@ + chars@.subrange(from as int, to as int),
{
    let ghost start = out@;
    let mut i: usize = from;
    while i < to
        invariant
            from <= i <= to <= chars@.len(),
            out@ == start + chars@.subrange(from as int, i as int),
        decreases to - i,
    {
        out.push(chars[i]);
        i += 1;
        assert(out@ =~= start + chars@.subrange(from as int, i as int));
    }
}

/// Every character takes at least one byte.
pub proof fn lemma_utf8_len_at_least_len(s: Seq<char>)
    ensures
        utf8_len(s) >= s.len(),
    decreases s.len(),
{
    if s.len() > 0 {
        lemma_utf8_len_at_least_len(s.drop_last());
    }
}

/// The UTF-8 length can also be counted from the front.
pub proof fn lemma_utf8_len_front(s: Seq<char>)
    requires
        s.len() > 0,
    ensures
        utf8_len(s) == utf8_width(s[0]) + utf8_len(s.drop_first()),
    decreases s.len(),
{
    if s.len() == 1 {
        assert(s.drop_first() =~= Seq::<char>::empty());
        assert(s.drop_last() =~= Seq::<char>::empty());
    } else {
        lemma_utf8_len_front(s.drop_last());
        assert(s.drop_first().drop_last() =~= s.drop_last().drop_first());
        assert(s.drop_first().last() == s.last());
    }
}

/// The UTF-8 length of a text is the length of its UTF-8 encoding.
pub proof fn lemma_utf8_len_is_encoding_len(s: Seq<char>)
    ensures
        vstd::utf8::encode_utf8(s).len() == utf8_len(s),
    decreases s.len(),
{
    if s.len() > 0 {
        lemma_utf8_len_is_encoding_len(s.drop_first());
        lemma_utf8_len_front(s);
        vstd::utf8::char_is_scalar(s[0]);
    }
}

/// The UTF-8 length of a string slice fits in `usize`.
pub fn utf8_len_fits(s: &str)
    ensures
        utf8_len(s@) <= usize::MAX,
{
    let bytes = s.as_bytes();
    let n = bytes.len();
    proof {
        lemma_utf8_len_is_encoding_len(s@);
    }
}

} // verus!
verus! {

/// Whether `needle` occurs in `haystack` as a contiguous run.
pub open spec fn contains_run(haystack: Seq<char>, needle: Seq<char>) -> bool {
    exists|i: int| 0 <= i && i + needle.len() <= haystack.len() && #[trigger] haystack.subrange(i, i + needle.len()) == needle
}

/// Whether `needle` occurs at index `at` of `haystack`.
fn occurs_at(haystack: &[char], needle: &[char], at: usize) -> (result: bool)
    requires
        at + needle@.len() <= haystack@.len(),
    ensures
        result == (haystack@.subrange(at as int, at + needle@.len()) == needle@),
{
    let mut j: usize = 0;
    assert(haystack@.len() == haystack.len());
    while j < needle.len()
        invariant
            j <= needle@.len(),
            at + needle@.len() <= haystack@.len(),
            haystack@.len() <= usize::MAX,
            forall|k: int| 0 <= k < j ==> haystack@[at + k] == needle@[k],
        decreases needle@.len() - j,
    {
        if haystack[at + j] != needle[j] {
            assert(haystack@.subrange(at as int, at + needle@.len())[j as int] != needle@[j as int]);
            return false;
        }
        j += 1;
    }
    assert(haystack@.subrange(at as int, at + needle@.len()) =~= needle@);
    true
}

/// Whether `needle` occurs in `haystack` as a contiguous run.
pub fn contains_chars(haystack: &[char], needle: &[char]) -> (result: bool)
    ensures
        result == contains_run(haystack@, needle@),
{
    if needle.len() > haystack.len() {
        return false;
    }
    let last = haystack.len() - needle.len();
    let mut i: usize = 0;
    loop
        invariant
            last + needle@.len() == haystack@.len(),
            i <= last,
            forall|k: int| 0 <= k < i ==> #[trigger] haystack@.subrange(k, k + needle@.len()) != needle@,
        decreases last - i,
    {
        if occurs_at(haystack, needle, i) {
            return true;
        }
        if i == last {
            return false;
        }
        i += 1;
    }
}

/// Whether the text `needle` occurs in `haystack`.
pub fn contains_str(haystack: &[char], needle: &str) -> (result: bool)
    ensures
        result == contains_run(haystack@, needle@),
{
    let needle = chars_of(needle);
    contains_chars(haystack, needle.as_slice())
}

/// Index of the first `c` in `s` at or after `from`, or `-1`.
pub open spec fn first_index(s: Seq<char>, c: char, from: int) -> int
    decreases s.len() - from,
{
    if from < 0 || from >= s.len() {
        -1
    } else if s[from] == c {
        from
    } else {
        first_index(s, c, from + 1)
    }
}

/// Index of the first `c` in `s`, or `None`.
pub fn find_char(s: &[char], c: char) -> (result: Option<usize>)
    ensures
        match result {
            Some(k) => k as int == first_index(s@, c, 0) && k < s@.len(),
            None => first_index(s@, c, 0) == -1,
        },
{
    let mut i: usize = 0;
    while i < s.len()
        invariant
            i <= s@.len(),
            first_index(s@, c, 0) == first_index(s@, c, i as int),
        decreases s@.len() - i,
    {
        if s[i] == c {
            return Some(i);
        }
        i += 1;
    }
    None
}

/// Copy of `s[from..to]`.
pub fn slice_chars(s: &[char], from: usize, to: usize) -> (result: Vec<char>)
    requires
        from <= to <= s@.len(),
    ensures
        result@ == s@.subrange(from as int, to as int),
{
    let mut out: Vec<char> = Vec::new();
    let mut i: usize = from;
    while i < to
        invariant
            from <= i <= to <= s@.len(),
            out@ == s@.subrange(from as int, i as int),
        decreases to - i,
    {
        out.push(s[i]);
        i += 1;
        assert(out@ =~= s@.subrange(from as int, i as int));
    }
    out
}

/// Whether `s` ends with `suffix`.
pub open spec fn ends_with(s: Seq<char>, suffix: Seq<char>) -> bool {
    suffix.len() <= s.len() && s.skip(s.len() - suffix.len()) == suffix
}

/// Whether the characters `s` end with the text `suffix`.
pub fn chars_end_with(s: &[char], suffix: &str) -> (result: bool)
    ensures
        result == ends_with(s@, suffix@),
{
    let suffix = chars_of(suffix);
    if suffix.len() > s.len() {
        return false;
    }
    let tail = slice_chars(s, s.len() - suffix.len(), s.len());
    proof {
        assert(tail@ =~= s@.skip(s@.len() - suffix@.len()));
    }
    chars_equal(tail.as_slice(), suffix.as_slice())
}


/// Character-by-character order of two texts; a proper prefix comes first.
pub open spec fn text_lt(a: Seq<char>, b: Seq<char>) -> bool
    decreases a.len(),
{
    if a.len() == 0 {
        b.len() > 0
    } else if b.len() == 0 {
        false
    } else if a[0] != b[0] {
        (a[0] as int) < (b[0] as int)
    } else {
        text_lt(a.drop_first(), b.drop_first())
    }
}

/// No text comes before itself, and of two texts at most one comes first.
pub proof fn lemma_text_lt_asymmetric(a: Seq<char>, b: Seq<char>)
    ensures
        !(text_lt(a, b) && text_lt(b, a)),
        !text_lt(a, a),
    decreases a.len(),
{
    if a.len() > 0 && b.len() > 0 && a[0] == b[0] {
        lemma_text_lt_asymmetric(a.drop_first(), b.drop_first());
    }
    if a.len() > 0 {
        lemma_text_lt_asymmetric(a.drop_first(), a.drop_first());
    }
}

/// The order of texts is transitive.
pub proof fn lemma_text_lt_transitive(a: Seq<char>, b: Seq<char>, c: Seq<char>)
    requires
        text_lt(a, b),
        text_lt(b, c),
    ensures
        text_lt(a, c),
    decreases a.len(),
{
    if a.len() > 0 && b.len() > 0 && c.len() > 0 && a[0] == b[0] && b[0] == c[0] {
        lemma_text_lt_transitive(a.drop_first(), b.drop_first(), c.drop_first());
    }
}

/// Of two different texts, one comes first.
pub proof fn lemma_text_lt_total(a: Seq<char>, b: Seq<char>)
    requires
        a != b,
    ensures
        text_lt(a, b) || text_lt(b, a),
    decreases a.len(),
{
    if a.len() == 0 {
        assert(b.len() > 0) by {
            if b.len() == 0 {
                assert(a =~= b);
            }
        }
    } else if b.len() > 0 && a[0] == b[0] {
        if a.drop_first() == b.drop_first() {
            assert(a =~= seq![a[0]] + a.drop_first());
            assert(b =~= seq![b[0]] + b.drop_first());
        }
        lemma_text_lt_total(a.drop_first(), b.drop_first());
    } else if b.len() > 0 {
        assert((a[0] as int) != (b[0] as int));
    }
}

/// Whether text `a` comes before text `b`.
pub fn chars_lt(a: &[char], b: &[char]) -> (result: bool)
    ensures
        result == text_lt(a@, b@),
{
    let mut i: usize = 0;
    assert(a@.skip(0) =~= a@);
    assert(b@.skip(0) =~= b@);
    while i < a.len() && i < b.len()
        invariant
            i <= a@.len(),
            i <= b@.len(),
            text_lt(a@, b@) == text_lt(a@.skip(i as int), b@.skip(i as int)),
        decreases a@.len() - i,
    {
        if a[i] != b[i] {
            return a[i] < b[i];
        }
        assert(a@.skip(i as int).drop_first() =~= a@.skip(i + 1));
        assert(b@.skip(i as int).drop_first() =~= b@.skip(i + 1));
        i += 1;
    }
    i == a.len() && i < b.len()
}


/// Whether trimming strips `c`: commas when `commas` holds, else whitespace.
pub open spec fn strips(commas: bool, c: char) -> bool {
    if commas { c == ',' } else { spec_is_whitespace(c) }
}

/// Index of the first character at or after `from` that trimming keeps, or the length.
pub open spec fn first_kept(s: Seq<char>, from: int, commas: bool) -> int
    decreases s.len() - from,
{
    if from < 0 || from >= s.len() {
        s.len() as int
    } else if strips(commas, s[from]) {
        first_kept(s, from + 1, commas)
    } else {
        from
    }
}

/// One past the last character before `to` that trimming keeps, or zero.
pub open spec fn last_kept(s: Seq<char>, to: int, commas: bool) -> int
    decreases to,
{
    if to <= 0 || to > s.len() {
        0
    } else if strips(commas, s[to - 1]) {
        last_kept(s, to - 1, commas)
    } else {
        to
    }
}

/// `s` without its leading and trailing commas, or whitespace.
pub open spec fn trim_by(s: Seq<char>, commas: bool) -> Seq<char> {
    let start = first_kept(s, 0, commas);
    let end = last_kept(s, s.len() as int, commas);
    if start < end { s.subrange(start, end) } else { Seq::empty() }
}

/// `s` without leading and trailing whitespace.
pub open spec fn trimmed(s: Seq<char>) -> Seq<char> {
    trim_by(s, false)
}

/// `s` without leading and trailing commas.
pub open spec fn comma_trimmed(s: Seq<char>) -> Seq<char> {
    trim_by(s, true)
}

/// Whether trimming strips `c`.
fn strips_char(commas: bool, c: char) -> (result: bool)
    ensures
        result == strips(commas, c),
{
    if commas { c == ',' } else { is_whitespace(c) }
}

/// `s` without its leading and trailing commas, or whitespace.
fn trim_with(s: &[char], commas: bool) -> (result: Vec<char>)
    ensures
        result@ == trim_by(s@, commas),
{
    let mut start: usize = 0;
    while start < s.len() && strips_char(commas, s[start])
        invariant
            start <= s@.len(),
            first_kept(s@, 0, commas) == first_kept(s@, start as int, commas),
        decreases s@.len() - start,
    {
        start += 1;
    }
    let mut end: usize = s.len();
    while end > 0 && strips_char(commas, s[end - 1])
        invariant
            end <= s@.len(),
            last_kept(s@, s@.len() as int, commas) == last_kept(s@, end as int, commas),
        decreases end,
    {
        end -= 1;
    }
    if start < end {
        slice_chars(s, start, end)
    } else {
        Vec::new()
    }
}

/// `s` without leading and trailing whitespace.
pub fn trim_chars(s: &[char]) -> (result: Vec<char>)
    ensures
        result@ == trimmed(s@),
{
    trim_with(s, false)
}

/// `s` without leading and trailing commas.
pub fn trim_commas(s: &[char]) -> (result: Vec<char>)
    ensures
        result@ == comma_trimmed(s@),
{
    trim_with(s, true)
}

/// Whether `s` begins with `prefix`.
pub open spec fn starts_with(s: Seq<char>, prefix: Seq<char>) -> bool {
    prefix.len() <= s.len() && s.take(prefix.len() as int) == prefix
}

/// Whether the characters `s` begin with the text `prefix`.
pub fn chars_start_with(s: &[char], prefix: &str) -> (result: bool)
    ensures
        result == starts_with(s@, prefix@),
{
    let prefix = chars_of(prefix);
    if prefix.len() > s.len() {
        return false;
    }
    let head = slice_chars(s, 0, prefix.len());
    assert(head@ =~= s@.take(prefix@.len() as int));
    chars_equal(head.as_slice(), prefix.as_slice())
}

/// Index of the first occurrence of `needle` in `s` at or after `from`, or `-1`.
pub open spec fn first_run(s: Seq<char>, needle: Seq<char>, from: int) -> int
    decreases s.len() - from,
{
    if from < 0 || from + needle.len() > s.len() {
        -1
    } else if s.subrange(from, from + needle.len()) == needle {
        from
    } else if from >= s.len() {
        -1
    } else {
        first_run(s, needle, from + 1)
    }
}

/// Index of the first occurrence of the text `needle` in `s`, or `None`.
pub fn find_run(s: &[char], needle: &str) -> (result: Option<usize>)
    ensures
        match result {
            Some(k) => k as int == first_run(s@, needle@, 0) && k + needle@.len() <= s@.len(),
            None => first_run(s@, needle@, 0) == -1,
        },
{
    let pattern = chars_of(needle);
    if pattern.len() > s.len() {
        return None;
    }
    let last = s.len() - pattern.len();
    let mut i: usize = 0;
    assert(s@.len() == s.len());
    loop
        invariant
            i <= last,
            pattern@ == needle@,
            last + pattern@.len() == s@.len(),
            s@.len() <= usize::MAX,
            first_run(s@, needle@, 0) == first_run(s@, needle@, i as int),
        decreases last - i,
    {
        let window = slice_chars(s, i, i + pattern.len());
        if chars_equal(window.as_slice(), pattern.as_slice()) {
            assert(s@.subrange(i as int, i + needle@.len()) == needle@);
            return Some(i);
        }
        assert(s@.subrange(i as int, i + needle@.len()) != needle@);
        if i == last {
            assert(first_run(s@, needle@, (i + 1) as int) == -1);
            return None;
        }
        i += 1;
    }
}

/// Index of the last `c` in `s` before `to`, or `-1`.
pub open spec fn last_index(s: Seq<char>, c: char, to: int) -> int
    decreases to,
{
    if to <= 0 || to > s.len() {
        -1
    } else if s[to - 1] == c {
        to - 1
    } else {
        last_index(s, c, to - 1)
    }
}

/// Index of the last `c` in `s`, or `None`.
pub fn find_last_char(s: &[char], c: char) -> (result: Option<usize>)
    ensures
        match result {
            Some(k) => k as int == last_index(s@, c, s@.len() as int) && k < s@.len(),
            None => last_index(s@, c, s@.len() as int) == -1,
        },
{
    let mut i: usize = s.len();
    while i > 0
        invariant
            i <= s@.len(),
            last_index(s@, c, s@.len() as int) == last_index(s@, c, i as int),
        decreases i,
    {
        if s[i - 1] == c {
            return Some(i - 1);
        }
        i -= 1;
    }
    None
}


/// Index of the last occurrence of `needle` in `s` that starts at or before
/// `to`, or `-1`.
pub open spec fn last_run(s: Seq<char>, needle: Seq<char>, to: int) -> int
    decreases to + 1,
{
    if to < 0 {
        -1
    } else if to + needle.len() <= s.len() && s.subrange(to, to + needle.len()) == needle {
        to
    } else {
        last_run(s, needle, to - 1)
    }
}

/// Index of the last occurrence of the text `needle` in `s`, or `None`.
pub fn find_last_run(s: &[char], needle: &str) -> (result: Option<usize>)
    ensures
        match result {
            Some(k) => k as int == last_run(s@, needle@, s@.len() - needle@.len()) && k + needle@.len()
                <= s@.len(),
            None => last_run(s@, needle@, s@.len() - needle@.len()) == -1,
        },
{
    let pattern = chars_of(needle);
    if pattern.len() > s.len() {
        return None;
    }
    let mut i: usize = s.len() - pattern.len();
    assert(s@.len() == s.len());
    loop
        invariant
            i + pattern@.len() <= s@.len(),
            pattern@ == needle@,
            s@.len() <= usize::MAX,
            last_run(s@, needle@, s@.len() - needle@.len()) == last_run(s@, needle@, i as int),
        decreases i,
    {
        let window = slice_chars(s, i, i + pattern.len());
        if chars_equal(window.as_slice(), pattern.as_slice()) {
            assert(s@.subrange(i as int, i + needle@.len()) == needle@);
            return Some(i);
        }
        assert(s@.subrange(i as int, i + needle@.len()) != needle@);
        if i == 0 {
            assert(last_run(s@, needle@, -1) == -1);
            return None;
        }
        i -= 1;
    }
}


/// `s` without leading whitespace.
pub open spec fn trimmed_start(s: Seq<char>) -> Seq<char> {
    s.skip(first_kept(s, 0, false))
}

/// `s` without leading whitespace.
pub fn trim_start_chars(s: &[char]) -> (result: Vec<char>)
    ensures
        result@ == trimmed_start(s@),
{
    let mut start: usize = 0;
    while start < s.len() && is_whitespace(s[start])
        invariant
            start <= s@.len(),
            first_kept(s@, 0, false) == first_kept(s@, start as int, false),
        decreases s@.len() - start,
    {
        start += 1;
    }
    let tail = slice_chars(s, start, s.len());
    assert(tail@ =~= s@.skip(start as int));
    tail
}

/// Whether every character of `s` is an ASCII digit.
pub open spec fn all_digits(s: Seq<char>) -> bool {
    forall|i: int| 0 <= i < s.len() ==> spec_is_ascii_digit(#[trigger] s[i])
}

/// The unsigned number that `s` spells in decimal, as Rust's unsigned
/// `from_str` reads it: an optional `+`, then one or more ASCII digits.
pub open spec fn parse_unsigned(s: Seq<char>) -> Option<nat> {
    let digits = if s.len() > 0 && s[0] == '+' { s.skip(1) } else { s };
    if digits.len() == 0 || !all_digits(digits) {
        None
    } else {
        Some(digits_value(digits))
    }
}

/// A longer run of digits never has a smaller value.
proof fn lemma_digits_value_grows(s: Seq<char>, i: int, j: int)
    requires
        0 <= i <= j <= s.len(),
        all_digits(s),
    ensures
        digits_value(s.take(i)) <= digits_value(s.take(j)),
    decreases j - i,
{
    if i < j {
        lemma_digits_value_grows(s, i, j - 1);
        assert(s.take(j).drop_last() =~= s.take(j - 1));
    }
}

/// The unsigned number that `s` spells in decimal, if it is at most `max`.
pub fn parse_bounded(s: &[char], max: usize) -> (result: Option<usize>)
    ensures
        result == (match parse_unsigned(s@) {
            Some(value) => if value <= max { Some(value as usize) } else { None },
            None => None,
        }),
{
    let start: usize = if s.len() > 0 && s[0] == '+' { 1 } else { 0 };
    let digits = slice_chars(s, start, s.len());
    assert(digits@ =~= (if s@.len() > 0 && s@[0] == '+' { s@.skip(1) } else { s@ }));
    if digits.len() == 0 {
        return None;
    }
    let mut k: usize = 0;
    while k < digits.len()
        invariant
            k <= digits@.len(),
            digits@ == (if s@.len() > 0 && s@[0] == '+' { s@.skip(1) } else { s@ }),
            forall|i: int| 0 <= i < k ==> spec_is_ascii_digit(#[trigger] digits@[i]),
        decreases digits@.len() - k,
    {
        if !is_ascii_digit(digits[k]) {
            assert(!spec_is_ascii_digit(digits@[k as int]));
            return None;
        }
        k += 1;
    }
    let mut value: usize = 0;
    let mut i: usize = 0;
    assert(digits@.take(0) =~= Seq::<char>::empty());
    while i < digits.len()
        invariant
            i <= digits@.len(),
            digits@.len() > 0,
            digits@ == (if s@.len() > 0 && s@[0] == '+' { s@.skip(1) } else { s@ }),
            all_digits(digits@),
            value == digits_value(digits@.take(i as int)),
            value <= max,
        decreases digits@.len() - i,
    {
        assert(digits@.take(i + 1).drop_last() =~= digits@.take(i as int));
        assert(spec_is_ascii_digit(digits@[i as int]));
        let d = (digits[i] as u32 - '0' as u32) as usize;
        let next = match value.checked_mul(10) {
            Some(shifted) => shifted.checked_add(d),
            None => None,
        };
        match next {
            Some(next) if next <= max => {
                value = next;
            },
            _ => {
                proof {
                    assert(digits_value(digits@.take(i + 1)) == value * 10 + d);
                    assert(digits_value(digits@.take(i + 1)) > max);
                    lemma_digits_value_grows(digits@, i + 1, digits@.len() as int);
                    assert(digits@.take(digits@.len() as int) =~= digits@);
                }
                return None;
            },
        }
        i += 1;
    }
    assert(digits@.take(digits@.len() as int) =~= digits@);
    Some(value)
}


/// The UTF-8 encoding of one character.
pub open spec fn utf8_char_bytes(c: char) -> Seq<u8> {
    let u = c as u32;
    if u < 0x80 {
        seq![u as u8]
    } else if u < 0x800 {
        seq![(0xc0 + u / 64) as u8, (0x80 + u % 64) as u8]
    } else if u < 0x10000 {
        seq![(0xe0 + u / 4096) as u8, (0x80 + (u / 64) % 64) as u8, (0x80 + u % 64) as u8]
    } else {
        seq![
            (0xf0 + u / 262144) as u8,
            (0x80 + (u / 4096) % 64) as u8,
            (0x80 + (u / 64) % 64) as u8,
            (0x80 + u % 64) as u8,
        ]
    }
}

/// The UTF-8 encoding of a text.
pub open spec fn utf8_bytes(s: Seq<char>) -> Seq<u8>
    decreases s.len(),
{
    if s.len() == 0 {
        Seq::empty()
    } else {
        utf8_bytes(s.drop_last()) + utf8_char_bytes(s.last())
    }
}

/// The UTF-8 encoding of a text, as `String::into_bytes` gives it.
pub fn encode_utf8(s: &[char]) -> (result: Vec<u8>)
    ensures
        result@ == utf8_bytes(s@),
{
    let mut out: Vec<u8> = Vec::new();
    let mut i: usize = 0;
    while i < s.len()
        invariant
            i <= s@.len(),
            out@ == utf8_bytes(s@.take(i as int)),
        decreases s@.len() - i,
    {
        let ghost before = out@;
        let u = s[i] as u32;
        if u < 0x80 {
            out.push(u as u8);
        } else if u < 0x800 {
            out.push((0xc0 + u / 64) as u8);
            out.push((0x80 + u % 64) as u8);
        } else if u < 0x10000 {
            out.push((0xe0 + u / 4096) as u8);
            out.push((0x80 + (u / 64) % 64) as u8);
            out.push((0x80 + u % 64) as u8);
        } else {
            out.push((0xf0 + u / 262144) as u8);
            out.push((0x80 + (u / 4096) % 64) as u8);
            out.push((0x80 + (u / 64) % 64) as u8);
            out.push((0x80 + u % 64) as u8);
        }
        assert(out@ =~= before + utf8_char_bytes(s@[i as int]));
        assert(s@.take(i + 1).drop_last() =~= s@.take(i as int));
        i += 1;
    }
    assert(s@.take(s@.len() as int) =~= s@);
    out
}

/// What `String::from_utf8_lossy` reads from bytes: each valid UTF-8
/// sequence as its character, each invalid one as U+FFFD.
pub uninterp spec fn utf8_lossy(bytes: Seq<u8>) -> Seq<char>;

/// Calls `String::from_utf8_lossy`: its result is the lossy reading of the
/// bytes, which for valid UTF-8 is exactly the text they encode.
#[verifier::external_body]
pub fn decode_lossy(bytes: &[u8]) -> (result: String)
    ensures
        result@ == utf8_lossy(bytes@),
        forall|text: Seq<char>| utf8_bytes(text) == bytes@ ==> result@ == text,
{
    String::from_utf8_lossy(bytes).into_owned()
}

/// `s` with each `\r\n`, read from the left, made a `\n`.
pub open spec fn crlf_to_lf(s: Seq<char>) -> Seq<char>
    decreases s.len(),
{
    if s.len() == 0 {
        Seq::empty()
    } else if s.len() >= 2 && s[0] == '\r' && s[1] == '\n' {
        seq!['\n'] + crlf_to_lf(s.skip(2))
    } else {
        seq![s[0]] + crlf_to_lf(s.skip(1))
    }
}

/// `s` with each `\r\n` made a `\n`.
pub fn replace_crlf(s: &[char]) -> (result: Vec<char>)
    ensures
        result@ == crlf_to_lf(s@),
{
    let mut out: Vec<char> = Vec::new();
    let mut i: usize = 0;
    assert(s@.skip(0) =~= s@);
    while i < s.len()
        invariant
            i <= s@.len(),
            out@ + crlf_to_lf(s@.skip(i as int)) == crlf_to_lf(s@),
        decreases s@.len() - i,
    {
        let ghost before = out@;
        if i + 1 < s.len() && s[i] == '\r' && s[i + 1] == '\n' {
            out.push('\n');
            assert(s@.skip(i as int).skip(2) =~= s@.skip(i + 2));
            assert(before + crlf_to_lf(s@.skip(i as int)) =~= out@ + crlf_to_lf(s@.skip(i + 2)));
            i += 2;
        } else {
            out.push(s[i]);
            assert(s@.skip(i as int).skip(1) =~= s@.skip(i + 1));
            assert(before + crlf_to_lf(s@.skip(i as int)) =~= out@ + crlf_to_lf(s@.skip(i + 1)));
            i += 1;
        }
    }
    assert(crlf_to_lf(s@.skip(i as int)) =~= Seq::<char>::empty());
    assert(out@ + Seq::<char>::empty() =~= out@);
    out
}

} // verus!
