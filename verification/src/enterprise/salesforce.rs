//! Test outcomes captured from a Salesforce org, and the rules a capture's
//! identity fields follow.

use vstd::prelude::*;

use crate::enterprise::manifest::{chars_lower_hex, hex_text, lower_hex_of_length, sha256_digest, sha256_hex};
use crate::hybrid::{find_string as find_keyed_string, str_texts, text_keys_probe};
use crate::json::{
    as_text, as_unsigned, entry_of, entry_value, first_found, first_found_in_entries, first_found_in_items, found_value,
    member, member_of, text_of, unsigned_of, JsonNumber, JsonValue,
};
use crate::oracle::{split_words, texts_of, words};
use crate::text::{
    ascii_lower, chars_are, chars_equal, chars_lt, chars_of, eq_ignore_case, lemma_text_lt_asymmetric, lemma_text_lt_total,
    lemma_text_lt_transitive, lower_chars, push_str, string_from_chars, text_lt, trim_chars, trimmed, decimal,
    push_decimal, first_index, find_char, slice_chars,
};

verus! {

/// The outcome of one test method in a Salesforce org.
#[derive(Clone, Debug, PartialEq, Eq)]
pub struct SalesforceTestOutcome {
    pub name: String,
    pub outcome: String,
    pub message: Option<String>,
    pub stack: Option<String>,
}

/// The test outcomes of one Salesforce run, with what identifies the org, the
/// tool and the manifest they belong to.
#[derive(Clone, Debug, PartialEq, Eq)]
pub struct SalesforceCapture {
    pub schema_version: u32,
    pub manifest_sha256: String,
    pub target_org: String,
    pub org_id: String,
    pub api_version: String,
    pub salesforce_cli_version: String,
    pub captured_at: String,
    pub test_level: String,
    pub source_test_classes: Vec<String>,
    pub tests: Vec<SalesforceTestOutcome>,
    pub snapshot_sha256: String,
}

/// The number of tests among the first `n` whose outcome is `pass`.
pub open spec fn passed_among(tests: Seq<SalesforceTestOutcome>, n: int) -> nat
    decreases n,
{
    if n <= 0 {
        0
    } else {
        passed_among(tests, n - 1) + if tests[n - 1].outcome@ == "pass"@ { 1nat } else { 0nat }
    }
}

/// At most `n` of the first `n` tests pass.
proof fn lemma_passed_at_most(tests: Seq<SalesforceTestOutcome>, n: int)
    requires
        0 <= n,
    ensures
        passed_among(tests, n) <= n,
    decreases n,
{
    if n > 0 {
        lemma_passed_at_most(tests, n - 1);
    }
}

impl SalesforceCapture {
    /// The number of tests that passed.
    pub fn passed(&self) -> (result: usize)
        ensures
            result == passed_among(self.tests@, self.tests@.len() as int),
    {
        let mut count: usize = 0;
        let mut i: usize = 0;
        while i < self.tests.len()
            invariant
                i <= self.tests@.len(),
                count == passed_among(self.tests@, i as int),
                count <= i,
            decreases self.tests@.len() - i,
        {
            proof {
                reveal_strlit("pass");
            }
            if chars_equal(chars_of(self.tests[i].outcome.as_str()).as_slice(), chars_of("pass").as_slice()) {
                count += 1;
            }
            i += 1;
        }
        count
    }

    /// The number of tests that did not pass.
    pub fn failed(&self) -> (result: usize)
        ensures
            result == self.tests@.len() - passed_among(self.tests@, self.tests@.len() as int),
    {
        proof {
            lemma_passed_at_most(self.tests@, self.tests@.len() as int);
        }
        self.tests.len() - self.passed()
    }
}

/// The message for a blank entry of a list.
pub open spec fn empty_entry_message(label: Seq<char>) -> Seq<char> {
    "enterprise "@ + label + " cannot contain an empty value"@
}

/// The message for a list out of order.
pub open spec fn order_message(label: Seq<char>) -> Seq<char> {
    "enterprise "@ + label + " must be unique and case-insensitively sorted"@
}

/// The first rule that the entries from `i` on break: each must hold more
/// than whitespace, and each must come strictly after the one before it once
/// both are lower-cased.
pub open spec fn sorted_unique_error(values: Seq<Seq<char>>, i: int, label: Seq<char>) -> Option<Seq<char>>
    decreases values.len() - i,
{
    if i >= values.len() {
        None
    } else if trimmed(values[i]).len() == 0 {
        Some(empty_entry_message(label))
    } else if i > 0 && !text_lt(ascii_lower(values[i - 1]), ascii_lower(values[i])) {
        Some(order_message(label))
    } else {
        sorted_unique_error(values, i + 1, label)
    }
}

/// The message that names `label` between two fixed parts.
fn labelled(first: &str, label: &str, last: &str) -> (result: String)
    ensures
        result@ == first@ + label@ + last@,
{
    let mut out: Vec<char> = Vec::new();
    push_str(&mut out, first);
    push_str(&mut out, label);
    push_str(&mut out, last);
    string_from_chars(out.as_slice())
}

/// Accepts a list of non-blank values in strictly increasing case-insensitive
/// order; otherwise reports the first rule broken.
pub fn validate_sorted_unique(values: &[String], label: &str) -> (result: Result<(), String>)
    ensures
        match sorted_unique_error(texts_of(values@), 0, label@) {
            Some(message) => result matches Err(found) && found@ == message,
            None => result is Ok,
        },
{
    let ghost texts = texts_of(values@);
    let mut i: usize = 0;
    while i < values.len()
        invariant
            texts == texts_of(values@),
            i <= values@.len(),
            sorted_unique_error(texts, 0, label@) == sorted_unique_error(texts, i as int, label@),
        decreases values@.len() - i,
    {
        let value = chars_of(values[i].as_str());
        if trim_chars(value.as_slice()).len() == 0 {
            return Err(labelled("enterprise ", label, " cannot contain an empty value"));
        }
        if i > 0 {
            let previous = lower_chars(chars_of(values[i - 1].as_str()).as_slice());
            let current = lower_chars(value.as_slice());
            if !chars_lt(previous.as_slice(), current.as_slice()) {
                return Err(labelled("enterprise ", label, " must be unique and case-insensitively sorted"));
            }
        }
        i += 1;
    }
    Ok(())
}

/// The message for a capture digest that is not 64 lower-case hexadecimal digits.
pub open spec fn capture_digest_message(label: Seq<char>) -> Seq<char> {
    "enterprise Salesforce "@ + label + " digest is invalid"@
}

/// Accepts a SHA-256 digest written as 64 lower-case hexadecimal digits.
pub fn validate_sha256(digest: &str, label: &str) -> (result: Result<(), String>)
    ensures
        result is Ok <==> lower_hex_of_length(digest@, 64),
        result matches Err(message) ==> message@ == capture_digest_message(label@),
{
    if !chars_lower_hex(chars_of(digest).as_slice(), 64) {
        return Err(labelled("enterprise Salesforce ", label, " digest is invalid"));
    }
    Ok(())
}


/// Schema version of Salesforce captures.
pub const SALESFORCE_CAPTURE_SCHEMA_VERSION: u32 = 1;

/// What `chrono` reports of a text that is no RFC 3339 date and time, or
/// `None` when it reads one.
pub uninterp spec fn rfc3339_problem(text: Seq<char>) -> Option<Seq<char>>;

/// Calls `chrono::DateTime::parse_from_rfc3339`, and gives the text of its
/// error, or `None` when it accepts `text`. Nothing is claimed of which texts
/// it accepts; the result is named by `rfc3339_problem`.
#[verifier::external_body]
fn rfc3339_error(text: &str) -> (result: Option<String>)
    ensures
        match result {
            Some(message) => rfc3339_problem(text@) == Some(message@),
            None => rfc3339_problem(text@) is None,
        },
{
    match chrono::DateTime::parse_from_rfc3339(text) {
        Ok(_) => None,
        Err(error) => Some(format!("{error}")),
    }
}

/// Whether a character is an ASCII letter or digit.
pub open spec fn ascii_alphanumeric(c: char) -> bool {
    ('0' <= c && c <= '9') || ('a' <= c && c <= 'z') || ('A' <= c && c <= 'Z')
}

/// Whether `id` is an 18-character org ID of ASCII letters and digits that
/// starts with `00D`.
pub open spec fn org_id_ok(id: Seq<char>) -> bool {
    &&& id.len() == 18
    &&& id[0] == '0' && id[1] == '0' && id[2] == 'D'
    &&& forall|i: int| 0 <= i < id.len() ==> ascii_alphanumeric(#[trigger] id[i])
}

/// The names of the tests, in order.
pub open spec fn test_names(tests: Seq<SalesforceTestOutcome>) -> Seq<Seq<char>> {
    Seq::new(tests.len(), |i: int| tests[i].name@)
}

/// The message for a test whose outcome is neither `pass` nor `fail`.
pub open spec fn unsupported_outcome_message(test: SalesforceTestOutcome) -> Seq<char> {
    "enterprise Salesforce test `"@ + test.name@ + "` has unsupported outcome `"@ + test.outcome@ + "`"@
}

/// The first test from `i` on whose outcome is neither `pass` nor `fail`.
pub open spec fn outcome_error(tests: Seq<SalesforceTestOutcome>, i: int) -> Option<Seq<char>>
    decreases tests.len() - i,
{
    if i < 0 || i >= tests.len() {
        None
    } else if tests[i].outcome@ != "pass"@ && tests[i].outcome@ != "fail"@ {
        Some(unsupported_outcome_message(tests[i]))
    } else {
        outcome_error(tests, i + 1)
    }
}

/// The first rule that a capture breaks, in the order they are checked, with
/// `unsigned` the serialized capture with its seal left empty; `None` when it
/// keeps them all.
pub open spec fn capture_error(capture: SalesforceCapture, unsigned: Seq<u8>) -> Option<Seq<char>> {
    if capture.schema_version != SALESFORCE_CAPTURE_SCHEMA_VERSION {
        Some("unsupported enterprise Salesforce capture schema "@ + decimal(capture.schema_version as nat)
            + "; expected 1"@)
    } else if !lower_hex_of_length(capture.manifest_sha256@, 64) {
        Some(capture_digest_message("manifest"@))
    } else if !lower_hex_of_length(capture.snapshot_sha256@, 64) {
        Some(capture_digest_message("snapshot"@))
    } else if trimmed(capture.target_org@).len() == 0 || trimmed(capture.salesforce_cli_version@).len() == 0 {
        Some("enterprise Salesforce identity fields cannot be empty"@)
    } else if !org_id_ok(capture.org_id@) {
        Some("enterprise Salesforce org ID must be an 18-character 00D ID"@)
    } else if capture.test_level@ != "RunLocalTests"@ {
        Some("enterprise Salesforce capture must use RunLocalTests"@)
    } else if rfc3339_problem(capture.captured_at@) is Some {
        Some("invalid enterprise capture timestamp: "@ + rfc3339_problem(capture.captured_at@)->0)
    } else if sorted_unique_error(texts_of(capture.source_test_classes@), 0, "source test classes"@) is Some {
        sorted_unique_error(texts_of(capture.source_test_classes@), 0, "source test classes"@)
    } else if capture.tests@.len() < 100 {
        Some("enterprise Salesforce denominator has "@ + decimal(capture.tests@.len()) + " tests; at least 100 are required"@)
    } else if sorted_unique_error(test_names(capture.tests@), 0, "Salesforce tests"@) is Some {
        sorted_unique_error(test_names(capture.tests@), 0, "Salesforce tests"@)
    } else if outcome_error(capture.tests@, 0) is Some {
        outcome_error(capture.tests@, 0)
    } else if hex_text(sha256_digest(unsigned)) != capture.snapshot_sha256@ {
        Some("enterprise Salesforce capture digest mismatch"@)
    } else {
        None
    }
}

/// Whether every character of `id` is an ASCII letter or digit.
fn all_ascii_alphanumeric(id: &[char]) -> (result: bool)
    ensures
        result == forall|i: int| 0 <= i < id@.len() ==> ascii_alphanumeric(#[trigger] id@[i]),
{
    let mut i: usize = 0;
    while i < id.len()
        invariant
            i <= id@.len(),
            forall|k: int| 0 <= k < i ==> ascii_alphanumeric(#[trigger] id@[k]),
        decreases id@.len() - i,
    {
        let c = id[i];
        if !(('0' <= c && c <= '9') || ('a' <= c && c <= 'z') || ('A' <= c && c <= 'Z')) {
            return false;
        }
        i += 1;
    }
    true
}

/// Checks a capture against its rules: the schema, both digests, the
/// identity fields, the org ID, the test level, the timestamp, the sorted
/// class and test lists, at least 100 tests, the outcomes, and that the seal
/// is the SHA-256 digest of `unsigned_bytes`, the capture serialized with its
/// seal left empty. The first rule broken is reported.
pub fn validate_capture(capture: &SalesforceCapture, unsigned_bytes: &[u8]) -> (result: Result<(), String>)
    ensures
        match capture_error(*capture, unsigned_bytes@) {
            Some(message) => result matches Err(found) && found@ == message,
            None => result is Ok,
        },
{
    proof {
        reveal_strlit("pass");
        reveal_strlit("fail");
        reveal_strlit("RunLocalTests");
    }
    if capture.schema_version != SALESFORCE_CAPTURE_SCHEMA_VERSION {
        let mut out: Vec<char> = Vec::new();
        push_str(&mut out, "unsupported enterprise Salesforce capture schema ");
        push_decimal(&mut out, capture.schema_version as usize);
        push_str(&mut out, "; expected 1");
        return Err(string_from_chars(out.as_slice()));
    }
    validate_sha256(capture.manifest_sha256.as_str(), "manifest")?;
    validate_sha256(capture.snapshot_sha256.as_str(), "snapshot")?;
    if trim_chars(chars_of(capture.target_org.as_str()).as_slice()).len() == 0 || trim_chars(
        chars_of(capture.salesforce_cli_version.as_str()).as_slice(),
    ).len() == 0 {
        return Err(string_from_chars(chars_of("enterprise Salesforce identity fields cannot be empty").as_slice()));
    }
    let id = chars_of(capture.org_id.as_str());
    if id.len() != 18 || id[0] != '0' || id[1] != '0' || id[2] != 'D' || !all_ascii_alphanumeric(id.as_slice()) {
        return Err(string_from_chars(chars_of("enterprise Salesforce org ID must be an 18-character 00D ID").as_slice()));
    }
    if !chars_are(chars_of(capture.test_level.as_str()).as_slice(), "RunLocalTests") {
        return Err(string_from_chars(chars_of("enterprise Salesforce capture must use RunLocalTests").as_slice()));
    }
    if let Some(problem) = rfc3339_error(capture.captured_at.as_str()) {
        let mut out: Vec<char> = Vec::new();
        push_str(&mut out, "invalid enterprise capture timestamp: ");
        push_str(&mut out, problem.as_str());
        return Err(string_from_chars(out.as_slice()));
    }
    validate_sorted_unique(capture.source_test_classes.as_slice(), "source test classes")?;
    if capture.tests.len() < 100 {
        let mut out: Vec<char> = Vec::new();
        push_str(&mut out, "enterprise Salesforce denominator has ");
        push_decimal(&mut out, capture.tests.len());
        push_str(&mut out, " tests; at least 100 are required");
        return Err(string_from_chars(out.as_slice()));
    }
    let mut names: Vec<String> = Vec::new();
    let mut i: usize = 0;
    while i < capture.tests.len()
        invariant
            i <= capture.tests@.len(),
            names@.len() == i,
            texts_of(names@) == test_names(capture.tests@).take(i as int),
        decreases capture.tests@.len() - i,
    {
        let ghost before = names@;
        let name = capture.tests[i].name.clone();
        names.push(name);
        assert forall|j: int| 0 <= j < i + 1 implies #[trigger] texts_of(names@)[j] == test_names(capture.tests@).take(
            i + 1,
        )[j] by {
            if j < i {
                assert(names@[j] == before[j]);
                assert(texts_of(before)[j] == test_names(capture.tests@).take(i as int)[j]);
            }
        }
        assert(texts_of(names@) =~= test_names(capture.tests@).take(i + 1));
        i += 1;
    }
    assert(test_names(capture.tests@).take(capture.tests@.len() as int) =~= test_names(capture.tests@));
    validate_sorted_unique(names.as_slice(), "Salesforce tests")?;
    let ghost rest = if hex_text(sha256_digest(unsigned_bytes@)) != capture.snapshot_sha256@ {
        Some("enterprise Salesforce capture digest mismatch"@)
    } else {
        None
    };
    assert(capture_error(*capture, unsigned_bytes@) == if outcome_error(capture.tests@, 0) is Some {
        outcome_error(capture.tests@, 0)
    } else {
        rest
    });
    let mut k: usize = 0;
    while k < capture.tests.len()
        invariant
            k <= capture.tests@.len(),
            outcome_error(capture.tests@, 0) == outcome_error(capture.tests@, k as int),
            capture_error(*capture, unsigned_bytes@) == if outcome_error(capture.tests@, 0) is Some {
                outcome_error(capture.tests@, 0)
            } else {
                rest
            },
        decreases capture.tests@.len() - k,
    {
        let test = &capture.tests[k];
        let outcome = chars_of(test.outcome.as_str());
        if !chars_are(outcome.as_slice(), "pass") && !chars_are(outcome.as_slice(), "fail") {
            let mut out: Vec<char> = Vec::new();
            push_str(&mut out, "enterprise Salesforce test `");
            push_str(&mut out, test.name.as_str());
            push_str(&mut out, "` has unsupported outcome `");
            push_str(&mut out, test.outcome.as_str());
            push_str(&mut out, "`");
            assert(out@ =~= unsupported_outcome_message(*test));
            assert(*test == capture.tests@[k as int]);
            assert(capture.tests@[k as int].outcome@ != "pass"@);
            assert(outcome_error(capture.tests@, k as int) == Some(unsupported_outcome_message(capture.tests@[k as int])));
            return Err(string_from_chars(out.as_slice()));
        }
        k += 1;
    }
    let expected = sha256_hex(unsigned_bytes);
    if !chars_equal(chars_of(expected.as_str()).as_slice(), chars_of(capture.snapshot_sha256.as_str()).as_slice()) {
        return Err(string_from_chars(chars_of("enterprise Salesforce capture digest mismatch").as_slice()));
    }
    Ok(())
}

/// A test outcome as plain values: name, outcome, message, stack.
pub open spec fn outcome_view(test: SalesforceTestOutcome) -> (Seq<char>, Seq<char>, Option<Seq<char>>, Option<Seq<char>>) {
    (
        test.name@,
        test.outcome@,
        match test.message {
            Some(message) => Some(message@),
            None => None,
        },
        match test.stack {
            Some(stack) => Some(stack@),
            None => None,
        },
    )
}

/// Each test outcome as plain values.
pub open spec fn outcome_views(tests: Seq<SalesforceTestOutcome>) -> Seq<(Seq<char>, Seq<char>, Option<Seq<char>>, Option<Seq<char>>)> {
    Seq::new(tests.len(), |i: int| outcome_view(tests[i]))
}

/// A string found, or else another lookup's string.
pub open spec fn text_or_else(first: Option<Seq<char>>, second: Option<Seq<char>>) -> Option<Seq<char>> {
    match first {
        Some(text) => Some(text),
        None => second,
    }
}

/// The value found first, or else the second.
pub open spec fn value_or_else(first: Option<JsonValue>, second: Option<JsonValue>) -> Option<JsonValue> {
    match first {
        Some(value) => Some(value),
        None => second,
    }
}

/// The test that an object of a test-run response describes: its class is
/// the `Name` string of its `ApexClass`, else its `name` string; its method
/// the `MethodName`, else the `methodName` string; its outcome the `Outcome`,
/// else the `outcome` string, read as `pass` for `pass` in any ASCII case and
/// `fail` otherwise; its message and stack trace are kept as given.
pub open spec fn outcome_in(entries: Seq<(String, JsonValue)>) -> Option<(Seq<char>, Seq<char>, Option<Seq<char>>, Option<Seq<char>>)> {
    let class = text_or_else(
        as_text(
            match entry_value(entries, "ApexClass"@) {
                Some(apex) => member(apex, "Name"@),
                None => None,
            },
        ),
        as_text(entry_value(entries, "name"@)),
    );
    let method = text_or_else(as_text(entry_value(entries, "MethodName"@)), as_text(entry_value(entries, "methodName"@)));
    let outcome = text_or_else(as_text(entry_value(entries, "Outcome"@)), as_text(entry_value(entries, "outcome"@)));
    match (class, method, outcome) {
        (Some(class), Some(method), Some(outcome)) => Some(
            (
                class + "."@ + method,
                if eq_ignore_case(outcome, "pass"@) { "pass"@ } else { "fail"@ },
                as_text(value_or_else(entry_value(entries, "Message"@), entry_value(entries, "message"@))),
                as_text(value_or_else(entry_value(entries, "StackTrace"@), entry_value(entries, "stackTrace"@))),
            ),
        ),
        _ => None,
    }
}

/// The test outcomes a test-run response describes, in document order.
pub open spec fn outcomes_in(value: JsonValue) -> Seq<(Seq<char>, Seq<char>, Option<Seq<char>>, Option<Seq<char>>)>
    decreases value,
{
    match value {
        JsonValue::Array(items) => outcomes_in_items(items@),
        JsonValue::Object(entries) => (match outcome_in(entries@) {
            Some(test) => seq![test],
            None => Seq::empty(),
        }) + outcomes_in_entries(entries@),
        _ => Seq::empty(),
    }
}

/// The outcomes described within the members' values, in order.
pub open spec fn outcomes_in_entries(entries: Seq<(String, JsonValue)>) -> Seq<(Seq<char>, Seq<char>, Option<Seq<char>>, Option<Seq<char>>)>
    decreases entries,
{
    if entries.len() == 0 {
        Seq::empty()
    } else {
        outcomes_in(entries[0].1) + outcomes_in_entries(entries.drop_first())
    }
}

/// The outcomes described within the elements, in order.
pub open spec fn outcomes_in_items(items: Seq<JsonValue>) -> Seq<(Seq<char>, Seq<char>, Option<Seq<char>>, Option<Seq<char>>)>
    decreases items,
{
    if items.len() == 0 {
        Seq::empty()
    } else {
        outcomes_in(items[0]) + outcomes_in_items(items.drop_first())
    }
}

/// A string found, or else another lookup's string.
fn text_or_else_of<'a>(first: Option<&'a str>, second: Option<&'a str>) -> (result: Option<&'a str>)
    ensures
        (match result {
            Some(text) => Some(text@),
            None => None,
        }) == text_or_else(
            match first {
                Some(text) => Some(text@),
                None => None,
            },
            match second {
                Some(text) => Some(text@),
                None => None,
            },
        ),
{
    match first {
        Some(text) => Some(text),
        None => second,
    }
}

/// The value found first, or else the second.
fn value_or_else_of<'a>(first: Option<&'a JsonValue>, second: Option<&'a JsonValue>) -> (result: Option<&'a JsonValue>)
    ensures
        (match result {
            Some(value) => Some(*value),
            None => None,
        }) == value_or_else(
            match first {
                Some(value) => Some(*value),
                None => None,
            },
            match second {
                Some(value) => Some(*value),
                None => None,
            },
        ),
{
    match first {
        Some(value) => Some(value),
        None => second,
    }
}

/// The text as an owned string, if there is one.
fn owned(text: Option<&str>) -> (result: Option<String>)
    ensures
        (match result {
            Some(found) => Some(found@),
            None => None,
        }) == (match text {
            Some(text) => Some(text@),
            None => None,
        }),
{
    match text {
        Some(text) => Some(text.to_string()),
        None => None,
    }
}

/// The test outcome an object describes, if any.
fn outcome_of(entries: &Vec<(String, JsonValue)>) -> (result: Option<SalesforceTestOutcome>)
    ensures
        (match result {
            Some(test) => Some(outcome_view(test)),
            None => None,
        }) == outcome_in(entries@),
{
    let apex_name = match entry_of(entries, "ApexClass") {
        Some(apex) => member_of(apex, "Name"),
        None => None,
    };
    let class = text_or_else_of(text_of(apex_name), text_of(entry_of(entries, "name")));
    let method = text_or_else_of(text_of(entry_of(entries, "MethodName")), text_of(entry_of(entries, "methodName")));
    let outcome = text_or_else_of(text_of(entry_of(entries, "Outcome")), text_of(entry_of(entries, "outcome")));
    match (class, method, outcome) {
        (Some(class), Some(method), Some(outcome)) => {
            let mut name: Vec<char> = Vec::new();
            push_str(&mut name, class);
            push_str(&mut name, ".");
            push_str(&mut name, method);
            proof {
                reveal_strlit("pass");
                assert(ascii_lower("pass"@) =~= "pass"@);
            }
            let passed = chars_equal(lower_chars(chars_of(outcome).as_slice()).as_slice(), chars_of("pass").as_slice());
            let message = owned(text_of(value_or_else_of(entry_of(entries, "Message"), entry_of(entries, "message"))));
            let stack = owned(text_of(value_or_else_of(entry_of(entries, "StackTrace"), entry_of(entries, "stackTrace"))));
            Some(
                SalesforceTestOutcome {
                    name: string_from_chars(name.as_slice()),
                    outcome: if passed { "pass".to_string() } else { "fail".to_string() },
                    message,
                    stack,
                },
            )
        },
        _ => None,
    }
}

/// Appends the test outcomes a test-run response describes, in document order.
pub fn collect_test_results(value: &JsonValue, tests: &mut Vec<SalesforceTestOutcome>)
    ensures
        outcome_views(final(tests)@) == outcome_views(old(tests)@) + outcomes_in(*value),
    decreases *value,
{
    let ghost start = outcome_views(tests@);
    match value {
        JsonValue::Array(items) => {
            let mut i: usize = 0;
            assert(items@.skip(0) =~= items@);
            assert(outcome_views(tests@) =~= start);
            while i < items.len()
                invariant
                    *value == JsonValue::Array(*items),
                    i <= items@.len(),
                    start + outcomes_in(*value) == outcome_views(tests@) + outcomes_in_items(items@.skip(i as int)),
                decreases items@.len() - i,
            {
                assert(items@.skip(i as int).drop_first() =~= items@.skip(i + 1));
                assert(items@.skip(i as int)[0] == items@[i as int]);
                assert(decreases_to!(*value => items@[i as int])) by {
                    assert(decreases_to!(*value => *items));
                    assert(decreases_to!(*items => items@));
                    assert(decreases_to!(items@ => items@[i as int]));
                }
                let ghost before = outcome_views(tests@);
                collect_test_results(&items[i], tests);
                assert(before + outcomes_in_items(items@.skip(i as int)) =~= outcome_views(tests@) + outcomes_in_items(
                    items@.skip(i + 1),
                ));
                i += 1;
            }
            assert(outcome_views(tests@) + outcomes_in_items(items@.skip(i as int)) =~= outcome_views(tests@));
        },
        JsonValue::Object(entries) => {
            match outcome_of(entries) {
                Some(test) => {
                    let ghost view = outcome_view(test);
                    tests.push(test);
                    assert(outcome_views(tests@) =~= start + seq![view]);
                },
                None => {
                    assert(outcome_views(tests@) =~= start + Seq::empty());
                },
            }
            let mut i: usize = 0;
            assert(entries@.skip(0) =~= entries@);
            while i < entries.len()
                invariant
                    *value == JsonValue::Object(*entries),
                    i <= entries@.len(),
                    start + outcomes_in(*value) == outcome_views(tests@) + outcomes_in_entries(entries@.skip(i as int)),
                decreases entries@.len() - i,
            {
                assert(entries@.skip(i as int).drop_first() =~= entries@.skip(i + 1));
                assert(entries@.skip(i as int)[0] == entries@[i as int]);
                assert(decreases_to!(*value => entries@[i as int].1)) by {
                    assert(decreases_to!(*value => *entries));
                    assert(decreases_to!(*entries => entries@));
                    assert(decreases_to!(entries@ => entries@[i as int]));
                    assert(decreases_to!(entries@[i as int] => entries@[i as int].1));
                }
                let ghost before = outcome_views(tests@);
                collect_test_results(&entries[i].1, tests);
                assert(before + outcomes_in_entries(entries@.skip(i as int)) =~= outcome_views(tests@) + outcomes_in_entries(
                    entries@.skip(i + 1),
                ));
                i += 1;
            }
            assert(outcome_views(tests@) + outcomes_in_entries(entries@.skip(i as int)) =~= outcome_views(tests@));
        },
        _ => {
            assert(outcome_views(tests@) =~= start + outcomes_in(*value));
        },
    }
}


/// The position of the first of the first `n` outcomes whose lower-cased
/// name is `key`, if any.
pub open spec fn first_outcome_named(
    tests: Seq<(Seq<char>, Seq<char>, Option<Seq<char>>, Option<Seq<char>>)>,
    key: Seq<char>,
    n: int,
) -> Option<int>
    decreases n,
{
    if n <= 0 {
        None
    } else {
        match first_outcome_named(tests, key, n - 1) {
            Some(i) => Some(i),
            None => if ascii_lower(tests[n - 1].0) == key { Some(n - 1) } else { None },
        }
    }
}

/// Whether outcome `j` differs from the first earlier outcome of its name.
pub open spec fn conflicts(tests: Seq<(Seq<char>, Seq<char>, Option<Seq<char>>, Option<Seq<char>>)>, j: int) -> bool {
    first_outcome_named(tests, ascii_lower(tests[j].0), j) matches Some(i) && tests[i] != tests[j]
}

/// The first outcome from `j` on that conflicts with an earlier one.
pub open spec fn first_conflict(tests: Seq<(Seq<char>, Seq<char>, Option<Seq<char>>, Option<Seq<char>>)>, j: int) -> Option<int>
    decreases tests.len() - j,
{
    if j < 0 || j >= tests.len() {
        None
    } else if conflicts(tests, j) {
        Some(j)
    } else {
        first_conflict(tests, j + 1)
    }
}

/// Whether `kept` holds, in strictly ascending order of lower-cased name, the
/// first outcome of each lower-cased name among `tests`, and nothing else.
pub open spec fn one_outcome_per_name(
    kept: Seq<(Seq<char>, Seq<char>, Option<Seq<char>>, Option<Seq<char>>)>,
    tests: Seq<(Seq<char>, Seq<char>, Option<Seq<char>>, Option<Seq<char>>)>,
) -> bool {
    &&& forall|i: int, j: int| 0 <= i < j < kept.len() ==> text_lt(ascii_lower(#[trigger] kept[i].0), ascii_lower(#[trigger] kept[j].0))
    &&& forall|k: int| 0 <= k < kept.len() ==> (first_outcome_named(tests, ascii_lower(#[trigger] kept[k].0), tests.len() as int) matches Some(
        i,
    ) && tests[i] == kept[k])
    &&& forall|j: int| 0 <= j < tests.len() ==> exists|k: int| 0 <= k < kept.len() && ascii_lower(#[trigger] kept[k].0) == ascii_lower(
        #[trigger] tests[j].0,
    )
}

/// The message for two different outcomes of one test.
pub open spec fn conflict_message(name: Seq<char>) -> Seq<char> {
    "Salesforce returned conflicting outcomes for `"@ + name + "`"@
}

/// Once found among a prefix, the first outcome of a name stays the first.
proof fn lemma_first_outcome_stays(
    tests: Seq<(Seq<char>, Seq<char>, Option<Seq<char>>, Option<Seq<char>>)>,
    key: Seq<char>,
    m: int,
    n: int,
)
    requires
        0 <= m <= n,
        first_outcome_named(tests, key, m) is Some,
    ensures
        first_outcome_named(tests, key, n) == first_outcome_named(tests, key, m),
    decreases n - m,
{
    if m < n {
        lemma_first_outcome_stays(tests, key, m, n - 1);
    }
}

/// The first outcome of a name lies before `n` and has that name.
proof fn lemma_first_outcome_has_name(
    tests: Seq<(Seq<char>, Seq<char>, Option<Seq<char>>, Option<Seq<char>>)>,
    key: Seq<char>,
    n: int,
)
    requires
        n <= tests.len(),
    ensures
        first_outcome_named(tests, key, n) matches Some(i) ==> 0 <= i < n && ascii_lower(tests[i].0) == key,
    decreases n,
{
    if n > 0 {
        lemma_first_outcome_has_name(tests, key, n - 1);
    }
}

/// Whether two outcomes agree in every field.
fn same_outcome(a: &SalesforceTestOutcome, b: &SalesforceTestOutcome) -> (result: bool)
    ensures
        result == (outcome_view(*a) == outcome_view(*b)),
{
    let same_message = match (&a.message, &b.message) {
        (Some(x), Some(y)) => chars_equal(chars_of(x.as_str()).as_slice(), chars_of(y.as_str()).as_slice()),
        (None, None) => true,
        _ => false,
    };
    let same_stack = match (&a.stack, &b.stack) {
        (Some(x), Some(y)) => chars_equal(chars_of(x.as_str()).as_slice(), chars_of(y.as_str()).as_slice()),
        (None, None) => true,
        _ => false,
    };
    chars_equal(chars_of(a.name.as_str()).as_slice(), chars_of(b.name.as_str()).as_slice()) && chars_equal(
        chars_of(a.outcome.as_str()).as_slice(),
        chars_of(b.outcome.as_str()).as_slice(),
    ) && same_message && same_stack
}

/// The outcomes of a Salesforce test run, one per lower-cased name in
/// ascending order of that name. Fails where one test is reported twice with
/// different outcomes (naming the first such repeat), or where the response
/// describes no test.
pub fn parse_test_outcomes(response: &JsonValue) -> (result: Result<Vec<SalesforceTestOutcome>, String>)
    ensures
        ({
            let tests = outcomes_in(*response);
            match first_conflict(tests, 0) {
                Some(j) => result matches Err(message) && message@ == conflict_message(tests[j].0),
                None => if tests.len() == 0 {
                    result matches Err(message) && message@ == "Salesforce returned no enterprise test outcomes"@
                } else {
                    result matches Ok(kept) && one_outcome_per_name(outcome_views(kept@), tests)
                },
            }
        }),
{
    let mut collected: Vec<SalesforceTestOutcome> = Vec::new();
    assert(outcome_views(collected@) =~= Seq::empty());
    collect_test_results(response, &mut collected);
    let ghost input = outcome_views(collected@);
    assert(input =~= outcomes_in(*response));
    let mut out: Vec<SalesforceTestOutcome> = Vec::new();
    let mut keys: Vec<Vec<char>> = Vec::new();
    let mut i: usize = 0;
    while i < collected.len()
        invariant
            input == outcome_views(collected@),
            input == outcomes_in(*response),
            i <= collected@.len(),
            first_conflict(input, 0) == first_conflict(input, i as int),
            keys@.len() == out@.len(),
            forall|k: int| 0 <= k < out@.len() ==> #[trigger] keys@[k]@ == ascii_lower(outcome_views(out@)[k].0),
            forall|a: int, b: int| 0 <= a < b < out@.len() ==> text_lt(
                ascii_lower(#[trigger] outcome_views(out@)[a].0),
                ascii_lower(#[trigger] outcome_views(out@)[b].0),
            ),
            forall|k: int| 0 <= k < out@.len() ==> (first_outcome_named(input, ascii_lower(#[trigger] outcome_views(out@)[k].0), i as int) matches Some(
                j,
            ) && input[j] == outcome_views(out@)[k]),
            forall|j: int| 0 <= j < i ==> exists|k: int| 0 <= k < out@.len() && ascii_lower(#[trigger] outcome_views(out@)[k].0) == ascii_lower(
                #[trigger] input[j].0,
            ),
        decreases collected@.len() - i,
    {
        let ghost before = outcome_views(out@);
        let test = &collected[i];
        let ghost x = outcome_view(*test);
        assert(x == input[i as int]);
        let key = lower_chars(chars_of(test.name.as_str()).as_slice());
        let mut p: usize = 0;
        while p < out.len() && chars_lt(keys[p].as_slice(), key.as_slice())
            invariant
                p <= out@.len(),
                keys@.len() == out@.len(),
                before == outcome_views(out@),
                key@ == ascii_lower(x.0),
                forall|k: int| 0 <= k < out@.len() ==> #[trigger] keys@[k]@ == ascii_lower(outcome_views(out@)[k].0),
                forall|k: int| 0 <= k < p ==> text_lt(ascii_lower(#[trigger] before[k].0), ascii_lower(x.0)),
            decreases out@.len() - p,
        {
            p += 1;
        }
        if p < out.len() && chars_equal(keys[p].as_slice(), key.as_slice()) {
            proof {
                assert(ascii_lower(before[p as int].0) == ascii_lower(x.0));
                assert(first_outcome_named(input, ascii_lower(x.0), i as int) matches Some(j) && input[j] == before[p as int]);
            }
            if !same_outcome(&out[p], test) {
                proof {
                    assert(conflicts(input, i as int));
                }
                let mut message: Vec<char> = Vec::new();
                push_str(&mut message, "Salesforce returned conflicting outcomes for `");
                push_str(&mut message, test.name.as_str());
                push_str(&mut message, "`");
                return Err(string_from_chars(message.as_slice()));
            }
            proof {
                assert(!conflicts(input, i as int));
                assert forall|k: int| 0 <= k < out@.len() implies (first_outcome_named(input, ascii_lower(#[trigger] outcome_views(out@)[k].0), i + 1) matches Some(
                    j,
                ) && input[j] == outcome_views(out@)[k]) by {
                    lemma_first_outcome_stays(input, ascii_lower(before[k].0), i as int, i + 1);
                }
                assert forall|j: int| 0 <= j < i + 1 implies exists|k: int| 0 <= k < out@.len() && ascii_lower(#[trigger] outcome_views(out@)[k].0) == ascii_lower(
                    #[trigger] input[j].0,
                ) by {
                    if j == i {
                        assert(ascii_lower(outcome_views(out@)[p as int].0) == ascii_lower(input[j].0));
                    }
                }
            }
        } else {
            proof {
                if p < before.len() {
                    lemma_text_lt_total(ascii_lower(before[p as int].0), ascii_lower(x.0));
                    assert(text_lt(ascii_lower(x.0), ascii_lower(before[p as int].0)));
                }
                assert forall|k: int| 0 <= k < before.len() implies ascii_lower(#[trigger] before[k].0) != ascii_lower(x.0) by {
                    if k < p {
                        lemma_text_lt_asymmetric(ascii_lower(before[k].0), ascii_lower(x.0));
                    } else {
                        if k > p {
                            lemma_text_lt_transitive(ascii_lower(x.0), ascii_lower(before[p as int].0), ascii_lower(before[k].0));
                        }
                        lemma_text_lt_asymmetric(ascii_lower(x.0), ascii_lower(before[k].0));
                    }
                }
                lemma_first_outcome_has_name(input, ascii_lower(x.0), i as int);
                if first_outcome_named(input, ascii_lower(x.0), i as int) is Some {
                    let j = first_outcome_named(input, ascii_lower(x.0), i as int)->0;
                    let k = choose|k: int| 0 <= k < before.len() && ascii_lower(#[trigger] before[k].0) == ascii_lower(input[j].0);
                    assert(ascii_lower(before[k].0) == ascii_lower(x.0));
                }
                assert(!conflicts(input, i as int));
                assert(first_outcome_named(input, ascii_lower(x.0), i + 1) == Some(i as int));
            }
            let copy = SalesforceTestOutcome {
                name: test.name.clone(),
                outcome: test.outcome.clone(),
                message: owned(match &test.message {
                    Some(message) => Some(message.as_str()),
                    None => None,
                }),
                stack: owned(match &test.stack {
                    Some(stack) => Some(stack.as_str()),
                    None => None,
                }),
            };
            assert(outcome_view(copy) == x);
            out.insert(p, copy);
            keys.insert(p, key);
            let ghost after = outcome_views(out@);
            assert(after =~= before.insert(p as int, x));
            proof {
                before.insert_ensures(p as int, x);
                assert forall|k: int| 0 <= k < out@.len() implies #[trigger] keys@[k]@ == ascii_lower(outcome_views(out@)[k].0) by {
                    if k < p {
                    } else if k == p {
                    } else {
                    }
                }
                assert forall|a: int, b: int| 0 <= a < b < after.len() implies text_lt(
                    ascii_lower(#[trigger] after[a].0),
                    ascii_lower(#[trigger] after[b].0),
                ) by {
                    if b < p {
                        assert(after[a] == before[a] && after[b] == before[b]);
                    } else if b == p {
                        assert(after[a] == before[a]);
                    } else if a < p {
                        assert(after[a] == before[a] && after[b] == before[b - 1]);
                        if p < b - 1 {
                            lemma_text_lt_transitive(ascii_lower(x.0), ascii_lower(before[p as int].0), ascii_lower(before[b - 1].0));
                        }
                        lemma_text_lt_transitive(ascii_lower(before[a].0), ascii_lower(x.0), ascii_lower(before[b - 1].0));
                    } else if a == p {
                        assert(after[b] == before[b - 1]);
                        if p < b - 1 {
                            lemma_text_lt_transitive(ascii_lower(x.0), ascii_lower(before[p as int].0), ascii_lower(before[b - 1].0));
                        }
                    } else {
                        assert(after[a] == before[a - 1] && after[b] == before[b - 1]);
                    }
                }
                assert forall|k: int| 0 <= k < after.len() implies (first_outcome_named(input, ascii_lower(#[trigger] after[k].0), i + 1) matches Some(
                    j,
                ) && input[j] == after[k]) by {
                    if k < p {
                        assert(after[k] == before[k]);
                        lemma_first_outcome_stays(input, ascii_lower(before[k].0), i as int, i + 1);
                    } else if k > p {
                        assert(after[k] == before[k - 1]);
                        lemma_first_outcome_stays(input, ascii_lower(before[k - 1].0), i as int, i + 1);
                    }
                }
                assert forall|j: int| 0 <= j < i + 1 implies exists|k: int| 0 <= k < after.len() && ascii_lower(#[trigger] after[k].0) == ascii_lower(
                    #[trigger] input[j].0,
                ) by {
                    if j == i {
                        assert(ascii_lower(after[p as int].0) == ascii_lower(input[j].0));
                    } else {
                        let k = choose|k: int| 0 <= k < before.len() && ascii_lower(#[trigger] before[k].0) == ascii_lower(input[j].0);
                        if k < p {
                            assert(after[k] == before[k]);
                        } else {
                            assert(after[k + 1] == before[k]);
                        }
                    }
                }
            }
        }
        i += 1;
    }
    if out.len() == 0 {
        proof {
            if input.len() > 0 {
                assert(exists|k: int| 0 <= k < outcome_views(out@).len() && ascii_lower(#[trigger] outcome_views(out@)[k].0) == ascii_lower(input[0].0));
            }
        }
        return Err("Salesforce returned no enterprise test outcomes".to_string());
    }
    proof {
        let first = ascii_lower(outcome_views(out@)[0].0);
        assert(first_outcome_named(input, first, i as int) is Some);
        assert(input.len() > 0);
        assert(first_conflict(input, 0) == first_conflict(input, input.len() as int));
    }
    Ok(out)
}


/// Which org a capture runs against, and how long it waits for the tests.
#[derive(Clone, Debug)]
pub struct SalesforceCaptureOptions {
    pub target_org: String,
    pub wait_minutes: u32,
}

impl Default for SalesforceCaptureOptions {
    /// No org yet, and an hour's wait.
    fn default() -> (result: Self)
        ensures
            result.target_org@.len() == 0,
            result.wait_minutes == 60,
    {
        SalesforceCaptureOptions { target_org: String::new(), wait_minutes: 60 }
    }
}

/// Accepts capture options that name an org and wait at least a minute.
pub fn check_capture_options(options: &SalesforceCaptureOptions) -> (result: Result<(), String>)
    ensures
        trimmed(options.target_org@).len() == 0 ==> (result matches Err(message) && message@
            == "enterprise capture requires a Salesforce target org"@),
        trimmed(options.target_org@).len() > 0 && options.wait_minutes == 0 ==> (result matches Err(message) && message@
            == "enterprise Salesforce wait must be at least one minute"@),
        trimmed(options.target_org@).len() > 0 && options.wait_minutes > 0 ==> result is Ok,
{
    if trim_chars(chars_of(options.target_org.as_str()).as_slice()).len() == 0 {
        return Err("enterprise capture requires a Salesforce target org".to_string());
    }
    if options.wait_minutes == 0 {
        return Err("enterprise Salesforce wait must be at least one minute".to_string());
    }
    Ok(())
}

/// The Salesforce CLI version: the first word the version command prints.
pub fn cli_version(output: &str) -> (result: Result<String, String>)
    ensures
        words(output@).len() > 0 ==> (result matches Ok(version) && version@ == words(output@)[0]),
        words(output@).len() == 0 ==> (result matches Err(message) && message@
            == "Salesforce CLI version response omitted its version"@),
{
    let parts = split_words(chars_of(output).as_slice());
    if parts.len() == 0 {
        return Err("Salesforce CLI version response omitted its version".to_string());
    }
    assert(parts@[0]@ == words(output@)[0]);
    Ok(string_from_chars(parts[0].as_slice()))
}

/// Looks for an object's own unsigned number under `key`.
pub open spec fn unsigned_probe(key: Seq<char>) -> spec_fn(Seq<(String, JsonValue)>) -> Option<JsonValue> {
    |entries: Seq<(String, JsonValue)>| if as_unsigned(entry_value(entries, key)) is Some {
        entry_value(entries, key)
    } else {
        None
    }
}

/// What an unsigned search finds is an unsigned number.
proof fn lemma_found_unsigned(value: JsonValue, key: Seq<char>)
    ensures
        first_found(value, unsigned_probe(key)) is Some ==> as_unsigned(first_found(value, unsigned_probe(key))) is Some,
    decreases value, 2int,
{
    match value {
        JsonValue::Object(entries) => lemma_found_unsigned_in_entries(entries@, key),
        JsonValue::Array(items) => lemma_found_unsigned_in_items(items@, key),
        _ => {},
    }
}

proof fn lemma_found_unsigned_in_entries(entries: Seq<(String, JsonValue)>, key: Seq<char>)
    ensures
        first_found_in_entries(entries, unsigned_probe(key)) is Some ==> as_unsigned(
            first_found_in_entries(entries, unsigned_probe(key)),
        ) is Some,
    decreases entries, 1int,
{
    if entries.len() > 0 {
        lemma_found_unsigned(entries[0].1, key);
        lemma_found_unsigned_in_entries(entries.drop_first(), key);
    }
}

proof fn lemma_found_unsigned_in_items(items: Seq<JsonValue>, key: Seq<char>)
    ensures
        first_found_in_items(items, unsigned_probe(key)) is Some ==> as_unsigned(first_found_in_items(items, unsigned_probe(key))) is Some,
    decreases items, 1int,
{
    if items.len() > 0 {
        lemma_found_unsigned(items[0], key);
        lemma_found_unsigned_in_items(items.drop_first(), key);
    }
}

/// The first unsigned number held under `key`, in document order.
pub fn find_u64(value: &JsonValue, key: &str) -> (result: Option<u64>)
    ensures
        result == as_unsigned(first_found(*value, unsigned_probe(key@))),
    decreases *value,
{
    match value {
        JsonValue::Object(entries) => {
            if let Some(found) = unsigned_of(entry_of(entries, key)) {
                return Some(found);
            }
            let mut i: usize = 0;
            assert(entries@.skip(0) =~= entries@);
            while i < entries.len()
                invariant
                    *value == JsonValue::Object(*entries),
                    i <= entries@.len(),
                    first_found(*value, unsigned_probe(key@)) == first_found_in_entries(entries@, unsigned_probe(key@)),
                    first_found_in_entries(entries@, unsigned_probe(key@)) == first_found_in_entries(
                        entries@.skip(i as int),
                        unsigned_probe(key@),
                    ),
                decreases entries@.len() - i,
            {
                assert(entries@.skip(i as int).drop_first() =~= entries@.skip(i + 1));
                assert(entries@.skip(i as int)[0] == entries@[i as int]);
                assert(decreases_to!(*value => entries@[i as int].1)) by {
                    assert(decreases_to!(*value => *entries));
                    assert(decreases_to!(*entries => entries@));
                    assert(decreases_to!(entries@ => entries@[i as int]));
                    assert(decreases_to!(entries@[i as int] => entries@[i as int].1));
                }
                if let Some(found) = find_u64(&entries[i].1, key) {
                    return Some(found);
                }
                proof {
                    lemma_found_unsigned(entries@[i as int].1, key@);
                }
                i += 1;
            }
            None
        },
        JsonValue::Array(items) => {
            let mut i: usize = 0;
            assert(items@.skip(0) =~= items@);
            while i < items.len()
                invariant
                    *value == JsonValue::Array(*items),
                    i <= items@.len(),
                    first_found_in_items(items@, unsigned_probe(key@)) == first_found_in_items(
                        items@.skip(i as int),
                        unsigned_probe(key@),
                    ),
                decreases items@.len() - i,
            {
                assert(items@.skip(i as int).drop_first() =~= items@.skip(i + 1));
                assert(items@.skip(i as int)[0] == items@[i as int]);
                assert(decreases_to!(*value => items@[i as int])) by {
                    assert(decreases_to!(*value => *items));
                    assert(decreases_to!(*items => items@));
                    assert(decreases_to!(items@ => items@[i as int]));
                }
                if let Some(found) = find_u64(&items[i], key) {
                    return Some(found);
                }
                proof {
                    lemma_found_unsigned(items@[i as int], key@);
                }
                i += 1;
            }
            None
        },
        _ => None,
    }
}

/// The first string held under `key`, in document order.
pub fn find_string<'a>(value: &'a JsonValue, key: &str) -> (result: Option<&'a str>)
    ensures
        as_text(first_found(*value, text_keys_probe(seq![key@]))) == match result {
            Some(text) => Some(text@),
            None => None,
        },
{
    let keys: [&str; 1] = [key];
    proof {
        assert(str_texts(keys@) =~= seq![key@]);
    }
    find_keyed_string(value, keys.as_slice())
}

/// The id of the org an org display resolved, or why it cannot be used: its
/// first `status` number must be `0`, it must give an `id` string, and any
/// `connectedStatus` string must read `connected` in any ASCII case.
pub fn org_identity(org: &JsonValue) -> (result: Result<String, String>)
    ensures
        as_unsigned(first_found(*org, unsigned_probe("status"@))) != Some(0u64) ==> (result matches Err(message) && message@
            == "Salesforce CLI could not resolve the enterprise target org"@),
        as_unsigned(first_found(*org, unsigned_probe("status"@))) == Some(0u64) ==> match as_text(
            first_found(*org, text_keys_probe(seq!["id"@])),
        ) {
            None => result matches Err(message) && message@ == "Salesforce org display omitted the org ID"@,
            Some(id) => match as_text(first_found(*org, text_keys_probe(seq!["connectedStatus"@]))) {
                Some(status) => if eq_ignore_case(status, "connected"@) {
                    result matches Ok(found) && found@ == id
                } else {
                    result matches Err(message) && message@ == "Salesforce target org is not connected (status `"@ + status
                        + "`)"@
                },
                None => result matches Ok(found) && found@ == id,
            },
        },
{
    if find_u64(org, "status") != Some(0u64) {
        return Err("Salesforce CLI could not resolve the enterprise target org".to_string());
    }
    let id = match find_string(org, "id") {
        Some(id) => id,
        None => return Err("Salesforce org display omitted the org ID".to_string()),
    };
    if let Some(status) = find_string(org, "connectedStatus") {
        proof {
            reveal_strlit("connected");
            assert(ascii_lower("connected"@) =~= "connected"@);
        }
        if !chars_equal(lower_chars(chars_of(status).as_slice()).as_slice(), chars_of("connected").as_slice()) {
            let mut message: Vec<char> = Vec::new();
            push_str(&mut message, "Salesforce target org is not connected (status `");
            push_str(&mut message, status);
            push_str(&mut message, "`)");
            return Err(string_from_chars(message.as_slice()));
        }
    }
    Ok(id.to_string())
}


/// The Salesforce CLI arguments that run every local test of the org, as JSON.
pub fn test_run_arguments(target_org: &str, wait_minutes: u32, api_version: &str) -> (result: Vec<String>)
    ensures
        texts_of(result@) == seq![
            "apex"@,
            "run"@,
            "test"@,
            "--target-org"@,
            target_org@,
            "--test-level"@,
            "RunLocalTests"@,
            "--wait"@,
            decimal(wait_minutes as nat),
            "--result-format"@,
            "json"@,
            "--api-version"@,
            api_version@,
            "--json"@,
        ],
{
    let mut wait: Vec<char> = Vec::new();
    push_decimal(&mut wait, wait_minutes as usize);
    let wait_text = string_from_chars(wait.as_slice());
    let words: [&str; 14] = [
        "apex",
        "run",
        "test",
        "--target-org",
        target_org,
        "--test-level",
        "RunLocalTests",
        "--wait",
        wait_text.as_str(),
        "--result-format",
        "json",
        "--api-version",
        api_version,
        "--json",
    ];
    let mut out: Vec<String> = Vec::new();
    let mut i: usize = 0;
    while i < 14
        invariant
            i <= 14,
            words@.len() == 14,
            texts_of(out@) == Seq::new(i as nat, |k: int| words@[k]@),
        decreases 14 - i,
    {
        let ghost done = texts_of(out@);
        out.push(words[i].to_string());
        assert(texts_of(out@) =~= done.push(words@[i as int]@));
        assert(Seq::new((i + 1) as nat, |k: int| words@[k]@) =~= Seq::new(i as nat, |k: int| words@[k]@).push(words@[i as int]@));
        i += 1;
    }
    assert(texts_of(out@) =~= seq![
        "apex"@,
        "run"@,
        "test"@,
        "--target-org"@,
        target_org@,
        "--test-level"@,
        "RunLocalTests"@,
        "--wait"@,
        decimal(wait_minutes as nat),
        "--result-format"@,
        "json"@,
        "--api-version"@,
        api_version@,
        "--json"@,
    ]);
    out
}

/// The class part of a test name: the text before its first `.`, or nothing.
pub open spec fn class_of(name: Seq<char>) -> Seq<char> {
    let dot = first_index(name, '.', 0);
    if dot < 0 { Seq::empty() } else { name.take(dot) }
}

/// The names of the tests from `i` on whose class, in any ASCII case, is not
/// one of the pinned source test classes.
pub open spec fn unexpected_tests(
    tests: Seq<(Seq<char>, Seq<char>, Option<Seq<char>>, Option<Seq<char>>)>,
    classes: Seq<Seq<char>>,
    i: int,
) -> Seq<Seq<char>>
    decreases tests.len() - i,
{
    if i < 0 || i >= tests.len() {
        Seq::empty()
    } else {
        (if exists|j: int| 0 <= j < classes.len() && ascii_lower(#[trigger] classes[j]) == ascii_lower(class_of(tests[i].0)) {
            Seq::empty()
        } else {
            seq![tests[i].0]
        }) + unexpected_tests(tests, classes, i + 1)
    }
}

/// The names joined with `, `.
pub open spec fn joined(names: Seq<Seq<char>>) -> Seq<char>
    decreases names.len(),
{
    if names.len() == 0 {
        Seq::empty()
    } else if names.len() == 1 {
        names[0]
    } else {
        joined(names.drop_last()) + ", "@ + names.last()
    }
}

/// Accepts the tests Salesforce discovered when each belongs to a pinned
/// source test class and there are at least `minimum` of them.
pub fn check_discovered_tests(
    tests: &[SalesforceTestOutcome],
    source_test_classes: &[String],
    minimum: usize,
) -> (result: Result<(), String>)
    ensures
        ({
            let unexpected = unexpected_tests(outcome_views(tests@), texts_of(source_test_classes@), 0);
            if unexpected.len() > 0 {
                result matches Err(message) && message@ == "Salesforce discovered tests outside the pinned test roots: "@
                    + joined(unexpected)
            } else if tests@.len() < minimum {
                result matches Err(message) && message@ == "Salesforce discovered "@ + decimal(tests@.len()) + " candidate tests; at least "@
                    + decimal(minimum as nat) + " are required"@
            } else {
                result is Ok
            }
        }),
{
    let ghost views = outcome_views(tests@);
    let ghost classes = texts_of(source_test_classes@);
    let mut allowed: Vec<Vec<char>> = Vec::new();
    let mut k: usize = 0;
    while k < source_test_classes.len()
        invariant
            k <= source_test_classes@.len(),
            classes == texts_of(source_test_classes@),
            allowed@.len() == k,
            forall|j: int| 0 <= j < k ==> #[trigger] allowed@[j]@ == ascii_lower(classes[j]),
        decreases source_test_classes@.len() - k,
    {
        allowed.push(lower_chars(chars_of(source_test_classes[k].as_str()).as_slice()));
        k += 1;
    }
    let mut unexpected: Vec<char> = Vec::new();
    let mut count: usize = 0;
    let mut i: usize = 0;
    assert(unexpected_tests(views, classes, 0) =~= Seq::<Seq<char>>::empty() + unexpected_tests(views, classes, 0));
    while i < tests.len()
        invariant
            views == outcome_views(tests@),
            classes == texts_of(source_test_classes@),
            allowed@.len() == classes.len(),
            forall|j: int| 0 <= j < classes.len() ==> #[trigger] allowed@[j]@ == ascii_lower(classes[j]),
            i <= tests@.len(),
            count <= i,
            exists|done: Seq<Seq<char>>| {
                &&& done.len() == count
                &&& done + unexpected_tests(views, classes, i as int) == unexpected_tests(views, classes, 0)
                &&& unexpected@ == joined(done)
            },
        decreases tests@.len() - i,
    {
        let name = chars_of(tests[i].name.as_str());
        let class = match find_char(name.as_slice(), '.') {
            Some(dot) => slice_chars(name.as_slice(), 0, dot),
            None => Vec::new(),
        };
        assert(class@ =~= class_of(views[i as int].0));
        let lower = lower_chars(class.as_slice());
        let mut j: usize = 0;
        let mut known = false;
        while j < allowed.len()
            invariant
                j <= allowed@.len(),
                allowed@.len() == classes.len(),
                forall|q: int| 0 <= q < classes.len() ==> #[trigger] allowed@[q]@ == ascii_lower(classes[q]),
                lower@ == ascii_lower(class_of(views[i as int].0)),
                known == exists|q: int| 0 <= q < j && ascii_lower(#[trigger] classes[q]) == ascii_lower(class_of(views[i as int].0)),
            decreases allowed@.len() - j,
        {
            if chars_equal(allowed[j].as_slice(), lower.as_slice()) {
                known = true;
            }
            proof {
                if known {
                    if allowed@[j as int]@ == lower@ {
                        assert(ascii_lower(classes[j as int]) == ascii_lower(class_of(views[i as int].0)));
                    }
                }
            }
            j += 1;
        }
        let ghost done = choose|done: Seq<Seq<char>>| {
            &&& done.len() == count
            &&& done + unexpected_tests(views, classes, i as int) == unexpected_tests(views, classes, 0)
            &&& unexpected@ == joined(done)
        };
        if !known {
            if count > 0 {
                push_str(&mut unexpected, ", ");
            }
            push_str(&mut unexpected, tests[i].name.as_str());
            count += 1;
            proof {
                let next = done.push(views[i as int].0);
                assert(next.drop_last() =~= done);
                assert(unexpected@ == joined(next));
                assert(done + unexpected_tests(views, classes, i as int) =~= next + unexpected_tests(views, classes, i + 1));
            }
        } else {
            proof {
                assert(done + unexpected_tests(views, classes, i as int) =~= done + unexpected_tests(views, classes, i + 1));
            }
        }
        i += 1;
    }
    proof {
        let done = choose|done: Seq<Seq<char>>| {
            &&& done.len() == count
            &&& done + unexpected_tests(views, classes, i as int) == unexpected_tests(views, classes, 0)
            &&& unexpected@ == joined(done)
        };
        assert(done =~= unexpected_tests(views, classes, 0));
    }
    if count > 0 {
        let mut message: Vec<char> = Vec::new();
        push_str(&mut message, "Salesforce discovered tests outside the pinned test roots: ");
        let ghost head = message@;
        let mut q: usize = 0;
        while q < unexpected.len()
            invariant
                q <= unexpected@.len(),
                message@ == head + unexpected@.take(q as int),
            decreases unexpected@.len() - q,
        {
            message.push(unexpected[q]);
            assert(message@ =~= head + unexpected@.take(q + 1));
            q += 1;
        }
        assert(unexpected@.take(unexpected@.len() as int) =~= unexpected@);
        return Err(string_from_chars(message.as_slice()));
    }
    if tests.len() < minimum {
        let mut message: Vec<char> = Vec::new();
        push_str(&mut message, "Salesforce discovered ");
        push_decimal(&mut message, tests.len());
        push_str(&mut message, " candidate tests; at least ");
        push_decimal(&mut message, minimum);
        push_str(&mut message, " are required");
        return Err(string_from_chars(message.as_slice()));
    }
    Ok(())
}

} // verus!
