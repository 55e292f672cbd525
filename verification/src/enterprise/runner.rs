//! Local measurements of an enterprise baseline: each Salesforce test method
//! measured through discovery, parsing, checking, execution and agreement,
//! and the counts a report gives of them.

use vstd::prelude::*;

use std::path::PathBuf;

use crate::diagnostic::{clamped_on_boundary, spec_location};
use crate::editor::line_column;
use crate::enterprise::salesforce::SalesforceTestOutcome;
use crate::text::{chars_equal, chars_of, push_str, string_from_chars, utf8_len};

verus! {

/// How many of the `denominator` tests reached a stage, also in basis points.
#[derive(Clone, Debug, PartialEq, Eq)]
pub struct StageMetric {
    pub count: usize,
    pub denominator: usize,
    pub basis_points: u32,
}

/// The stage metrics of a run and its agreement tallies.
#[derive(Clone, Debug, PartialEq, Eq)]
pub struct EnterpriseCounts {
    pub discovery: StageMetric,
    pub parse: StageMetric,
    pub check: StageMetric,
    pub execution: StageMetric,
    pub agreement: StageMetric,
    pub strict_compatible: StageMetric,
    pub matching_passes: usize,
    pub matching_failures: usize,
    pub outcome_mismatches: usize,
}

/// What kept a test from being strictly compatible, and where.
#[derive(Debug, PartialEq, Eq)]
pub struct EnterpriseBlocker {
    pub phase: String,
    pub family: String,
    pub detail: String,
    pub path: Option<PathBuf>,
    pub line: Option<usize>,
    pub column: Option<usize>,
}

/// How far one Salesforce test method got locally, and whether its outcome
/// agrees with Salesforce.
#[derive(Debug, PartialEq, Eq)]
pub struct EnterpriseTestMeasurement {
    pub name: String,
    pub salesforce_outcome: String,
    pub required_source_closure: Vec<PathBuf>,
    pub discovered: bool,
    pub parsed: bool,
    pub checked: bool,
    pub executed: bool,
    pub local_outcome: Option<String>,
    pub outcome_agrees: bool,
    pub strict_compatible: bool,
    pub blockers: Vec<EnterpriseBlocker>,
}

/// A blocker without a source position.
pub fn blocker(phase: &str, family: &str, detail: String, path: Option<PathBuf>) -> (result: EnterpriseBlocker)
    ensures
        result.phase@ == phase@,
        result.family@ == family@,
        result.detail == detail,
        result.path == path,
        result.line is None,
        result.column is None,
{
    EnterpriseBlocker {
        phase: phase.to_string(),
        family: family.to_string(),
        detail,
        path,
        line: None,
        column: None,
    }
}

/// A blocker at a line and column of a source file.
pub fn source_blocker(
    phase: &str,
    family: &str,
    detail: String,
    path: PathBuf,
    line: usize,
    column: usize,
) -> (result: EnterpriseBlocker)
    ensures
        result.phase@ == phase@,
        result.family@ == family@,
        result.detail == detail,
        result.path == Some(path),
        result.line == Some(line),
        result.column == Some(column),
{
    EnterpriseBlocker {
        phase: phase.to_string(),
        family: family.to_string(),
        detail,
        path: Some(path),
        line: Some(line),
        column: Some(column),
    }
}

/// Line and column, from one and in characters, of a byte offset of a source
/// file, clamped to the text; the clamped offset must fall on a character
/// boundary.
pub fn source_line_column(source: &str, offset: usize) -> (result: (usize, usize))
    requires
        clamped_on_boundary(source@, offset as int),
        utf8_len(source@) < usize::MAX,
    ensures
        (result.0 as nat, result.1 as nat) == spec_location(source@, offset as int),
{
    line_column(source, offset)
}

/// A test that stopped before it ran: neither checked nor executed, with no
/// local outcome and no agreement.
pub fn failed_measurement(
    name: &str,
    salesforce_outcome: &str,
    closure: Vec<PathBuf>,
    discovered: bool,
    parsed: bool,
    blockers: Vec<EnterpriseBlocker>,
) -> (result: EnterpriseTestMeasurement)
    ensures
        result.name@ == name@,
        result.salesforce_outcome@ == salesforce_outcome@,
        result.required_source_closure == closure,
        result.discovered == discovered,
        result.parsed == parsed,
        !result.checked,
        !result.executed,
        result.local_outcome is None,
        !result.outcome_agrees,
        !result.strict_compatible,
        result.blockers == blockers,
{
    EnterpriseTestMeasurement {
        name: name.to_string(),
        salesforce_outcome: salesforce_outcome.to_string(),
        required_source_closure: closure,
        discovered,
        parsed,
        checked: false,
        executed: false,
        local_outcome: None,
        outcome_agrees: false,
        strict_compatible: false,
        blockers,
    }
}

/// A test that failed while it ran: discovered and parsed, blocked in the
/// execution phase at its test file.
pub fn execution_failure(
    salesforce: &SalesforceTestOutcome,
    test_path: PathBuf,
    closure: Vec<PathBuf>,
    family: &str,
    detail: String,
) -> (result: EnterpriseTestMeasurement)
    ensures
        result.name@ == salesforce.name@,
        result.salesforce_outcome@ == salesforce.outcome@,
        result.required_source_closure == closure,
        result.discovered && result.parsed,
        !result.checked && !result.executed,
        result.local_outcome is None,
        !result.outcome_agrees && !result.strict_compatible,
        result.blockers@.len() == 1,
        result.blockers@[0].phase@ == "execution"@,
        result.blockers@[0].family@ == family@,
        result.blockers@[0].detail == detail,
        result.blockers@[0].path == Some(test_path),
        result.blockers@[0].line is None && result.blockers@[0].column is None,
{
    let found = blocker("execution", family, detail, Some(test_path));
    let mut blockers: Vec<EnterpriseBlocker> = Vec::new();
    blockers.push(found);
    failed_measurement(
        salesforce.name.as_str(),
        salesforce.outcome.as_str(),
        closure,
        true,
        true,
        blockers,
    )
}

/// The detail of an outcome that differs between Salesforce and the local run.
pub open spec fn mismatch_detail(salesforce: Seq<char>, local: Seq<char>) -> Seq<char> {
    "Salesforce outcome `"@ + salesforce + "` differs from local outcome `"@ + local + "`"@
}

/// A test that ran locally: it agrees, and is strictly compatible, exactly
/// when its local outcome is the Salesforce one; otherwise it carries one
/// agreement blocker at its test file.
pub fn completed_measurement(
    salesforce: &SalesforceTestOutcome,
    test_path: PathBuf,
    closure: Vec<PathBuf>,
    local_outcome: &str,
) -> (result: EnterpriseTestMeasurement)
    ensures
        result.name@ == salesforce.name@,
        result.salesforce_outcome@ == salesforce.outcome@,
        result.required_source_closure == closure,
        result.discovered && result.parsed && result.checked && result.executed,
        result.local_outcome matches Some(local) && local@ == local_outcome@,
        result.outcome_agrees == (local_outcome@ == salesforce.outcome@),
        result.strict_compatible == result.outcome_agrees,
        result.outcome_agrees ==> result.blockers@.len() == 0,
        !result.outcome_agrees ==> {
            &&& result.blockers@.len() == 1
            &&& result.blockers@[0].phase@ == "agreement"@
            &&& result.blockers@[0].family@ == "outcome.mismatch"@
            &&& result.blockers@[0].detail@ == mismatch_detail(salesforce.outcome@, local_outcome@)
            &&& result.blockers@[0].path == Some(test_path)
            &&& result.blockers@[0].line is None && result.blockers@[0].column is None
        },
{
    let outcome_agrees = chars_equal(chars_of(local_outcome).as_slice(), chars_of(salesforce.outcome.as_str()).as_slice());
    let mut blockers: Vec<EnterpriseBlocker> = Vec::new();
    if !outcome_agrees {
        let mut detail: Vec<char> = Vec::new();
        push_str(&mut detail, "Salesforce outcome `");
        push_str(&mut detail, salesforce.outcome.as_str());
        push_str(&mut detail, "` differs from local outcome `");
        push_str(&mut detail, local_outcome);
        push_str(&mut detail, "`");
        blockers.push(blocker("agreement", "outcome.mismatch", string_from_chars(detail.as_slice()), Some(test_path)));
    }
    EnterpriseTestMeasurement {
        name: salesforce.name.clone(),
        salesforce_outcome: salesforce.outcome.clone(),
        required_source_closure: closure,
        discovered: true,
        parsed: true,
        checked: true,
        executed: true,
        local_outcome: Some(local_outcome.to_string()),
        outcome_agrees,
        strict_compatible: outcome_agrees,
        blockers,
    }
}

/// What a count of tests counts.
pub enum Criterion {
    Discovered,
    Parsed,
    Checked,
    Executed,
    Agrees,
    StrictCompatible,
    MatchingPass,
    MatchingFailure,
    Mismatch,
}

/// Whether a test meets a criterion.
pub open spec fn meets(test: EnterpriseTestMeasurement, criterion: Criterion) -> bool {
    match criterion {
        Criterion::Discovered => test.discovered,
        Criterion::Parsed => test.parsed,
        Criterion::Checked => test.checked,
        Criterion::Executed => test.executed,
        Criterion::Agrees => test.outcome_agrees,
        Criterion::StrictCompatible => test.strict_compatible,
        Criterion::MatchingPass => test.outcome_agrees && (test.local_outcome matches Some(local) && local@
            == "pass"@),
        Criterion::MatchingFailure => test.outcome_agrees && (test.local_outcome matches Some(local) && local@
            == "fail"@),
        Criterion::Mismatch => test.executed && !test.outcome_agrees,
    }
}

/// The number of the first `n` tests that meet a criterion.
pub open spec fn count_meeting(tests: Seq<EnterpriseTestMeasurement>, n: int, criterion: Criterion) -> nat
    decreases n,
{
    if n <= 0 {
        0
    } else {
        count_meeting(tests, n - 1, criterion) + if meets(tests[n - 1], criterion) { 1nat } else { 0nat }
    }
}

/// A count of tests by a criterion is the number of tests for which `flag`
/// holds, when `flag` tells exactly which tests meet the criterion.
proof fn lemma_count_is_filtered(
    tests: Seq<EnterpriseTestMeasurement>,
    criterion: Criterion,
    flag: spec_fn(EnterpriseTestMeasurement) -> bool,
)
    requires
        forall|test: EnterpriseTestMeasurement| #[trigger] meets(test, criterion) == flag(test),
    ensures
        count_meeting(tests, tests.len() as int, criterion) == tests.filter(flag).len(),
    decreases tests.len(),
{
    reveal(Seq::filter);
    if tests.len() > 0 {
        let shorter = tests.drop_last();
        lemma_count_is_filtered(shorter, criterion, flag);
        lemma_count_prefix(tests, shorter, shorter.len() as int, criterion);
        assert(tests.last() == tests[tests.len() - 1]);
        assert(meets(tests.last(), criterion) == flag(tests.last()));
    }
}

/// Counting over a prefix that two lists share gives the same count.
proof fn lemma_count_prefix(
    tests: Seq<EnterpriseTestMeasurement>,
    prefix: Seq<EnterpriseTestMeasurement>,
    n: int,
    criterion: Criterion,
)
    requires
        0 <= n <= prefix.len(),
        n <= tests.len(),
        forall|k: int| 0 <= k < n ==> tests[k] == prefix[k],
    ensures
        count_meeting(tests, n, criterion) == count_meeting(prefix, n, criterion),
    decreases n,
{
    if n > 0 {
        lemma_count_prefix(tests, prefix, n - 1, criterion);
    }
}

/// Whether a test was found.
pub open spec fn was_discovered() -> spec_fn(EnterpriseTestMeasurement) -> bool {
    |test: EnterpriseTestMeasurement| test.discovered
}

/// Whether a test's source parsed.
pub open spec fn was_parsed() -> spec_fn(EnterpriseTestMeasurement) -> bool {
    |test: EnterpriseTestMeasurement| test.parsed
}

/// Whether a test's source passed the semantic check.
pub open spec fn was_checked() -> spec_fn(EnterpriseTestMeasurement) -> bool {
    |test: EnterpriseTestMeasurement| test.checked
}

/// Whether a test ran locally.
pub open spec fn was_executed() -> spec_fn(EnterpriseTestMeasurement) -> bool {
    |test: EnterpriseTestMeasurement| test.executed
}

/// Whether a test's local outcome agrees with Salesforce.
pub open spec fn agreed() -> spec_fn(EnterpriseTestMeasurement) -> bool {
    |test: EnterpriseTestMeasurement| test.outcome_agrees
}

/// Whether a test is strictly compatible.
pub open spec fn strictly_compatible() -> spec_fn(EnterpriseTestMeasurement) -> bool {
    |test: EnterpriseTestMeasurement| test.strict_compatible
}

/// Whether a test passed both locally and in Salesforce.
pub open spec fn passed_in_both() -> spec_fn(EnterpriseTestMeasurement) -> bool {
    |test: EnterpriseTestMeasurement| test.outcome_agrees && match test.local_outcome {
        Some(local) => local@ == "pass"@,
        None => false,
    }
}

/// Whether a test failed both locally and in Salesforce.
pub open spec fn failed_in_both() -> spec_fn(EnterpriseTestMeasurement) -> bool {
    |test: EnterpriseTestMeasurement| test.outcome_agrees && match test.local_outcome {
        Some(local) => local@ == "fail"@,
        None => false,
    }
}

/// Whether a test ran locally with an outcome that Salesforce did not give.
pub open spec fn ran_and_differs() -> spec_fn(EnterpriseTestMeasurement) -> bool {
    |test: EnterpriseTestMeasurement| test.executed && !test.outcome_agrees
}

/// Each stage metric counts the tests whose own flag for that stage is set:
/// discovery the discovered ones, parse the parsed ones, check the checked
/// ones, execution the executed ones, agreement those whose outcome agrees,
/// and strict compatibility the strictly compatible ones; the flags of the
/// other stages play no part. Matching passes and failures are the agreeing
/// tests that passed or failed locally, and mismatches the executed tests
/// that disagree.
pub proof fn lemma_stage_counts_follow_their_flags(tests: Seq<EnterpriseTestMeasurement>)
    ensures
        count_meeting(tests, tests.len() as int, Criterion::Discovered) == tests.filter(was_discovered()).len(),
        count_meeting(tests, tests.len() as int, Criterion::Parsed) == tests.filter(was_parsed()).len(),
        count_meeting(tests, tests.len() as int, Criterion::Checked) == tests.filter(was_checked()).len(),
        count_meeting(tests, tests.len() as int, Criterion::Executed) == tests.filter(was_executed()).len(),
        count_meeting(tests, tests.len() as int, Criterion::Agrees) == tests.filter(agreed()).len(),
        count_meeting(tests, tests.len() as int, Criterion::StrictCompatible) == tests.filter(strictly_compatible()).len(),
        count_meeting(tests, tests.len() as int, Criterion::MatchingPass) == tests.filter(passed_in_both()).len(),
        count_meeting(tests, tests.len() as int, Criterion::MatchingFailure) == tests.filter(failed_in_both()).len(),
        count_meeting(tests, tests.len() as int, Criterion::Mismatch) == tests.filter(ran_and_differs()).len(),
{
    lemma_count_is_filtered(tests, Criterion::Discovered, was_discovered());
    lemma_count_is_filtered(tests, Criterion::Parsed, was_parsed());
    lemma_count_is_filtered(tests, Criterion::Checked, was_checked());
    lemma_count_is_filtered(tests, Criterion::Executed, was_executed());
    lemma_count_is_filtered(tests, Criterion::Agrees, agreed());
    lemma_count_is_filtered(tests, Criterion::StrictCompatible, strictly_compatible());
    lemma_count_is_filtered(tests, Criterion::MatchingPass, passed_in_both());
    lemma_count_is_filtered(tests, Criterion::MatchingFailure, failed_in_both());
    lemma_count_is_filtered(tests, Criterion::Mismatch, ran_and_differs());
}

/// The metric of `count` tests among `denominator`, with basis points rounded down.
pub open spec fn spec_metric(count: nat, denominator: nat) -> StageMetric {
    StageMetric {
        count: count as usize,
        denominator: denominator as usize,
        basis_points: if denominator == 0 { 0 } else { ((count * 10000) / denominator) as u32 },
    }
}

/// A count never exceeds the number of tests counted.
proof fn lemma_count_at_most(tests: Seq<EnterpriseTestMeasurement>, n: int, criterion: Criterion)
    requires
        0 <= n,
    ensures
        count_meeting(tests, n, criterion) <= n,
    decreases n,
{
    if n > 0 {
        lemma_count_at_most(tests, n - 1, criterion);
    }
}

/// The metric of `count` tests among `denominator`.
fn metric(count: usize, denominator: usize) -> (result: StageMetric)
    requires
        count <= denominator,
        denominator * 10000 <= usize::MAX,
    ensures
        result == spec_metric(count as nat, denominator as nat),
{
    let basis_points: u32 = if denominator == 0 {
        0
    } else {
        assert(count * 10000 <= denominator * 10000) by (nonlinear_arith)
            requires
                count <= denominator,
        ;
        assert((count * 10000) / (denominator as int) <= 10000) by (nonlinear_arith)
            requires
                count <= denominator,
                denominator > 0,
        ;
        ((count * 10000) / denominator) as u32
    };
    StageMetric { count, denominator, basis_points }
}

/// Whether a local outcome is the given text.
fn local_outcome_is(test: &EnterpriseTestMeasurement, text: &str) -> (result: bool)
    ensures
        result == (test.local_outcome matches Some(local) && local@ == text@),
{
    match &test.local_outcome {
        Some(local) => chars_equal(chars_of(local.as_str()).as_slice(), chars_of(text).as_slice()),
        None => false,
    }
}

/// The stage metrics and agreement tallies of a run's measurements: for each
/// stage, how many tests reached it; how many agreed on a pass and on a
/// failure; and how many ran but disagreed.
pub fn build_counts(tests: &[EnterpriseTestMeasurement]) -> (result: EnterpriseCounts)
    requires
        tests@.len() * 10000 <= usize::MAX,
    ensures
        ({
            let n = tests@.len() as int;
            &&& result.discovery == spec_metric(count_meeting(tests@, n, Criterion::Discovered), n as nat)
            &&& result.parse == spec_metric(count_meeting(tests@, n, Criterion::Parsed), n as nat)
            &&& result.check == spec_metric(count_meeting(tests@, n, Criterion::Checked), n as nat)
            &&& result.execution == spec_metric(count_meeting(tests@, n, Criterion::Executed), n as nat)
            &&& result.agreement == spec_metric(count_meeting(tests@, n, Criterion::Agrees), n as nat)
            &&& result.strict_compatible == spec_metric(count_meeting(tests@, n, Criterion::StrictCompatible), n as nat)
            &&& result.matching_passes == count_meeting(tests@, n, Criterion::MatchingPass)
            &&& result.matching_failures == count_meeting(tests@, n, Criterion::MatchingFailure)
            &&& result.outcome_mismatches == count_meeting(tests@, n, Criterion::Mismatch)
        }),
{
    let mut discovered: usize = 0;
    let mut parsed: usize = 0;
    let mut checked: usize = 0;
    let mut executed: usize = 0;
    let mut agrees: usize = 0;
    let mut strict: usize = 0;
    let mut passes: usize = 0;
    let mut failures: usize = 0;
    let mut mismatches: usize = 0;
    let mut i: usize = 0;
    while i < tests.len()
        invariant
            i <= tests@.len(),
            discovered == count_meeting(tests@, i as int, Criterion::Discovered),
            parsed == count_meeting(tests@, i as int, Criterion::Parsed),
            checked == count_meeting(tests@, i as int, Criterion::Checked),
            executed == count_meeting(tests@, i as int, Criterion::Executed),
            agrees == count_meeting(tests@, i as int, Criterion::Agrees),
            strict == count_meeting(tests@, i as int, Criterion::StrictCompatible),
            passes == count_meeting(tests@, i as int, Criterion::MatchingPass),
            failures == count_meeting(tests@, i as int, Criterion::MatchingFailure),
            mismatches == count_meeting(tests@, i as int, Criterion::Mismatch),
        decreases tests@.len() - i,
    {
        proof {
            lemma_count_at_most(tests@, i as int, Criterion::Discovered);
            lemma_count_at_most(tests@, i as int, Criterion::Parsed);
            lemma_count_at_most(tests@, i as int, Criterion::Checked);
            lemma_count_at_most(tests@, i as int, Criterion::Executed);
            lemma_count_at_most(tests@, i as int, Criterion::Agrees);
            lemma_count_at_most(tests@, i as int, Criterion::StrictCompatible);
            lemma_count_at_most(tests@, i as int, Criterion::MatchingPass);
            lemma_count_at_most(tests@, i as int, Criterion::MatchingFailure);
            lemma_count_at_most(tests@, i as int, Criterion::Mismatch);
        }
        let test = &tests[i];
        if test.discovered {
            discovered += 1;
        }
        if test.parsed {
            parsed += 1;
        }
        if test.checked {
            checked += 1;
        }
        if test.executed {
            executed += 1;
        }
        if test.outcome_agrees {
            agrees += 1;
        }
        if test.strict_compatible {
            strict += 1;
        }
        if test.outcome_agrees && local_outcome_is(test, "pass") {
            passes += 1;
        }
        if test.outcome_agrees && local_outcome_is(test, "fail") {
            failures += 1;
        }
        if test.executed && !test.outcome_agrees {
            mismatches += 1;
        }
        i += 1;
    }
    let n = tests.len();
    proof {
        lemma_count_at_most(tests@, n as int, Criterion::Discovered);
        lemma_count_at_most(tests@, n as int, Criterion::Parsed);
        lemma_count_at_most(tests@, n as int, Criterion::Checked);
        lemma_count_at_most(tests@, n as int, Criterion::Executed);
        lemma_count_at_most(tests@, n as int, Criterion::Agrees);
        lemma_count_at_most(tests@, n as int, Criterion::StrictCompatible);
    }
    EnterpriseCounts {
        discovery: metric(discovered, n),
        parse: metric(parsed, n),
        check: metric(checked, n),
        execution: metric(executed, n),
        agreement: metric(agrees, n),
        strict_compatible: metric(strict, n),
        matching_passes: passes,
        matching_failures: failures,
        outcome_mismatches: mismatches,
    }
}

} // verus!
