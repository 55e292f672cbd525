use apex_exec::enterprise::manifest::{
    enterprise_inputs, hex_lower, path_less, sha256_hex, validate_candidate, validate_manifest, validate_sha256,
    verify_enterprise_inputs, EnterpriseManifest,
};
use apex_exec::enterprise::runner::{
    build_counts, completed_measurement, execution_failure, failed_measurement, source_line_column,
    StageMetric,
};
use apex_exec::enterprise::salesforce::{validate_capture, validate_sorted_unique};
use apex_exec::enterprise::{CandidateIdentity, EnterpriseInput, SalesforceCapture, SalesforceTestOutcome};
use std::path::PathBuf;

fn candidate() -> CandidateIdentity {
    CandidateIdentity {
        name: "Fixture".to_owned(),
        repository: "https://example.com/fixture.git".to_owned(),
        git_commit: "0123456789abcdef0123456789abcdef01234567".to_owned(),
        git_tag: "v1.0.0".to_owned(),
        api_version: "65.0".to_owned(),
    }
}

fn outcome(name: &str, outcome: &str) -> SalesforceTestOutcome {
    SalesforceTestOutcome {
        name: name.to_owned(),
        outcome: outcome.to_owned(),
        message: None,
        stack: None,
    }
}

#[test]
fn candidates_need_https_full_commits_and_major_minor_versions() {
    assert!(validate_candidate(&candidate()).is_ok());

    let mut blank = candidate();
    blank.git_tag = "  ".to_owned();
    assert_eq!(
        validate_candidate(&blank).unwrap_err(),
        "enterprise candidate identity fields cannot be empty"
    );

    let mut insecure = candidate();
    insecure.repository = "http://example.com/fixture.git".to_owned();
    assert_eq!(
        validate_candidate(&insecure).unwrap_err(),
        "enterprise candidate repository must use an HTTPS URL"
    );

    let mut short = candidate();
    short.git_commit = "0123456789abcdef".to_owned();
    assert_eq!(
        validate_candidate(&short).unwrap_err(),
        "enterprise candidate commit must be a lowercase 40-character SHA"
    );
    let mut upper = candidate();
    upper.git_commit = "0123456789ABCDEF0123456789abcdef01234567".to_owned();
    assert!(validate_candidate(&upper).is_err());

    for version in ["65", "65.0.1", "sixty.five", "65.", "99999999999.0"] {
        let mut bad = candidate();
        bad.api_version = version.to_owned();
        assert_eq!(
            validate_candidate(&bad).unwrap_err(),
            "enterprise candidate API version must have `major.minor` form",
            "{version}"
        );
    }
    let mut signed = candidate();
    signed.api_version = "+65.0".to_owned();
    assert!(validate_candidate(&signed).is_ok());
}

#[test]
fn digests_are_sixty_four_lower_case_hex_digits() {
    let digest = "e3b0c44298fc1c149afbf4c8996fb92427ae41e4649b934ca495991b7852b855";
    assert!(validate_sha256(digest, "input").is_ok());
    assert_eq!(
        validate_sha256(&digest.to_uppercase(), "input").unwrap_err(),
        "enterprise input has an invalid SHA-256 digest"
    );
    assert!(validate_sha256(&digest[1..], "input").is_err());
    assert_eq!(
        apex_exec::enterprise::salesforce::validate_sha256("x", "snapshot").unwrap_err(),
        "enterprise Salesforce snapshot digest is invalid"
    );
}

#[test]
fn sha256_hex_matches_known_digests_and_passes_validation() {
    assert_eq!(
        sha256_hex(b""),
        "e3b0c44298fc1c149afbf4c8996fb92427ae41e4649b934ca495991b7852b855"
    );
    assert_eq!(
        sha256_hex(b"abc"),
        "ba7816bf8f01cfea414140de5dae2223b00361a396177a9cb410ff61f20015ad"
    );
    assert!(validate_sha256(&sha256_hex(b"apex"), "input").is_ok());
    assert_eq!(hex_lower(&[0x00, 0x0f, 0xa5, 0xff]), "000fa5ff");
}

#[test]
fn sorted_unique_lists_compare_without_case() {
    let values = |items: &[&str]| items.iter().map(|item| item.to_string()).collect::<Vec<_>>();
    assert!(validate_sorted_unique(&values(&["Alpha", "beta", "Gamma"]), "classes").is_ok());
    assert_eq!(
        validate_sorted_unique(&values(&["beta", "Alpha"]), "classes").unwrap_err(),
        "enterprise classes must be unique and case-insensitively sorted"
    );
    assert!(validate_sorted_unique(&values(&["Alpha", "ALPHA"]), "classes").is_err());
    assert_eq!(
        validate_sorted_unique(&values(&["Alpha", " "]), "classes").unwrap_err(),
        "enterprise classes cannot contain an empty value"
    );
}

#[test]
fn captures_count_passes_and_failures() {
    let capture = SalesforceCapture {
        schema_version: 1,
        manifest_sha256: String::new(),
        target_org: "org".to_owned(),
        org_id: "00D000000000001AAA".to_owned(),
        api_version: "65.0".to_owned(),
        salesforce_cli_version: "2.0".to_owned(),
        captured_at: "2026-07-19T00:00:00Z".to_owned(),
        test_level: "RunLocalTests".to_owned(),
        source_test_classes: vec!["A".to_owned()],
        tests: vec![outcome("A.a", "pass"), outcome("A.b", "fail"), outcome("A.c", "pass")],
        snapshot_sha256: String::new(),
    };
    assert_eq!(capture.passed(), 2);
    assert_eq!(capture.failed(), 1);
}

#[test]
fn measurements_record_agreement_and_blockers() {
    let agreeing = completed_measurement(
        &outcome("A.a", "pass"),
        PathBuf::from("classes/A.cls"),
        vec![PathBuf::from("classes/A.cls")],
        "pass",
    );
    assert!(agreeing.outcome_agrees && agreeing.strict_compatible);
    assert!(agreeing.blockers.is_empty());

    let differing = completed_measurement(
        &outcome("A.b", "pass"),
        PathBuf::from("classes/A.cls"),
        Vec::new(),
        "fail",
    );
    assert!(!differing.outcome_agrees);
    assert_eq!(differing.blockers.len(), 1);
    assert_eq!(differing.blockers[0].phase, "agreement");
    assert_eq!(
        differing.blockers[0].detail,
        "Salesforce outcome `pass` differs from local outcome `fail`"
    );

    let crashed = execution_failure(
        &outcome("A.c", "fail"),
        PathBuf::from("classes/A.cls"),
        Vec::new(),
        "runtime.limit",
        "too many statements".to_owned(),
    );
    assert!(crashed.discovered && crashed.parsed && !crashed.executed);
    assert_eq!(crashed.blockers[0].phase, "execution");

    let unparsed = failed_measurement("A.d", "pass", Vec::new(), true, false, Vec::new());
    assert!(unparsed.discovered && !unparsed.parsed && unparsed.local_outcome.is_none());

    let counts = build_counts(&[agreeing, differing, crashed, unparsed]);
    assert_eq!(
        counts.discovery,
        StageMetric { count: 4, denominator: 4, basis_points: 10_000 }
    );
    assert_eq!(counts.parse.count, 3);
    assert_eq!(counts.execution, StageMetric { count: 2, denominator: 4, basis_points: 5_000 });
    assert_eq!(counts.agreement.basis_points, 2_500);
    assert_eq!(counts.matching_passes, 1);
    assert_eq!(counts.matching_failures, 0);
    assert_eq!(counts.outcome_mismatches, 1);

    let empty = build_counts(&[]);
    assert_eq!(empty.discovery, StageMetric { count: 0, denominator: 0, basis_points: 0 });
}

#[test]
fn source_positions_count_characters_from_one() {
    assert_eq!(source_line_column("a\nbé c", 6), (2, 4));
}

use apex_exec::enterprise::salesforce::parse_test_outcomes;
use apex_exec::json::JsonValue;

fn json_text(value: &str) -> JsonValue {
    JsonValue::String(value.to_owned())
}

fn json_object(entries: Vec<(&str, JsonValue)>) -> JsonValue {
    let mut entries: Vec<(String, JsonValue)> = entries
        .into_iter()
        .map(|(key, value)| (key.to_owned(), value))
        .collect();
    entries.sort_by(|left, right| left.0.cmp(&right.0));
    JsonValue::Object(entries)
}

fn org_test(class: &str, method: &str, outcome: &str) -> JsonValue {
    json_object(vec![
        ("ApexClass", json_object(vec![("Name", json_text(class))])),
        ("MethodName", json_text(method)),
        ("Outcome", json_text(outcome)),
    ])
}

#[test]
fn test_outcomes_are_sorted_and_repeats_must_agree() {
    let response = json_object(vec![(
        "result",
        json_object(vec![(
            "tests",
            JsonValue::Array(vec![
                org_test("Zeta", "run", "Pass"),
                org_test("alpha", "run", "Fail"),
                org_test("Zeta", "run", "pass"),
            ]),
        )]),
    )]);
    let tests = parse_test_outcomes(&response).unwrap();
    assert_eq!(tests.len(), 2);
    assert_eq!(tests[0].name, "alpha.run");
    assert_eq!(tests[0].outcome, "fail");
    assert_eq!(tests[1].name, "Zeta.run");
    assert_eq!(tests[1].outcome, "pass");

    let conflicting = JsonValue::Array(vec![
        org_test("Zeta", "run", "Pass"),
        org_test("zeta", "RUN", "Fail"),
    ]);
    assert_eq!(
        parse_test_outcomes(&conflicting).unwrap_err(),
        "Salesforce returned conflicting outcomes for `zeta.RUN`"
    );
    assert_eq!(
        parse_test_outcomes(&JsonValue::Null).unwrap_err(),
        "Salesforce returned no enterprise test outcomes"
    );
}

use apex_exec::enterprise::salesforce::{
    check_capture_options, check_discovered_tests, cli_version, org_identity, test_run_arguments,
    SalesforceCaptureOptions,
};
use apex_exec::json::JsonNumber;

#[test]
fn capture_options_need_an_org_and_a_wait() {
    let mut options = SalesforceCaptureOptions::default();
    assert_eq!(options.wait_minutes, 60);
    assert_eq!(
        check_capture_options(&options).unwrap_err(),
        "enterprise capture requires a Salesforce target org"
    );
    options.target_org = "qa".to_owned();
    assert!(check_capture_options(&options).is_ok());
    options.wait_minutes = 0;
    assert_eq!(
        check_capture_options(&options).unwrap_err(),
        "enterprise Salesforce wait must be at least one minute"
    );
}

#[test]
fn cli_versions_and_org_identities_come_from_the_responses() {
    assert_eq!(
        cli_version("  @salesforce/cli/2.134.1 linux-x64 node-v22\n").unwrap(),
        "@salesforce/cli/2.134.1"
    );
    assert_eq!(
        cli_version(" \n").unwrap_err(),
        "Salesforce CLI version response omitted its version"
    );
    let org = |status: u64, connected: &str| {
        json_object(vec![
            ("status", JsonValue::Number(JsonNumber::Unsigned(status))),
            (
                "result",
                json_object(vec![
                    ("id", json_text("00D000000000001AAA")),
                    ("connectedStatus", json_text(connected)),
                ]),
            ),
        ])
    };
    assert_eq!(org_identity(&org(0, "Connected")).unwrap(), "00D000000000001AAA");
    assert_eq!(
        org_identity(&org(0, "RefreshTokenAuthError")).unwrap_err(),
        "Salesforce target org is not connected (status `RefreshTokenAuthError`)"
    );
    assert_eq!(
        org_identity(&org(1, "Connected")).unwrap_err(),
        "Salesforce CLI could not resolve the enterprise target org"
    );
    assert_eq!(
        test_run_arguments("qa", 60, "65.0"),
        [
            "apex", "run", "test", "--target-org", "qa", "--test-level", "RunLocalTests", "--wait", "60",
            "--result-format", "json", "--api-version", "65.0", "--json"
        ]
    );
}

#[test]
fn discovered_tests_must_belong_to_pinned_classes_and_reach_the_minimum() {
    let classes = vec!["BillingTest".to_owned()];
    let tests = vec![outcome("billingtest.works", "pass"), outcome("BillingTest.fails", "fail")];
    assert!(check_discovered_tests(&tests, &classes, 2).is_ok());
    assert_eq!(
        check_discovered_tests(&tests, &classes, 3).unwrap_err(),
        "Salesforce discovered 2 candidate tests; at least 3 are required"
    );
    let stray = vec![outcome("Other.one", "pass"), outcome("NoDot", "pass"), outcome("BillingTest.x", "pass")];
    assert_eq!(
        check_discovered_tests(&stray, &classes, 1).unwrap_err(),
        "Salesforce discovered tests outside the pinned test roots: Other.one, NoDot"
    );
}

fn sealed_capture(unsigned: &[u8]) -> SalesforceCapture {
    let tests = (0..100)
        .map(|index| SalesforceTestOutcome {
            name: format!("DemoTest.test{index:03}"),
            outcome: if index == 7 { "fail".to_owned() } else { "pass".to_owned() },
            message: None,
            stack: None,
        })
        .collect();
    SalesforceCapture {
        schema_version: 1,
        manifest_sha256: "a".repeat(64),
        target_org: "fixture-org".to_owned(),
        org_id: "00D000000000001AAA".to_owned(),
        api_version: "65.0".to_owned(),
        salesforce_cli_version: "@salesforce/cli/2.134.1".to_owned(),
        captured_at: "2026-07-19T00:00:00Z".to_owned(),
        test_level: "RunLocalTests".to_owned(),
        source_test_classes: vec!["DemoTest".to_owned()],
        tests,
        snapshot_sha256: sha256_hex(unsigned),
    }
}

#[test]
fn capture_validation_accepts_a_sealed_capture_and_names_each_broken_rule() {
    let unsigned = b"{\"unsigned\":true}";
    assert_eq!(validate_capture(&sealed_capture(unsigned), unsigned), Ok(()));

    let mut capture = sealed_capture(unsigned);
    capture.schema_version = 2;
    assert_eq!(
        validate_capture(&capture, unsigned).unwrap_err(),
        "unsupported enterprise Salesforce capture schema 2; expected 1"
    );
    let mut capture = sealed_capture(unsigned);
    capture.manifest_sha256 = "NOT-A-DIGEST".to_owned();
    assert_eq!(
        validate_capture(&capture, unsigned).unwrap_err(),
        "enterprise Salesforce manifest digest is invalid"
    );
    let mut capture = sealed_capture(unsigned);
    capture.target_org = "  ".to_owned();
    assert_eq!(
        validate_capture(&capture, unsigned).unwrap_err(),
        "enterprise Salesforce identity fields cannot be empty"
    );
    let mut capture = sealed_capture(unsigned);
    capture.org_id = "001000000000001AAA".to_owned();
    assert_eq!(
        validate_capture(&capture, unsigned).unwrap_err(),
        "enterprise Salesforce org ID must be an 18-character 00D ID"
    );
    let mut capture = sealed_capture(unsigned);
    capture.test_level = "RunAllTestsInOrg".to_owned();
    assert_eq!(
        validate_capture(&capture, unsigned).unwrap_err(),
        "enterprise Salesforce capture must use RunLocalTests"
    );
    let mut capture = sealed_capture(unsigned);
    capture.captured_at = "yesterday".to_owned();
    assert!(validate_capture(&capture, unsigned)
        .unwrap_err()
        .starts_with("invalid enterprise capture timestamp: "));
    let mut capture = sealed_capture(unsigned);
    capture.source_test_classes = vec!["b".to_owned(), "A".to_owned()];
    assert_eq!(
        validate_capture(&capture, unsigned).unwrap_err(),
        "enterprise source test classes must be unique and case-insensitively sorted"
    );
    let mut capture = sealed_capture(unsigned);
    capture.tests.truncate(99);
    assert_eq!(
        validate_capture(&capture, unsigned).unwrap_err(),
        "enterprise Salesforce denominator has 99 tests; at least 100 are required"
    );
    let mut capture = sealed_capture(unsigned);
    capture.tests[3].outcome = "skip".to_owned();
    assert_eq!(
        validate_capture(&capture, unsigned).unwrap_err(),
        "enterprise Salesforce test `DemoTest.test003` has unsupported outcome `skip`"
    );
    let capture = sealed_capture(unsigned);
    assert_eq!(
        validate_capture(&capture, b"{}").unwrap_err(),
        "enterprise Salesforce capture digest mismatch"
    );
}

fn parts(path: &str) -> Vec<String> {
    path.split('/').map(str::to_owned).collect()
}

#[test]
fn inputs_are_sorted_unique_and_hashed() {
    let files = vec![
        (parts("force-app/b.cls"), b"b".to_vec()),
        (parts("force-app/a.cls"), b"a".to_vec()),
        (parts("force-app/b.cls"), b"ignored".to_vec()),
        (parts("force-app/a/z.cls"), b"z".to_vec()),
    ];
    let inputs = enterprise_inputs(&files);
    let paths: Vec<String> = inputs.iter().map(|input| input.path.join("/")).collect();
    assert_eq!(paths, ["force-app/a/z.cls", "force-app/a.cls", "force-app/b.cls"]);
    assert_eq!(inputs[2].sha256, sha256_hex(b"b"));
    assert!(path_less(&parts("."), &parts("a")));
    assert!(path_less(&parts("a"), &parts("a/b")));
}

#[test]
fn input_verification_names_each_modified_missing_and_unrecorded_path() {
    let input = |path: &str, digest: &str| EnterpriseInput { path: parts(path), sha256: digest.to_owned() };
    let recorded = vec![input("a.cls", "1"), input("b.cls", "2"), input("c.cls", "3")];
    let same = vec![input("a.cls", "1"), input("b.cls", "2"), input("c.cls", "3")];
    assert_eq!(verify_enterprise_inputs(&recorded, &same), Ok(()));
    let current = vec![input("a.cls", "9"), input("c.cls", "3"), input("d.cls", "4")];
    assert_eq!(
        verify_enterprise_inputs(&recorded, &current).unwrap_err(),
        "enterprise candidate input verification failed: modified `a.cls`, missing `b.cls`, unrecorded `d.cls`"
    );
}

#[test]
fn generated_manifests_pass_validation_and_broken_ones_name_the_rule() {
    let files = vec![(parts("force-app/main/Demo.cls"), b"class Demo {}".to_vec())];
    let manifest = EnterpriseManifest::generate(
        candidate(),
        vec![parts("force-app")],
        vec![parts("force-app/tests")],
        &files,
        "0.1.0",
    )
    .unwrap();
    assert_eq!(manifest.project, ["."]);
    assert_eq!(manifest.inputs.len(), 1);
    assert_eq!(validate_manifest(&manifest, "0.1.0"), Ok(()));
    assert_eq!(
        validate_manifest(&manifest, "0.2.0").unwrap_err(),
        "enterprise manifest requires apex-exec 0.1.0, but this binary is 0.2.0"
    );
    let mut low = EnterpriseManifest::generate(candidate(), vec![parts("force-app")], vec![parts("t")], &files, "0.1.0").unwrap();
    low.minimum_test_methods = 99;
    assert_eq!(
        validate_manifest(&low, "0.1.0").unwrap_err(),
        "enterprise raw denominator must require at least 100 tests"
    );
    assert_eq!(
        EnterpriseManifest::generate(candidate(), vec![], vec![parts("t")], &files, "0.1.0").unwrap_err(),
        "enterprise manifest requires at least one package root"
    );
    assert_eq!(
        EnterpriseManifest::generate(candidate(), vec![parts("b"), parts("a")], vec![parts("t")], &files, "0.1.0")
            .unwrap_err(),
        "enterprise package roots must be unique and sorted"
    );
    assert_eq!(
        EnterpriseManifest::generate(candidate(), vec![parts("../x")], vec![parts("t")], &files, "0.1.0").unwrap_err(),
        "enterprise package path `../x` must be a safe relative path"
    );
    assert_eq!(
        EnterpriseManifest::generate(candidate(), vec![parts("a")], vec![parts("t")], &[], "0.1.0").unwrap_err(),
        "enterprise manifest must record at least one input"
    );
}
