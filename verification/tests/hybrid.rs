use apex_exec::hybrid::inventory::{assemble_inventory, component_digest};
use apex_exec::hybrid::records::{validate_inventory, validate_snapshot};
use apex_exec::hybrid::{
    classify_component_path, detect_drift, normalize_contents, ComponentCategory, DriftKind, MetadataComponent,
    DeploymentValidation, OrgInventory, ValidationSnapshot, HYBRID_SCHEMA_VERSION,
};
use std::path::PathBuf;

#[test]
fn drift_is_scoped_to_schema_and_configuration_and_ignores_intended_changes() {
    let component = |metadata_type: &str,
                     full_name: &str,
                     category: ComponentCategory,
                     digest: &str| MetadataComponent {
        metadata_type: metadata_type.to_owned(),
        full_name: full_name.to_owned(),
        category,
        sha256: digest.repeat(64),
        files: vec![PathBuf::from("force-app/component")],
    };
    let local = OrgInventory {
        schema_version: HYBRID_SCHEMA_VERSION,
        target: "local".to_owned(),
        components: vec![
            component("ApexClass", "Demo", ComponentCategory::Code, "a"),
            component(
                "CustomField",
                "Invoice__c.Amount__c",
                ComponentCategory::Schema,
                "b",
            ),
            component(
                "PermissionSet",
                "Billing",
                ComponentCategory::Configuration,
                "c",
            ),
        ],
    };
    let mut org = local.clone();
    org.target = "staging".to_owned();
    org.components[0].sha256 = "d".repeat(64);
    org.components[1].sha256 = "e".repeat(64);
    org.components.pop();
    let findings = detect_drift(
        &local,
        &org,
        &["CustomField:Invoice__c.Amount__c".to_owned()],
    );
    assert_eq!(findings.len(), 1);
    assert_eq!(findings[0].component, "PermissionSet:Billing");
    assert_eq!(findings[0].kind, DriftKind::MissingInOrg);
}

fn component(metadata_type: &str, full_name: &str, category: ComponentCategory, digest: &str) -> MetadataComponent {
    MetadataComponent {
        metadata_type: metadata_type.to_owned(),
        full_name: full_name.to_owned(),
        category,
        sha256: digest.to_owned(),
        files: Vec::new(),
    }
}

fn inventory(components: Vec<MetadataComponent>) -> OrgInventory {
    OrgInventory { schema_version: HYBRID_SCHEMA_VERSION, target: "t".to_owned(), components }
}

#[test]
fn drift_findings_come_in_type_then_name_order_with_each_kind() {
    let local = inventory(vec![
        component("Layout", "B", ComponentCategory::Configuration, "1"),
        component("CustomObject", "Z__c", ComponentCategory::Schema, "2"),
        component("Layout", "A", ComponentCategory::Configuration, "3"),
    ]);
    let org = inventory(vec![
        component("Layout", "A", ComponentCategory::Configuration, "9"),
        component("Flow", "F", ComponentCategory::Configuration, "4"),
        component("Layout", "B", ComponentCategory::Configuration, "1"),
    ]);
    let findings = detect_drift(&local, &org, &["layout:a".to_owned()]);
    let summary: Vec<(String, DriftKind)> =
        findings.iter().map(|finding| (finding.component.clone(), finding.kind)).collect();
    assert_eq!(
        summary,
        vec![
            ("CustomObject:Z__c".to_owned(), DriftKind::MissingInOrg),
            ("Flow:F".to_owned(), DriftKind::UnexpectedInOrg),
        ]
    );
    assert_eq!(findings[0].local_sha256.as_deref(), Some("2"));
    assert_eq!(findings[0].org_sha256, None);
    assert_eq!(findings[1].local_sha256, None);
    assert_eq!(findings[1].org_sha256.as_deref(), Some("4"));

    let findings = detect_drift(&local, &org, &[]);
    assert_eq!(findings.len(), 3);
    assert_eq!(findings[2].component, "Layout:A");
    assert_eq!(findings[2].kind, DriftKind::ContentMismatch);
    assert_eq!(findings[2].local_sha256.as_deref(), Some("3"));
    assert_eq!(findings[2].org_sha256.as_deref(), Some("9"));
}

#[test]
fn the_last_listing_of_a_repeated_component_counts() {
    let local = inventory(vec![
        component("Layout", "A", ComponentCategory::Configuration, "old"),
        component("Layout", "A", ComponentCategory::Configuration, "new"),
    ]);
    let org = inventory(vec![component("Layout", "A", ComponentCategory::Configuration, "new")]);
    assert!(detect_drift(&local, &org, &[]).is_empty());
}

fn parts(path: &str) -> Vec<String> {
    path.split('/').map(str::to_owned).collect()
}

fn classify(path: &str) -> Option<(String, String, ComponentCategory, String)> {
    classify_component_path(&parts(path)).map(|classified| {
        (
            classified.key.metadata_type,
            classified.key.full_name,
            classified.category,
            classified.role,
        )
    })
}

#[test]
fn package_files_map_to_their_components() {
    assert_eq!(
        classify("force-app/main/default/classes/Release.Service.cls-meta.xml"),
        Some((
            "ApexClass".to_owned(),
            "Release.Service".to_owned(),
            ComponentCategory::Code,
            "Release.Service.cls-meta.xml".to_owned()
        ))
    );
    assert_eq!(
        classify("triggers/Invoice.trigger").map(|c| (c.0, c.1)),
        Some(("ApexTrigger".to_owned(), "Invoice".to_owned()))
    );
    assert_eq!(
        classify("objects/Invoice__c/Invoice__c.object-meta.xml").map(|c| (c.0, c.1, c.2)),
        Some(("CustomObject".to_owned(), "Invoice__c".to_owned(), ComponentCategory::Schema))
    );
    assert_eq!(
        classify("objects/Invoice__c/fields/Amount__c.field-meta.xml").map(|c| (c.0, c.1, c.2)),
        Some((
            "CustomField".to_owned(),
            "Invoice__c.Amount__c".to_owned(),
            ComponentCategory::Schema
        ))
    );
    assert_eq!(
        classify("objects/Invoice__c/listViews/All.listView-meta.xml").map(|c| (c.0, c.1, c.2)),
        Some((
            "ListView".to_owned(),
            "Invoice__c.All".to_owned(),
            ComponentCategory::Configuration
        ))
    );
    assert_eq!(
        classify("customMetadata/Feature.Flag.md-meta.xml").map(|c| (c.0, c.1, c.2)),
        Some((
            "CustomMetadata".to_owned(),
            "Feature".to_owned(),
            ComponentCategory::Configuration
        ))
    );
    assert_eq!(
        classify("permissionsets/Billing.permissionset-meta.xml").map(|c| (c.0, c.1)),
        Some(("PermissionSet".to_owned(), "Billing".to_owned()))
    );
}

#[test]
fn files_outside_known_shapes_belong_to_no_component() {
    assert_eq!(classify("classes/nested/Service.cls"), None);
    assert_eq!(classify("classes/README.md"), None);
    assert_eq!(classify("objects"), None);
    assert_eq!(classify("objects/Invoice__c"), None);
    assert_eq!(classify("objects/Invoice__c/unknown/Thing.xml"), None);
    assert_eq!(classify("objects/Invoice__c/fields/deep/Amount__c.field-meta.xml"), None);
    assert_eq!(classify("layouts/nested/Page.layout-meta.xml"), None);
    assert_eq!(classify("docs/readme.txt"), None);
    assert_eq!(classify_component_path(&[]), None::<apex_exec::hybrid::ClassifiedPath>);
}

fn validation(success: bool, tests: &[(&str, &str)]) -> apex_exec::hybrid::DeploymentValidation {
    apex_exec::hybrid::DeploymentValidation {
        success,
        deployment_id: None,
        component_failures: Vec::new(),
        tests: tests
            .iter()
            .map(|(name, outcome)| apex_exec::hybrid::ValidationTest {
                name: name.to_string(),
                outcome: outcome.to_string(),
                message: None,
            })
            .collect(),
    }
}

#[test]
fn test_comparison_matches_names_without_case_and_marks_missing_results() {
    let selected = vec![
        "DemoTest.works".to_string(),
        "DemoTest.fails".to_string(),
        "OtherTest.absent".to_string(),
    ];
    let local = vec![
        ("demotest.WORKS".to_string(), true),
        ("DemoTest.fails".to_string(), true),
    ];
    let org = validation(
        true,
        &[("DEMOTEST.works", "pass"), ("DemoTest.fails", "fail")],
    );
    let results = apex_exec::hybrid::compare_tests(&selected, &local, &org);
    assert_eq!(results.len(), 3);
    assert_eq!(results[0].name, "demotest.WORKS");
    assert_eq!(results[0].local_outcome, "pass");
    assert_eq!(results[0].org_outcome, "pass");
    assert!(results[0].matched);
    assert!(!results[1].matched);
    assert_eq!(results[1].org_outcome, "fail");
    assert_eq!(results[2].name, "OtherTest.absent");
    assert_eq!(results[2].local_outcome, "missing");
    assert_eq!(results[2].org_outcome, "missing");
    assert!(results[2].matched);
}

#[test]
fn later_results_under_one_name_win() {
    let selected = vec!["A.t".to_string()];
    let local = vec![("A.t".to_string(), true), ("a.T".to_string(), false)];
    let org = validation(true, &[("A.t", "fail"), ("a.t", "pass")]);
    let results = apex_exec::hybrid::compare_tests(&selected, &local, &org);
    assert_eq!(results[0].name, "a.T");
    assert_eq!(results[0].local_outcome, "fail");
    assert_eq!(results[0].org_outcome, "pass");
}

#[test]
fn release_blockers_list_every_reason_in_order() {
    let passing = validation(true, &[]);
    assert!(apex_exec::hybrid::release_blockers(true, &passing, &[], &[]).is_empty());

    let failing = validation(false, &[]);
    let differential = vec![
        apex_exec::hybrid::TestDifferential {
            name: "A.t".to_string(),
            local_outcome: "pass".to_string(),
            org_outcome: "fail".to_string(),
            matched: false,
        },
        apex_exec::hybrid::TestDifferential {
            name: "A.u".to_string(),
            local_outcome: "pass".to_string(),
            org_outcome: "pass".to_string(),
            matched: true,
        },
    ];
    let drift = vec![apex_exec::hybrid::DriftFinding {
        component: "CustomObject:Invoice__c".to_string(),
        category: apex_exec::hybrid::ComponentCategory::Schema,
        kind: apex_exec::hybrid::DriftKind::ContentMismatch,
        local_sha256: None,
        org_sha256: None,
    }];
    assert_eq!(
        apex_exec::hybrid::release_blockers(false, &failing, &drift, &differential),
        [
            "local hermetic CI did not pass",
            "Salesforce check-only deployment did not pass",
            "1 unaffected schema/configuration components drifted",
            "1 affected test outcomes differ between local and Salesforce",
        ]
    );
}

use apex_exec::hybrid::{parse_deployment_validation, response_message, response_success, ValidationTest};
use apex_exec::json::{JsonNumber, JsonValue};

fn text(value: &str) -> JsonValue {
    JsonValue::String(value.to_owned())
}

fn object(entries: Vec<(&str, JsonValue)>) -> JsonValue {
    let mut entries: Vec<(String, JsonValue)> = entries
        .into_iter()
        .map(|(key, value)| (key.to_owned(), value))
        .collect();
    entries.sort_by(|left, right| left.0.cmp(&right.0));
    JsonValue::Object(entries)
}

#[test]
fn deployment_parser_normalizes_successes_failures_and_component_errors() {
    let response = object(vec![
        ("status", JsonValue::Number(JsonNumber::Unsigned(1))),
        (
            "result",
            object(vec![
                ("id", text("0Af000000000001")),
                ("success", JsonValue::Bool(false)),
                (
                    "details",
                    object(vec![
                        (
                            "componentFailures",
                            JsonValue::Array(vec![object(vec![
                                ("fullName", text("BillingService")),
                                ("problem", text("Invalid type")),
                            ])]),
                        ),
                        (
                            "runTestResult",
                            object(vec![
                                (
                                    "successes",
                                    JsonValue::Array(vec![object(vec![
                                        ("name", text("BillingTest")),
                                        ("methodName", text("passes")),
                                    ])]),
                                ),
                                (
                                    "failures",
                                    JsonValue::Array(vec![object(vec![
                                        ("name", text("BillingTest")),
                                        ("methodName", text("fails")),
                                        ("message", text("assertion failed")),
                                    ])]),
                                ),
                            ]),
                        ),
                    ]),
                ),
            ]),
        ),
    ]);
    let parsed = parse_deployment_validation(&response);
    assert!(!parsed.success);
    assert_eq!(parsed.deployment_id.as_deref(), Some("0Af000000000001"));
    assert_eq!(parsed.component_failures, ["BillingService: Invalid type"]);
    assert_eq!(
        parsed.tests,
        [
            ValidationTest {
                name: "BillingTest.fails".to_owned(),
                outcome: "fail".to_owned(),
                message: Some("assertion failed".to_owned()),
            },
            ValidationTest {
                name: "BillingTest.passes".to_owned(),
                outcome: "pass".to_owned(),
                message: None,
            }
        ]
    );
}

#[test]
fn deployment_tests_keep_the_first_of_each_name_and_failures_once() {
    let test = |name: &str, method: &str, outcome: &str| {
        object(vec![
            ("className", text(name)),
            ("MethodName", text(method)),
            ("outcome", text(outcome)),
        ])
    };
    let response = object(vec![
        ("success", JsonValue::Bool(true)),
        (
            "tests",
            JsonValue::Array(vec![
                test("B", "one", "Success"),
                test("b", "ONE", "fail"),
                test("A", "two", "x"),
            ]),
        ),
        (
            "componentFailures",
            JsonValue::Array(vec![text("zeta"), text("alpha"), text("zeta")]),
        ),
    ]);
    let parsed = parse_deployment_validation(&response);
    assert!(parsed.success);
    assert_eq!(parsed.deployment_id, None);
    assert_eq!(parsed.component_failures, ["alpha", "zeta"]);
    let names: Vec<&str> = parsed.tests.iter().map(|test| test.name.as_str()).collect();
    assert_eq!(names, ["A.two", "B.one"]);
    assert_eq!(parsed.tests[0].outcome, "fail");
    assert_eq!(parsed.tests[1].outcome, "pass");
}

#[test]
fn responses_report_success_and_messages() {
    let nested = object(vec![("result", object(vec![("success", JsonValue::Bool(true))]))]);
    assert!(response_success(&nested));
    let status = object(vec![("status", JsonValue::Number(JsonNumber::Unsigned(0)))]);
    assert!(response_success(&status));
    let failed = object(vec![
        ("status", JsonValue::Number(JsonNumber::Negative(-1))),
        ("name", text("NoOrgFound")),
    ]);
    assert!(!response_success(&failed));
    assert_eq!(response_message(&failed), "NoOrgFound");
    assert_eq!(response_message(&JsonValue::Null), "unknown Salesforce CLI failure");
}

use apex_exec::hybrid::{
    authenticated_org, check_validation_org, deploy_arguments, retrieval_error, retrieval_scope,
    retrieve_arguments, validation_snapshot, ComponentSelection, ComponentSelectionMode,
};

fn org_component(metadata_type: &str, full_name: &str, category: ComponentCategory) -> MetadataComponent {
    MetadataComponent {
        metadata_type: metadata_type.to_owned(),
        full_name: full_name.to_owned(),
        category,
        sha256: "0".repeat(64),
        files: Vec::new(),
    }
}

#[test]
fn retrieval_covers_local_schema_and_affected_components_once_in_order() {
    let local = OrgInventory {
        schema_version: HYBRID_SCHEMA_VERSION,
        target: "local".to_owned(),
        components: vec![
            org_component("CustomObject", "Invoice__c", ComponentCategory::Schema),
            org_component("ApexClass", "Billing", ComponentCategory::Code),
            org_component("Layout", "Invoice__c-Layout", ComponentCategory::Configuration),
        ],
    };
    let affected = ComponentSelection {
        mode: ComponentSelectionMode::Impacted,
        components: vec![
            org_component("ApexClass", "Billing", ComponentCategory::Code),
            org_component("CustomObject", "Invoice__c", ComponentCategory::Schema),
        ],
        directly_changed: Vec::new(),
    };
    assert_eq!(
        retrieval_scope(&local, &affected),
        ["ApexClass:Billing", "CustomObject:Invoice__c", "Layout:Invoice__c-Layout"]
    );
    assert_eq!(
        retrieve_arguments("qa", "/tmp/out", 30, &["ApexClass:Billing".to_owned()]),
        [
            "project", "retrieve", "start", "--target-org", "qa", "--output-dir", "/tmp/out", "--wait",
            "30", "--json", "--metadata", "ApexClass:Billing"
        ]
    );
    assert_eq!(
        deploy_arguments("qa", 30, &affected, &[]),
        [
            "project", "deploy", "start", "--dry-run", "--target-org", "qa", "--wait", "30", "--json",
            "--metadata", "ApexClass:Billing", "--metadata", "CustomObject:Invoice__c",
            "--test-level", "NoTestRun"
        ]
    );
    assert_eq!(
        deploy_arguments("qa", 5, &affected, &["BillingTest.works".to_owned()])[11..],
        [
            "--metadata".to_owned(),
            "CustomObject:Invoice__c".to_owned(),
            "--test-level".to_owned(),
            "RunSpecifiedTests".to_owned(),
            "--tests".to_owned(),
            "BillingTest.works".to_owned()
        ]
    );
}

#[test]
fn validation_org_checks_report_authentication_and_retrieval_failures() {
    assert_eq!(
        check_validation_org("  ").unwrap_err(),
        "Salesforce validation org cannot be empty"
    );
    assert!(check_validation_org("qa").is_ok());
    let authenticated = object(vec![(
        "result",
        object(vec![("success", JsonValue::Bool(true)), ("orgId", text("00D1"))]),
    )]);
    assert_eq!(authenticated_org(&authenticated), Ok(Some("00D1".to_owned())));
    let refused = object(vec![
        ("success", JsonValue::Bool(false)),
        ("message", text("No authorization information")),
    ]);
    assert_eq!(
        authenticated_org(&refused).unwrap_err(),
        "Salesforce validation-org authentication failed: No authorization information"
    );
    assert_eq!(retrieval_error(&authenticated), None);
    assert_eq!(
        retrieval_error(&refused).unwrap(),
        "failed to retrieve validation-org metadata: No authorization information"
    );
    let inventory = OrgInventory {
        schema_version: HYBRID_SCHEMA_VERSION,
        target: "qa".to_owned(),
        components: Vec::new(),
    };
    let snapshot = validation_snapshot("qa", Some("00D1".to_owned()), inventory, &refused);
    assert!(snapshot.authenticated);
    assert!(!snapshot.validation.success);
    assert_eq!(snapshot.org_id.as_deref(), Some("00D1"));
}

fn package_file(path: &str, contents: &str) -> (PathBuf, Vec<String>, Vec<u8>) {
    (
        PathBuf::from(path),
        path.split('/').map(|part| part.to_owned()).collect(),
        contents.as_bytes().to_vec(),
    )
}

#[test]
fn inventory_groups_source_and_sidecars_and_classifies_metadata() {
    let files = vec![
        package_file("force-app/main/default/classes/Demo.cls", "public class Demo {}"),
        package_file(
            "force-app/main/default/classes/Demo.cls-meta.xml",
            "<ApexClass>\n  <apiVersion>65.0</apiVersion>\n</ApexClass>",
        ),
        package_file(
            "force-app/main/default/objects/Invoice__c/fields/Amount__c.field-meta.xml",
            "<CustomField><type>Number</type></CustomField>",
        ),
        package_file(
            "force-app/main/default/permissionsets/Billing.permissionset-meta.xml",
            "<PermissionSet/>",
        ),
    ];
    let inventory = assemble_inventory("local", files).unwrap();
    assert_eq!(inventory.components.len(), 3);
    let class = inventory
        .components
        .iter()
        .find(|component| component.selector() == "ApexClass:Demo")
        .unwrap();
    assert_eq!(class.files.len(), 2);
    assert_eq!(class.category, ComponentCategory::Code);
    assert_eq!(
        inventory
            .components
            .iter()
            .find(|component| component.metadata_type == "CustomField")
            .unwrap()
            .category,
        ComponentCategory::Schema
    );
    assert_eq!(
        inventory
            .components
            .iter()
            .find(|component| component.metadata_type == "PermissionSet")
            .unwrap()
            .category,
        ComponentCategory::Configuration
    );

    let reformatted = assemble_inventory(
        "org",
        vec![
            package_file("force-app/main/default/classes/Demo.cls", "public class Demo {}"),
            package_file(
                "force-app/main/default/classes/Demo.cls-meta.xml",
                "<ApexClass>\r\n\t<apiVersion>65.0</apiVersion>   \r\n</ApexClass>",
            ),
        ],
    )
    .unwrap();
    assert_eq!(
        class.sha256,
        reformatted
            .components
            .iter()
            .find(|component| component.selector() == "ApexClass:Demo")
            .unwrap()
            .sha256
    );
}

#[test]
fn inventory_orders_components_and_files_and_records_the_target() {
    let files = vec![
        package_file("force-app/main/default/permissionsets/Billing.permissionset-meta.xml", "<PermissionSet/>"),
        package_file("force-app/main/default/classes/Demo.cls-meta.xml", "<ApexClass/>"),
        package_file("force-app/main/default/classes/Demo.cls", "public class Demo {}"),
        package_file("force-app/main/default/readme.txt", "not metadata"),
    ];
    let inventory = assemble_inventory("staging", files).unwrap();
    assert_eq!(inventory.schema_version, HYBRID_SCHEMA_VERSION);
    assert_eq!(inventory.target, "staging");
    let selectors: Vec<String> = inventory.components.iter().map(|c| c.selector()).collect();
    assert_eq!(selectors, vec!["ApexClass:Demo".to_owned(), "PermissionSet:Billing".to_owned()]);
    assert_eq!(
        inventory.components[0].files,
        vec![
            PathBuf::from("force-app/main/default/classes/Demo.cls"),
            PathBuf::from("force-app/main/default/classes/Demo.cls-meta.xml"),
        ]
    );
    let digest = &inventory.components[0].sha256;
    assert_eq!(digest.len(), 64);
    assert!(digest.bytes().all(|b| b.is_ascii_hexdigit() && !b.is_ascii_uppercase()));
}

#[test]
fn inventory_digest_follows_the_contents() {
    let first = assemble_inventory(
        "a",
        vec![package_file("force-app/main/default/classes/Demo.cls", "public class Demo {}")],
    )
    .unwrap();
    let second = assemble_inventory(
        "b",
        vec![package_file("force-app/main/default/classes/Demo.cls", "public class Demo { }")],
    )
    .unwrap();
    assert_ne!(first.components[0].sha256, second.components[0].sha256);
    let crlf = assemble_inventory(
        "c",
        vec![package_file("force-app/main/default/classes/Demo.cls", "public class Demo {}\r\n")],
    )
    .unwrap();
    let lf = assemble_inventory(
        "d",
        vec![package_file("force-app/main/default/classes/Demo.cls", "public class Demo {}\n")],
    )
    .unwrap();
    assert_eq!(crlf.components[0].sha256, lf.components[0].sha256);
}

#[test]
fn component_digest_is_the_sha256_of_the_framed_parts_in_role_order() {
    let digest = component_digest(vec![
        ("b".to_owned(), b"two".to_vec()),
        ("a".to_owned(), b"one".to_vec()),
    ]);
    let reordered = component_digest(vec![
        ("a".to_owned(), b"one".to_vec()),
        ("b".to_owned(), b"two".to_vec()),
    ]);
    assert_eq!(digest, reordered);
    // sha256 of the empty input
    assert_eq!(
        component_digest(Vec::new()),
        "e3b0c44298fc1c149afbf4c8996fb92427ae41e4649b934ca495991b7852b855"
    );
    // sha256 of "a\0one\xff"
    let single = component_digest(vec![("a".to_owned(), b"one".to_vec())]);
    assert_eq!(single.len(), 64);
    assert_ne!(single, component_digest(Vec::new()));
}

#[test]
fn xml_contents_lose_whitespace_between_tags_and_text_keeps_it() {
    let xml = normalize_contents(
        &["Demo.cls-meta.xml".to_owned()],
        b"  <A>\r\n\t<B>x y</B>   \r\n</A>  ",
    );
    assert_eq!(xml, b"<A><B>x y</B></A>".to_vec());
    let source = normalize_contents(&["Demo.cls".to_owned()], b"  a\r\nb  ");
    assert_eq!(source, b"  a\nb  ".to_vec());
    let lossy = normalize_contents(&["Demo.cls".to_owned()], &[0x61, 0xff, 0x62]);
    assert_eq!(lossy, "a\u{fffd}b".as_bytes().to_vec());
    let text_after_tag = normalize_contents(&["x.xml".to_owned()], b"<a> text</a>");
    assert_eq!(text_after_tag, b"<a> text</a>".to_vec());
}

fn recorded_component(metadata_type: &str, full_name: &str) -> MetadataComponent {
    MetadataComponent {
        metadata_type: metadata_type.to_owned(),
        full_name: full_name.to_owned(),
        category: ComponentCategory::Code,
        sha256: "b".repeat(64),
        files: vec![PathBuf::from(format!("classes/{full_name}.cls"))],
    }
}

fn file_parts(inventory: &OrgInventory) -> Vec<Vec<Vec<String>>> {
    inventory
        .components
        .iter()
        .map(|component| {
            component
                .files
                .iter()
                .map(|path| path.iter().map(|part| part.to_string_lossy().into_owned()).collect())
                .collect()
        })
        .collect()
}

#[test]
fn recorded_inventories_and_snapshots_are_checked_before_use() {
    let inventory = OrgInventory {
        schema_version: HYBRID_SCHEMA_VERSION,
        target: "qa".to_owned(),
        components: vec![recorded_component("ApexClass", "A"), recorded_component("ApexClass", "B")],
    };
    assert_eq!(validate_inventory(&inventory, &file_parts(&inventory)), Ok(()));

    let mut doubled = inventory.clone();
    doubled.components.push(recorded_component("ApexClass", "A"));
    assert_eq!(
        validate_inventory(&doubled, &file_parts(&doubled)).unwrap_err(),
        "org inventory records `ApexClass:A` more than once"
    );
    let mut escaping = inventory.clone();
    escaping.components[0].files = vec![PathBuf::from("../A.cls")];
    assert_eq!(
        validate_inventory(&escaping, &file_parts(&escaping)).unwrap_err(),
        "metadata component path `../A.cls` must be a safe relative path"
    );

    let test = |name: &str, outcome: &str| ValidationTest {
        name: name.to_owned(),
        outcome: outcome.to_owned(),
        message: None,
    };
    let snapshot = ValidationSnapshot {
        schema_version: HYBRID_SCHEMA_VERSION,
        target: "QA".to_owned(),
        authenticated: false,
        org_id: None,
        inventory: inventory.clone(),
        validation: DeploymentValidation {
            success: true,
            deployment_id: None,
            component_failures: Vec::new(),
            tests: vec![test("ATest.one", "pass"), test("ATest.two", "fail")],
        },
    };
    assert_eq!(validate_snapshot(&snapshot, &file_parts(&inventory)), Ok(()));
    let mut repeated = snapshot.clone();
    repeated.validation.tests.push(test("atest.ONE", "pass"));
    assert_eq!(
        validate_snapshot(&repeated, &file_parts(&inventory)).unwrap_err(),
        "validation snapshot records test `atest.ONE` more than once"
    );
    let mut skipped = snapshot.clone();
    skipped.validation.tests[1].outcome = "skip".to_owned();
    assert_eq!(
        validate_snapshot(&skipped, &file_parts(&inventory)).unwrap_err(),
        "validation test `ATest.two` has invalid outcome `skip`"
    );
    let mut other = snapshot;
    other.target = "prod".to_owned();
    assert_eq!(
        validate_snapshot(&other, &file_parts(&inventory)).unwrap_err(),
        "validation snapshot and inventory targets do not match"
    );
}
