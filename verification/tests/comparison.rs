use apex_exec::json::{JsonNumber, JsonValue};
use apex_exec::oracle::comparison::{compare, tally};
use apex_exec::oracle::conformance::{ConformanceManifest, FixtureFile, PathPart};
use apex_exec::oracle::{
    CompileObservation, ComparisonScope, FixtureEntrypoint, FixtureObservation, OracleProvider,
    OracleSnapshot,
};
use std::path::PathBuf;

fn observation(name: &str, output: &str) -> FixtureObservation {
    FixtureObservation {
        name: name.to_owned(),
        compile: CompileObservation {
            success: true,
            diagnostic_category: None,
            diagnostics: Vec::new(),
        },
        values: vec![(
            "answer".to_owned(),
            JsonValue::Number(JsonNumber::Unsigned(42)),
        )],
        output: vec![output.to_owned()],
        exception: None,
        queries: Vec::new(),
        dml: Vec::new(),
        triggers: Vec::new(),
        tests: Vec::new(),
    }
}

fn render(scope: ComparisonScope, observation: &FixtureObservation) -> String {
    match scope {
        ComparisonScope::Compile => format!(
            "{{\"diagnosticCategory\":null,\"success\":{}}}",
            observation.compile.success
        ),
        ComparisonScope::Values => {
            let mut map = serde_json::Map::new();
            for (name, value) in &observation.values {
                let value = match value {
                    JsonValue::Number(JsonNumber::Unsigned(number)) => serde_json::Value::from(*number),
                    _ => serde_json::Value::Null,
                };
                map.insert(name.clone(), value);
            }
            serde_json::to_string(&map).unwrap()
        }
        ComparisonScope::Output => serde_json::to_string(&observation.output).unwrap(),
        _ => "null".to_owned(),
    }
}

fn manifest(name: &str, compare: Vec<ComparisonScope>) -> ConformanceManifest {
    ConformanceManifest::from_file(
        1,
        vec![FixtureFile {
            name: name.to_owned(),
            project_parts: vec![PathPart::Normal("fixture".to_owned())],
            project_text: "fixture".to_owned(),
            entrypoint: FixtureEntrypoint::Invoke {
                target: "Demo.run".to_owned(),
            },
            compare,
            resolved: Ok((PathBuf::from("/work/fixture"), true)),
        }],
        Ok(PathBuf::from("/work/oracle.json")),
    )
    .unwrap()
}

fn snapshot(provider: OracleProvider, target: &str, fixtures: Vec<FixtureObservation>) -> OracleSnapshot {
    OracleSnapshot {
        schema_version: 1,
        provider,
        target: target.to_owned(),
        fixtures,
    }
}

#[test]
fn comparison_measures_each_selected_dimension() {
    let manifest = manifest(
        "one",
        vec![
            ComparisonScope::Compile,
            ComparisonScope::Values,
            ComparisonScope::Output,
        ],
    );
    let local = snapshot(OracleProvider::ApexExec, "local", vec![observation("one", "local")]);
    let salesforce = snapshot(OracleProvider::Salesforce, "scratch", vec![observation("one", "org")]);
    let report = compare(&manifest, &local, &salesforce, render).unwrap();
    let (matched, total) = tally(&report, None);
    assert_eq!(matched, 2);
    assert_eq!(total, 3);
    let percentage = matched as f64 / total as f64 * 100.0;
    assert!((percentage - 66.666_666).abs() < 0.001);
    assert!(matched != total);
    assert!(report[0].dimensions[2]
        .difference
        .as_deref()
        .unwrap()
        .contains("local"));
    assert_eq!(
        report[0].dimensions[2].difference.as_deref(),
        Some("local=[\"local\"] salesforce=[\"org\"]")
    );
    assert_eq!(report[0].dimensions[0].difference, None);
    assert_eq!(tally(&report, Some(ComparisonScope::Output)), (0, 1));
    assert_eq!(tally(&report, Some(ComparisonScope::Compile)), (1, 1));
    assert_eq!(tally(&report, Some(ComparisonScope::Tests)), (0, 0));
}

#[test]
fn fixtures_are_found_whatever_the_case_and_missing_ones_differ() {
    let manifest = manifest("One", vec![ComparisonScope::Compile]);
    let local = snapshot(OracleProvider::ApexExec, "local", vec![observation("one", "x")]);
    let salesforce = snapshot(OracleProvider::Salesforce, "org", vec![observation("ONE", "x")]);
    let report = compare(&manifest, &local, &salesforce, render).unwrap();
    assert!(report[0].dimensions[0].matched);
    let empty = snapshot(OracleProvider::Salesforce, "org", Vec::new());
    let report = compare(&manifest, &local, &empty, render).unwrap();
    assert_eq!(
        report[0].dimensions[0].difference.as_deref(),
        Some("Salesforce snapshot is missing fixture")
    );
    let empty_local = snapshot(OracleProvider::ApexExec, "local", Vec::new());
    let report = compare(&manifest, &empty_local, &salesforce, render).unwrap();
    assert_eq!(
        report[0].dimensions[0].difference.as_deref(),
        Some("local snapshot is missing fixture")
    );
}

#[test]
fn snapshots_must_come_from_their_providers_with_distinct_names() {
    let manifest = manifest("one", vec![ComparisonScope::Compile]);
    let local = snapshot(OracleProvider::ApexExec, "local", vec![observation("one", "x")]);
    let salesforce = snapshot(OracleProvider::Salesforce, "org", vec![observation("one", "x")]);
    assert_eq!(
        compare(&manifest, &salesforce, &salesforce, render).err().unwrap(),
        "local snapshot provider must be `apexExec`"
    );
    assert_eq!(
        compare(&manifest, &local, &local, render).err().unwrap(),
        "Salesforce snapshot provider must be `salesforce`"
    );
    let doubled = snapshot(
        OracleProvider::Salesforce,
        "org",
        vec![observation("one", "x"), observation("ONE", "y")],
    );
    assert_eq!(
        compare(&manifest, &local, &doubled, render).err().unwrap(),
        "oracle snapshot contains duplicate fixture `ONE`"
    );
}
