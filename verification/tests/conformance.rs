use apex_exec::oracle::conformance::{
    ConformanceManifest, FixtureFile, PathPart, ORACLE_SCHEMA_VERSION,
};
use apex_exec::oracle::{ComparisonScope, FixtureEntrypoint};
use std::path::PathBuf;

fn fixture(name: &str, project: &str) -> FixtureFile {
    FixtureFile {
        name: name.to_owned(),
        project_parts: project
            .split('/')
            .map(|part| match part {
                "" => PathPart::Root,
                "." => PathPart::Current,
                ".." => PathPart::Parent,
                other => PathPart::Normal(other.to_owned()),
            })
            .collect(),
        project_text: project.to_owned(),
        entrypoint: FixtureEntrypoint::Invoke {
            target: "Demo.run".to_owned(),
        },
        compare: vec![ComparisonScope::Compile, ComparisonScope::Values],
        resolved: Ok((PathBuf::from(format!("/work/{project}")), true)),
    }
}

fn load(fixtures: Vec<FixtureFile>) -> Result<ConformanceManifest, String> {
    ConformanceManifest::from_file(
        ORACLE_SCHEMA_VERSION,
        fixtures,
        Ok(PathBuf::from("/work/oracle.json")),
    )
}

#[test]
fn a_valid_manifest_keeps_its_fixtures_in_order() {
    let manifest = load(vec![fixture("one", "projects/one"), fixture("two", "projects/two")]).unwrap();
    assert_eq!(manifest.fixtures.len(), 2);
    assert_eq!(manifest.fixtures[0].name, "one");
    assert_eq!(manifest.fixtures[1].project, PathBuf::from("/work/projects/two"));
    assert_eq!(
        manifest.fixtures[0].compare,
        vec![ComparisonScope::Compile, ComparisonScope::Values]
    );
    assert_eq!(manifest.source_path(), &PathBuf::from("/work/oracle.json"));
}

#[test]
fn manifest_level_problems_come_first() {
    let wrong = ConformanceManifest::from_file(2, vec![fixture("one", "p")], Ok(PathBuf::from("/m")));
    assert_eq!(
        wrong.err().unwrap(),
        "unsupported oracle manifest schema version 2; expected 1"
    );
    assert_eq!(
        load(Vec::new()).err().unwrap(),
        "oracle manifest must contain at least one fixture"
    );
    let unresolved = ConformanceManifest::from_file(
        ORACLE_SCHEMA_VERSION,
        vec![fixture("", "p")],
        Err("failed to resolve oracle manifest `m.json`: missing".to_owned()),
    );
    assert_eq!(
        unresolved.err().unwrap(),
        "failed to resolve oracle manifest `m.json`: missing"
    );
}

#[test]
fn fixture_problems_are_reported_in_manifest_order() {
    assert_eq!(
        load(vec![fixture(" ", "p")]).err().unwrap(),
        "oracle fixture name cannot be empty"
    );
    assert_eq!(
        load(vec![fixture("One", "a"), fixture("one", "b")]).err().unwrap(),
        "duplicate oracle fixture `one`"
    );
    assert_eq!(
        load(vec![fixture("one", "/abs")]).err().unwrap(),
        "oracle fixture project must be a non-empty relative path"
    );
    assert_eq!(
        load(vec![fixture("one", "a/../../b")]).err().unwrap(),
        "oracle fixture project `a/../../b` cannot escape the manifest directory"
    );
    let mut outside = fixture("one", "link");
    outside.resolved = Ok((PathBuf::from("/elsewhere"), false));
    assert_eq!(
        load(vec![outside]).err().unwrap(),
        "fixture `one` project must remain below the manifest directory"
    );
    let mut missing = fixture("one", "gone");
    missing.resolved = Err("failed to resolve project `gone` for fixture `one`: no such file".to_owned());
    assert_eq!(
        load(vec![missing]).err().unwrap(),
        "failed to resolve project `gone` for fixture `one`: no such file"
    );
    let mut target = fixture("one", "p");
    target.entrypoint = FixtureEntrypoint::Test {
        filter: "NoMethod".to_owned(),
    };
    assert_eq!(
        load(vec![target]).err().unwrap(),
        "fixture `one` target must have the form Class.method"
    );
    let mut compile_only = fixture("one", "p");
    compile_only.entrypoint = FixtureEntrypoint::Compile;
    assert_eq!(
        load(vec![compile_only]).err().unwrap(),
        "compile-only fixture `one` can compare only the compile scope"
    );
    // The first bad fixture decides, even when a later one is worse.
    assert_eq!(
        load(vec![fixture("ok", "p"), fixture("bad/name", "q"), fixture(" ", "r")])
            .err()
            .unwrap(),
        "oracle fixture name `bad/name` cannot contain path separators"
    );
}
