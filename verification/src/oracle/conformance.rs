//! The conformance manifest: the fixtures to run locally and on Salesforce,
//! checked as they are loaded.

use vstd::prelude::*;

use std::path::PathBuf;

use crate::oracle::{
    entrypoint_target, fixture_name_error, is_class_method, scopes_error, target_form_message,
    validate_entrypoint, validate_fixture_name, validate_scopes, ComparisonScope, FixtureEntrypoint,
};
use crate::text::{
    ascii_lower, chars_equal, chars_of, decimal, lower_chars, push_decimal, push_str,
    string_from_chars,
};

verus! {

/// Version of the conformance manifest and snapshot formats.
pub const ORACLE_SCHEMA_VERSION: u32 = 1;

/// One component of a path, as the platform splits it.
#[derive(Clone, Debug, PartialEq, Eq)]
pub enum PathPart {
    Root,
    Current,
    Parent,
    Normal(String),
}

/// One fixture to run on both sides.
#[derive(Clone, Debug)]
pub struct ConformanceFixture {
    pub name: String,
    pub project: PathBuf,
    pub entrypoint: FixtureEntrypoint,
    pub compare: Vec<ComparisonScope>,
}

/// The fixtures of a conformance manifest, in the manifest's order.
#[derive(Clone, Debug)]
pub struct ConformanceManifest {
    pub fixtures: Vec<ConformanceFixture>,
    source_path: PathBuf,
}

/// A fixture as the manifest file states it: its name, its project path
/// split into parts and written out, what it runs and compares, and what
/// resolving the project below the manifest's directory gave: the resolved
/// path and whether it stays below that directory, or the message of the
/// failure.
#[derive(Debug)]
pub struct FixtureFile {
    pub name: String,
    pub project_parts: Vec<PathPart>,
    pub project_text: String,
    pub entrypoint: FixtureEntrypoint,
    pub compare: Vec<ComparisonScope>,
    pub resolved: Result<(PathBuf, bool), String>,
}

/// The error for a fixture's project path, if it is empty or absolute, or
/// if it climbs out of the manifest's directory.
pub open spec fn project_path_error(parts: Seq<PathPart>, text: Seq<char>) -> Option<Seq<char>> {
    if parts.len() == 0 || parts[0] is Root {
        Some("oracle fixture project must be a non-empty relative path"@)
    } else if exists|i: int| 0 <= i < parts.len() && ((#[trigger] parts[i]) is Parent || parts[i] is Root) {
        Some("oracle fixture project `"@ + text + "` cannot escape the manifest directory"@)
    } else {
        None
    }
}

/// The error for an entrypoint whose target is not `Class.method`.
pub open spec fn entrypoint_error(name: Seq<char>, entrypoint: FixtureEntrypoint) -> Option<Seq<char>> {
    match entrypoint_target(entrypoint) {
        Some(target) => if is_class_method(target) {
            None
        } else {
            Some(target_form_message(name))
        },
        None => None,
    }
}

/// The error for one fixture, given the lower-cased names of the fixtures
/// before it: its name, a repeated name, its project path, the project's
/// resolution, its entrypoint, then its scopes.
pub open spec fn fixture_error(fixture: FixtureFile, seen: Seq<Seq<char>>) -> Option<Seq<char>> {
    let name = fixture.name@;
    if fixture_name_error(name) is Some {
        fixture_name_error(name)
    } else if seen.contains(ascii_lower(name)) {
        Some("duplicate oracle fixture `"@ + name + "`"@)
    } else if project_path_error(fixture.project_parts@, fixture.project_text@) is Some {
        project_path_error(fixture.project_parts@, fixture.project_text@)
    } else {
        match fixture.resolved {
            Err(message) => Some(message@),
            Ok((_, below)) => if !below {
                Some("fixture `"@ + name + "` project must remain below the manifest directory"@)
            } else if entrypoint_error(name, fixture.entrypoint) is Some {
                entrypoint_error(name, fixture.entrypoint)
            } else {
                scopes_error(name, fixture.entrypoint, fixture.compare@)
            },
        }
    }
}

/// The lower-cased names of the first `n` fixtures.
pub open spec fn seen_names(fixtures: Seq<FixtureFile>, n: int) -> Seq<Seq<char>> {
    Seq::new(n as nat, |k: int| ascii_lower(fixtures[k].name@))
}

/// The first error among the fixtures from position `i` on.
pub open spec fn first_fixture_error(fixtures: Seq<FixtureFile>, i: int) -> Option<Seq<char>>
    decreases fixtures.len() - i,
{
    if i < 0 || i >= fixtures.len() {
        None
    } else if fixture_error(fixtures[i], seen_names(fixtures, i)) is Some {
        fixture_error(fixtures[i], seen_names(fixtures, i))
    } else {
        first_fixture_error(fixtures, i + 1)
    }
}

/// Why a manifest cannot be loaded, if it cannot: another schema version,
/// no fixture, a manifest path that did not resolve, or a bad fixture.
pub open spec fn manifest_error(
    schema_version: u32,
    fixtures: Seq<FixtureFile>,
    source_path: Result<PathBuf, String>,
) -> Option<Seq<char>> {
    if schema_version != ORACLE_SCHEMA_VERSION {
        Some(
            "unsupported oracle manifest schema version "@ + decimal(schema_version as nat) + "; expected "@
                + decimal(ORACLE_SCHEMA_VERSION as nat),
        )
    } else if fixtures.len() == 0 {
        Some("oracle manifest must contain at least one fixture"@)
    } else {
        match source_path {
            Err(message) => Some(message@),
            Ok(_) => first_fixture_error(fixtures, 0),
        }
    }
}

/// `fixture` is what loading `file` gives.
pub open spec fn loaded(fixture: ConformanceFixture, file: FixtureFile) -> bool {
    &&& fixture.name@ == file.name@
    &&& file.resolved matches Ok((path, _)) && fixture.project == path
    &&& fixture.entrypoint == file.entrypoint
    &&& fixture.compare@ == file.compare@
}

/// Checks a project path.
fn check_project_path(parts: &Vec<PathPart>, text: &str) -> (result: Result<(), String>)
    ensures
        match project_path_error(parts@, text@) {
            Some(message) => result matches Err(m) && m@ == message,
            None => result is Ok,
        },
{
    if parts.len() == 0 || matches!(parts[0], PathPart::Root) {
        return Err("oracle fixture project must be a non-empty relative path".to_string());
    }
    let mut i: usize = 0;
    while i < parts.len()
        invariant
            parts@.len() > 0,
            !(parts@[0] is Root),
            i <= parts@.len(),
            forall|k: int| 0 <= k < i ==> !((#[trigger] parts@[k]) is Parent || parts@[k] is Root),
        decreases parts@.len() - i,
    {
        if matches!(parts[i], PathPart::Parent | PathPart::Root) {
            assert(parts@[i as int] is Parent || parts@[i as int] is Root);
            return Err(crate::text::concat3("oracle fixture project `", text, "` cannot escape the manifest directory"));
        }
        i += 1;
    }
    Ok(())
}

/// Whether `name` is among `names`.
fn seen_before(names: &Vec<Vec<char>>, name: &[char]) -> (result: bool)
    ensures
        result == exists|k: int| 0 <= k < names@.len() && (#[trigger] names@[k])@ == name@,
{
    let mut i: usize = 0;
    while i < names.len()
        invariant
            i <= names@.len(),
            forall|k: int| 0 <= k < i ==> (#[trigger] names@[k])@ != name@,
        decreases names@.len() - i,
    {
        if chars_equal(names[i].as_slice(), name) {
            return true;
        }
        i += 1;
    }
    false
}

/// Checks one fixture, given the lower-cased names of the fixtures before it.
fn check_fixture(fixture: &FixtureFile, seen: &Vec<Vec<char>>) -> (result: Result<(), String>)
    ensures
        match fixture_error(*fixture, Seq::new(seen@.len(), |k: int| seen@[k]@)) {
            Some(message) => result matches Err(m) && m@ == message,
            None => result is Ok,
        },
{
    let ghost seen_view = Seq::new(seen@.len(), |k: int| seen@[k]@);
    let name = fixture.name.as_str();
    validate_fixture_name(name)?;
    let lower = lower_chars(chars_of(name).as_slice());
    let repeated = seen_before(seen, lower.as_slice());
    proof {
        if repeated {
            let k = choose|k: int| 0 <= k < seen@.len() && (#[trigger] seen@[k])@ == lower@;
            assert(seen_view[k] == ascii_lower(name@));
        }
        if seen_view.contains(ascii_lower(name@)) {
            let k = choose|k: int| 0 <= k < seen_view.len() && seen_view[k] == ascii_lower(name@);
            assert(seen@[k]@ == lower@);
        }
    }
    if repeated {
        return Err(crate::text::concat3("duplicate oracle fixture `", name, "`"));
    }
    check_project_path(&fixture.project_parts, fixture.project_text.as_str())?;
    match &fixture.resolved {
        Err(message) => return Err(message.clone()),
        Ok((_, below)) => {
            if !*below {
                return Err(crate::text::concat3("fixture `", name, "` project must remain below the manifest directory"));
            }
        },
    }
    validate_entrypoint(name, &fixture.entrypoint)?;
    validate_scopes(name, &fixture.entrypoint, fixture.compare.as_slice())
}

/// A copy of an entrypoint.
fn copy_entrypoint(entrypoint: &FixtureEntrypoint) -> (result: FixtureEntrypoint)
    ensures
        result == *entrypoint,
{
    match entrypoint {
        FixtureEntrypoint::Compile => FixtureEntrypoint::Compile,
        FixtureEntrypoint::Invoke { target } => FixtureEntrypoint::Invoke { target: target.clone() },
        FixtureEntrypoint::Test { filter } => FixtureEntrypoint::Test { filter: filter.clone() },
    }
}

/// A copy of a list of scopes.
fn copy_scopes(scopes: &Vec<ComparisonScope>) -> (result: Vec<ComparisonScope>)
    ensures
        result@ == scopes@,
{
    let mut out: Vec<ComparisonScope> = Vec::new();
    let mut i: usize = 0;
    while i < scopes.len()
        invariant
            i <= scopes@.len(),
            out@ == scopes@.take(i as int),
        decreases scopes@.len() - i,
    {
        out.push(scopes[i]);
        assert(out@ =~= scopes@.take(i + 1));
        i += 1;
    }
    assert(scopes@.take(scopes@.len() as int) =~= scopes@);
    out
}

impl ConformanceManifest {
    /// Where the manifest was read from.
    pub closed spec fn spec_source_path(self) -> PathBuf {
        self.source_path
    }

    /// The manifest's fixtures.
    pub closed spec fn spec_fixtures(self) -> Seq<ConformanceFixture> {
        self.fixtures@
    }

    /// The manifest's fixtures, in the manifest's order.
    pub fn fixtures(&self) -> (result: &Vec<ConformanceFixture>)
        ensures
            result@ == self.spec_fixtures(),
    {
        &self.fixtures
    }

    /// Where the manifest was read from.
    pub fn source_path(&self) -> (result: &PathBuf)
        ensures
            *result == self.spec_source_path(),
    {
        &self.source_path
    }

    /// The manifest a file states: its schema version, its fixtures, and
    /// what resolving the manifest's own path gave. Fails with the first
    /// problem, checked in the file's order: the schema version, an empty
    /// fixture list, the manifest path, then each fixture in turn.
    pub fn from_file(
        schema_version: u32,
        fixtures: Vec<FixtureFile>,
        source_path: Result<PathBuf, String>,
    ) -> (result: Result<ConformanceManifest, String>)
        ensures
            match manifest_error(schema_version, fixtures@, source_path) {
                Some(message) => result matches Err(m) && m@ == message,
                None => result matches Ok(manifest) && (source_path matches Ok(path)
                    && manifest.spec_source_path() == path) && manifest.spec_fixtures().len() == fixtures@.len()
                    && forall|i: int| 0 <= i < fixtures@.len() ==> loaded(#[trigger] manifest.spec_fixtures()[i], fixtures@[i]),
            },
    {
        if schema_version != ORACLE_SCHEMA_VERSION {
            let mut message: Vec<char> = Vec::new();
            push_str(&mut message, "unsupported oracle manifest schema version ");
            push_decimal(&mut message, schema_version as usize);
            push_str(&mut message, "; expected ");
            push_decimal(&mut message, ORACLE_SCHEMA_VERSION as usize);
            return Err(string_from_chars(message.as_slice()));
        }
        if fixtures.len() == 0 {
            return Err("oracle manifest must contain at least one fixture".to_string());
        }
        let manifest_path = match &source_path {
            Ok(path) => path.clone(),
            Err(message) => return Err(message.clone()),
        };
        assert(manifest_error(schema_version, fixtures@, source_path) == first_fixture_error(fixtures@, 0));
        let mut seen: Vec<Vec<char>> = Vec::new();
        let mut loaded_fixtures: Vec<ConformanceFixture> = Vec::new();
        let mut i: usize = 0;
        while i < fixtures.len()
            invariant
                source_path == Ok::<PathBuf, String>(manifest_path),
                manifest_error(schema_version, fixtures@, source_path) == first_fixture_error(fixtures@, 0),
                i <= fixtures@.len(),
                seen@.len() == i,
                forall|k: int| 0 <= k < i ==> (#[trigger] seen@[k])@ == ascii_lower(fixtures@[k].name@),
                first_fixture_error(fixtures@, 0) == first_fixture_error(fixtures@, i as int),
                loaded_fixtures@.len() == i,
                forall|k: int| 0 <= k < i ==> loaded(#[trigger] loaded_fixtures@[k], fixtures@[k]),
            decreases fixtures@.len() - i,
        {
            let fixture = &fixtures[i];
            assert(Seq::new(seen@.len(), |k: int| seen@[k]@) =~= seen_names(fixtures@, i as int));
            let checked = check_fixture(fixture, &seen);
            assert(*fixture == fixtures@[i as int]);
            match checked {
                Ok(()) => {},
                Err(message) => {
                    assert(fixture_error(fixtures@[i as int], seen_names(fixtures@, i as int)) == Some(message@));
                    assert(first_fixture_error(fixtures@, i as int) == Some(message@));
                    return Err(message);
                },
            }
            let project = match &fixture.resolved {
                Ok((path, _)) => path.clone(),
                Err(_) => {
                    assert(false);
                    return Err(String::new());
                },
            };
            loaded_fixtures.push(
                ConformanceFixture {
                    name: fixture.name.clone(),
                    project,
                    entrypoint: copy_entrypoint(&fixture.entrypoint),
                    compare: copy_scopes(&fixture.compare),
                },
            );
            seen.push(lower_chars(chars_of(fixture.name.as_str()).as_slice()));
            i += 1;
        }
        Ok(ConformanceManifest { fixtures: loaded_fixtures, source_path: manifest_path })
    }
}

} // verus!
