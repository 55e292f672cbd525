//! The checks that a recorded org inventory and a recorded validation
//! snapshot must pass before they are trusted.

use vstd::prelude::*;

use crate::enterprise::manifest::{lower_hex_of_length, part_rank, path_display};
use crate::hybrid::{
    component_key, selector_text, MetadataComponent, OrgInventory, ValidationSnapshot, ValidationTest,
    HYBRID_SCHEMA_VERSION,
};
use crate::oracle::texts_of;
use crate::text::{
    ascii_lower, chars_are, chars_equal, chars_of, decimal, eq_ignore_ascii_case, eq_ignore_case, lower_chars,
    push_decimal, push_str, string_from_chars, trim_chars, trimmed,
};

verus! {

/// Whether a path is a non-empty relative path of names only.
pub open spec fn normal_relative(path: Seq<Seq<char>>) -> bool {
    &&& path.len() > 0
    &&& forall|i: int| 0 <= i < path.len() ==> part_rank(#[trigger] path[i]) == 3
}

/// The first of `files` from `i` on that is not a relative path of names.
pub open spec fn file_error(files: Seq<Seq<Seq<char>>>, i: int) -> Option<Seq<char>>
    decreases files.len() - i,
{
    if i < 0 || i >= files.len() {
        None
    } else if !normal_relative(files[i]) {
        Some("metadata component path `"@ + path_display(files[i]) + "` must be a safe relative path"@)
    } else {
        file_error(files, i + 1)
    }
}

/// The first rule that a component breaks, with `files` the parts of its
/// file paths.
pub open spec fn component_error(component: MetadataComponent, files: Seq<Seq<Seq<char>>>) -> Option<Seq<char>> {
    if trimmed(component.metadata_type@).len() == 0 || trimmed(component.full_name@).len() == 0 {
        Some("metadata component type and full name cannot be empty"@)
    } else if !lower_hex_of_length(component.sha256@, 64) {
        Some("metadata component `"@ + selector_text(component.metadata_type@, component.full_name@)
            + "` has an invalid SHA-256 digest"@)
    } else {
        file_error(files, 0)
    }
}

/// Whether a component before `i` has the key of component `i`.
pub open spec fn repeats_key(components: Seq<MetadataComponent>, i: int) -> bool {
    exists|j: int| 0 <= j < i && #[trigger] component_key(components[j]) == component_key(components[i])
}

/// The parts of each component's file paths, as plain values.
pub open spec fn files_view(file_parts: Seq<Vec<Vec<String>>>) -> Seq<Seq<Seq<Seq<char>>>> {
    Seq::new(file_parts.len(), |i: int| Seq::new(file_parts[i]@.len(), |j: int| texts_of(file_parts[i]@[j]@)))
}

/// The first rule that components from `i` on break: each valid, none
/// recorded twice.
pub open spec fn components_error(
    components: Seq<MetadataComponent>,
    files: Seq<Seq<Seq<Seq<char>>>>,
    i: int,
) -> Option<Seq<char>>
    decreases components.len() - i,
{
    if i < 0 || i >= components.len() {
        None
    } else if component_error(components[i], files[i]) is Some {
        component_error(components[i], files[i])
    } else if repeats_key(components, i) {
        Some("org inventory records `"@ + selector_text(components[i].metadata_type@, components[i].full_name@)
            + "` more than once"@)
    } else {
        components_error(components, files, i + 1)
    }
}

/// The first rule that an inventory breaks, with `files[i]` the parts of
/// the file paths of component `i`.
pub open spec fn inventory_error(inventory: OrgInventory, files: Seq<Seq<Seq<Seq<char>>>>) -> Option<Seq<char>> {
    if inventory.schema_version != HYBRID_SCHEMA_VERSION {
        Some("unsupported org inventory schema version "@ + decimal(inventory.schema_version as nat) + "; expected 1"@)
    } else if trimmed(inventory.target@).len() == 0 {
        Some("org inventory target cannot be empty"@)
    } else {
        components_error(inventory.components@, files, 0)
    }
}

/// Whether a test before `i` has the name of test `i`, compared without ASCII case.
pub open spec fn repeats_test(tests: Seq<ValidationTest>, i: int) -> bool {
    exists|j: int| 0 <= j < i && ascii_lower(#[trigger] tests[j].name@) == ascii_lower(tests[i].name@)
}

/// The first rule that tests from `i` on break: a name, an outcome of
/// `pass` or `fail`, and no name twice.
pub open spec fn tests_error(tests: Seq<ValidationTest>, i: int) -> Option<Seq<char>>
    decreases tests.len() - i,
{
    if i < 0 || i >= tests.len() {
        None
    } else if trimmed(tests[i].name@).len() == 0 {
        Some("validation test name cannot be empty"@)
    } else if tests[i].outcome@ != "pass"@ && tests[i].outcome@ != "fail"@ {
        Some("validation test `"@ + tests[i].name@ + "` has invalid outcome `"@ + tests[i].outcome@ + "`"@)
    } else if repeats_test(tests, i) {
        Some("validation snapshot records test `"@ + tests[i].name@ + "` more than once"@)
    } else {
        tests_error(tests, i + 1)
    }
}

/// The first rule that a snapshot breaks, with `files` the parts of the
/// file paths of its inventory's components.
pub open spec fn snapshot_error(snapshot: ValidationSnapshot, files: Seq<Seq<Seq<Seq<char>>>>) -> Option<Seq<char>> {
    if snapshot.schema_version != HYBRID_SCHEMA_VERSION {
        Some("unsupported validation snapshot schema version "@ + decimal(snapshot.schema_version as nat)
            + "; expected 1"@)
    } else if trimmed(snapshot.target@).len() == 0 {
        Some("validation snapshot target cannot be empty"@)
    } else if inventory_error(snapshot.inventory, files) is Some {
        inventory_error(snapshot.inventory, files)
    } else if !eq_ignore_case(snapshot.target@, snapshot.inventory.target@) {
        Some("validation snapshot and inventory targets do not match"@)
    } else {
        tests_error(snapshot.validation.tests@, 0)
    }
}

/// The message for a file path that is not a relative path of names.
fn check_files(files: &[Vec<String>]) -> (result: Result<(), String>)
    ensures
        match file_error(Seq::new(files@.len(), |j: int| texts_of(files@[j]@)), 0) {
            Some(message) => result matches Err(found) && found@ == message,
            None => result is Ok,
        },
{
    let ghost view = Seq::new(files@.len(), |j: int| texts_of(files@[j]@));
    let mut i: usize = 0;
    while i < files.len()
        invariant
            i <= files@.len(),
            view == Seq::new(files@.len(), |j: int| texts_of(files@[j]@)),
            file_error(view, 0) == file_error(view, i as int),
        decreases files@.len() - i,
    {
        let path = &files[i];
        assert(view[i as int] == texts_of(path@));
        let mut normal = path.len() > 0;
        let mut k: usize = 0;
        while k < path.len()
            invariant
                k <= path@.len(),
                normal == (path@.len() > 0 && forall|m: int| 0 <= m < k ==> part_rank(#[trigger] texts_of(path@)[m]) == 3),
            decreases path@.len() - k,
        {
            let part = chars_of(path[k].as_str());
            assert(texts_of(path@)[k as int] == path@[k as int]@);
            if chars_are(part.as_slice(), "/") || chars_are(part.as_slice(), ".") || chars_are(part.as_slice(), "..") {
                normal = false;
            }
            k += 1;
        }
        if !normal {
            let shown = crate::enterprise::manifest::display_path(path.as_slice());
            let mut out: Vec<char> = Vec::new();
            push_str(&mut out, "metadata component path `");
            push_str(&mut out, shown.as_str());
            push_str(&mut out, "` must be a safe relative path");
            return Err(string_from_chars(out.as_slice()));
        }
        i += 1;
    }
    Ok(())
}

/// Checks an org inventory, with `file_parts[i]` the parts of the file
/// paths of component `i`, and reports the first rule broken.
pub fn validate_inventory(inventory: &OrgInventory, file_parts: &[Vec<Vec<String>>]) -> (result: Result<(), String>)
    requires
        file_parts@.len() == inventory.components@.len(),
    ensures
        match inventory_error(*inventory, files_view(file_parts@)) {
            Some(message) => result matches Err(found) && found@ == message,
            None => result is Ok,
        },
{
    if inventory.schema_version != HYBRID_SCHEMA_VERSION {
        let mut out: Vec<char> = Vec::new();
        push_str(&mut out, "unsupported org inventory schema version ");
        push_decimal(&mut out, inventory.schema_version as usize);
        push_str(&mut out, "; expected 1");
        return Err(string_from_chars(out.as_slice()));
    }
    if trim_chars(chars_of(inventory.target.as_str()).as_slice()).len() == 0 {
        return Err(string_from_chars(chars_of("org inventory target cannot be empty").as_slice()));
    }
    let ghost files = files_view(file_parts@);
    let ghost comps = inventory.components@;
    let mut i: usize = 0;
    while i < inventory.components.len()
        invariant
            i <= comps.len(),
            comps == inventory.components@,
            file_parts@.len() == comps.len(),
            files == files_view(file_parts@),
            inventory_error(*inventory, files) == components_error(comps, files, 0),
            components_error(comps, files, 0) == components_error(comps, files, i as int),
        decreases comps.len() - i,
    {
        let component = &inventory.components[i];
        assert(*component == comps[i as int]);
        if trim_chars(chars_of(component.metadata_type.as_str()).as_slice()).len() == 0 || trim_chars(
            chars_of(component.full_name.as_str()).as_slice(),
        ).len() == 0 {
            return Err(string_from_chars(chars_of("metadata component type and full name cannot be empty").as_slice()));
        }
        if !crate::enterprise::manifest::chars_lower_hex(chars_of(component.sha256.as_str()).as_slice(), 64) {
            let selector = component.selector();
            let mut out: Vec<char> = Vec::new();
            push_str(&mut out, "metadata component `");
            push_str(&mut out, selector.as_str());
            push_str(&mut out, "` has an invalid SHA-256 digest");
            return Err(string_from_chars(out.as_slice()));
        }
        assert(files[i as int] =~= Seq::new(file_parts@[i as int]@.len(), |j: int| texts_of(file_parts@[i as int]@[j]@)));
        check_files(file_parts[i].as_slice())?;
        let mut j: usize = 0;
        #[verifier::loop_isolation(false)]
        while j < i
            invariant
                j <= i,
                i < comps.len(),
                comps == inventory.components@,
                *component == comps[i as int],
                forall|m: int| 0 <= m < j ==> #[trigger] component_key(comps[m]) != component_key(comps[i as int]),
            decreases i - j,
        {
            let other = &inventory.components[j];
            assert(*other == comps[j as int]);
            let same_type = chars_equal(chars_of(other.metadata_type.as_str()).as_slice(), chars_of(component.metadata_type.as_str()).as_slice());
            let same_name = chars_equal(chars_of(other.full_name.as_str()).as_slice(), chars_of(component.full_name.as_str()).as_slice());
            if same_type && same_name {
                proof {
                    assert(component_key(comps[j as int]) == component_key(comps[i as int]));
                    assert(repeats_key(comps, i as int));
                }
                let selector = component.selector();
                let mut out: Vec<char> = Vec::new();
                push_str(&mut out, "org inventory records `");
                push_str(&mut out, selector.as_str());
                push_str(&mut out, "` more than once");
                return Err(string_from_chars(out.as_slice()));
            }
            j += 1;
        }
        proof {
            assert(!repeats_key(comps, i as int));
        }
        i += 1;
    }
    Ok(())
}

/// Checks a validation snapshot, with `file_parts[i]` the parts of the file
/// paths of component `i` of its inventory, and reports the first rule broken.
pub fn validate_snapshot(snapshot: &ValidationSnapshot, file_parts: &[Vec<Vec<String>>]) -> (result: Result<(), String>)
    requires
        file_parts@.len() == snapshot.inventory.components@.len(),
    ensures
        match snapshot_error(*snapshot, files_view(file_parts@)) {
            Some(message) => result matches Err(found) && found@ == message,
            None => result is Ok,
        },
{
    proof {
        reveal_strlit("pass");
        reveal_strlit("fail");
    }
    if snapshot.schema_version != HYBRID_SCHEMA_VERSION {
        let mut out: Vec<char> = Vec::new();
        push_str(&mut out, "unsupported validation snapshot schema version ");
        push_decimal(&mut out, snapshot.schema_version as usize);
        push_str(&mut out, "; expected 1");
        return Err(string_from_chars(out.as_slice()));
    }
    if trim_chars(chars_of(snapshot.target.as_str()).as_slice()).len() == 0 {
        return Err(string_from_chars(chars_of("validation snapshot target cannot be empty").as_slice()));
    }
    validate_inventory(&snapshot.inventory, file_parts)?;
    if !eq_ignore_ascii_case(snapshot.target.as_str(), snapshot.inventory.target.as_str()) {
        return Err(string_from_chars(chars_of("validation snapshot and inventory targets do not match").as_slice()));
    }
    let ghost tests = snapshot.validation.tests@;
    let mut i: usize = 0;
    while i < snapshot.validation.tests.len()
        invariant
            i <= tests.len(),
            tests == snapshot.validation.tests@,
            snapshot_error(*snapshot, files_view(file_parts@)) == tests_error(tests, 0),
            tests_error(tests, 0) == tests_error(tests, i as int),
        decreases tests.len() - i,
    {
        let test = &snapshot.validation.tests[i];
        assert(*test == tests[i as int]);
        if trim_chars(chars_of(test.name.as_str()).as_slice()).len() == 0 {
            return Err(string_from_chars(chars_of("validation test name cannot be empty").as_slice()));
        }
        let outcome = chars_of(test.outcome.as_str());
        if !chars_are(outcome.as_slice(), "pass") && !chars_are(outcome.as_slice(), "fail") {
            let mut out: Vec<char> = Vec::new();
            push_str(&mut out, "validation test `");
            push_str(&mut out, test.name.as_str());
            push_str(&mut out, "` has invalid outcome `");
            push_str(&mut out, test.outcome.as_str());
            push_str(&mut out, "`");
            assert(out@ =~= "validation test `"@ + tests[i as int].name@ + "` has invalid outcome `"@
                + tests[i as int].outcome@ + "`"@);
            return Err(string_from_chars(out.as_slice()));
        }
        let lowered = lower_chars(chars_of(test.name.as_str()).as_slice());
        let mut j: usize = 0;
        #[verifier::loop_isolation(false)]
        while j < i
            invariant
                j <= i,
                i < tests.len(),
                tests == snapshot.validation.tests@,
                lowered@ == ascii_lower(tests[i as int].name@),
                forall|m: int| 0 <= m < j ==> ascii_lower(#[trigger] tests[m].name@) != ascii_lower(tests[i as int].name@),
            decreases i - j,
        {
            let other_test = &snapshot.validation.tests[j];
            assert(*other_test == tests[j as int]);
            let other = lower_chars(chars_of(other_test.name.as_str()).as_slice());
            if chars_equal(other.as_slice(), lowered.as_slice()) {
                proof {
                    assert(ascii_lower(tests[j as int].name@) == ascii_lower(tests[i as int].name@));
                    assert(repeats_test(tests, i as int));
                }
                let mut out: Vec<char> = Vec::new();
                push_str(&mut out, "validation snapshot records test `");
                push_str(&mut out, test.name.as_str());
                push_str(&mut out, "` more than once");
                assert(out@ =~= "validation snapshot records test `"@ + tests[i as int].name@ + "` more than once"@);
                return Err(string_from_chars(out.as_slice()));
            }
            j += 1;
        }
        proof {
            assert(!repeats_test(tests, i as int));
        }
        i += 1;
    }
    Ok(())
}

} // verus!
