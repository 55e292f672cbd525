//! Local and org metadata inventories: which component a package file belongs
//! to, and where a local inventory has drifted from an org's.

pub mod inventory;
pub mod metadata;
pub mod records;

use vstd::prelude::*;

use std::path::PathBuf;

use crate::text::{
    ascii_lower, chars_are, chars_end_with, chars_equal, chars_lt, chars_of, ends_with, find_char,
    first_index, lemma_text_lt_asymmetric, lemma_text_lt_total, lemma_text_lt_transitive, lower_chars,
    push_chars, push_str, slice_chars, string_from_chars, text_lt, decimal, push_decimal, eq_ignore_case,
    trim_chars, trimmed, last_index, find_last_char, spec_is_whitespace, is_whitespace, utf8_bytes, encode_utf8,
    utf8_lossy, decode_lossy, crlf_to_lf, replace_crlf,
};
use crate::json::{
    as_signed, as_text, as_truth, entry_of, entry_value, first_found, first_found_in_entries,
    first_found_in_items, member, member_of, signed_of, text_of, truth_of, JsonValue,
};
use crate::oracle::{either, insert_ascending, strictly_ascending, texts_of};

verus! {

/// Schema version of recorded inventories and reports.
pub const HYBRID_SCHEMA_VERSION: u32 = 1;

#[verifier::external_type_specification]
#[verifier::external_body]
pub struct ExPathBuf(PathBuf);

/// How a metadata component takes part in a release.
#[derive(Clone, Copy, Debug, PartialEq, Eq, PartialOrd, Ord, Structural)]
pub enum ComponentCategory {
    Code,
    Schema,
    Configuration,
}

/// One deployable metadata component and the digest of its files.
#[derive(Clone, Debug, PartialEq, Eq)]
pub struct MetadataComponent {
    pub metadata_type: String,
    pub full_name: String,
    pub category: ComponentCategory,
    pub sha256: String,
    pub files: Vec<PathBuf>,
}

/// The identity of a component: its metadata type and full name.
#[derive(Clone, Debug, PartialEq, Eq, PartialOrd, Ord)]
pub struct ComponentKey {
    pub metadata_type: String,
    pub full_name: String,
}

/// `type:name`.
pub open spec fn selector_text(metadata_type: Seq<char>, full_name: Seq<char>) -> Seq<char> {
    metadata_type + seq![':'] + full_name
}

impl ComponentKey {
    /// `type:name`.
    pub fn selector(&self) -> (result: String)
        ensures
            result@ == selector_text(self.metadata_type@, self.full_name@),
    {
        let mut out: Vec<char> = Vec::new();
        push_str(&mut out, self.metadata_type.as_str());
        out.push(':');
        push_str(&mut out, self.full_name.as_str());
        string_from_chars(out.as_slice())
    }
}

impl MetadataComponent {
    /// The component's identity.
    pub fn key(&self) -> (result: ComponentKey)
        ensures
            result.metadata_type@ == self.metadata_type@,
            result.full_name@ == self.full_name@,
    {
        ComponentKey { metadata_type: self.metadata_type.clone(), full_name: self.full_name.clone() }
    }

    /// `type:name`, the form used to name components on the command line.
    pub fn selector(&self) -> (result: String)
        ensures
            result@ == selector_text(self.metadata_type@, self.full_name@),
    {
        self.key().selector()
    }
}

/// The components found in one package tree or org.
#[derive(Clone, Debug, PartialEq, Eq)]
pub struct OrgInventory {
    pub schema_version: u32,
    pub target: String,
    pub components: Vec<MetadataComponent>,
}

/// A package file's component, category, and role within the component.
#[derive(Clone, Debug, PartialEq, Eq)]
pub struct ClassifiedPath {
    pub key: ComponentKey,
    pub category: ComponentCategory,
    pub role: String,
}

/// Position of the first of `parts` at or after `from` that equals `name`.
pub open spec fn position_of(parts: Seq<Seq<char>>, name: Seq<char>, from: int) -> Option<int>
    decreases parts.len() - from,
{
    if from < 0 || from >= parts.len() {
        None
    } else if parts[from] == name {
        Some(from)
    } else {
        position_of(parts, name, from + 1)
    }
}

/// `s` without its last `suffix.len()` characters.
pub open spec fn strip_suffix(s: Seq<char>, suffix: Seq<char>) -> Seq<char> {
    s.take(s.len() - suffix.len())
}

/// The member a metadata file stands for: the text before its first `.`,
/// once a `-meta.xml` ending is dropped.
pub open spec fn member_name(file: Seq<char>) -> Seq<char> {
    let source = if ends_with(file, "-meta.xml"@) { strip_suffix(file, "-meta.xml"@) } else { file };
    let dot = first_index(source, '.', 0);
    if dot < 0 { source } else { source.take(dot) }
}

/// The metadata type stored in a folder of one file per component.
pub open spec fn spec_generic_metadata_type(folder: Seq<char>) -> Option<Seq<char>> {
    if folder == "applications"@ { Some("CustomApplication"@) }
    else if folder == "customMetadata"@ { Some("CustomMetadata"@) }
    else if folder == "flows"@ { Some("Flow"@) }
    else if folder == "groups"@ { Some("Group"@) }
    else if folder == "labels"@ { Some("CustomLabels"@) }
    else if folder == "layouts"@ { Some("Layout"@) }
    else if folder == "namedCredentials"@ { Some("NamedCredential"@) }
    else if folder == "permissionsets"@ { Some("PermissionSet"@) }
    else if folder == "profiles"@ { Some("Profile"@) }
    else if folder == "queues"@ { Some("Queue"@) }
    else if folder == "remoteSiteSettings"@ { Some("RemoteSiteSetting"@) }
    else if folder == "roles"@ { Some("Role"@) }
    else if folder == "settings"@ { Some("Settings"@) }
    else if folder == "tabs"@ { Some("CustomTab"@) }
    else if folder == "workflows"@ { Some("Workflow"@) }
    else { None }
}

/// The metadata type and category of a component in an object's subfolder.
pub open spec fn spec_object_child(subfolder: Seq<char>) -> Option<(Seq<char>, ComponentCategory)> {
    if subfolder == "fields"@ { Some(("CustomField"@, ComponentCategory::Schema)) }
    else if subfolder == "indexes"@ { Some(("Index"@, ComponentCategory::Schema)) }
    else if subfolder == "recordTypes"@ { Some(("RecordType"@, ComponentCategory::Configuration)) }
    else if subfolder == "validationRules"@ { Some(("ValidationRule"@, ComponentCategory::Configuration)) }
    else if subfolder == "businessProcesses"@ { Some(("BusinessProcess"@, ComponentCategory::Configuration)) }
    else if subfolder == "compactLayouts"@ { Some(("CompactLayout"@, ComponentCategory::Configuration)) }
    else if subfolder == "fieldSets"@ { Some(("FieldSet"@, ComponentCategory::Configuration)) }
    else if subfolder == "listViews"@ { Some(("ListView"@, ComponentCategory::Configuration)) }
    else if subfolder == "sharingReasons"@ { Some(("SharingReason"@, ComponentCategory::Configuration)) }
    else if subfolder == "webLinks"@ { Some(("WebLink"@, ComponentCategory::Configuration)) }
    else { None }
}

/// Position of the first part at or after `from` that names a generic metadata folder.
pub open spec fn first_generic_folder(parts: Seq<Seq<char>>, from: int) -> Option<int>
    decreases parts.len() - from,
{
    if from < 0 || from >= parts.len() {
        None
    } else if spec_generic_metadata_type(parts[from]) is Some {
        Some(from)
    } else {
        first_generic_folder(parts, from + 1)
    }
}

/// A component of a generic metadata folder: the file must sit directly in it.
pub open spec fn spec_classify_generic(parts: Seq<Seq<char>>) -> Option<(Seq<char>, Seq<char>, ComponentCategory)> {
    match first_generic_folder(parts, 0) {
        None => None,
        Some(i) => if i + 1 != parts.len() - 1 {
            None
        } else {
            Some((spec_generic_metadata_type(parts[i]).unwrap(), member_name(parts.last()), ComponentCategory::Configuration))
        },
    }
}

/// The name of an Apex source file `<name><extension>` or its sidecar
/// `<name><extension>-meta.xml` directly inside `folder`, if the file is one.
pub open spec fn apex_file_name(parts: Seq<Seq<char>>, folder: Seq<char>, extension: Seq<char>) -> Option<Seq<char>> {
    let file = parts.last();
    let sidecar = extension + "-meta.xml"@;
    match position_of(parts, folder, 0) {
        Some(i) => if i + 1 == parts.len() - 1 && (ends_with(file, extension) || ends_with(file, sidecar)) {
            Some(if ends_with(file, sidecar) { strip_suffix(file, sidecar) } else { strip_suffix(file, extension) })
        } else {
            None
        },
        None => None,
    }
}

/// The component type, full name and category of a package file, given the
/// normal parts of its relative path; the file's name is its role.
///
/// Apex classes and triggers sit directly in `classes` and `triggers`. An
/// object is `objects/<object>/<object>.object-meta.xml`, and its fields,
/// record types and the like sit one subfolder deeper, named
/// `<object>.<member>`. Other components sit directly in a folder named for
/// their type.
pub open spec fn spec_classify(parts: Seq<Seq<char>>) -> Option<(Seq<char>, Seq<char>, ComponentCategory)> {
    if parts.len() == 0 {
        None
    } else if apex_file_name(parts, "classes"@, ".cls"@) is Some {
        Some(("ApexClass"@, apex_file_name(parts, "classes"@, ".cls"@).unwrap(), ComponentCategory::Code))
    } else if apex_file_name(parts, "triggers"@, ".trigger"@) is Some {
        Some(("ApexTrigger"@, apex_file_name(parts, "triggers"@, ".trigger"@).unwrap(), ComponentCategory::Code))
    } else if position_of(parts, "objects"@, 0) is Some {
        let i = position_of(parts, "objects"@, 0).unwrap();
        let file = parts.last();
        if i + 1 >= parts.len() {
            None
        } else if i + 2 == parts.len() - 1 && (ends_with(file, ".object-meta.xml"@) || ends_with(file, ".object"@)) {
            Some(("CustomObject"@, parts[i + 1], ComponentCategory::Schema))
        } else if i + 2 >= parts.len() {
            None
        } else if i + 3 == parts.len() - 1 {
            match spec_object_child(parts[i + 2]) {
                Some((metadata_type, category)) => Some(
                    (metadata_type, parts[i + 1] + seq!['.'] + member_name(file), category),
                ),
                None => None,
            }
        } else {
            spec_classify_generic(parts)
        }
    } else {
        spec_classify_generic(parts)
    }
}

/// The characters of each part.
pub open spec fn part_texts(parts: Seq<String>) -> Seq<Seq<char>> {
    Seq::new(parts.len(), |i: int| parts[i]@)
}

/// Position of the first part that spells `name`.
fn find_part(parts: &Vec<Vec<char>>, name: &str) -> (result: Option<usize>)
    ensures
        match result {
            Some(i) => position_of(Seq::new(parts@.len(), |k: int| parts@[k]@), name@, 0) == Some(i as int),
            None => position_of(Seq::new(parts@.len(), |k: int| parts@[k]@), name@, 0) is None,
        },
{
    let ghost texts = Seq::new(parts@.len(), |k: int| parts@[k]@);
    let mut i: usize = 0;
    while i < parts.len()
        invariant
            i <= parts@.len(),
            texts == Seq::new(parts@.len(), |k: int| parts@[k]@),
            position_of(texts, name@, 0) == position_of(texts, name@, i as int),
        decreases parts@.len() - i,
    {
        if chars_are(parts[i].as_slice(), name) {
            return Some(i);
        }
        i += 1;
    }
    None
}

/// The metadata type stored in a folder of one file per component.
fn generic_metadata_type(folder: &[char]) -> (result: Option<&'static str>)
    ensures
        match result {
            Some(t) => spec_generic_metadata_type(folder@) == Some(t@),
            None => spec_generic_metadata_type(folder@) is None,
        },
{
    if chars_are(folder, "applications") { Some("CustomApplication") }
    else if chars_are(folder, "customMetadata") { Some("CustomMetadata") }
    else if chars_are(folder, "flows") { Some("Flow") }
    else if chars_are(folder, "groups") { Some("Group") }
    else if chars_are(folder, "labels") { Some("CustomLabels") }
    else if chars_are(folder, "layouts") { Some("Layout") }
    else if chars_are(folder, "namedCredentials") { Some("NamedCredential") }
    else if chars_are(folder, "permissionsets") { Some("PermissionSet") }
    else if chars_are(folder, "profiles") { Some("Profile") }
    else if chars_are(folder, "queues") { Some("Queue") }
    else if chars_are(folder, "remoteSiteSettings") { Some("RemoteSiteSetting") }
    else if chars_are(folder, "roles") { Some("Role") }
    else if chars_are(folder, "settings") { Some("Settings") }
    else if chars_are(folder, "tabs") { Some("CustomTab") }
    else if chars_are(folder, "workflows") { Some("Workflow") }
    else { None }
}

/// The metadata type and category of a component in an object's subfolder.
fn object_child(subfolder: &[char]) -> (result: Option<(&'static str, ComponentCategory)>)
    ensures
        match result {
            Some((t, c)) => spec_object_child(subfolder@) == Some((t@, c)),
            None => spec_object_child(subfolder@) is None,
        },
{
    if chars_are(subfolder, "fields") { Some(("CustomField", ComponentCategory::Schema)) }
    else if chars_are(subfolder, "indexes") { Some(("Index", ComponentCategory::Schema)) }
    else if chars_are(subfolder, "recordTypes") { Some(("RecordType", ComponentCategory::Configuration)) }
    else if chars_are(subfolder, "validationRules") { Some(("ValidationRule", ComponentCategory::Configuration)) }
    else if chars_are(subfolder, "businessProcesses") { Some(("BusinessProcess", ComponentCategory::Configuration)) }
    else if chars_are(subfolder, "compactLayouts") { Some(("CompactLayout", ComponentCategory::Configuration)) }
    else if chars_are(subfolder, "fieldSets") { Some(("FieldSet", ComponentCategory::Configuration)) }
    else if chars_are(subfolder, "listViews") { Some(("ListView", ComponentCategory::Configuration)) }
    else if chars_are(subfolder, "sharingReasons") { Some(("SharingReason", ComponentCategory::Configuration)) }
    else if chars_are(subfolder, "webLinks") { Some(("WebLink", ComponentCategory::Configuration)) }
    else { None }
}

/// The member a metadata file stands for.
fn metadata_member_name(file: &[char]) -> (result: Vec<char>)
    ensures
        result@ == member_name(file@),
{
    let source = if chars_end_with(file, "-meta.xml") {
        proof {
            reveal_strlit("-meta.xml");
        }
        slice_chars(file, 0, file.len() - 9)
    } else {
        slice_chars(file, 0, file.len())
    };
    proof {
        assert(source@ =~= (if ends_with(file@, "-meta.xml"@) { strip_suffix(file@, "-meta.xml"@) } else { file@ }));
    }
    match find_char(source.as_slice(), '.') {
        Some(dot) => slice_chars(source.as_slice(), 0, dot),
        None => source,
    }
}

/// The characters of each part, in order.
fn part_chars(parts: &[String]) -> (result: Vec<Vec<char>>)
    ensures
        Seq::new(result@.len(), |k: int| result@[k]@) == part_texts(parts@),
{
    let mut texts: Vec<Vec<char>> = Vec::new();
    let mut i: usize = 0;
    while i < parts.len()
        invariant
            i <= parts@.len(),
            texts@.len() == i,
            forall|k: int| 0 <= k < i ==> #[trigger] texts@[k]@ == parts@[k]@,
        decreases parts@.len() - i,
    {
        texts.push(chars_of(parts[i].as_str()));
        i += 1;
    }
    assert(Seq::new(texts@.len(), |k: int| texts@[k]@) =~= part_texts(parts@));
    texts
}

/// The name of an Apex source file or its sidecar directly inside `folder`.
fn apex_name(texts: &Vec<Vec<char>>, folder: &str, extension: &str, sidecar: &str) -> (result: Option<Vec<char>>)
    requires
        texts@.len() > 0,
        sidecar@ == extension@ + "-meta.xml"@,
    ensures
        match apex_file_name(Seq::new(texts@.len(), |k: int| texts@[k]@), folder@, extension@) {
            Some(name) => result matches Some(found) && found@ == name,
            None => result is None,
        },
{
    let ghost parts = Seq::new(texts@.len(), |k: int| texts@[k]@);
    let last = texts.len() - 1;
    let file = texts[last].as_slice();
    assert(file@ == parts.last());
    match find_part(texts, folder) {
        Some(i) => {
            if i < last && i + 1 == last {
                if chars_end_with(file, sidecar) {
                    let suffix = chars_of(sidecar);
                    return Some(slice_chars(file, 0, file.len() - suffix.len()));
                }
                if chars_end_with(file, extension) {
                    let suffix = chars_of(extension);
                    return Some(slice_chars(file, 0, file.len() - suffix.len()));
                }
            }
            None
        },
        None => None,
    }
}

/// A classified path with the given type, name and category; the file's name is its role.
fn classified(metadata_type: &str, full_name: &[char], category: ComponentCategory, role: &[char]) -> (result: ClassifiedPath)
    ensures
        result.key.metadata_type@ == metadata_type@,
        result.key.full_name@ == full_name@,
        result.category == category,
        result.role@ == role@,
{
    ClassifiedPath {
        key: ComponentKey { metadata_type: metadata_type.to_owned(), full_name: string_from_chars(full_name) },
        category,
        role: string_from_chars(role),
    }
}

/// The first part that names a generic metadata folder.
fn find_generic_folder(texts: &Vec<Vec<char>>) -> (result: Option<(usize, &'static str)>)
    ensures
        match result {
            Some((i, t)) => first_generic_folder(Seq::new(texts@.len(), |k: int| texts@[k]@), 0) == Some(i as int)
                && spec_generic_metadata_type(texts@[i as int]@) == Some(t@),
            None => first_generic_folder(Seq::new(texts@.len(), |k: int| texts@[k]@), 0) is None,
        },
{
    let ghost parts = Seq::new(texts@.len(), |k: int| texts@[k]@);
    let mut i: usize = 0;
    while i < texts.len()
        invariant
            i <= texts@.len(),
            parts == Seq::new(texts@.len(), |k: int| texts@[k]@),
            first_generic_folder(parts, 0) == first_generic_folder(parts, i as int),
        decreases texts@.len() - i,
    {
        if let Some(metadata_type) = generic_metadata_type(texts[i].as_slice()) {
            return Some((i, metadata_type));
        }
        i += 1;
    }
    None
}

/// The component of a file directly inside a generic metadata folder.
fn classify_generic(texts: &Vec<Vec<char>>) -> (result: Option<ClassifiedPath>)
    requires
        texts@.len() > 0,
    ensures
        match spec_classify_generic(Seq::new(texts@.len(), |k: int| texts@[k]@)) {
            None => result is None,
            Some((metadata_type, full_name, category)) => result matches Some(c) && c.key.metadata_type@
                == metadata_type && c.key.full_name@ == full_name && c.category == category && c.role@
                == texts@.last()@,
        },
{
    let ghost parts = Seq::new(texts@.len(), |k: int| texts@[k]@);
    let last = texts.len() - 1;
    let file = texts[last].as_slice();
    assert(file@ == parts.last());
    let (index, metadata_type) = match find_generic_folder(texts) {
        Some(found) => found,
        None => return None,
    };
    if !(index < last && index + 1 == last) {
        return None;
    }
    let name = metadata_member_name(file);
    // every generic folder holds configuration components
    let category = ComponentCategory::Configuration;
    Some(classified(metadata_type, name.as_slice(), category, file))
}

/// The component a package file belongs to, given the normal parts of its
/// path relative to the package root (no `.`, `..`, root or empty parts);
/// `None` for a file that belongs to no modeled component.
pub fn classify_component_path(parts: &[String]) -> (result: Option<ClassifiedPath>)
    ensures
        match spec_classify(part_texts(parts@)) {
            None => result is None,
            Some((metadata_type, full_name, category)) => result matches Some(c) && c.key.metadata_type@
                == metadata_type && c.key.full_name@ == full_name && c.category == category && c.role@
                == parts@.last()@,
        },
{
    if parts.len() == 0 {
        return None;
    }
    let texts = part_chars(parts);
    let ghost p = part_texts(parts@);
    let last = texts.len() - 1;
    let file = texts[last].as_slice();
    assert(file@ == p.last());
    proof {
        reveal_strlit("-meta.xml");
        reveal_strlit(".cls");
        reveal_strlit(".cls-meta.xml");
        reveal_strlit(".trigger");
        reveal_strlit(".trigger-meta.xml");
        assert(".cls-meta.xml"@ =~= ".cls"@ + "-meta.xml"@);
        assert(".trigger-meta.xml"@ =~= ".trigger"@ + "-meta.xml"@);
    }
    if let Some(name) = apex_name(&texts, "classes", ".cls", ".cls-meta.xml") {
        return Some(classified("ApexClass", name.as_slice(), ComponentCategory::Code, file));
    }
    if let Some(name) = apex_name(&texts, "triggers", ".trigger", ".trigger-meta.xml") {
        return Some(classified("ApexTrigger", name.as_slice(), ComponentCategory::Code, file));
    }
    if let Some(index) = find_part(&texts, "objects") {
        if index >= last {
            return None;
        }
        let object = texts[index + 1].as_slice();
        if index + 2 == last && (chars_end_with(file, ".object-meta.xml") || chars_end_with(file, ".object")) {
            return Some(classified("CustomObject", object, ComponentCategory::Schema, file));
        }
        if index + 1 >= last {
            return None;
        }
        if index + 3 == last {
            let member = metadata_member_name(file);
            let (metadata_type, category) = match object_child(texts[index + 2].as_slice()) {
                Some(child) => child,
                None => return None,
            };
            let mut full_name: Vec<char> = Vec::new();
            push_chars(&mut full_name, object);
            full_name.push('.');
            push_chars(&mut full_name, member.as_slice());
            assert(full_name@ =~= object@ + seq!['.'] + member@);
            return Some(classified(metadata_type, full_name.as_slice(), category, file));
        }
    }
    classify_generic(&texts)
}

/// How an org differs from the local inventory for one component.
#[derive(Clone, Copy, Debug, PartialEq, Eq, Structural)]
pub enum DriftKind {
    MissingInOrg,
    UnexpectedInOrg,
    ContentMismatch,
}

/// One component whose org state differs from the local one.
#[derive(Clone, Debug, PartialEq, Eq)]
pub struct DriftFinding {
    pub component: String,
    pub category: ComponentCategory,
    pub kind: DriftKind,
    pub local_sha256: Option<String>,
    pub org_sha256: Option<String>,
}

/// The identity of a component as texts: its metadata type and full name.
pub open spec fn component_key(component: MetadataComponent) -> (Seq<char>, Seq<char>) {
    (component.metadata_type@, component.full_name@)
}

/// Components are ordered by type, then by full name.
pub open spec fn key_lt(a: (Seq<char>, Seq<char>), b: (Seq<char>, Seq<char>)) -> bool {
    text_lt(a.0, b.0) || (a.0 == b.0 && text_lt(a.1, b.1))
}

/// Whether `keys` ascend strictly.
pub open spec fn strictly_sorted(keys: Seq<(Seq<char>, Seq<char>)>) -> bool {
    forall|i: int, j: int| 0 <= i < j < keys.len() ==> key_lt(#[trigger] keys[i], #[trigger] keys[j])
}

/// The last of the first `n` components with `key` that drift detection
/// covers; code is left to the test comparison.
pub open spec fn drift_index(components: Seq<MetadataComponent>, key: (Seq<char>, Seq<char>), n: int) -> Option<int>
    decreases n,
{
    if n <= 0 || n > components.len() {
        None
    } else if component_key(components[n - 1]) == key && components[n - 1].category != ComponentCategory::Code {
        Some(n - 1)
    } else {
        drift_index(components, key, n - 1)
    }
}

/// The component that stands for `key` in an inventory, if drift covers one.
pub open spec fn drift_component(components: Seq<MetadataComponent>, key: (Seq<char>, Seq<char>)) -> Option<int> {
    drift_index(components, key, components.len() as int)
}

/// Whether the intended changes name `key`, in any ASCII case.
pub open spec fn is_ignored(changed: Seq<String>, key: (Seq<char>, Seq<char>)) -> bool {
    exists|j: int| 0 <= j < changed.len() && ascii_lower(#[trigger] changed[j]@) == ascii_lower(selector_text(key.0, key.1))
}

/// Whether the org differs from the local inventory at `key`.
pub open spec fn differs(local: Seq<MetadataComponent>, org: Seq<MetadataComponent>, key: (Seq<char>, Seq<char>)) -> bool {
    match (drift_component(local, key), drift_component(org, key)) {
        (Some(i), Some(j)) => local[i].sha256@ != org[j].sha256@,
        (Some(_), None) => true,
        (None, Some(_)) => true,
        (None, None) => false,
    }
}

/// Whether `finding` reports the difference at `key`: the component's
/// selector, the category and digests of the differing components, and how
/// they differ.
pub open spec fn reports(
    finding: DriftFinding,
    local: Seq<MetadataComponent>,
    org: Seq<MetadataComponent>,
    key: (Seq<char>, Seq<char>),
) -> bool {
    &&& finding.component@ == selector_text(key.0, key.1)
    &&& match (drift_component(local, key), drift_component(org, key)) {
        (Some(i), Some(j)) => {
            &&& finding.kind == DriftKind::ContentMismatch
            &&& finding.category == local[i].category
            &&& finding.local_sha256 matches Some(digest) && digest@ == local[i].sha256@
            &&& finding.org_sha256 matches Some(digest) && digest@ == org[j].sha256@
        },
        (Some(i), None) => {
            &&& finding.kind == DriftKind::MissingInOrg
            &&& finding.category == local[i].category
            &&& finding.local_sha256 matches Some(digest) && digest@ == local[i].sha256@
            &&& finding.org_sha256 is None
        },
        (None, Some(j)) => {
            &&& finding.kind == DriftKind::UnexpectedInOrg
            &&& finding.category == org[j].category
            &&& finding.local_sha256 is None
            &&& finding.org_sha256 matches Some(digest) && digest@ == org[j].sha256@
        },
        (None, None) => false,
    }
}

pub proof fn lemma_key_lt_asymmetric(a: (Seq<char>, Seq<char>), b: (Seq<char>, Seq<char>))
    ensures
        !(key_lt(a, b) && key_lt(b, a)),
        !key_lt(a, a),
{
    lemma_text_lt_asymmetric(a.0, b.0);
    lemma_text_lt_asymmetric(a.1, b.1);
}

pub proof fn lemma_key_lt_transitive(a: (Seq<char>, Seq<char>), b: (Seq<char>, Seq<char>), c: (Seq<char>, Seq<char>))
    requires
        key_lt(a, b),
        key_lt(b, c),
    ensures
        key_lt(a, c),
{
    if text_lt(a.0, b.0) && text_lt(b.0, c.0) {
        lemma_text_lt_transitive(a.0, b.0, c.0);
    } else if text_lt(a.0, b.0) {
    } else if text_lt(b.0, c.0) {
    } else {
        lemma_text_lt_transitive(a.1, b.1, c.1);
    }
}

pub proof fn lemma_key_lt_total(a: (Seq<char>, Seq<char>), b: (Seq<char>, Seq<char>))
    requires
        a != b,
    ensures
        key_lt(a, b) || key_lt(b, a),
{
    if a.0 != b.0 {
        lemma_text_lt_total(a.0, b.0);
    } else {
        lemma_text_lt_total(a.1, b.1);
    }
}

/// The key texts of a list of keys.
pub open spec fn key_texts(keys: Seq<(Vec<char>, Vec<char>)>) -> Seq<(Seq<char>, Seq<char>)> {
    Seq::new(keys.len(), |i: int| (keys[i].0@, keys[i].1@))
}

/// Whether `findings` reports, one by one and in ascending order of `keys`,
/// the components that differ and that no intended change names.
pub open spec fn reports_drift(
    findings: Seq<DriftFinding>,
    local: Seq<MetadataComponent>,
    org: Seq<MetadataComponent>,
    changed: Seq<String>,
    keys: Seq<(Seq<char>, Seq<char>)>,
) -> bool {
    &&& strictly_sorted(keys)
    &&& forall|k: (Seq<char>, Seq<char>)| #[trigger] keys.contains(k) <==> (differs(local, org, k) && !is_ignored(changed, k))
    &&& findings.len() == keys.len()
    &&& forall|i: int| 0 <= i < keys.len() ==> reports(#[trigger] findings[i], local, org, keys[i])
}

/// Whether key `a` comes before key `b`.
fn key_less(a0: &[char], a1: &[char], b0: &[char], b1: &[char]) -> (result: bool)
    ensures
        result == key_lt((a0@, a1@), (b0@, b1@)),
{
    if chars_lt(a0, b0) {
        return true;
    }
    chars_equal(a0, b0) && chars_lt(a1, b1)
}

/// Adds a key to a strictly ascending list unless it is already there.
fn insert_key(keys: &mut Vec<(Vec<char>, Vec<char>)>, k0: &[char], k1: &[char])
    requires
        strictly_sorted(key_texts(old(keys)@)),
    ensures
        strictly_sorted(key_texts(final(keys)@)),
        forall|k: (Seq<char>, Seq<char>)| key_texts(final(keys)@).contains(k) <==> (key_texts(old(keys)@).contains(k) || k
            == (k0@, k1@)),
{
    let ghost before = key_texts(keys@);
    let ghost key = (k0@, k1@);
    let mut p: usize = 0;
    while p < keys.len() && key_less(keys[p].0.as_slice(), keys[p].1.as_slice(), k0, k1)
        invariant
            p <= keys@.len(),
            before == key_texts(keys@),
            key == (k0@, k1@),
            forall|q: int| 0 <= q < p ==> key_lt(#[trigger] before[q], key),
        decreases keys@.len() - p,
    {
        p += 1;
    }
    if p < keys.len() && chars_equal(keys[p].0.as_slice(), k0) && chars_equal(keys[p].1.as_slice(), k1) {
        assert(before[p as int] == key);
        return;
    }
    proof {
        if p < before.len() {
            assert(!key_lt(before[p as int], key));
            lemma_key_lt_total(before[p as int], key);
            assert(key_lt(key, before[p as int]));
        }
    }
    let entry = (slice_chars(k0, 0, k0.len()), slice_chars(k1, 0, k1.len()));
    assert(entry.0@ =~= k0@);
    assert(entry.1@ =~= k1@);
    keys.insert(p, entry);
    let ghost after = key_texts(keys@);
    assert(after =~= before.insert(p as int, key));
    assert forall|i: int, j: int| 0 <= i < j < after.len() implies key_lt(#[trigger] after[i], #[trigger] after[j]) by {
        if j < p {
        } else if j == p {
        } else if i < p {
            assert(after[j] == before[j - 1]);
            if j - 1 > p {
                lemma_key_lt_transitive(key, before[p as int], before[j - 1]);
            }
            lemma_key_lt_transitive(before[i], key, before[j - 1]);
        } else if i == p {
            assert(after[j] == before[j - 1]);
            if j - 1 > p {
                lemma_key_lt_transitive(key, before[p as int], before[j - 1]);
            }
        } else {
            assert(after[i] == before[i - 1]);
            assert(after[j] == before[j - 1]);
        }
    }
    assert forall|k: (Seq<char>, Seq<char>)| after.contains(k) <==> (before.contains(k) || k == key) by {
        if after.contains(k) {
            let i = choose|i: int| 0 <= i < after.len() && after[i] == k;
            if i < p {
                assert(before[i] == k);
            } else if i > p {
                assert(before[i - 1] == k);
            }
        }
        if before.contains(k) {
            let i = choose|i: int| 0 <= i < before.len() && before[i] == k;
            if i < p {
                assert(after[i] == k);
            } else {
                assert(after[i + 1] == k);
            }
        }
        if k == key {
            assert(after[p as int] == k);
        }
    }
}

/// Whether component `c` has the key `k0:k1` and is covered by drift detection.
fn drift_match(component: &MetadataComponent, k0: &[char], k1: &[char]) -> (result: bool)
    ensures
        result == (component_key(*component) == (k0@, k1@) && component.category != ComponentCategory::Code),
{
    if matches!(component.category, ComponentCategory::Code) {
        return false;
    }
    let metadata_type = chars_of(component.metadata_type.as_str());
    let full_name = chars_of(component.full_name.as_str());
    chars_equal(metadata_type.as_slice(), k0) && chars_equal(full_name.as_slice(), k1)
}

/// The index of the component that stands for the key `k0:k1`, if any.
fn find_drift_component(components: &Vec<MetadataComponent>, k0: &[char], k1: &[char]) -> (result: Option<usize>)
    ensures
        match result {
            Some(i) => drift_component(components@, (k0@, k1@)) == Some(i as int) && i < components@.len(),
            None => drift_component(components@, (k0@, k1@)) is None,
        },
{
    let mut found: Option<usize> = None;
    let mut i: usize = 0;
    while i < components.len()
        invariant
            i <= components@.len(),
            match found {
                Some(f) => drift_index(components@, (k0@, k1@), i as int) == Some(f as int) && f < i,
                None => drift_index(components@, (k0@, k1@), i as int) is None,
            },
        decreases components@.len() - i,
    {
        if drift_match(&components[i], k0, k1) {
            found = Some(i);
        }
        i += 1;
    }
    found
}

/// Adds the keys of the components that drift detection covers.
fn add_scope_keys(keys: &mut Vec<(Vec<char>, Vec<char>)>, components: &Vec<MetadataComponent>)
    requires
        strictly_sorted(key_texts(old(keys)@)),
    ensures
        strictly_sorted(key_texts(final(keys)@)),
        forall|k: (Seq<char>, Seq<char>)| key_texts(final(keys)@).contains(k) <==> (key_texts(old(keys)@).contains(k)
            || drift_component(components@, k) is Some),
{
    let ghost start = key_texts(keys@);
    let mut i: usize = 0;
    while i < components.len()
        invariant
            i <= components@.len(),
            strictly_sorted(key_texts(keys@)),
            forall|k: (Seq<char>, Seq<char>)| key_texts(keys@).contains(k) <==> (start.contains(k) || drift_index(
                components@,
                k,
                i as int,
            ) is Some),
        decreases components@.len() - i,
    {
        let component = &components[i];
        let ghost before = key_texts(keys@);
        let ghost n = i as int;
        let inserted = !matches!(component.category, ComponentCategory::Code);
        if inserted {
            let metadata_type = chars_of(component.metadata_type.as_str());
            let full_name = chars_of(component.full_name.as_str());
            insert_key(keys, metadata_type.as_slice(), full_name.as_slice());
        }
        i += 1;
        proof {
            assert forall|k: (Seq<char>, Seq<char>)| key_texts(keys@).contains(k) <==> (start.contains(k)
                || drift_index(components@, k, i as int) is Some) by {
                assert(before.contains(k) <==> (start.contains(k) || drift_index(components@, k, n) is Some));
                assert(drift_index(components@, k, i as int) == (if component_key(components@[n]) == k
                    && components@[n].category != ComponentCategory::Code {
                    Some(n)
                } else {
                    drift_index(components@, k, n)
                }));
                if !inserted {
                    assert(key_texts(keys@) == before);
                }
            }
        }
    }
}

/// Whether one of the lower-cased intended changes equals `selector`.
fn is_ignored_selector(lowered: &Vec<Vec<char>>, selector: &[char]) -> (result: bool)
    ensures
        result == exists|j: int| 0 <= j < lowered@.len() && #[trigger] lowered@[j]@ == selector@,
{
    let mut j: usize = 0;
    while j < lowered.len()
        invariant
            j <= lowered@.len(),
            forall|m: int| 0 <= m < j ==> #[trigger] lowered@[m]@ != selector@,
        decreases lowered@.len() - j,
    {
        if chars_equal(lowered[j].as_slice(), selector) {
            return true;
        }
        j += 1;
    }
    false
}

/// The texts of `metadata_type:full_name`.
fn selector_chars(k0: &[char], k1: &[char]) -> (result: Vec<char>)
    ensures
        result@ == selector_text(k0@, k1@),
{
    let mut out: Vec<char> = Vec::new();
    push_chars(&mut out, k0);
    out.push(':');
    push_chars(&mut out, k1);
    assert(out@ =~= selector_text(k0@, k1@));
    out
}

/// Schema and configuration components whose org state differs from the local
/// inventory, in order of type and then full name. Code is left to the test
/// comparison, and components named by an intended change (`type:name` in any
/// ASCII case) are not drift. When an inventory lists a component more than
/// once, its last listing counts.
pub fn detect_drift(local: &OrgInventory, org: &OrgInventory, directly_changed: &[String]) -> (result: Vec<DriftFinding>)
    ensures
        exists|keys: Seq<(Seq<char>, Seq<char>)>| #[trigger] reports_drift(
            result@,
            local.components@,
            org.components@,
            directly_changed@,
            keys,
        ),
{
    let ghost lc = local.components@;
    let ghost oc = org.components@;
    let mut lowered: Vec<Vec<char>> = Vec::new();
    let mut j: usize = 0;
    while j < directly_changed.len()
        invariant
            j <= directly_changed@.len(),
            lowered@.len() == j,
            forall|m: int| 0 <= m < j ==> #[trigger] lowered@[m]@ == ascii_lower(directly_changed@[m]@),
        decreases directly_changed@.len() - j,
    {
        lowered.push(lower_chars(chars_of(directly_changed[j].as_str()).as_slice()));
        j += 1;
    }
    let mut keys: Vec<(Vec<char>, Vec<char>)> = Vec::new();
    add_scope_keys(&mut keys, &local.components);
    add_scope_keys(&mut keys, &org.components);
    let ghost all = key_texts(keys@);
    let mut findings: Vec<DriftFinding> = Vec::new();
    let ghost mut chosen: Seq<(Seq<char>, Seq<char>)> = Seq::empty();
    let ghost mut positions: Seq<int> = Seq::empty();
    let mut i: usize = 0;
    while i < keys.len()
        invariant
            i <= keys@.len(),
            all == key_texts(keys@),
            strictly_sorted(all),
            lc == local.components@,
            oc == org.components@,
            lowered@.len() == directly_changed@.len(),
            forall|m: int| 0 <= m < lowered@.len() ==> #[trigger] lowered@[m]@ == ascii_lower(directly_changed@[m]@),
            forall|k: (Seq<char>, Seq<char>)| all.contains(k) <==> (drift_component(lc, k) is Some || drift_component(oc, k) is Some),
            chosen.len() == positions.len(),
            findings@.len() == chosen.len(),
            forall|m: int| 0 <= m < positions.len() ==> 0 <= #[trigger] positions[m] < i && chosen[m] == all[positions[m]],
            forall|m: int, n: int| 0 <= m < n < positions.len() ==> #[trigger] positions[m] < #[trigger] positions[n],
            forall|k: (Seq<char>, Seq<char>)| #[trigger] chosen.contains(k) <==> (all.take(i as int).contains(k) && differs(lc, oc, k) && !is_ignored(directly_changed@, k)),
            forall|m: int| 0 <= m < chosen.len() ==> reports(#[trigger] findings@[m], lc, oc, chosen[m]),
        decreases keys@.len() - i,
    {
        let k0 = keys[i].0.as_slice();
        let k1 = keys[i].1.as_slice();
        let ghost key = (k0@, k1@);
        assert(key == all[i as int]);
        let selector = selector_chars(k0, k1);
        let lowered_selector = lower_chars(selector.as_slice());
        let ignored = is_ignored_selector(&lowered, lowered_selector.as_slice());
        assert(ignored == is_ignored(directly_changed@, key)) by {
            if ignored {
                let m = choose|m: int| 0 <= m < lowered@.len() && #[trigger] lowered@[m]@ == lowered_selector@;
                assert(ascii_lower(directly_changed@[m]@) == ascii_lower(selector_text(key.0, key.1)));
            }
            if is_ignored(directly_changed@, key) {
                let m = choose|m: int| 0 <= m < directly_changed@.len() && ascii_lower(#[trigger] directly_changed@[m]@)
                    == ascii_lower(selector_text(key.0, key.1));
                assert(lowered@[m]@ == lowered_selector@);
            }
        }
        let local_index = find_drift_component(&local.components, k0, k1);
        let org_index = find_drift_component(&org.components, k0, k1);
        let finding = if ignored {
            None
        } else {
            match (local_index, org_index) {
                (Some(l), Some(o)) => {
                    let same = chars_equal(
                        chars_of(local.components[l].sha256.as_str()).as_slice(),
                        chars_of(org.components[o].sha256.as_str()).as_slice(),
                    );
                    if same {
                        None
                    } else {
                        Some(DriftFinding {
                            component: string_from_chars(selector.as_slice()),
                            category: local.components[l].category,
                            kind: DriftKind::ContentMismatch,
                            local_sha256: Some(local.components[l].sha256.clone()),
                            org_sha256: Some(org.components[o].sha256.clone()),
                        })
                    }
                },
                (Some(l), None) => Some(DriftFinding {
                    component: string_from_chars(selector.as_slice()),
                    category: local.components[l].category,
                    kind: DriftKind::MissingInOrg,
                    local_sha256: Some(local.components[l].sha256.clone()),
                    org_sha256: None,
                }),
                (None, Some(o)) => Some(DriftFinding {
                    component: string_from_chars(selector.as_slice()),
                    category: org.components[o].category,
                    kind: DriftKind::UnexpectedInOrg,
                    local_sha256: None,
                    org_sha256: Some(org.components[o].sha256.clone()),
                }),
                (None, None) => None,
            }
        };
        assert(finding is Some <==> (differs(lc, oc, key) && !is_ignored(directly_changed@, key)));
        let ghost before_chosen = chosen;
        let ghost before_positions = positions;
        let ghost found = finding is Some;
        if let Some(finding) = finding {
            assert(reports(finding, lc, oc, key));
            findings.push(finding);
            proof {
                chosen = chosen.push(key);
                positions = positions.push(i as int);
            }
        }
        proof {
            let before_taken = all.take(i as int);
            let taken = all.take(i + 1);
            assert(taken =~= before_taken.push(key));
            assert(found ==> chosen == before_chosen.push(key));
            assert(!found ==> chosen == before_chosen);
            assert forall|k: (Seq<char>, Seq<char>)| #[trigger] chosen.contains(k) <==> (taken.contains(k) && differs(
                lc,
                oc,
                k,
            ) && !is_ignored(directly_changed@, k)) by {
                if chosen.contains(k) {
                    let m = choose|m: int| 0 <= m < chosen.len() && chosen[m] == k;
                    if m < before_chosen.len() {
                        assert(before_chosen[m] == k);
                        assert(before_chosen.contains(k));
                        let n = choose|n: int| 0 <= n < before_taken.len() && before_taken[n] == k;
                        assert(taken[n] == k);
                    } else {
                        assert(k == key);
                        assert(taken[i as int] == k);
                    }
                }
                if taken.contains(k) && differs(lc, oc, k) && !is_ignored(directly_changed@, k) {
                    let m = choose|m: int| 0 <= m < taken.len() && #[trigger] taken[m] == k;
                    if m < i {
                        assert(before_taken[m] == k);
                        assert(before_chosen.contains(k));
                        let n = choose|n: int| 0 <= n < before_chosen.len() && before_chosen[n] == k;
                        assert(chosen[n] == k);
                    } else {
                        assert(k == key);
                        assert(found);
                        assert(chosen[chosen.len() - 1] == k);
                    }
                }
            }
        }
        i += 1;
    }
    proof {
        assert(all.take(all.len() as int) =~= all);
        assert forall|m: int, n: int| 0 <= m < n < chosen.len() implies key_lt(#[trigger] chosen[m], #[trigger] chosen[n]) by {
            assert(positions[m] < positions[n]);
        }
        assert forall|k: (Seq<char>, Seq<char>)| #[trigger] chosen.contains(k) <==> (differs(lc, oc, k) && !is_ignored(
            directly_changed@,
            k,
        )) by {
            if differs(lc, oc, k) {
                assert(drift_component(lc, k) is Some || drift_component(oc, k) is Some);
                assert(all.contains(k));
            }
        }
        assert(reports_drift(findings@, lc, oc, directly_changed@, chosen));
    }
    findings
}

} // verus!
verus! {

/// Drift never reports code, and never a component that an intended change names.
pub proof fn lemma_drift_is_scoped(
    findings: Seq<DriftFinding>,
    local: Seq<MetadataComponent>,
    org: Seq<MetadataComponent>,
    changed: Seq<String>,
    keys: Seq<(Seq<char>, Seq<char>)>,
)
    requires
        reports_drift(findings, local, org, changed, keys),
    ensures
        forall|i: int| 0 <= i < findings.len() ==> (#[trigger] findings[i]).category != ComponentCategory::Code,
        forall|i: int| 0 <= i < keys.len() ==> !is_ignored(changed, #[trigger] keys[i]),
{
    assert forall|i: int| 0 <= i < findings.len() implies (#[trigger] findings[i]).category != ComponentCategory::Code by {
        assert(reports(findings[i], local, org, keys[i]));
        lemma_drift_component_is_covered(local, keys[i], local.len() as int);
        lemma_drift_component_is_covered(org, keys[i], org.len() as int);
    }
    assert forall|i: int| 0 <= i < keys.len() implies !is_ignored(changed, #[trigger] keys[i]) by {
        assert(keys.contains(keys[i]));
    }
}

/// The component that stands for a key has that key and is not code.
proof fn lemma_drift_component_is_covered(components: Seq<MetadataComponent>, key: (Seq<char>, Seq<char>), n: int)
    ensures
        drift_index(components, key, n) matches Some(i) ==> 0 <= i < components.len() && component_key(components[i])
            == key && components[i].category != ComponentCategory::Code,
    decreases n,
{
    if n > 0 && n <= components.len() {
        lemma_drift_component_is_covered(components, key, n - 1);
    }
}

} // verus!

verus! {

/// The outcome of one test in a Salesforce check-only deployment.
#[derive(Clone, Debug, PartialEq, Eq)]
pub struct ValidationTest {
    pub name: String,
    pub outcome: String,
    pub message: Option<String>,
}

/// The result of a Salesforce check-only deployment.
#[derive(Clone, Debug, PartialEq, Eq)]
pub struct DeploymentValidation {
    pub success: bool,
    pub deployment_id: Option<String>,
    pub component_failures: Vec<String>,
    pub tests: Vec<ValidationTest>,
}

/// How one affected test ended locally and in the org.
#[derive(Clone, Debug, PartialEq, Eq)]
pub struct TestDifferential {
    pub name: String,
    pub local_outcome: String,
    pub org_outcome: String,
    pub matched: bool,
}

/// The last of the first `n` names equal to `key` once lower-cased, if any.
pub open spec fn last_named(names: Seq<Seq<char>>, key: Seq<char>, n: int) -> Option<int>
    decreases n,
{
    if n <= 0 || n > names.len() {
        None
    } else if ascii_lower(names[n - 1]) == key {
        Some(n - 1)
    } else {
        last_named(names, key, n - 1)
    }
}

/// The names of the local test results.
pub open spec fn local_names(local: Seq<(String, bool)>) -> Seq<Seq<char>> {
    Seq::new(local.len(), |i: int| local[i].0@)
}

/// The names of the org's test results.
pub open spec fn validation_names(tests: Seq<ValidationTest>) -> Seq<Seq<char>> {
    Seq::new(tests.len(), |i: int| tests[i].name@)
}

/// The comparison for one selected test: the local result recorded last under
/// its name in any ASCII case gives the displayed name and `pass` or `fail`
/// (`missing` and the selected name when there is none); the org result
/// recorded last under that name gives the org outcome (`missing` when there
/// is none); they match when the outcomes are the same text.
pub open spec fn differential(
    name: Seq<char>,
    local: Seq<(String, bool)>,
    org: Seq<ValidationTest>,
) -> (Seq<char>, Seq<char>, Seq<char>, bool) {
    let key = ascii_lower(name);
    let (display, local_outcome) = match last_named(local_names(local), key, local.len() as int) {
        Some(i) => (local[i].0@, if local[i].1 { "pass"@ } else { "fail"@ }),
        None => (name, "missing"@),
    };
    let org_outcome = match last_named(validation_names(org), key, org.len() as int) {
        Some(j) => org[j].outcome@,
        None => "missing"@,
    };
    (display, local_outcome, org_outcome, local_outcome == org_outcome)
}

/// Each comparison as plain values.
pub open spec fn differential_views(results: Seq<TestDifferential>) -> Seq<(Seq<char>, Seq<char>, Seq<char>, bool)> {
    Seq::new(results.len(), |i: int| (results[i].name@, results[i].local_outcome@, results[i].org_outcome@, results[i].matched))
}

/// The position of the last entry named `key` in any ASCII case.
fn find_last_named(names: &Vec<Vec<char>>, key: &Vec<char>) -> (result: Option<usize>)
    ensures
        result matches Some(i) ==> i < names@.len(),
        (match result {
            Some(i) => Some(i as int),
            None => None,
        }) == last_named(Seq::new(names@.len(), |k: int| names@[k]@), key@, names@.len() as int),
{
    let ghost texts = Seq::new(names@.len(), |k: int| names@[k]@);
    let mut n: usize = names.len();
    while n > 0
        invariant
            n <= names@.len(),
            texts == Seq::new(names@.len(), |k: int| names@[k]@),
            last_named(texts, key@, names@.len() as int) == last_named(texts, key@, n as int),
        decreases n,
    {
        let lower = lower_chars(names[n - 1].as_slice());
        if chars_equal(lower.as_slice(), key.as_slice()) {
            return Some(n - 1);
        }
        n -= 1;
    }
    None
}

/// Compares each selected test's local outcome (`true` for a pass) with the
/// org's, in the order of the selection.
pub fn compare_tests(
    selected_tests: &[String],
    local_tests: &[(String, bool)],
    org: &DeploymentValidation,
) -> (result: Vec<TestDifferential>)
    ensures
        differential_views(result@) == Seq::new(
            selected_tests@.len(),
            |i: int| differential(selected_tests@[i]@, local_tests@, org.tests@),
        ),
{
    let mut local_chars: Vec<Vec<char>> = Vec::new();
    let mut k: usize = 0;
    while k < local_tests.len()
        invariant
            k <= local_tests@.len(),
            local_chars@.len() == k,
            forall|j: int| 0 <= j < k ==> #[trigger] local_chars@[j]@ == local_tests@[j].0@,
        decreases local_tests@.len() - k,
    {
        local_chars.push(chars_of(local_tests[k].0.as_str()));
        k += 1;
    }
    assert(Seq::new(local_chars@.len(), |j: int| local_chars@[j]@) =~= local_names(local_tests@));
    let mut org_chars: Vec<Vec<char>> = Vec::new();
    let mut k: usize = 0;
    while k < org.tests.len()
        invariant
            k <= org.tests@.len(),
            org_chars@.len() == k,
            forall|j: int| 0 <= j < k ==> #[trigger] org_chars@[j]@ == org.tests@[j].name@,
        decreases org.tests@.len() - k,
    {
        org_chars.push(chars_of(org.tests[k].name.as_str()));
        k += 1;
    }
    assert(Seq::new(org_chars@.len(), |j: int| org_chars@[j]@) =~= validation_names(org.tests@));
    let mut out: Vec<TestDifferential> = Vec::new();
    let mut i: usize = 0;
    while i < selected_tests.len()
        invariant
            i <= selected_tests@.len(),
            Seq::new(local_chars@.len(), |j: int| local_chars@[j]@) == local_names(local_tests@),
            Seq::new(org_chars@.len(), |j: int| org_chars@[j]@) == validation_names(org.tests@),
            local_chars@.len() == local_tests@.len(),
            org_chars@.len() == org.tests@.len(),
            differential_views(out@) == Seq::new(
                i as nat,
                |j: int| differential(selected_tests@[j]@, local_tests@, org.tests@),
            ),
        decreases selected_tests@.len() - i,
    {
        let name = selected_tests[i].as_str();
        let key = lower_chars(chars_of(name).as_slice());
        let (display, local_outcome) = match find_last_named(&local_chars, &key) {
            Some(j) => (
                local_tests[j].0.clone(),
                if local_tests[j].1 { "pass" } else { "fail" },
            ),
            None => (name.to_string(), "missing"),
        };
        let org_outcome = match find_last_named(&org_chars, &key) {
            Some(j) => org.tests[j].outcome.clone(),
            None => "missing".to_string(),
        };
        let matched = chars_equal(chars_of(local_outcome).as_slice(), chars_of(org_outcome.as_str()).as_slice());
        let result = TestDifferential {
            name: display,
            local_outcome: local_outcome.to_string(),
            org_outcome,
            matched,
        };
        let ghost before = differential_views(out@);
        out.push(result);
        assert(differential_views(out@) =~= before.push(differential(selected_tests@[i as int]@, local_tests@, org.tests@)));
        assert(differential_views(out@) =~= Seq::new(
            (i + 1) as nat,
            |j: int| differential(selected_tests@[j]@, local_tests@, org.tests@),
        ));
        i += 1;
    }
    out
}

/// The number of comparisons among the first `n` that do not match.
pub open spec fn mismatched(results: Seq<TestDifferential>, n: int) -> nat
    decreases n,
{
    if n <= 0 {
        0
    } else {
        mismatched(results, n - 1) + if results[n - 1].matched { 0nat } else { 1nat }
    }
}

/// What blocks a release: a failed local CI run, a failed org validation,
/// drifted components, and affected tests whose outcomes differ, in that
/// order; a release is ready when nothing blocks it.
pub open spec fn spec_release_blockers(
    local_passed: bool,
    validation_passed: bool,
    drift: nat,
    mismatches: nat,
) -> Seq<Seq<char>> {
    (if local_passed { Seq::empty() } else { seq!["local hermetic CI did not pass"@] })
        + (if validation_passed { Seq::empty() } else { seq!["Salesforce check-only deployment did not pass"@] })
        + (if drift == 0 { Seq::empty() } else { seq![decimal(drift) + " unaffected schema/configuration components drifted"@] })
        + (if mismatches == 0 { Seq::empty() } else {
        seq![decimal(mismatches) + " affected test outcomes differ between local and Salesforce"@]
    })
}

/// Whether a comparison's outcomes differ.
pub open spec fn unmatched_result() -> spec_fn(TestDifferential) -> bool {
    |result: TestDifferential| !result.matched
}

/// The mismatch count is the number of comparisons whose outcomes do not
/// match: those whose `matched` flag is false.
pub proof fn lemma_mismatched_counts_unmatched(results: Seq<TestDifferential>)
    ensures
        mismatched(results, results.len() as int) == results.filter(unmatched_result()).len(),
    decreases results.len(),
{
    reveal(Seq::filter);
    if results.len() > 0 {
        let shorter = results.drop_last();
        let f = unmatched_result();
        lemma_mismatched_counts_unmatched(shorter);
        lemma_mismatched_prefix(results, shorter, shorter.len() as int);
        assert(results.filter(f) == (if f(results.last()) {
            shorter.filter(f).push(results.last())
        } else {
            shorter.filter(f)
        }));
        assert(results.last() == results[results.len() - 1]);
        assert(f(results.last()) == !results.last().matched);
    }
}

/// Counting over a prefix that two lists share gives the same count.
proof fn lemma_mismatched_prefix(results: Seq<TestDifferential>, prefix: Seq<TestDifferential>, n: int)
    requires
        0 <= n <= prefix.len(),
        n <= results.len(),
        forall|k: int| 0 <= k < n ==> results[k] == prefix[k],
    ensures
        mismatched(results, n) == mismatched(prefix, n),
    decreases n,
{
    if n > 0 {
        lemma_mismatched_prefix(results, prefix, n - 1);
    }
}

/// Nothing blocks a release exactly when local CI passed, the org
/// validation passed, nothing drifted, and every affected test's outcome
/// matches between local and Salesforce.
pub proof fn lemma_ready_exactly_when_all_match(
    local_passed: bool,
    validation_passed: bool,
    drift: nat,
    results: Seq<TestDifferential>,
)
    ensures
        spec_release_blockers(local_passed, validation_passed, drift, mismatched(results, results.len() as int)).len()
            == 0 <==> (local_passed && validation_passed && drift == 0 && forall|k: int|
            0 <= k < results.len() ==> (#[trigger] results[k]).matched),
{
    lemma_mismatched_counts_unmatched(results);
    let unmatched = results.filter(unmatched_result());
    if forall|k: int| 0 <= k < results.len() ==> (#[trigger] results[k]).matched {
        lemma_filter_none(results);
    } else {
        let k = choose|k: int| 0 <= k < results.len() && !(#[trigger] results[k]).matched;
        lemma_filter_keeps(results, k);
    }
}

/// With every comparison matched, none is unmatched.
proof fn lemma_filter_none(results: Seq<TestDifferential>)
    requires
        forall|k: int| 0 <= k < results.len() ==> (#[trigger] results[k]).matched,
    ensures
        results.filter(unmatched_result()).len() == 0,
    decreases results.len(),
{
    reveal(Seq::filter);
    if results.len() > 0 {
        let shorter = results.drop_last();
        assert forall|k: int| 0 <= k < shorter.len() implies (#[trigger] shorter[k]).matched by {
            assert(shorter[k] == results[k]);
        }
        lemma_filter_none(shorter);
        assert(results.last() == results[results.len() - 1]);
    }
}

/// An unmatched comparison is counted.
proof fn lemma_filter_keeps(results: Seq<TestDifferential>, k: int)
    requires
        0 <= k < results.len(),
        !results[k].matched,
    ensures
        results.filter(unmatched_result()).len() > 0,
    decreases results.len(),
{
    reveal(Seq::filter);
    if k < results.len() - 1 {
        let shorter = results.drop_last();
        assert(shorter[k] == results[k]);
        lemma_filter_keeps(shorter, k);
    } else {
        assert(results.last() == results[k]);
    }
}

/// The reasons a release is blocked, from the local CI result, the org
/// validation, the drift found and the test comparison.
pub fn release_blockers(
    local_passed: bool,
    validation: &DeploymentValidation,
    drift: &[DriftFinding],
    differential: &[TestDifferential],
) -> (result: Vec<String>)
    ensures
        texts_of(result@) == spec_release_blockers(
            local_passed,
            validation.success,
            drift@.len(),
            mismatched(differential@, differential@.len() as int),
        ),
{
    let mut mismatches: usize = 0;
    let mut i: usize = 0;
    while i < differential.len()
        invariant
            i <= differential@.len(),
            mismatches == mismatched(differential@, i as int),
            mismatches <= i,
        decreases differential@.len() - i,
    {
        if !differential[i].matched {
            mismatches += 1;
        }
        i += 1;
    }
    let mut blockers: Vec<String> = Vec::new();
    let ghost mut expected: Seq<Seq<char>> = Seq::empty();
    if !local_passed {
        blockers.push("local hermetic CI did not pass".to_string());
    }
    proof {
        expected = if local_passed { Seq::empty() } else { seq!["local hermetic CI did not pass"@] };
        assert(texts_of(blockers@) =~= expected);
    }
    if !validation.success {
        blockers.push("Salesforce check-only deployment did not pass".to_string());
    }
    proof {
        expected = expected + if validation.success { Seq::empty() } else {
            seq!["Salesforce check-only deployment did not pass"@]
        };
        assert(texts_of(blockers@) =~= expected);
    }
    if drift.len() > 0 {
        let mut text: Vec<char> = Vec::new();
        push_decimal(&mut text, drift.len());
        push_str(&mut text, " unaffected schema/configuration components drifted");
        blockers.push(string_from_chars(text.as_slice()));
    }
    proof {
        expected = expected + if drift@.len() == 0 { Seq::empty() } else {
            seq![decimal(drift@.len()) + " unaffected schema/configuration components drifted"@]
        };
        assert(texts_of(blockers@) =~= expected);
    }
    if mismatches > 0 {
        let mut text: Vec<char> = Vec::new();
        push_decimal(&mut text, mismatches);
        push_str(&mut text, " affected test outcomes differ between local and Salesforce");
        blockers.push(string_from_chars(text.as_slice()));
    }
    proof {
        expected = expected + if mismatches == 0 { Seq::empty() } else {
            seq![decimal(mismatches as nat) + " affected test outcomes differ between local and Salesforce"@]
        };
        assert(texts_of(blockers@) =~= expected);
    }
    blockers
}


/// Looks among an object's own entries for the first of `keys` that holds a
/// string.
pub open spec fn text_keys_probe(keys: Seq<Seq<char>>) -> spec_fn(Seq<(String, JsonValue)>) -> Option<JsonValue> {
    |entries: Seq<(String, JsonValue)>| first_text_entry(entries, keys)
}

/// The value of the first of `keys` whose entry holds a string.
pub open spec fn first_text_entry(entries: Seq<(String, JsonValue)>, keys: Seq<Seq<char>>) -> Option<JsonValue>
    decreases keys.len(),
{
    if keys.len() == 0 {
        None
    } else if as_text(entry_value(entries, keys[0])) is Some {
        entry_value(entries, keys[0])
    } else {
        first_text_entry(entries, keys.drop_first())
    }
}

/// The texts of string slices.
pub open spec fn str_texts(keys: Seq<&str>) -> Seq<Seq<char>> {
    Seq::new(keys.len(), |i: int| keys[i]@)
}

/// The value of the first of `keys` whose entry holds a string.
fn first_text_entry_of<'a>(entries: &'a Vec<(String, JsonValue)>, keys: &[&str]) -> (result: Option<&'a JsonValue>)
    ensures
        first_text_entry(entries@, str_texts(keys@)) == match result {
            Some(found) => Some(*found),
            None => None,
        },
{
    let mut i: usize = 0;
    assert(str_texts(keys@).skip(0) =~= str_texts(keys@));
    while i < keys.len()
        invariant
            i <= keys@.len(),
            first_text_entry(entries@, str_texts(keys@)) == first_text_entry(entries@, str_texts(keys@).skip(i as int)),
        decreases keys@.len() - i,
    {
        assert(str_texts(keys@).skip(i as int).drop_first() =~= str_texts(keys@).skip(i + 1));
        assert(str_texts(keys@).skip(i as int)[0] == keys@[i as int]@);
        let found = entry_of(entries, keys[i]);
        if text_of(found).is_some() {
            return found;
        }
        i += 1;
    }
    None
}

/// The first string held by an entry named by one of `keys`, searching in
/// document order and trying the keys in turn at each object.
pub fn find_string<'a>(value: &'a JsonValue, keys: &[&str]) -> (result: Option<&'a str>)
    ensures
        as_text(first_found(*value, text_keys_probe(str_texts(keys@)))) == match result {
            Some(text) => Some(text@),
            None => None,
        },
    decreases *value,
{
    match value {
        JsonValue::Object(entries) => {
            let own = first_text_entry_of(entries, keys);
            if own.is_some() {
                return text_of(own);
            }
            let mut i: usize = 0;
            assert(entries@.skip(0) =~= entries@);
            while i < entries.len()
                invariant
                    *value == JsonValue::Object(*entries),
                    i <= entries@.len(),
                    first_found(*value, text_keys_probe(str_texts(keys@))) == first_found_in_entries(
                        entries@,
                        text_keys_probe(str_texts(keys@)),
                    ),
                    first_found_in_entries(entries@, text_keys_probe(str_texts(keys@))) == first_found_in_entries(
                        entries@.skip(i as int),
                        text_keys_probe(str_texts(keys@)),
                    ),
                decreases entries@.len() - i,
            {
                assert(entries@.skip(i as int).drop_first() =~= entries@.skip(i + 1));
                assert(entries@.skip(i as int)[0] == entries@[i as int]);
                assert(decreases_to!(*value => entries@[i as int].1)) by {
                    assert(decreases_to!(*value => *entries));
                    assert(decreases_to!(*entries => entries@));
                    assert(decreases_to!(entries@ => entries@[i as int]));
                    assert(decreases_to!(entries@[i as int] => entries@[i as int].1));
                }
                if let Some(found) = find_string(&entries[i].1, keys) {
                    return Some(found);
                }
                proof {
                    lemma_found_text_is_text(entries@[i as int].1, text_keys_probe(str_texts(keys@)), str_texts(keys@));
                }
                i += 1;
            }
            None
        },
        JsonValue::Array(items) => {
            let mut i: usize = 0;
            assert(items@.skip(0) =~= items@);
            while i < items.len()
                invariant
                    *value == JsonValue::Array(*items),
                    i <= items@.len(),
                    first_found_in_items(items@, text_keys_probe(str_texts(keys@))) == first_found_in_items(
                        items@.skip(i as int),
                        text_keys_probe(str_texts(keys@)),
                    ),
                decreases items@.len() - i,
            {
                assert(items@.skip(i as int).drop_first() =~= items@.skip(i + 1));
                assert(items@.skip(i as int)[0] == items@[i as int]);
                assert(decreases_to!(*value => items@[i as int])) by {
                    assert(decreases_to!(*value => *items));
                    assert(decreases_to!(*items => items@));
                    assert(decreases_to!(items@ => items@[i as int]));
                }
                if let Some(found) = find_string(&items[i], keys) {
                    return Some(found);
                }
                proof {
                    lemma_found_text_is_text(items@[i as int], text_keys_probe(str_texts(keys@)), str_texts(keys@));
                }
                i += 1;
            }
            None
        },
        _ => None,
    }
}

/// What a keyed text search finds is a string.
proof fn lemma_first_text_entry_is_text(entries: Seq<(String, JsonValue)>, keys: Seq<Seq<char>>)
    ensures
        first_text_entry(entries, keys) is Some ==> as_text(first_text_entry(entries, keys)) is Some,
    decreases keys.len(),
{
    if keys.len() > 0 {
        lemma_first_text_entry_is_text(entries, keys.drop_first());
    }
}

/// What a keyed text search finds anywhere in a value is a string.
proof fn lemma_found_text_is_text(
    value: JsonValue,
    probe: spec_fn(Seq<(String, JsonValue)>) -> Option<JsonValue>,
    keys: Seq<Seq<char>>,
)
    requires
        probe == text_keys_probe(keys),
    ensures
        first_found(value, probe) is Some ==> as_text(first_found(value, probe)) is Some,
    decreases value, 2int,
{
    match value {
        JsonValue::Object(entries) => {
            lemma_first_text_entry_is_text(entries@, keys);
            lemma_found_text_in_entries(entries@, probe, keys);
        },
        JsonValue::Array(items) => {
            lemma_found_text_in_items(items@, probe, keys);
        },
        _ => {},
    }
}

proof fn lemma_found_text_in_entries(
    entries: Seq<(String, JsonValue)>,
    probe: spec_fn(Seq<(String, JsonValue)>) -> Option<JsonValue>,
    keys: Seq<Seq<char>>,
)
    requires
        probe == text_keys_probe(keys),
    ensures
        first_found_in_entries(entries, probe) is Some ==> as_text(first_found_in_entries(entries, probe)) is Some,
    decreases entries, 1int,
{
    if entries.len() > 0 {
        lemma_found_text_is_text(entries[0].1, probe, keys);
        lemma_found_text_in_entries(entries.drop_first(), probe, keys);
    }
}

proof fn lemma_found_text_in_items(
    items: Seq<JsonValue>,
    probe: spec_fn(Seq<(String, JsonValue)>) -> Option<JsonValue>,
    keys: Seq<Seq<char>>,
)
    requires
        probe == text_keys_probe(keys),
    ensures
        first_found_in_items(items, probe) is Some ==> as_text(first_found_in_items(items, probe)) is Some,
    decreases items, 1int,
{
    if items.len() > 0 {
        lemma_found_text_is_text(items[0], probe, keys);
        lemma_found_text_in_items(items.drop_first(), probe, keys);
    }
}


/// Whether a Salesforce CLI response reports success: the `success` flag of
/// its `result`, else its own `success` flag, else a `status` of `0`.
pub open spec fn spec_response_success(value: JsonValue) -> bool {
    match as_truth(match member(value, "result"@) {
        Some(result) => member(result, "success"@),
        None => None,
    }) {
        Some(success) => success,
        None => match as_truth(member(value, "success"@)) {
            Some(success) => success,
            None => as_signed(member(value, "status"@)) == Some(0i64),
        },
    }
}

/// Whether a Salesforce CLI response reports success.
pub fn response_success(value: &JsonValue) -> (result: bool)
    ensures
        result == spec_response_success(*value),
{
    let nested = match member_of(value, "result") {
        Some(result) => truth_of(member_of(result, "success")),
        None => None,
    };
    match nested {
        Some(success) => success,
        None => match truth_of(member_of(value, "success")) {
            Some(success) => success,
            None => signed_of(member_of(value, "status")) == Some(0i64),
        },
    }
}

/// The keys whose strings describe a failed response, in order of preference.
pub open spec fn message_keys() -> Seq<Seq<char>> {
    seq!["message"@, "name"@, "status"@]
}

/// What a failed Salesforce CLI response says: its first `message`, `name`
/// or `status` string, or a fixed text when it has none.
pub fn response_message(value: &JsonValue) -> (result: &str)
    ensures
        result@ == match as_text(first_found(*value, text_keys_probe(message_keys()))) {
            Some(text) => text,
            None => "unknown Salesforce CLI failure"@,
        },
{
    let keys: [&str; 3] = ["message", "name", "status"];
    proof {
        assert(str_texts(keys@) =~= message_keys());
    }
    match find_string(value, keys.as_slice()) {
        Some(text) => text,
        None => "unknown Salesforce CLI failure",
    }
}


/// A validation test as plain values: name, outcome, message.
pub open spec fn validation_view(test: ValidationTest) -> (Seq<char>, Seq<char>, Option<Seq<char>>) {
    (
        test.name@,
        test.outcome@,
        match test.message {
            Some(message) => Some(message@),
            None => None,
        },
    )
}

/// Each validation test as plain values.
pub open spec fn validation_views(tests: Seq<ValidationTest>) -> Seq<(Seq<char>, Seq<char>, Option<Seq<char>>)> {
    Seq::new(tests.len(), |i: int| validation_view(tests[i]))
}

/// The test that an object of a deployment response describes: its class
/// (`name` or `className`) and method (`methodName` or `MethodName`) must be
/// strings. An explicit outcome (`outcome` or `Outcome`) passes when it is
/// `pass` or `success` in any ASCII case; without one, a test with a stack
/// trace, message or problem fails and any other passes. Its message is the
/// `message` or else the `problem` string.
pub open spec fn validation_test_in(entries: Seq<(String, JsonValue)>) -> Option<(Seq<char>, Seq<char>, Option<Seq<char>>)> {
    let class = as_text(either(entry_value(entries, "name"@), entry_value(entries, "className"@)));
    let method = as_text(either(entry_value(entries, "methodName"@), entry_value(entries, "MethodName"@)));
    let explicit = as_text(either(entry_value(entries, "outcome"@), entry_value(entries, "Outcome"@)));
    match (class, method) {
        (Some(class), Some(method)) => Some(
            (
                class + "."@ + method,
                match explicit {
                    Some(outcome) => if eq_ignore_case(outcome, "pass"@) || eq_ignore_case(outcome, "success"@) {
                        "pass"@
                    } else {
                        "fail"@
                    },
                    None => if entry_value(entries, "stackTrace"@) is Some || entry_value(entries, "message"@) is Some
                        || entry_value(entries, "problem"@) is Some {
                        "fail"@
                    } else {
                        "pass"@
                    },
                },
                as_text(either(entry_value(entries, "message"@), entry_value(entries, "problem"@))),
            ),
        ),
        _ => None,
    }
}

/// The tests a deployment response describes, in document order.
pub open spec fn validation_tests(value: JsonValue) -> Seq<(Seq<char>, Seq<char>, Option<Seq<char>>)>
    decreases value,
{
    match value {
        JsonValue::Object(entries) => (match validation_test_in(entries@) {
            Some(test) => seq![test],
            None => Seq::empty(),
        }) + validation_tests_in_entries(entries@),
        JsonValue::Array(items) => validation_tests_in_items(items@),
        _ => Seq::empty(),
    }
}

/// The tests described within the members' values, in order.
pub open spec fn validation_tests_in_entries(entries: Seq<(String, JsonValue)>) -> Seq<(Seq<char>, Seq<char>, Option<Seq<char>>)>
    decreases entries,
{
    if entries.len() == 0 {
        Seq::empty()
    } else {
        validation_tests(entries[0].1) + validation_tests_in_entries(entries.drop_first())
    }
}

/// The tests described within the elements, in order.
pub open spec fn validation_tests_in_items(items: Seq<JsonValue>) -> Seq<(Seq<char>, Seq<char>, Option<Seq<char>>)>
    decreases items,
{
    if items.len() == 0 {
        Seq::empty()
    } else {
        validation_tests(items[0]) + validation_tests_in_items(items.drop_first())
    }
}

/// The first of two lookups that finds something.
fn either_of<'a>(first: Option<&'a JsonValue>, second: Option<&'a JsonValue>) -> (result: Option<&'a JsonValue>)
    ensures
        (match result {
            Some(found) => Some(*found),
            None => None,
        }) == either(
            match first {
                Some(found) => Some(*found),
                None => None,
            },
            match second {
                Some(found) => Some(*found),
                None => None,
            },
        ),
{
    match first {
        Some(value) => Some(value),
        None => second,
    }
}

/// Whether a text is the lower-case literal `literal` in any ASCII case.
fn is_ignoring_case(text: &str, literal: &str) -> (result: bool)
    requires
        ascii_lower(literal@) == literal@,
    ensures
        result == eq_ignore_case(text@, literal@),
{
    chars_equal(lower_chars(chars_of(text).as_slice()).as_slice(), chars_of(literal).as_slice())
}

/// The test that an object of a deployment response describes, if any.
fn validation_test_of(entries: &Vec<(String, JsonValue)>) -> (result: Option<ValidationTest>)
    ensures
        match result {
            Some(test) => Some(validation_view(test)),
            None => None,
        } == validation_test_in(entries@),
{
    let class = text_of(either_of(entry_of(entries, "name"), entry_of(entries, "className")));
    let method = text_of(either_of(entry_of(entries, "methodName"), entry_of(entries, "MethodName")));
    let explicit = text_of(either_of(entry_of(entries, "outcome"), entry_of(entries, "Outcome")));
    match (class, method) {
        (Some(class), Some(method)) => {
            proof {
                reveal_strlit("pass");
                reveal_strlit("success");
                assert(ascii_lower("pass"@) =~= "pass"@);
                assert(ascii_lower("success"@) =~= "success"@);
            }
            let passed = match explicit {
                Some(outcome) => is_ignoring_case(outcome, "pass") || is_ignoring_case(outcome, "success"),
                None => !(entry_of(entries, "stackTrace").is_some() || entry_of(entries, "message").is_some()
                    || entry_of(entries, "problem").is_some()),
            };
            let mut name: Vec<char> = Vec::new();
            push_str(&mut name, class);
            push_str(&mut name, ".");
            push_str(&mut name, method);
            let message = match text_of(either_of(entry_of(entries, "message"), entry_of(entries, "problem"))) {
                Some(message) => Some(message.to_string()),
                None => None,
            };
            Some(
                ValidationTest {
                    name: string_from_chars(name.as_slice()),
                    outcome: if passed { "pass".to_string() } else { "fail".to_string() },
                    message,
                },
            )
        },
        _ => None,
    }
}

/// Appends the tests a deployment response describes, in document order.
pub fn collect_validation_tests(value: &JsonValue, tests: &mut Vec<ValidationTest>)
    ensures
        validation_views(final(tests)@) == validation_views(old(tests)@) + validation_tests(*value),
    decreases *value,
{
    let ghost start = validation_views(tests@);
    match value {
        JsonValue::Object(entries) => {
            match validation_test_of(entries) {
                Some(test) => {
                    let ghost view = validation_view(test);
                    tests.push(test);
                    assert(validation_views(tests@) =~= start + seq![view]);
                },
                None => {
                    assert(validation_views(tests@) =~= start + Seq::empty());
                },
            }
            let mut i: usize = 0;
            assert(entries@.skip(0) =~= entries@);
            while i < entries.len()
                invariant
                    *value == JsonValue::Object(*entries),
                    i <= entries@.len(),
                    start + validation_tests(*value) == validation_views(tests@) + validation_tests_in_entries(
                        entries@.skip(i as int),
                    ),
                decreases entries@.len() - i,
            {
                assert(entries@.skip(i as int).drop_first() =~= entries@.skip(i + 1));
                assert(entries@.skip(i as int)[0] == entries@[i as int]);
                assert(decreases_to!(*value => entries@[i as int].1)) by {
                    assert(decreases_to!(*value => *entries));
                    assert(decreases_to!(*entries => entries@));
                    assert(decreases_to!(entries@ => entries@[i as int]));
                    assert(decreases_to!(entries@[i as int] => entries@[i as int].1));
                }
                let ghost before = validation_views(tests@);
                collect_validation_tests(&entries[i].1, tests);
                assert(before + validation_tests_in_entries(entries@.skip(i as int)) =~= validation_views(tests@)
                    + validation_tests_in_entries(entries@.skip(i + 1)));
                i += 1;
            }
            assert(validation_views(tests@) + validation_tests_in_entries(entries@.skip(i as int)) =~= validation_views(tests@));
        },
        JsonValue::Array(items) => {
            let mut i: usize = 0;
            assert(items@.skip(0) =~= items@);
            while i < items.len()
                invariant
                    *value == JsonValue::Array(*items),
                    i <= items@.len(),
                    start + validation_tests(*value) == validation_views(tests@) + validation_tests_in_items(
                        items@.skip(i as int),
                    ),
                decreases items@.len() - i,
            {
                assert(items@.skip(i as int).drop_first() =~= items@.skip(i + 1));
                assert(items@.skip(i as int)[0] == items@[i as int]);
                assert(decreases_to!(*value => items@[i as int])) by {
                    assert(decreases_to!(*value => *items));
                    assert(decreases_to!(*items => items@));
                    assert(decreases_to!(items@ => items@[i as int]));
                }
                let ghost before = validation_views(tests@);
                collect_validation_tests(&items[i], tests);
                assert(before + validation_tests_in_items(items@.skip(i as int)) =~= validation_views(tests@)
                    + validation_tests_in_items(items@.skip(i + 1)));
                i += 1;
            }
            assert(validation_views(tests@) + validation_tests_in_items(items@.skip(i as int)) =~= validation_views(tests@));
        },
        _ => {
            assert(start + validation_tests(*value) =~= validation_views(tests@));
        },
    }
}


/// The failure texts of a `componentFailures` value: each object gives its
/// `fullName` (or `component`) and its `problem` or `message` (or
/// `validation failed`); each string is a failure itself; arrays are read
/// element by element.
pub open spec fn failure_entries(value: JsonValue) -> Seq<Seq<char>>
    decreases value,
{
    match value {
        JsonValue::Object(entries) => seq![
            (match as_text(entry_value(entries@, "fullName"@)) {
                Some(name) => name,
                None => "component"@,
            }) + ": "@ + match as_text(either(entry_value(entries@, "problem"@), entry_value(entries@, "message"@))) {
                Some(problem) => problem,
                None => "validation failed"@,
            },
        ],
        JsonValue::Array(items) => failure_entries_in_items(items@),
        JsonValue::String(text) => seq![text@],
        _ => Seq::empty(),
    }
}

/// The failure texts of each element, in order.
pub open spec fn failure_entries_in_items(items: Seq<JsonValue>) -> Seq<Seq<char>>
    decreases items,
{
    if items.len() == 0 {
        Seq::empty()
    } else {
        failure_entries(items[0]) + failure_entries_in_items(items.drop_first())
    }
}

/// Appends the failure texts of a `componentFailures` value.
pub fn collect_failure_entries(value: &JsonValue, failures: &mut Vec<String>)
    ensures
        texts_of(final(failures)@) == texts_of(old(failures)@) + failure_entries(*value),
    decreases *value,
{
    let ghost start = texts_of(failures@);
    match value {
        JsonValue::Object(entries) => {
            let name = match text_of(entry_of(entries, "fullName")) {
                Some(name) => name,
                None => "component",
            };
            let problem = match text_of(either_of(entry_of(entries, "problem"), entry_of(entries, "message"))) {
                Some(problem) => problem,
                None => "validation failed",
            };
            let mut text: Vec<char> = Vec::new();
            push_str(&mut text, name);
            push_str(&mut text, ": ");
            push_str(&mut text, problem);
            failures.push(string_from_chars(text.as_slice()));
            assert(texts_of(failures@) =~= start + failure_entries(*value));
        },
        JsonValue::Array(items) => {
            let mut i: usize = 0;
            assert(items@.skip(0) =~= items@);
            while i < items.len()
                invariant
                    *value == JsonValue::Array(*items),
                    i <= items@.len(),
                    start + failure_entries(*value) == texts_of(failures@) + failure_entries_in_items(items@.skip(i as int)),
                decreases items@.len() - i,
            {
                assert(items@.skip(i as int).drop_first() =~= items@.skip(i + 1));
                assert(items@.skip(i as int)[0] == items@[i as int]);
                assert(decreases_to!(*value => items@[i as int])) by {
                    assert(decreases_to!(*value => *items));
                    assert(decreases_to!(*items => items@));
                    assert(decreases_to!(items@ => items@[i as int]));
                }
                let ghost before = texts_of(failures@);
                collect_failure_entries(&items[i], failures);
                assert(before + failure_entries_in_items(items@.skip(i as int)) =~= texts_of(failures@)
                    + failure_entries_in_items(items@.skip(i + 1)));
                i += 1;
            }
            assert(texts_of(failures@) + failure_entries_in_items(items@.skip(i as int)) =~= texts_of(failures@));
        },
        JsonValue::String(text) => {
            failures.push(text.clone());
            assert(texts_of(failures@) =~= start + failure_entries(*value));
        },
        _ => {
            assert(texts_of(failures@) =~= start + failure_entries(*value));
        },
    }
}

/// The failure texts of every `componentFailures` member, in document order;
/// members nested within such a value are read again where they stand.
pub open spec fn component_failures(value: JsonValue) -> Seq<Seq<char>>
    decreases value,
{
    match value {
        JsonValue::Object(entries) => (match entry_value(entries@, "componentFailures"@) {
            Some(failures) => failure_entries(failures),
            None => Seq::empty(),
        }) + component_failures_in_entries(entries@),
        JsonValue::Array(items) => component_failures_in_items(items@),
        _ => Seq::empty(),
    }
}

/// The component failures within the members' values, in order.
pub open spec fn component_failures_in_entries(entries: Seq<(String, JsonValue)>) -> Seq<Seq<char>>
    decreases entries,
{
    if entries.len() == 0 {
        Seq::empty()
    } else {
        component_failures(entries[0].1) + component_failures_in_entries(entries.drop_first())
    }
}

/// The component failures within the elements, in order.
pub open spec fn component_failures_in_items(items: Seq<JsonValue>) -> Seq<Seq<char>>
    decreases items,
{
    if items.len() == 0 {
        Seq::empty()
    } else {
        component_failures(items[0]) + component_failures_in_items(items.drop_first())
    }
}

/// Appends the failure texts of every `componentFailures` member.
pub fn collect_component_failures(value: &JsonValue, failures: &mut Vec<String>)
    ensures
        texts_of(final(failures)@) == texts_of(old(failures)@) + component_failures(*value),
    decreases *value,
{
    let ghost start = texts_of(failures@);
    match value {
        JsonValue::Object(entries) => {
            if let Some(found) = entry_of(entries, "componentFailures") {
                collect_failure_entries(found, failures);
            }
            assert(texts_of(failures@) =~= start + match entry_value(entries@, "componentFailures"@) {
                Some(found) => failure_entries(found),
                None => Seq::empty(),
            });
            let mut i: usize = 0;
            assert(entries@.skip(0) =~= entries@);
            while i < entries.len()
                invariant
                    *value == JsonValue::Object(*entries),
                    i <= entries@.len(),
                    start + component_failures(*value) == texts_of(failures@) + component_failures_in_entries(
                        entries@.skip(i as int),
                    ),
                decreases entries@.len() - i,
            {
                assert(entries@.skip(i as int).drop_first() =~= entries@.skip(i + 1));
                assert(entries@.skip(i as int)[0] == entries@[i as int]);
                assert(decreases_to!(*value => entries@[i as int].1)) by {
                    assert(decreases_to!(*value => *entries));
                    assert(decreases_to!(*entries => entries@));
                    assert(decreases_to!(entries@ => entries@[i as int]));
                    assert(decreases_to!(entries@[i as int] => entries@[i as int].1));
                }
                let ghost before = texts_of(failures@);
                collect_component_failures(&entries[i].1, failures);
                assert(before + component_failures_in_entries(entries@.skip(i as int)) =~= texts_of(failures@)
                    + component_failures_in_entries(entries@.skip(i + 1)));
                i += 1;
            }
            assert(texts_of(failures@) + component_failures_in_entries(entries@.skip(i as int)) =~= texts_of(failures@));
        },
        JsonValue::Array(items) => {
            let mut i: usize = 0;
            assert(items@.skip(0) =~= items@);
            while i < items.len()
                invariant
                    *value == JsonValue::Array(*items),
                    i <= items@.len(),
                    start + component_failures(*value) == texts_of(failures@) + component_failures_in_items(
                        items@.skip(i as int),
                    ),
                decreases items@.len() - i,
            {
                assert(items@.skip(i as int).drop_first() =~= items@.skip(i + 1));
                assert(items@.skip(i as int)[0] == items@[i as int]);
                assert(decreases_to!(*value => items@[i as int])) by {
                    assert(decreases_to!(*value => *items));
                    assert(decreases_to!(*items => items@));
                    assert(decreases_to!(items@ => items@[i as int]));
                }
                let ghost before = texts_of(failures@);
                collect_component_failures(&items[i], failures);
                assert(before + component_failures_in_items(items@.skip(i as int)) =~= texts_of(failures@)
                    + component_failures_in_items(items@.skip(i + 1)));
                i += 1;
            }
            assert(texts_of(failures@) + component_failures_in_items(items@.skip(i as int)) =~= texts_of(failures@));
        },
        _ => {
            assert(texts_of(failures@) =~= start + component_failures(*value));
        },
    }
}


/// The position of the first of the first `n` tests whose lower-cased name
/// is `key`, if any.
pub open spec fn first_named(tests: Seq<(Seq<char>, Seq<char>, Option<Seq<char>>)>, key: Seq<char>, n: int) -> Option<int>
    decreases n,
{
    if n <= 0 {
        None
    } else {
        match first_named(tests, key, n - 1) {
            Some(i) => Some(i),
            None => if ascii_lower(tests[n - 1].0) == key { Some(n - 1) } else { None },
        }
    }
}

/// Whether `kept` holds, in strictly ascending order of lower-cased name, the
/// first test of each lower-cased name among `tests`, and nothing else.
pub open spec fn first_of_each_name(
    kept: Seq<(Seq<char>, Seq<char>, Option<Seq<char>>)>,
    tests: Seq<(Seq<char>, Seq<char>, Option<Seq<char>>)>,
) -> bool {
    &&& forall|i: int, j: int| 0 <= i < j < kept.len() ==> text_lt(ascii_lower(#[trigger] kept[i].0), ascii_lower(#[trigger] kept[j].0))
    &&& forall|k: int| 0 <= k < kept.len() ==> (first_named(tests, ascii_lower(#[trigger] kept[k].0), tests.len() as int) matches Some(
        i,
    ) && tests[i] == kept[k])
    &&& forall|j: int| 0 <= j < tests.len() ==> exists|k: int| 0 <= k < kept.len() && ascii_lower(#[trigger] kept[k].0) == ascii_lower(
        #[trigger] tests[j].0,
    )
}

/// Once found among a prefix, the first test of a name stays the first.
proof fn lemma_first_named_stays(tests: Seq<(Seq<char>, Seq<char>, Option<Seq<char>>)>, key: Seq<char>, m: int, n: int)
    requires
        0 <= m <= n,
        first_named(tests, key, m) is Some,
    ensures
        first_named(tests, key, n) == first_named(tests, key, m),
    decreases n - m,
{
    if m < n {
        lemma_first_named_stays(tests, key, m, n - 1);
    }
}

/// The first test of a name lies before `n` and has that name.
proof fn lemma_first_named_has_name(tests: Seq<(Seq<char>, Seq<char>, Option<Seq<char>>)>, key: Seq<char>, n: int)
    requires
        n <= tests.len(),
    ensures
        first_named(tests, key, n) matches Some(i) ==> 0 <= i < n && ascii_lower(tests[i].0) == key,
    decreases n,
{
    if n > 0 {
        lemma_first_named_has_name(tests, key, n - 1);
    }
}

/// A copy of a validation test.
fn copy_validation_test(test: &ValidationTest) -> (result: ValidationTest)
    ensures
        validation_view(result) == validation_view(*test),
{
    ValidationTest {
        name: test.name.clone(),
        outcome: test.outcome.clone(),
        message: match &test.message {
            Some(message) => Some(message.clone()),
            None => None,
        },
    }
}

/// The first test of each lower-cased name, in ascending order of that name.
pub fn first_test_of_each_name(tests: &Vec<ValidationTest>) -> (result: Vec<ValidationTest>)
    ensures
        first_of_each_name(validation_views(result@), validation_views(tests@)),
{
    let ghost input = validation_views(tests@);
    let mut out: Vec<ValidationTest> = Vec::new();
    let mut keys: Vec<Vec<char>> = Vec::new();
    let mut i: usize = 0;
    while i < tests.len()
        invariant
            input == validation_views(tests@),
            i <= tests@.len(),
            keys@.len() == out@.len(),
            forall|k: int| 0 <= k < out@.len() ==> #[trigger] keys@[k]@ == ascii_lower(validation_views(out@)[k].0),
            forall|a: int, b: int| 0 <= a < b < out@.len() ==> text_lt(
                ascii_lower(#[trigger] validation_views(out@)[a].0),
                ascii_lower(#[trigger] validation_views(out@)[b].0),
            ),
            forall|k: int| 0 <= k < out@.len() ==> (first_named(input, ascii_lower(#[trigger] validation_views(out@)[k].0), i as int) matches Some(
                j,
            ) && input[j] == validation_views(out@)[k]),
            forall|j: int| 0 <= j < i ==> exists|k: int| 0 <= k < out@.len() && ascii_lower(#[trigger] validation_views(out@)[k].0) == ascii_lower(
                #[trigger] input[j].0,
            ),
        decreases tests@.len() - i,
    {
        let ghost before = validation_views(out@);
        let test = copy_validation_test(&tests[i]);
        let ghost x = validation_view(test);
        assert(x == input[i as int]);
        let key = lower_chars(chars_of(test.name.as_str()).as_slice());
        let mut p: usize = 0;
        while p < out.len() && chars_lt(keys[p].as_slice(), key.as_slice())
            invariant
                p <= out@.len(),
                keys@.len() == out@.len(),
                before == validation_views(out@),
                key@ == ascii_lower(x.0),
                forall|k: int| 0 <= k < out@.len() ==> #[trigger] keys@[k]@ == ascii_lower(validation_views(out@)[k].0),
                forall|k: int| 0 <= k < p ==> text_lt(ascii_lower(#[trigger] before[k].0), ascii_lower(x.0)),
            decreases out@.len() - p,
        {
            p += 1;
        }
        if p < out.len() && chars_equal(keys[p].as_slice(), key.as_slice()) {
            proof {
                assert(ascii_lower(before[p as int].0) == ascii_lower(x.0));
                assert forall|k: int| 0 <= k < out@.len() implies (first_named(input, ascii_lower(#[trigger] validation_views(out@)[k].0), i + 1) matches Some(
                    j,
                ) && input[j] == validation_views(out@)[k]) by {
                    lemma_first_named_stays(input, ascii_lower(before[k].0), i as int, i + 1);
                }
                assert forall|j: int| 0 <= j < i + 1 implies exists|k: int| 0 <= k < out@.len() && ascii_lower(#[trigger] validation_views(out@)[k].0) == ascii_lower(
                    #[trigger] input[j].0,
                ) by {
                    if j == i {
                        assert(ascii_lower(validation_views(out@)[p as int].0) == ascii_lower(input[j].0));
                    }
                }
            }
        } else {
            proof {
                if p < before.len() {
                    lemma_text_lt_total(ascii_lower(before[p as int].0), ascii_lower(x.0));
                    assert(text_lt(ascii_lower(x.0), ascii_lower(before[p as int].0)));
                }
                assert forall|k: int| 0 <= k < before.len() implies ascii_lower(#[trigger] before[k].0) != ascii_lower(x.0) by {
                    if k < p {
                        lemma_text_lt_asymmetric(ascii_lower(before[k].0), ascii_lower(x.0));
                    } else {
                        if k > p {
                            lemma_text_lt_transitive(ascii_lower(x.0), ascii_lower(before[p as int].0), ascii_lower(before[k].0));
                        }
                        lemma_text_lt_asymmetric(ascii_lower(x.0), ascii_lower(before[k].0));
                    }
                }
                lemma_first_named_has_name(input, ascii_lower(x.0), i as int);
                if first_named(input, ascii_lower(x.0), i as int) is Some {
                    let j = first_named(input, ascii_lower(x.0), i as int)->0;
                    let k = choose|k: int| 0 <= k < before.len() && ascii_lower(#[trigger] before[k].0) == ascii_lower(input[j].0);
                    assert(ascii_lower(before[k].0) == ascii_lower(x.0));
                }
                assert(first_named(input, ascii_lower(x.0), i + 1) == Some(i as int));
            }
            out.insert(p, test);
            keys.insert(p, key);
            let ghost after = validation_views(out@);
            assert(after =~= before.insert(p as int, x));
            proof {
                before.insert_ensures(p as int, x);
                assert forall|k: int| 0 <= k < out@.len() implies #[trigger] keys@[k]@ == ascii_lower(validation_views(out@)[k].0) by {
                    if k < p {
                    } else if k == p {
                    } else {
                    }
                }
                assert forall|a: int, b: int| 0 <= a < b < after.len() implies text_lt(
                    ascii_lower(#[trigger] after[a].0),
                    ascii_lower(#[trigger] after[b].0),
                ) by {
                    if b < p {
                        assert(after[a] == before[a] && after[b] == before[b]);
                    } else if b == p {
                        assert(after[a] == before[a]);
                    } else if a < p {
                        assert(after[a] == before[a] && after[b] == before[b - 1]);
                        if p < b - 1 {
                            lemma_text_lt_transitive(ascii_lower(x.0), ascii_lower(before[p as int].0), ascii_lower(before[b - 1].0));
                        }
                        lemma_text_lt_transitive(ascii_lower(before[a].0), ascii_lower(x.0), ascii_lower(before[b - 1].0));
                    } else if a == p {
                        assert(after[b] == before[b - 1]);
                        if p < b - 1 {
                            lemma_text_lt_transitive(ascii_lower(x.0), ascii_lower(before[p as int].0), ascii_lower(before[b - 1].0));
                        }
                    } else {
                        assert(after[a] == before[a - 1] && after[b] == before[b - 1]);
                    }
                }
                assert forall|k: int| 0 <= k < after.len() implies (first_named(input, ascii_lower(#[trigger] after[k].0), i + 1) matches Some(
                    j,
                ) && input[j] == after[k]) by {
                    if k < p {
                        assert(after[k] == before[k]);
                        lemma_first_named_stays(input, ascii_lower(before[k].0), i as int, i + 1);
                    } else if k > p {
                        assert(after[k] == before[k - 1]);
                        lemma_first_named_stays(input, ascii_lower(before[k - 1].0), i as int, i + 1);
                    }
                }
                assert forall|j: int| 0 <= j < i + 1 implies exists|k: int| 0 <= k < after.len() && ascii_lower(#[trigger] after[k].0) == ascii_lower(
                    #[trigger] input[j].0,
                ) by {
                    if j == i {
                        assert(ascii_lower(after[p as int].0) == ascii_lower(input[j].0));
                    } else {
                        let k = choose|k: int| 0 <= k < before.len() && ascii_lower(#[trigger] before[k].0) == ascii_lower(input[j].0);
                        if k < p {
                            assert(after[k] == before[k]);
                        } else {
                            assert(after[k + 1] == before[k]);
                        }
                    }
                }
            }
        }
        i += 1;
    }
    out
}

/// The keys under which a deployment response may give its id.
pub open spec fn deployment_id_keys() -> Seq<Seq<char>> {
    seq!["id"@, "deployId"@]
}

/// What a Salesforce check-only deployment response reports: whether it
/// succeeded, its first `id` or `deployId` string, its distinct component
/// failures in ascending order, and the first test of each lower-cased name
/// in ascending order of that name.
pub fn parse_deployment_validation(response: &JsonValue) -> (result: DeploymentValidation)
    ensures
        result.success == spec_response_success(*response),
        match result.deployment_id {
            Some(id) => Some(id@),
            None => None,
        } == as_text(first_found(*response, text_keys_probe(deployment_id_keys()))),
        strictly_ascending(texts_of(result.component_failures@)),
        texts_of(result.component_failures@).to_set() == component_failures(*response).to_set(),
        first_of_each_name(validation_views(result.tests@), validation_tests(*response)),
{
    let mut collected: Vec<ValidationTest> = Vec::new();
    assert(validation_views(collected@) =~= Seq::empty());
    collect_validation_tests(response, &mut collected);
    assert(validation_views(collected@) =~= validation_tests(*response));
    let tests = first_test_of_each_name(&collected);
    let mut found: Vec<String> = Vec::new();
    assert(texts_of(found@) =~= Seq::empty());
    collect_component_failures(response, &mut found);
    let ghost all = texts_of(found@);
    assert(all =~= component_failures(*response));
    let mut component_failures: Vec<String> = Vec::new();
    let mut i: usize = 0;
    assert(texts_of(component_failures@).to_set() =~= all.take(0).to_set());
    while i < found.len()
        invariant
            all == texts_of(found@),
            i <= found@.len(),
            strictly_ascending(texts_of(component_failures@)),
            texts_of(component_failures@).to_set() == all.take(i as int).to_set(),
        decreases found@.len() - i,
    {
        insert_ascending(&mut component_failures, found[i].clone());
        assert(all.take(i + 1) =~= all.take(i as int).push(all[i as int]));
        proof {
            all.take(i as int).lemma_push_to_set_commute(all[i as int]);
        }
        i += 1;
    }
    assert(all.take(all.len() as int) =~= all);
    let keys: [&str; 2] = ["id", "deployId"];
    proof {
        assert(str_texts(keys@) =~= deployment_id_keys());
    }
    let deployment_id = match find_string(response, keys.as_slice()) {
        Some(id) => Some(id.to_string()),
        None => None,
    };
    DeploymentValidation { success: response_success(response), deployment_id, component_failures, tests }
}


/// How the components of a release were selected.
#[derive(Clone, Copy, Debug, PartialEq, Eq, Structural)]
pub enum ComponentSelectionMode {
    All,
    Impacted,
    ConservativeAll,
}

/// The components a release affects, and which of them changed directly.
#[derive(Clone, Debug, PartialEq, Eq)]
pub struct ComponentSelection {
    pub mode: ComponentSelectionMode,
    pub components: Vec<MetadataComponent>,
    pub directly_changed: Vec<String>,
}

/// A recorded Salesforce validation: the org's inventory and the result of
/// the check-only deployment.
#[derive(Clone, Debug, PartialEq, Eq)]
pub struct ValidationSnapshot {
    pub schema_version: u32,
    pub target: String,
    pub authenticated: bool,
    pub org_id: Option<String>,
    pub inventory: OrgInventory,
    pub validation: DeploymentValidation,
}

/// Whether some component has `key`.
pub open spec fn has_component(components: Seq<MetadataComponent>, key: (Seq<char>, Seq<char>)) -> bool {
    exists|i: int| 0 <= i < components.len() && #[trigger] component_key(components[i]) == key
}

/// The selector of each key.
pub open spec fn key_selectors(keys: Seq<(Seq<char>, Seq<char>)>) -> Seq<Seq<char>> {
    Seq::new(keys.len(), |i: int| selector_text(keys[i].0, keys[i].1))
}

/// The selectors of the components a validation retrieves from the org:
/// every schema and configuration component of the local inventory and every
/// affected component, each once, in ascending order of type and name.
pub fn retrieval_scope(local: &OrgInventory, affected: &ComponentSelection) -> (result: Vec<String>)
    ensures
        exists|keys: Seq<(Seq<char>, Seq<char>)>| {
            &&& strictly_sorted(keys)
            &&& forall|k: (Seq<char>, Seq<char>)| #[trigger] keys.contains(k) <==> (drift_component(local.components@, k) is Some
                || has_component(affected.components@, k))
            &&& texts_of(result@) == key_selectors(keys)
        },
{
    let mut keys: Vec<(Vec<char>, Vec<char>)> = Vec::new();
    assert(key_texts(keys@) =~= Seq::empty());
    add_scope_keys(&mut keys, &local.components);
    let ghost local_keys = key_texts(keys@);
    let mut i: usize = 0;
    while i < affected.components.len()
        invariant
            i <= affected.components@.len(),
            strictly_sorted(key_texts(keys@)),
            forall|k: (Seq<char>, Seq<char>)| key_texts(keys@).contains(k) <==> (drift_component(local.components@, k) is Some
                || exists|j: int| 0 <= j < i && #[trigger] component_key(affected.components@[j]) == k),
        decreases affected.components@.len() - i,
    {
        let component = &affected.components[i];
        let metadata_type = chars_of(component.metadata_type.as_str());
        let full_name = chars_of(component.full_name.as_str());
        insert_key(&mut keys, metadata_type.as_slice(), full_name.as_slice());
        proof {
            assert forall|k: (Seq<char>, Seq<char>)| key_texts(keys@).contains(k) <==> (drift_component(local.components@, k) is Some
                || exists|j: int| 0 <= j < i + 1 && #[trigger] component_key(affected.components@[j]) == k) by {
                if k == component_key(affected.components@[i as int]) {
                    assert(component_key(affected.components@[i as int]) == k);
                }
            }
        }
        i += 1;
    }
    let ghost all = key_texts(keys@);
    let mut selectors: Vec<String> = Vec::new();
    let mut k: usize = 0;
    while k < keys.len()
        invariant
            all == key_texts(keys@),
            k <= keys@.len(),
            texts_of(selectors@) == key_selectors(all.take(k as int)),
        decreases keys@.len() - k,
    {
        let ghost done = texts_of(selectors@);
        let mut text: Vec<char> = Vec::new();
        push_chars(&mut text, keys[k].0.as_slice());
        text.push(':');
        push_chars(&mut text, keys[k].1.as_slice());
        assert(text@ =~= selector_text(all[k as int].0, all[k as int].1));
        selectors.push(string_from_chars(text.as_slice()));
        assert(texts_of(selectors@) =~= done.push(text@));
        assert(key_selectors(all.take(k + 1)) =~= key_selectors(all.take(k as int)).push(text@));
        k += 1;
    }
    assert(all.take(all.len() as int) =~= all);
    proof {
        assert forall|key: (Seq<char>, Seq<char>)| #[trigger] all.contains(key) <==> (drift_component(local.components@, key) is Some
            || has_component(affected.components@, key)) by {
            if has_component(affected.components@, key) {
                let j = choose|j: int| 0 <= j < affected.components@.len() && #[trigger] component_key(affected.components@[j]) == key;
                assert(component_key(affected.components@[j]) == key);
            }
        }
    }
    selectors
}

/// The texts of string slices.
pub open spec fn word_texts(words: Seq<&str>) -> Seq<Seq<char>> {
    Seq::new(words.len(), |i: int| words[i]@)
}

/// Owned strings with the texts of `words`.
fn owned_words(words: &[&str]) -> (result: Vec<String>)
    ensures
        texts_of(result@) == word_texts(words@),
{
    let mut out: Vec<String> = Vec::new();
    let mut i: usize = 0;
    while i < words.len()
        invariant
            i <= words@.len(),
            texts_of(out@) == word_texts(words@.take(i as int)),
        decreases words@.len() - i,
    {
        let ghost done = texts_of(out@);
        out.push(words[i].to_string());
        assert(texts_of(out@) =~= done.push(words@[i as int]@));
        assert(word_texts(words@.take(i + 1)) =~= word_texts(words@.take(i as int)).push(words@[i as int]@));
        i += 1;
    }
    assert(words@.take(words@.len() as int) =~= words@);
    out
}

/// The Salesforce CLI arguments that display an org.
pub fn org_display_arguments(target_org: &str) -> (result: Vec<String>)
    ensures
        texts_of(result@) == seq!["org"@, "display"@, "--target-org"@, target_org@, "--json"@],
{
    let words: [&str; 5] = ["org", "display", "--target-org", target_org, "--json"];
    let out = owned_words(words.as_slice());
    assert(word_texts(words@) =~= seq!["org"@, "display"@, "--target-org"@, target_org@, "--json"@]);
    out
}

/// Accepts a validation org that is not blank.
pub fn check_validation_org(target_org: &str) -> (result: Result<(), String>)
    ensures
        result is Ok <==> trimmed(target_org@).len() > 0,
        result matches Err(message) ==> message@ == "Salesforce validation org cannot be empty"@,
{
    if trim_chars(chars_of(target_org).as_slice()).len() == 0 {
        return Err("Salesforce validation org cannot be empty".to_string());
    }
    Ok(())
}

/// The keys under which an org display gives the org's id.
pub open spec fn org_id_keys() -> Seq<Seq<char>> {
    seq!["orgId"@, "id"@]
}

/// The org id an authenticated org display reports, or why the org is not
/// authenticated.
pub fn authenticated_org(auth: &JsonValue) -> (result: Result<Option<String>, String>)
    ensures
        spec_response_success(*auth) ==> (result matches Ok(id) && (match id {
            Some(id) => Some(id@),
            None => None,
        }) == as_text(first_found(*auth, text_keys_probe(org_id_keys())))),
        !spec_response_success(*auth) ==> (result matches Err(message) && message@
            == "Salesforce validation-org authentication failed: "@ + match as_text(
            first_found(*auth, text_keys_probe(message_keys())),
        ) {
            Some(text) => text,
            None => "unknown Salesforce CLI failure"@,
        }),
{
    if !response_success(auth) {
        let mut message: Vec<char> = Vec::new();
        push_str(&mut message, "Salesforce validation-org authentication failed: ");
        push_str(&mut message, response_message(auth));
        return Err(string_from_chars(message.as_slice()));
    }
    let keys: [&str; 2] = ["orgId", "id"];
    proof {
        assert(str_texts(keys@) =~= org_id_keys());
    }
    match find_string(auth, keys.as_slice()) {
        Some(id) => Ok(Some(id.to_string())),
        None => Ok(None),
    }
}

/// The Salesforce CLI arguments that retrieve the selected components into
/// a directory.
pub fn retrieve_arguments(target_org: &str, output_dir: &str, wait_minutes: u32, scope: &[String]) -> (result: Vec<String>)
    ensures
        texts_of(result@) == seq![
            "project"@,
            "retrieve"@,
            "start"@,
            "--target-org"@,
            target_org@,
            "--output-dir"@,
            output_dir@,
            "--wait"@,
            decimal(wait_minutes as nat),
            "--json"@,
        ] + metadata_flags(texts_of(scope@)),
{
    let words: [&str; 7] = ["project", "retrieve", "start", "--target-org", target_org, "--output-dir", output_dir];
    let mut out = owned_words(words.as_slice());
    let ghost first = texts_of(out@);
    let mut wait: Vec<char> = Vec::new();
    push_decimal(&mut wait, wait_minutes as usize);
    assert(wait@ =~= decimal(wait_minutes as nat));
    out.push("--wait".to_string());
    out.push(string_from_chars(wait.as_slice()));
    out.push("--json".to_string());
    let ghost head = texts_of(out@);
    assert(head =~= first + seq!["--wait"@, decimal(wait_minutes as nat), "--json"@]);
    assert(head =~= seq![
        "project"@,
        "retrieve"@,
        "start"@,
        "--target-org"@,
        target_org@,
        "--output-dir"@,
        output_dir@,
        "--wait"@,
        decimal(wait_minutes as nat),
        "--json"@,
    ]);
    push_metadata_flags(&mut out, scope);
    out
}

/// `--metadata` and a selector for each selector.
pub open spec fn metadata_flags(selectors: Seq<Seq<char>>) -> Seq<Seq<char>>
    decreases selectors.len(),
{
    if selectors.len() == 0 {
        Seq::empty()
    } else {
        metadata_flags(selectors.drop_last()) + seq!["--metadata"@, selectors.last()]
    }
}

/// Appends `--metadata` and a selector for each selector.
fn push_metadata_flags(out: &mut Vec<String>, selectors: &[String])
    ensures
        texts_of(final(out)@) == texts_of(old(out)@) + metadata_flags(texts_of(selectors@)),
{
    let ghost start = texts_of(out@);
    let mut i: usize = 0;
    assert(texts_of(selectors@).take(0) =~= Seq::<Seq<char>>::empty());
    assert(texts_of(out@) =~= start + metadata_flags(Seq::empty()));
    while i < selectors.len()
        invariant
            i <= selectors@.len(),
            texts_of(out@) == start + metadata_flags(texts_of(selectors@).take(i as int)),
        decreases selectors@.len() - i,
    {
        let ghost done = texts_of(out@);
        out.push("--metadata".to_string());
        out.push(selectors[i].clone());
        assert(texts_of(out@) =~= done + seq!["--metadata"@, selectors@[i as int]@]);
        assert(texts_of(selectors@).take(i + 1).drop_last() =~= texts_of(selectors@).take(i as int));
        assert(texts_of(selectors@).take(i + 1).last() == selectors@[i as int]@);
        assert(texts_of(out@) =~= start + metadata_flags(texts_of(selectors@).take(i + 1)));
        i += 1;
    }
    assert(texts_of(selectors@).take(selectors@.len() as int) =~= texts_of(selectors@));
}

/// Why retrieving validation-org metadata failed, if it did.
pub fn retrieval_error(retrieve: &JsonValue) -> (result: Option<String>)
    ensures
        spec_response_success(*retrieve) ==> result is None,
        !spec_response_success(*retrieve) ==> (result matches Some(message) && message@
            == "failed to retrieve validation-org metadata: "@ + match as_text(
            first_found(*retrieve, text_keys_probe(message_keys())),
        ) {
            Some(text) => text,
            None => "unknown Salesforce CLI failure"@,
        }),
{
    if response_success(retrieve) {
        return None;
    }
    let mut message: Vec<char> = Vec::new();
    push_str(&mut message, "failed to retrieve validation-org metadata: ");
    push_str(&mut message, response_message(retrieve));
    Some(string_from_chars(message.as_slice()))
}

/// The selectors of components, in order.
pub open spec fn component_selectors(components: Seq<MetadataComponent>) -> Seq<Seq<char>> {
    Seq::new(components.len(), |i: int| selector_text(components[i].metadata_type@, components[i].full_name@))
}

/// `--tests` and a name for each test.
pub open spec fn test_flags(tests: Seq<Seq<char>>) -> Seq<Seq<char>>
    decreases tests.len(),
{
    if tests.len() == 0 {
        Seq::empty()
    } else {
        test_flags(tests.drop_last()) + seq!["--tests"@, tests.last()]
    }
}

/// The Salesforce CLI arguments of the check-only deployment of the affected
/// components: no tests when none are affected, else exactly the affected tests.
pub fn deploy_arguments(target_org: &str, wait_minutes: u32, affected: &ComponentSelection, tests: &[String]) -> (result: Vec<String>)
    ensures
        texts_of(result@) == seq![
            "project"@,
            "deploy"@,
            "start"@,
            "--dry-run"@,
            "--target-org"@,
            target_org@,
            "--wait"@,
            decimal(wait_minutes as nat),
            "--json"@,
        ] + metadata_flags(component_selectors(affected.components@)) + if tests@.len() == 0 {
            seq!["--test-level"@, "NoTestRun"@]
        } else {
            seq!["--test-level"@, "RunSpecifiedTests"@] + test_flags(texts_of(tests@))
        },
{
    let words: [&str; 6] = ["project", "deploy", "start", "--dry-run", "--target-org", target_org];
    let mut out = owned_words(words.as_slice());
    let ghost first = texts_of(out@);
    let mut wait: Vec<char> = Vec::new();
    push_decimal(&mut wait, wait_minutes as usize);
    assert(wait@ =~= decimal(wait_minutes as nat));
    out.push("--wait".to_string());
    out.push(string_from_chars(wait.as_slice()));
    out.push("--json".to_string());
    let ghost head = texts_of(out@);
    assert(head =~= first + seq!["--wait"@, decimal(wait_minutes as nat), "--json"@]);
    assert(head =~= seq![
        "project"@,
        "deploy"@,
        "start"@,
        "--dry-run"@,
        "--target-org"@,
        target_org@,
        "--wait"@,
        decimal(wait_minutes as nat),
        "--json"@,
    ]);
    let mut selectors: Vec<String> = Vec::new();
    let mut i: usize = 0;
    while i < affected.components.len()
        invariant
            i <= affected.components@.len(),
            texts_of(selectors@) == component_selectors(affected.components@).take(i as int),
        decreases affected.components@.len() - i,
    {
        let ghost done = texts_of(selectors@);
        let selector = affected.components[i].selector();
        let ghost text = selector@;
        selectors.push(selector);
        assert(texts_of(selectors@) =~= done.push(text));
        assert(component_selectors(affected.components@).take(i + 1) =~= component_selectors(affected.components@).take(
            i as int,
        ).push(text));
        i += 1;
    }
    assert(component_selectors(affected.components@).take(i as int) =~= component_selectors(affected.components@));
    push_metadata_flags(&mut out, selectors.as_slice());
    let ghost middle = texts_of(out@);
    if tests.len() == 0 {
        out.push("--test-level".to_string());
        out.push("NoTestRun".to_string());
        assert(texts_of(out@) =~= middle + seq!["--test-level"@, "NoTestRun"@]);
    } else {
        out.push("--test-level".to_string());
        out.push("RunSpecifiedTests".to_string());
        let ghost level = texts_of(out@);
        assert(level =~= middle + seq!["--test-level"@, "RunSpecifiedTests"@]);
        let mut j: usize = 0;
        assert(texts_of(tests@).take(0) =~= Seq::<Seq<char>>::empty());
        assert(level =~= level + test_flags(Seq::empty()));
        while j < tests.len()
            invariant
                j <= tests@.len(),
                texts_of(out@) == level + test_flags(texts_of(tests@).take(j as int)),
            decreases tests@.len() - j,
        {
            let ghost done = texts_of(out@);
            out.push("--tests".to_string());
            out.push(tests[j].clone());
            assert(texts_of(out@) =~= done + seq!["--tests"@, tests@[j as int]@]);
            assert(texts_of(tests@).take(j + 1).drop_last() =~= texts_of(tests@).take(j as int));
            assert(texts_of(tests@).take(j + 1).last() == tests@[j as int]@);
            assert(texts_of(out@) =~= level + test_flags(texts_of(tests@).take(j + 1)));
            j += 1;
        }
        assert(texts_of(tests@).take(tests@.len() as int) =~= texts_of(tests@));
        assert(texts_of(out@) =~= middle + (seq!["--test-level"@, "RunSpecifiedTests"@] + test_flags(texts_of(tests@))));
    }
    out
}

/// The validation recorded from an authenticated org: its inventory and the
/// deployment response, read as `parse_deployment_validation` reads it.
pub fn validation_snapshot(target_org: &str, org_id: Option<String>, inventory: OrgInventory, deploy: &JsonValue) -> (result: ValidationSnapshot)
    ensures
        result.schema_version == HYBRID_SCHEMA_VERSION,
        result.target@ == target_org@,
        result.authenticated,
        result.org_id == org_id,
        result.inventory == inventory,
        result.validation.success == spec_response_success(*deploy),
        strictly_ascending(texts_of(result.validation.component_failures@)),
        texts_of(result.validation.component_failures@).to_set() == component_failures(*deploy).to_set(),
        first_of_each_name(validation_views(result.validation.tests@), validation_tests(*deploy)),
        (match result.validation.deployment_id {
            Some(id) => Some(id@),
            None => None,
        }) == as_text(first_found(*deploy, text_keys_probe(deployment_id_keys()))),
{
    ValidationSnapshot {
        schema_version: HYBRID_SCHEMA_VERSION,
        target: target_org.to_string(),
        authenticated: true,
        org_id,
        inventory,
        validation: parse_deployment_validation(deploy),
    }
}


/// The extension of a file name as `Path::extension` reads it: the text after
/// the last `.`, unless there is none, the name starts with its only `.`, or
/// the name is `..`.
pub open spec fn file_extension(name: Seq<char>) -> Option<Seq<char>> {
    let dot = last_index(name, '.', name.len() as int);
    if name == ".."@ || dot <= 0 {
        None
    } else {
        Some(name.skip(dot + 1))
    }
}

/// Whether a relative path, given by its parts, names an `.xml` file.
pub open spec fn is_xml_file(parts: Seq<Seq<char>>) -> bool {
    parts.len() > 0 && file_extension(parts.last()) == Some("xml"@)
}

/// The text from `i` on with the whitespace that separates a `>` from the
/// next `<` removed.
pub open spec fn collapse_tags(text: Seq<char>, i: int) -> Seq<char>
    decreases text.len() - i, 0int,
{
    if i < 0 || i >= text.len() {
        Seq::empty()
    } else if text[i] == '>' {
        seq!['>'] + after_tag(text, i + 1, i + 1)
    } else {
        seq![text[i]] + collapse_tags(text, i + 1)
    }
}

/// The rest of the text after a `>`, whitespace from `start` to `j` having
/// been read: the whitespace goes where a `<` follows it.
pub open spec fn after_tag(text: Seq<char>, start: int, j: int) -> Seq<char>
    decreases text.len() - j, 1int,
{
    if 0 <= j < text.len() && spec_is_whitespace(text[j]) {
        after_tag(text, start, j + 1)
    } else {
        (if 0 <= j < text.len() && text[j] == '<' {
            Seq::empty()
        } else if 0 <= start <= j <= text.len() {
            text.subrange(start, j)
        } else {
            Seq::empty()
        }) + collapse_tags(text, j)
    }
}

/// The text with the whitespace between a `>` and the next `<` removed.
fn collapse_tag_whitespace(text: &[char]) -> (result: Vec<char>)
    ensures
        result@ == collapse_tags(text@, 0),
{
    let mut out: Vec<char> = Vec::new();
    let mut index: usize = 0;
    while index < text.len()
        invariant
            index <= text@.len(),
            out@ + collapse_tags(text@, index as int) == collapse_tags(text@, 0),
        decreases text@.len() - index,
    {
        let c = text[index];
        let ghost before = out@;
        out.push(c);
        index += 1;
        if c != '>' {
            assert(before + collapse_tags(text@, index - 1) =~= out@ + collapse_tags(text@, index as int));
            continue;
        }
        let start = index;
        assert(before + collapse_tags(text@, start - 1) =~= out@ + after_tag(text@, start as int, start as int));
        while index < text.len() && is_whitespace(text[index])
            invariant
                start <= index <= text@.len(),
                out@ + after_tag(text@, start as int, index as int) == collapse_tags(text@, 0),
            decreases text@.len() - index,
        {
            index += 1;
        }
        let ghost middle = out@;
        if index >= text.len() || text[index] != '<' {
            let mut k: usize = start;
            while k < index
                invariant
                    start <= k <= index <= text@.len(),
                    out@ == middle + text@.subrange(start as int, k as int),
                decreases index - k,
            {
                out.push(text[k]);
                assert(out@ =~= middle + text@.subrange(start as int, k + 1));
                k += 1;
            }
            assert(middle + after_tag(text@, start as int, index as int) =~= out@ + collapse_tags(text@, index as int));
        } else {
            assert(middle + after_tag(text@, start as int, index as int) =~= out@ + collapse_tags(text@, index as int));
        }
    }
    assert(out@ + collapse_tags(text@, index as int) =~= out@);
    out
}

/// The normalized contents of a metadata file whose path has `parts`.
pub open spec fn normalized(parts: Seq<Seq<char>>, bytes: Seq<u8>) -> Seq<u8> {
    if is_xml_file(parts) {
        utf8_bytes(collapse_tags(trimmed(crlf_to_lf(utf8_lossy(bytes))), 0))
    } else {
        utf8_bytes(crlf_to_lf(utf8_lossy(bytes)))
    }
}

/// The normalized contents of a metadata file that `parts` names, as its
/// digest covers them: read as UTF-8 (invalid sequences replaced), with
/// `\r\n` made `\n`; for an `.xml` file also trimmed, and without the
/// whitespace between a `>` and the next `<`.
pub fn normalize_contents(parts: &[String], bytes: &[u8]) -> (result: Vec<u8>)
    ensures
        result@ == normalized(texts_of(parts@), bytes@),
{
    let text = replace_crlf(chars_of(decode_lossy(bytes).as_str()).as_slice());
    let xml = if parts.len() > 0 {
        let name = chars_of(parts[parts.len() - 1].as_str());
        assert(name@ == texts_of(parts@).last());
        assert(name@.len() == name.len());
        proof {
            reveal_strlit("..");
            reveal_strlit("xml");
        }
        let dotdot = name.len() == 2 && name[0] == '.' && name[1] == '.';
        proof {
            if dotdot {
                assert(name@ =~= ".."@);
            }
            if name@ == ".."@ {
                assert(name@[0] == '.' && name@[1] == '.');
            }
        }
        match find_last_char(name.as_slice(), '.') {
            Some(dot) => {
                if dotdot || dot == 0 {
                    false
                } else {
                    let extension = slice_chars(name.as_slice(), dot + 1, name.len());
                    assert(extension@ =~= name@.skip(dot + 1));
                    chars_equal(extension.as_slice(), chars_of("xml").as_slice())
                }
            },
            None => false,
        }
    } else {
        false
    };
    if xml {
        let trimmed_text = trim_chars(text.as_slice());
        encode_utf8(collapse_tag_whitespace(trimmed_text.as_slice()).as_slice())
    } else {
        encode_utf8(text.as_slice())
    }
}

} // verus!
