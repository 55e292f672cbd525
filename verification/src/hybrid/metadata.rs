//! The metadata catalog: which package files belong to which metadata type,
//! and what each type supports in an API profile.

use vstd::prelude::*;

use std::path::PathBuf;

use crate::compatibility::{modeled_behavior, ApiVersion, CompatibilityProfile};
use crate::hybrid::{part_texts, ComponentCategory};
use crate::text::{
    ascii_lower, chars_are, chars_equal, chars_of, decimal, ends_with, eq_ignore_ascii_case,
    eq_ignore_case, lower_chars, push_chars, push_str, slice_chars, string_from_chars,
};

verus! {

/// Where a catalog's type list came from.
#[derive(Clone, Debug, PartialEq, Eq)]
pub struct CatalogSource {
    pub name: String,
    pub version: String,
    pub registry_types: usize,
    pub catalog_types: usize,
}

/// A child type stored in a subdirectory of its parent's component folder.
#[derive(Debug)]
pub struct CatalogChild {
    pub name: String,
    pub directory: String,
    pub suffix: Option<String>,
    pub ignore_parent_name: bool,
}

/// One metadata type and the source-format convention of its files.
#[derive(Debug)]
pub struct CatalogType {
    pub name: String,
    pub directory: String,
    pub suffix: Option<String>,
    pub folder_type: Option<String>,
    pub in_folder: bool,
    pub meta_file: bool,
    pub bundle: bool,
    pub mixed_content: bool,
    pub strict_directory: bool,
    pub children: Vec<CatalogChild>,
    pub source_supported: bool,
}

/// A catalog document: its source, its types, and for each API version the
/// names of the types an org returns for that version.
#[derive(Debug)]
pub struct CatalogDocument {
    pub schema_version: u32,
    pub source: CatalogSource,
    pub types: Vec<CatalogType>,
    pub org_profiles: Vec<(String, Vec<String>)>,
}

/// What an operation can do with a metadata type.
#[derive(Clone, Copy, Debug, PartialEq, Eq, Structural)]
pub enum CapabilityState {
    Supported,
    Unsupported,
    OrgUnavailable,
}

/// What the toolchain supports for one metadata type in one API profile.
#[derive(Clone, Debug, PartialEq, Eq)]
pub struct TypeCapability {
    pub metadata_type: String,
    pub directory: String,
    pub suffix: Option<String>,
    pub folder_type: Option<String>,
    pub in_folder: bool,
    pub meta_file: bool,
    pub bundle: bool,
    pub mixed_content: bool,
    pub child_types: Vec<String>,
    pub source_supported: bool,
    pub inventory: CapabilityState,
    pub retrieve: CapabilityState,
    pub deploy: CapabilityState,
    pub drift: CapabilityState,
    pub local_semantics: CapabilityState,
    pub reason: Option<String>,
}

/// How a file inside a package root was accounted for.
#[derive(Clone, Copy, Debug, PartialEq, Eq, Structural)]
pub enum FileDispositionKind {
    RecognizedMetadata,
    IntentionalNonMetadata,
    UnsupportedMetadata,
}

/// The accounting of one package file.
#[derive(Clone, Debug, PartialEq, Eq)]
pub struct FileDisposition {
    pub path: PathBuf,
    pub kind: FileDispositionKind,
    pub metadata_type: Option<String>,
    pub full_name: Option<String>,
    pub reason: String,
}

/// The component a file belongs to by the catalog's conventions.
#[derive(Clone, Debug)]
pub struct ClassifiedMetadata {
    pub metadata_type: String,
    pub full_name: String,
    pub role: String,
    pub category: ComponentCategory,
}

/// A classification as plain values: type, full name, role, category.
pub open spec fn classified_view(c: ClassifiedMetadata) -> (Seq<char>, Seq<char>, Seq<char>, ComponentCategory) {
    (c.metadata_type@, c.full_name@, c.role@, c.category)
}

/// An optional classification as plain values.
pub open spec fn classified_option(c: Option<ClassifiedMetadata>) -> Option<(Seq<char>, Seq<char>, Seq<char>, ComponentCategory)> {
    match c {
        Some(c) => Some(classified_view(c)),
        None => None,
    }
}

/// `-meta.xml`, the ending of a metadata sidecar file.
pub open spec fn meta_xml() -> Seq<char> {
    seq!['-', 'm', 'e', 't', 'a', '.', 'x', 'm', 'l']
}

/// The member name of `file` for a type with file suffix `suffix`: `file`
/// without `.suffix-meta.xml`, else without `.suffix`.
pub open spec fn spec_strip_metadata_suffix(file: Seq<char>, suffix: Seq<char>) -> Option<Seq<char>> {
    let sidecar = seq!['.'] + suffix + meta_xml();
    let plain = seq!['.'] + suffix;
    if ends_with(file, sidecar) {
        Some(file.take(file.len() - sidecar.len()))
    } else if ends_with(file, plain) {
        Some(file.take(file.len() - plain.len()))
    } else {
        None
    }
}

/// Whether the characters `s` end with the characters `suffix`.
fn chars_end_with_chars(s: &[char], suffix: &[char]) -> (result: bool)
    ensures
        result == ends_with(s@, suffix@),
{
    if suffix.len() > s.len() {
        return false;
    }
    let tail = slice_chars(s, s.len() - suffix.len(), s.len());
    assert(tail@ =~= s@.skip(s@.len() - suffix@.len()));
    chars_equal(tail.as_slice(), suffix)
}

/// The member name of `file` for a type whose files end in `suffix`.
pub fn strip_metadata_suffix(file: &[char], suffix: &[char]) -> (result: Option<Vec<char>>)
    ensures
        match spec_strip_metadata_suffix(file@, suffix@) {
            Some(member) => result matches Some(r) && r@ == member,
            None => result is None,
        },
{
    let mut plain: Vec<char> = Vec::new();
    plain.push('.');
    push_chars(&mut plain, suffix);
    let mut sidecar: Vec<char> = Vec::new();
    push_chars(&mut sidecar, plain.as_slice());
    push_str(&mut sidecar, "-meta.xml");
    proof {
        reveal_strlit("-meta.xml");
        assert(plain@ =~= seq!['.'] + suffix@);
        assert(sidecar@ =~= seq!['.'] + suffix@ + meta_xml());
    }
    if chars_end_with_chars(file, sidecar.as_slice()) {
        Some(slice_chars(file, 0, file.len() - sidecar.len()))
    } else if chars_end_with_chars(file, plain.as_slice()) {
        Some(slice_chars(file, 0, file.len() - plain.len()))
    } else {
        None
    }
}

/// The release category of a metadata type: Apex code, schema, or
/// configuration.
pub open spec fn spec_category_for(metadata_type: Seq<char>) -> ComponentCategory {
    if metadata_type == "ApexClass"@ || metadata_type == "ApexTrigger"@ || metadata_type
        == "ApexComponent"@ || metadata_type == "ApexPage"@ {
        ComponentCategory::Code
    } else if metadata_type == "CustomObject"@ || metadata_type == "CustomField"@ || metadata_type
        == "Index"@ {
        ComponentCategory::Schema
    } else {
        ComponentCategory::Configuration
    }
}

/// The release category of a metadata type.
pub fn category_for(metadata_type: &str) -> (result: ComponentCategory)
    ensures
        result == spec_category_for(metadata_type@),
{
    let name = chars_of(metadata_type);
    let name = name.as_slice();
    if chars_are(name, "ApexClass") || chars_are(name, "ApexTrigger") || chars_are(
        name,
        "ApexComponent",
    ) || chars_are(name, "ApexPage") {
        ComponentCategory::Code
    } else if chars_are(name, "CustomObject") || chars_are(name, "CustomField") || chars_are(
        name,
        "Index",
    ) {
        ComponentCategory::Schema
    } else {
        ComponentCategory::Configuration
    }
}

/// Parts joined with `/`.
pub open spec fn joined(parts: Seq<Seq<char>>) -> Seq<char>
    decreases parts.len(),
{
    if parts.len() == 0 {
        Seq::empty()
    } else if parts.len() == 1 {
        parts[0]
    } else {
        joined(parts.drop_last()) + seq!['/'] + parts.last()
    }
}

/// The parts from position `from` on, joined with `/`.
fn join_from(parts: &[String], from: usize) -> (result: Vec<char>)
    requires
        from <= parts@.len(),
    ensures
        result@ == joined(part_texts(parts@).skip(from as int)),
{
    let ghost texts = part_texts(parts@);
    let mut out: Vec<char> = Vec::new();
    let mut i: usize = from;
    assert(texts.subrange(from as int, from as int) =~= Seq::<Seq<char>>::empty());
    while i < parts.len()
        invariant
            texts == part_texts(parts@),
            from <= i <= parts@.len(),
            out@ == joined(texts.subrange(from as int, i as int)),
        decreases parts@.len() - i,
    {
        let ghost before = texts.subrange(from as int, i as int);
        let ghost after = texts.subrange(from as int, i + 1);
        assert(after.drop_last() =~= before);
        assert(after.last() == parts@[i as int]@);
        if i > from {
            out.push('/');
        }
        push_str(&mut out, parts[i].as_str());
        proof {
            if i == from {
                assert(after.len() == 1);
            }
        }
        i += 1;
    }
    assert(texts.subrange(from as int, parts@.len() as int) =~= texts.skip(from as int));
    out
}

/// A classification as plain values.
pub open spec fn classification(
    metadata_type: Seq<char>,
    full_name: Seq<char>,
    role: Seq<char>,
) -> (Seq<char>, Seq<char>, Seq<char>, ComponentCategory) {
    (metadata_type, full_name, role, spec_category_for(metadata_type))
}

/// Position of the first child whose folder is `directory`.
pub open spec fn first_child(children: Seq<CatalogChild>, directory: Seq<char>, k: int) -> Option<int>
    decreases children.len() - k,
{
    if k < 0 || k >= children.len() {
        None
    } else if children[k].directory@ == directory {
        Some(k)
    } else {
        first_child(children, directory, k + 1)
    }
}

/// A file of a child type: `parent/<owner>/<child folder>/<member file>`
/// with the folder of `parent` at `index`.
pub open spec fn spec_classify_child(parent: CatalogType, parts: Seq<Seq<char>>, index: int) -> Option<
    (Seq<char>, Seq<char>, Seq<char>, ComponentCategory),
> {
    let file = parts.last();
    if index + 2 >= parts.len() {
        None
    } else {
        match first_child(parent.children@, parts[index + 2], 0) {
            None => None,
            Some(k) => {
                let child = parent.children@[k];
                match child.suffix {
                    None => None,
                    Some(suffix) => match spec_strip_metadata_suffix(file, suffix@) {
                        None => None,
                        Some(member) => if index + 3 == parts.len() - 1 {
                            Some(
                                classification(
                                    child.name@,
                                    if child.ignore_parent_name {
                                        member
                                    } else {
                                        parts[index + 1] + seq!['.'] + member
                                    },
                                    file,
                                ),
                            )
                        } else {
                            None
                        },
                    },
                }
            },
        }
    }
}

/// A file of the parent type itself: directly in its folder, or one level
/// down for a type stored in folders.
pub open spec fn spec_classify_parent_file(parent: CatalogType, parts: Seq<Seq<char>>, index: int) -> Option<
    (Seq<char>, Seq<char>, Seq<char>, ComponentCategory),
> {
    let file = parts.last();
    if parent.in_folder && index + 2 == parts.len() - 1 {
        match parent.suffix {
            None => None,
            Some(suffix) => match spec_strip_metadata_suffix(file, suffix@) {
                None => None,
                Some(member) => Some(
                    classification(parent.name@, parts[index + 1] + seq!['/'] + member, file),
                ),
            },
        }
    } else if index + 1 != parts.len() - 1 {
        None
    } else {
        match parent.suffix {
            None => None,
            Some(suffix) => match spec_strip_metadata_suffix(file, suffix@) {
                None => None,
                Some(member) => Some(classification(parent.name@, member, file)),
            },
        }
    }
}

/// A file below the folder of `parent` at `index`: a bundle member, a child
/// file, or a file of the parent type.
pub open spec fn spec_classify_at(parent: CatalogType, parts: Seq<Seq<char>>, index: int) -> Option<
    (Seq<char>, Seq<char>, Seq<char>, ComponentCategory),
> {
    let rest = match spec_classify_child(parent, parts, index) {
        Some(c) => Some(c),
        None => spec_classify_parent_file(parent, parts, index),
    };
    if parent.bundle || parent.mixed_content {
        if index + 1 >= parts.len() {
            None
        } else if parent.bundle || index + 2 < parts.len() {
            if index + 2 < parts.len() {
                Some(
                    classification(
                        parent.name@,
                        parts[index + 1],
                        joined(parts.skip(index + 2)),
                    ),
                )
            } else {
                None
            }
        } else {
            rest
        }
    } else {
        rest
    }
}

/// The first of the types from position `k` on whose folder is the part at
/// `index` and that classifies the file from there.
pub open spec fn classify_in(types: Seq<CatalogType>, parts: Seq<Seq<char>>, index: int, k: int) -> Option<
    (Seq<char>, Seq<char>, Seq<char>, ComponentCategory),
>
    decreases types.len() - k,
{
    if k < 0 || k >= types.len() {
        None
    } else if types[k].directory@ == parts[index] && spec_classify_at(types[k], parts, index) is Some {
        spec_classify_at(types[k], parts, index)
    } else {
        classify_in(types, parts, index, k + 1)
    }
}

/// The classification found at the deepest folder among the first `n`
/// parts that gives one.
pub open spec fn classify_below(types: Seq<CatalogType>, parts: Seq<Seq<char>>, n: int) -> Option<
    (Seq<char>, Seq<char>, Seq<char>, ComponentCategory),
>
    decreases n,
{
    if n <= 0 {
        None
    } else {
        match classify_in(types, parts, n - 1, 0) {
            Some(c) => Some(c),
            None => classify_below(types, parts, n - 1),
        }
    }
}

/// The member name when `file` has the suffix of `entry`, other than `xml`.
pub open spec fn suffix_member(entry: CatalogType, file: Seq<char>) -> Option<Seq<char>> {
    match entry.suffix {
        None => None,
        Some(suffix) => if eq_ignore_case(suffix@, "xml"@) {
            None
        } else {
            spec_strip_metadata_suffix(file, suffix@)
        },
    }
}

/// The types whose suffix `file` has, each with the member name.
pub open spec fn suffix_matches(types: Seq<CatalogType>, file: Seq<char>) -> Seq<(int, Seq<char>)>
    decreases types.len(),
{
    if types.len() == 0 {
        Seq::empty()
    } else {
        suffix_matches(types.drop_last(), file) + match suffix_member(types.last(), file) {
            Some(member) => seq![(types.len() - 1, member)],
            None => Seq::empty(),
        }
    }
}

/// The first match from position `i` on whose type is not bound to its folder.
pub open spec fn first_loose(types: Seq<CatalogType>, matches: Seq<(int, Seq<char>)>, i: int) -> Option<int>
    decreases matches.len() - i,
{
    if i < 0 || i >= matches.len() {
        None
    } else if !types[matches[i].0].strict_directory {
        Some(i)
    } else {
        first_loose(types, matches, i + 1)
    }
}

/// A file recognized by its suffix alone: the first matching type that is
/// not bound to its folder, else the only matching type.
pub open spec fn spec_classify_by_suffix(types: Seq<CatalogType>, parts: Seq<Seq<char>>) -> Option<
    (Seq<char>, Seq<char>, Seq<char>, ComponentCategory),
> {
    let file = parts.last();
    let matches = suffix_matches(types, file);
    let chosen = match first_loose(types, matches, 0) {
        Some(i) => Some(i),
        None => if matches.len() == 1 {
            Some(0int)
        } else {
            None
        },
    };
    match chosen {
        None => None,
        Some(i) => Some(suffix_classification(types, parts, matches[i].0, matches[i].1)),
    }
}

/// The component a package file belongs to by the catalog's conventions,
/// given the normal parts of its path: found at the deepest folder of a
/// catalog type that accounts for the file, else by suffix alone.
pub open spec fn spec_catalog_classify(types: Seq<CatalogType>, parts: Seq<Seq<char>>) -> Option<
    (Seq<char>, Seq<char>, Seq<char>, ComponentCategory),
> {
    if parts.len() == 0 {
        None
    } else {
        match classify_below(types, parts, parts.len() as int) {
            Some(c) => Some(c),
            None => spec_classify_by_suffix(types, parts),
        }
    }
}

/// A classification built from its type, full name and role.
fn classified(metadata_type: &[char], full_name: &[char], role: &[char]) -> (result: ClassifiedMetadata)
    ensures
        classified_view(result) == classification(metadata_type@, full_name@, role@),
{
    let metadata_type = string_from_chars(metadata_type);
    let category = category_for(metadata_type.as_str());
    ClassifiedMetadata {
        metadata_type,
        full_name: string_from_chars(full_name),
        role: string_from_chars(role),
        category,
    }
}

/// Position of the first child whose folder is `directory`.
fn find_child(children: &Vec<CatalogChild>, directory: &[char]) -> (result: Option<usize>)
    ensures
        result matches Some(k) ==> k < children@.len(),
        match first_child(children@, directory@, 0) {
            Some(j) => result matches Some(k) && k as int == j,
            None => result is None,
        },
{
    let mut k: usize = 0;
    while k < children.len()
        invariant
            k <= children@.len(),
            first_child(children@, directory@, 0) == first_child(children@, directory@, k as int),
        decreases children@.len() - k,
    {
        if chars_equal(chars_of(children[k].directory.as_str()).as_slice(), directory) {
            return Some(k);
        }
        k += 1;
    }
    None
}

/// The member name of the last part for the suffix `suffix`.
fn member_of(parts: &[String], suffix: &String) -> (result: Option<Vec<char>>)
    requires
        parts@.len() > 0,
    ensures
        match spec_strip_metadata_suffix(part_texts(parts@).last(), suffix@) {
            Some(member) => result matches Some(r) && r@ == member,
            None => result is None,
        },
{
    let file = chars_of(parts[parts.len() - 1].as_str());
    let suffix = chars_of(suffix.as_str());
    strip_metadata_suffix(file.as_slice(), suffix.as_slice())
}

/// `first`, a separator, then `second`.
fn qualified(first: &String, separator: char, second: &[char]) -> (result: Vec<char>)
    ensures
        result@ == first@ + seq![separator] + second@,
{
    let mut out = chars_of(first.as_str());
    out.push(separator);
    push_chars(&mut out, second);
    out
}

/// A file of a child type below the folder of `parent` at `index`.
fn classify_child(parent: &CatalogType, parts: &[String], index: usize) -> (result: Option<ClassifiedMetadata>)
    requires
        index < parts@.len(),
    ensures
        classified_option(result) == spec_classify_child(*parent, part_texts(parts@), index as int),
{
    let ghost texts = part_texts(parts@);
    if parts.len() - index <= 2 {
        return None;
    }
    let directory = chars_of(parts[index + 2].as_str());
    assert(directory@ == texts[index + 2]);
    let k = match find_child(&parent.children, directory.as_slice()) {
        Some(k) => k,
        None => return None,
    };
    let child = &parent.children[k];
    assert(*child == parent.children@[k as int]);
    let suffix = match &child.suffix {
        Some(suffix) => suffix,
        None => return None,
    };
    let member = match member_of(parts, suffix) {
        Some(member) => member,
        None => return None,
    };
    if parts.len() - index != 4 {
        return None;
    }
    let full_name = if child.ignore_parent_name {
        member
    } else {
        qualified(&parts[index + 1], '.', member.as_slice())
    };
    let file = chars_of(parts[parts.len() - 1].as_str());
    let name = chars_of(child.name.as_str());
    Some(classified(name.as_slice(), full_name.as_slice(), file.as_slice()))
}

/// A file of the type `parent` itself, whose folder is at `index`.
fn classify_parent_file(parent: &CatalogType, parts: &[String], index: usize) -> (result: Option<ClassifiedMetadata>)
    requires
        index < parts@.len(),
    ensures
        classified_option(result) == spec_classify_parent_file(*parent, part_texts(parts@), index as int),
{
    let suffix = match &parent.suffix {
        Some(suffix) => suffix,
        None => return None,
    };
    let file = chars_of(parts[parts.len() - 1].as_str());
    let name = chars_of(parent.name.as_str());
    if parent.in_folder && parts.len() - index == 3 {
        let member = match member_of(parts, suffix) {
            Some(member) => member,
            None => return None,
        };
        let full_name = qualified(&parts[index + 1], '/', member.as_slice());
        return Some(classified(name.as_slice(), full_name.as_slice(), file.as_slice()));
    }
    if parts.len() - index != 2 {
        return None;
    }
    let member = match member_of(parts, suffix) {
        Some(member) => member,
        None => return None,
    };
    Some(classified(name.as_slice(), member.as_slice(), file.as_slice()))
}

/// A file below the folder of `parent` at `index`.
fn classify_at(parent: &CatalogType, parts: &[String], index: usize) -> (result: Option<ClassifiedMetadata>)
    requires
        index < parts@.len(),
    ensures
        classified_option(result) == spec_classify_at(*parent, part_texts(parts@), index as int),
{
    let ghost texts = part_texts(parts@);
    if parent.bundle || parent.mixed_content {
        if parts.len() - index <= 1 {
            return None;
        }
        let nested = parts.len() - index > 2;
        if parent.bundle || nested {
            if !nested {
                return None;
            }
            let name = chars_of(parent.name.as_str());
            let bundle = chars_of(parts[index + 1].as_str());
            let role = join_from(parts, index + 2);
            return Some(classified(name.as_slice(), bundle.as_slice(), role.as_slice()));
        }
    }
    match classify_child(parent, parts, index) {
        Some(c) => Some(c),
        None => classify_parent_file(parent, parts, index),
    }
}

/// The classification by the first type whose folder is the part at `index`
/// and that accounts for the file from there.
fn classify_in_types(types: &Vec<CatalogType>, parts: &[String], index: usize) -> (result: Option<ClassifiedMetadata>)
    requires
        index < parts@.len(),
    ensures
        classified_option(result) == classify_in(types@, part_texts(parts@), index as int, 0),
{
    let ghost texts = part_texts(parts@);
    let directory = chars_of(parts[index].as_str());
    let mut k: usize = 0;
    while k < types.len()
        invariant
            texts == part_texts(parts@),
            index < parts@.len(),
            directory@ == texts[index as int],
            k <= types@.len(),
            classify_in(types@, texts, index as int, 0) == classify_in(types@, texts, index as int, k as int),
        decreases types@.len() - k,
    {
        if chars_equal(chars_of(types[k].directory.as_str()).as_slice(), directory.as_slice()) {
            let found = classify_at(&types[k], parts, index);
            if found.is_some() {
                return found;
            }
        }
        k += 1;
    }
    None
}

/// The types whose suffix the file has, each with the member name.
fn collect_suffix_matches(types: &Vec<CatalogType>, file: &[char]) -> (result: Vec<(usize, Vec<char>)>)
    ensures
        result@.len() == suffix_matches(types@, file@).len(),
        forall|i: int| 0 <= i < result@.len() ==> (#[trigger] result@[i]).0 as int == suffix_matches(types@, file@)[i].0
            && result@[i].1@ == suffix_matches(types@, file@)[i].1,
{
    let mut out: Vec<(usize, Vec<char>)> = Vec::new();
    let mut k: usize = 0;
    while k < types.len()
        invariant
            k <= types@.len(),
            out@.len() == suffix_matches(types@.take(k as int), file@).len(),
            forall|i: int| 0 <= i < out@.len() ==> (#[trigger] out@[i]).0 as int == suffix_matches(types@.take(k as int), file@)[i].0
                && out@[i].1@ == suffix_matches(types@.take(k as int), file@)[i].1,
        decreases types@.len() - k,
    {
        let ghost prefix = types@.take(k as int);
        let ghost next = types@.take(k + 1);
        assert(next.drop_last() =~= prefix);
        assert(next.last() == types@[k as int]);
        let entry = &types[k];
        if let Some(suffix) = &entry.suffix {
            if !eq_ignore_ascii_case(suffix.as_str(), "xml") {
                let suffix = chars_of(suffix.as_str());
                if let Some(member) = strip_metadata_suffix(file, suffix.as_slice()) {
                    out.push((k, member));
                }
            }
        }
        k += 1;
    }
    assert(types@.take(types@.len() as int) =~= types@);
    out
}

/// The classification by the type at `k`, whose member name is `member`.
pub open spec fn suffix_classification(types: Seq<CatalogType>, parts: Seq<Seq<char>>, k: int, member: Seq<char>) -> (
    Seq<char>,
    Seq<char>,
    Seq<char>,
    ComponentCategory,
) {
    let entry = types[k];
    classification(
        entry.name@,
        if entry.in_folder && parts.len() > 1 {
            parts[parts.len() - 2] + seq!['/'] + member
        } else {
            member
        },
        parts.last(),
    )
}

fn classify_as_suffix_match(types: &Vec<CatalogType>, parts: &[String], k: usize, member: &Vec<char>) -> (result: ClassifiedMetadata)
    requires
        parts@.len() > 0,
        k < types@.len(),
    ensures
        classified_view(result) == suffix_classification(types@, part_texts(parts@), k as int, member@),
{
    let ghost texts = part_texts(parts@);
    let entry = &types[k];
    let file = chars_of(parts[parts.len() - 1].as_str());
    let name = chars_of(entry.name.as_str());
    let full_name = if entry.in_folder && parts.len() > 1 {
        assert(parts@[parts@.len() - 2]@ == texts[texts.len() - 2]);
        qualified(&parts[parts.len() - 2], '/', member.as_slice())
    } else {
        let mut copy: Vec<char> = Vec::new();
        push_chars(&mut copy, member.as_slice());
        copy
    };
    classified(name.as_slice(), full_name.as_slice(), file.as_slice())
}

/// A file recognized by its suffix alone.
fn classify_by_suffix(types: &Vec<CatalogType>, parts: &[String]) -> (result: Option<ClassifiedMetadata>)
    requires
        parts@.len() > 0,
    ensures
        classified_option(result) == spec_classify_by_suffix(types@, part_texts(parts@)),
{
    let ghost texts = part_texts(parts@);
    let file = chars_of(parts[parts.len() - 1].as_str());
    assert(file@ == texts.last());
    let matches = collect_suffix_matches(types, file.as_slice());
    let ghost spec_matches = suffix_matches(types@, file@);
    proof {
        lemma_suffix_matches_in_range(types@, file@);
    }
    let mut i: usize = 0;
    while i < matches.len()
        invariant
            texts == part_texts(parts@),
            parts@.len() > 0,
            file@ == texts.last(),
            i <= matches@.len(),
            matches@.len() == spec_matches.len(),
            spec_matches == suffix_matches(types@, file@),
            forall|j: int| 0 <= j < matches@.len() ==> (#[trigger] matches@[j]).0 as int == spec_matches[j].0
                && matches@[j].1@ == spec_matches[j].1,
            forall|j: int| 0 <= j < spec_matches.len() ==> 0 <= #[trigger] spec_matches[j].0 < types@.len(),
            first_loose(types@, spec_matches, 0) == first_loose(types@, spec_matches, i as int),
        decreases matches@.len() - i,
    {
        let k = matches[i].0;
        assert(spec_matches[i as int].0 == k as int);
        if !types[k].strict_directory {
            assert(first_loose(types@, spec_matches, i as int) == Some(i as int));
            return Some(classify_as_suffix_match(types, parts, k, &matches[i].1));
        }
        i += 1;
    }
    if matches.len() != 1 {
        return None;
    }
    assert(spec_matches[0].0 == matches@[0].0 as int);
    Some(classify_as_suffix_match(types, parts, matches[0].0, &matches[0].1))
}

/// Every match names a type of the list.
proof fn lemma_suffix_matches_in_range(types: Seq<CatalogType>, file: Seq<char>)
    ensures
        forall|j: int| 0 <= j < suffix_matches(types, file).len() ==> 0 <= #[trigger] suffix_matches(types, file)[j].0 < types.len(),
    decreases types.len(),
{
    if types.len() > 0 {
        let prefix = types.drop_last();
        lemma_suffix_matches_in_range(prefix, file);
        let before = suffix_matches(prefix, file);
        let all = suffix_matches(types, file);
        assert forall|j: int| 0 <= j < all.len() implies 0 <= #[trigger] all[j].0 < types.len() by {
            if j < before.len() {
                assert(all[j] == before[j]);
            } else {
                assert(all[j].0 == types.len() - 1);
            }
        }
    }
}

/// The component a package file belongs to by the conventions of `types`,
/// given the normal parts of its path.
fn classify_with(types: &Vec<CatalogType>, parts: &[String]) -> (result: Option<ClassifiedMetadata>)
    ensures
        classified_option(result) == spec_catalog_classify(types@, part_texts(parts@)),
{
    let ghost texts = part_texts(parts@);
    if parts.len() == 0 {
        return None;
    }
    let mut n: usize = parts.len();
    while n > 0
        invariant
            texts == part_texts(parts@),
            n <= parts@.len(),
            parts@.len() > 0,
            classify_below(types@, texts, parts@.len() as int) == classify_below(types@, texts, n as int),
        decreases n,
    {
        let found = classify_in_types(types, parts, n - 1);
        if found.is_some() {
            return found;
        }
        n -= 1;
    }
    classify_by_suffix(types, parts)
}

/// The API versions that every catalog must list an org profile for.
pub open spec fn required_api_versions() -> Seq<Seq<char>> {
    seq!["31.0"@, "60.0"@, "61.0"@, "62.0"@, "63.0"@, "64.0"@, "65.0"@, "66.0"@]
}

/// Whether the catalog lists an org profile for `version`.
pub open spec fn has_profile(profiles: Seq<(String, Vec<String>)>, version: Seq<char>) -> bool {
    exists|i: int| 0 <= i < profiles.len() && (#[trigger] profiles[i]).0@ == version
}

/// The first required version from position `i` on without an org profile.
pub open spec fn first_missing_profile(profiles: Seq<(String, Vec<String>)>, i: int) -> Option<Seq<char>>
    decreases required_api_versions().len() - i,
{
    if i < 0 || i >= required_api_versions().len() {
        None
    } else if !has_profile(profiles, required_api_versions()[i]) {
        Some(required_api_versions()[i])
    } else {
        first_missing_profile(profiles, i + 1)
    }
}

/// Why a catalog document cannot be used, if it cannot: a schema or type
/// count that does not match its source, or a missing required profile.
pub open spec fn catalog_error(document: CatalogDocument) -> Option<Seq<char>> {
    if document.schema_version != 1 || document.types@.len() != document.source.catalog_types {
        Some("bundled metadata catalog schema/count does not match its source"@)
    } else {
        match first_missing_profile(document.org_profiles@, 0) {
            Some(version) => Some("bundled metadata catalog is missing API "@ + version),
            None => None,
        }
    }
}

/// The required version at position `i`.
fn required_api_version(i: usize) -> (result: &'static str)
    requires
        i < 8,
    ensures
        result@ == required_api_versions()[i as int],
{
    match i {
        0 => "31.0",
        1 => "60.0",
        2 => "61.0",
        3 => "62.0",
        4 => "63.0",
        5 => "64.0",
        6 => "65.0",
        _ => "66.0",
    }
}

/// Position of the first org profile for `version`.
pub open spec fn first_profile(profiles: Seq<(String, Vec<String>)>, version: Seq<char>, k: int) -> Option<int>
    decreases profiles.len() - k,
{
    if k < 0 || k >= profiles.len() {
        None
    } else if profiles[k].0@ == version {
        Some(k)
    } else {
        first_profile(profiles, version, k + 1)
    }
}

/// A listed profile is found, in range and under its name.
proof fn lemma_first_profile(profiles: Seq<(String, Vec<String>)>, version: Seq<char>, k: int)
    requires
        0 <= k,
    ensures
        first_profile(profiles, version, k) matches Some(j) ==> k <= j < profiles.len() && profiles[j].0@ == version,
        (exists|i: int| k <= i < profiles.len() && (#[trigger] profiles[i]).0@ == version) ==> first_profile(profiles, version, k) is Some,
    decreases profiles.len() - k,
{
    if k < profiles.len() {
        lemma_first_profile(profiles, version, k + 1);
        if exists|i: int| k <= i < profiles.len() && (#[trigger] profiles[i]).0@ == version {
            let i = choose|i: int| k <= i < profiles.len() && (#[trigger] profiles[i]).0@ == version;
            if i > k {
                assert(k + 1 <= i < profiles.len() && profiles[i].0@ == version);
            }
        }
    }
}

/// Position of the first org profile for `version`.
fn find_profile(profiles: &Vec<(String, Vec<String>)>, version: &[char]) -> (result: Option<usize>)
    ensures
        match first_profile(profiles@, version@, 0) {
            Some(j) => result matches Some(k) && k as int == j,
            None => result is None,
        },
{
    let mut k: usize = 0;
    while k < profiles.len()
        invariant
            k <= profiles@.len(),
            first_profile(profiles@, version@, 0) == first_profile(profiles@, version@, k as int),
        decreases profiles@.len() - k,
    {
        if chars_equal(chars_of(profiles[k].0.as_str()).as_slice(), version) {
            return Some(k);
        }
        k += 1;
    }
    None
}

/// Why a catalog document cannot be used, if it cannot.
fn check_catalog(document: &CatalogDocument) -> (result: Result<(), String>)
    ensures
        match catalog_error(*document) {
            Some(message) => result matches Err(m) && m@ == message,
            None => result is Ok,
        },
{
    if document.schema_version != 1 || document.types.len() != document.source.catalog_types {
        return Err("bundled metadata catalog schema/count does not match its source".to_string());
    }
    let mut i: usize = 0;
    while i < 8
        invariant
            i <= 8,
            required_api_versions().len() == 8,
            document.schema_version == 1,
            document.types@.len() == document.source.catalog_types,
            first_missing_profile(document.org_profiles@, 0) == first_missing_profile(document.org_profiles@, i as int),
        decreases 8 - i,
    {
        let version = required_api_version(i);
        let found = find_profile(&document.org_profiles, chars_of(version).as_slice());
        proof {
            lemma_first_profile(document.org_profiles@, version@, 0);
        }
        if found.is_none() {
            assert(!has_profile(document.org_profiles@, required_api_versions()[i as int]));
            assert(first_missing_profile(document.org_profiles@, i as int) == Some(version@));
            let mut message: Vec<char> = Vec::new();
            push_str(&mut message, "bundled metadata catalog is missing API ");
            push_str(&mut message, version);
            assert(message@ =~= "bundled metadata catalog is missing API "@ + version@);
            return Err(string_from_chars(message.as_slice()));
        }
        i += 1;
    }
    Ok(())
}

/// The metadata catalog: a checked catalog document.
pub struct MetadataCatalog {
    document: CatalogDocument,
}

impl MetadataCatalog {
    /// A catalog in use always has a usable document.
    #[verifier::type_invariant]
    spec fn usable(self) -> bool {
        catalog_error(self.document) is None
    }

    /// The catalog's document.
    pub closed spec fn spec_document(self) -> CatalogDocument {
        self.document
    }

    /// The catalog over `document`, or why the document cannot be used.
    pub fn new(document: CatalogDocument) -> (result: Result<MetadataCatalog, String>)
        ensures
            match catalog_error(document) {
                Some(message) => result matches Err(m) && m@ == message,
                None => result matches Ok(catalog) && catalog.spec_document() == document,
            },
    {
        match check_catalog(&document) {
            Ok(()) => Ok(MetadataCatalog { document }),
            Err(message) => Err(message),
        }
    }

    /// The catalog's source.
    pub fn source(&self) -> (result: &CatalogSource)
        ensures
            *result == self.spec_document().source,
    {
        &self.document.source
    }

    /// The component a package file belongs to, given the normal parts of
    /// its path; `None` when the catalog has no convention for it.
    pub fn classify(&self, parts: &[String]) -> (result: Option<ClassifiedMetadata>)
        ensures
            classified_option(result) == spec_catalog_classify(self.spec_document().types@, part_texts(parts@)),
    {
        classify_with(&self.document.types, parts)
    }
}

/// The types whose local semantics the toolchain models.
pub open spec fn spec_local_semantics_state(metadata_type: Seq<char>) -> CapabilityState {
    if eq_ignore_case(metadata_type, "ApexClass"@) || eq_ignore_case(metadata_type, "ApexTrigger"@)
        || eq_ignore_case(metadata_type, "CustomField"@) || eq_ignore_case(metadata_type, "CustomObject"@) {
        CapabilityState::Supported
    } else {
        CapabilityState::Unsupported
    }
}

/// Whether the toolchain models the local semantics of a metadata type,
/// whatever the case of its name.
pub fn local_semantics_state(metadata_type: &str) -> (result: CapabilityState)
    ensures
        result == spec_local_semantics_state(metadata_type@),
{
    if eq_ignore_ascii_case(metadata_type, "ApexClass") || eq_ignore_ascii_case(metadata_type, "ApexTrigger")
        || eq_ignore_ascii_case(metadata_type, "CustomField") || eq_ignore_ascii_case(
        metadata_type,
        "CustomObject",
    ) {
        CapabilityState::Supported
    } else {
        CapabilityState::Unsupported
    }
}

/// An optional text as plain characters.
pub open spec fn option_text(o: Option<String>) -> Option<Seq<char>> {
    match o {
        Some(s) => Some(s@),
        None => None,
    }
}

/// Why a type an org does not return cannot be moved.
pub open spec fn unavailable_reason(profile: Seq<char>) -> Seq<char> {
    "not returned by describeMetadata for API "@ + profile + " in the guarded validation org"@
}

/// `c` describes catalog type `entry` in profile `profile`, where the org
/// returns the type exactly when `available`.
pub open spec fn describes(c: TypeCapability, entry: CatalogType, available: bool, profile: Seq<char>) -> bool {
    &&& c.metadata_type@ == entry.name@
    &&& c.directory@ == entry.directory@
    &&& option_text(c.suffix) == option_text(entry.suffix)
    &&& option_text(c.folder_type) == option_text(entry.folder_type)
    &&& c.in_folder == entry.in_folder
    &&& c.meta_file == entry.meta_file
    &&& c.bundle == entry.bundle
    &&& c.mixed_content == entry.mixed_content
    &&& c.child_types@.len() == entry.children@.len()
    &&& forall|i: int| 0 <= i < c.child_types@.len() ==> (#[trigger] c.child_types@[i])@ == entry.children@[i].name@
    &&& c.source_supported == entry.source_supported
    &&& c.inventory == CapabilityState::Supported
    &&& c.retrieve == (if available {
        CapabilityState::Supported
    } else {
        CapabilityState::OrgUnavailable
    })
    &&& c.deploy == c.retrieve
    &&& c.drift == CapabilityState::Supported
    &&& c.local_semantics == spec_local_semantics_state(entry.name@)
    &&& option_text(c.reason) == (if available {
        None
    } else {
        Some(unavailable_reason(profile))
    })
}

/// The lower-cased names the org profile for `version` lists; none when
/// the catalog has no such profile.
pub open spec fn enabled_names(profiles: Seq<(String, Vec<String>)>, version: Seq<char>) -> Seq<Seq<char>> {
    match first_profile(profiles, version, 0) {
        Some(j) => Seq::new(profiles[j].1@.len(), |i: int| ascii_lower(profiles[j].1@[i]@)),
        None => Seq::empty(),
    }
}

/// A copy of an optional text.
fn copy_text(o: &Option<String>) -> (result: Option<String>)
    ensures
        option_text(result) == option_text(*o),
{
    match o {
        Some(s) => Some(s.clone()),
        None => None,
    }
}

/// Whether `name` is among `names`.
fn listed(names: &Vec<Vec<char>>, name: &[char]) -> (result: bool)
    ensures
        result == exists|i: int| 0 <= i < names@.len() && (#[trigger] names@[i])@ == name@,
{
    let mut i: usize = 0;
    while i < names.len()
        invariant
            i <= names@.len(),
            forall|j: int| 0 <= j < i ==> (#[trigger] names@[j])@ != name@,
        decreases names@.len() - i,
    {
        if chars_equal(names[i].as_slice(), name) {
            return true;
        }
        i += 1;
    }
    false
}

/// What the toolchain supports for `entry` in `profile`, given the
/// lower-cased names of the types the org returns.
fn type_capability(entry: &CatalogType, enabled: &Vec<Vec<char>>, profile: &str) -> (result: TypeCapability)
    ensures
        describes(
            result,
            *entry,
            exists|i: int| 0 <= i < enabled@.len() && (#[trigger] enabled@[i])@ == ascii_lower(entry.name@),
            profile@,
        ),
{
    let lower = lower_chars(chars_of(entry.name.as_str()).as_slice());
    let available = listed(enabled, lower.as_slice());
    let transport = if available {
        CapabilityState::Supported
    } else {
        CapabilityState::OrgUnavailable
    };
    let mut child_types: Vec<String> = Vec::new();
    let mut i: usize = 0;
    while i < entry.children.len()
        invariant
            i <= entry.children@.len(),
            child_types@.len() == i,
            forall|j: int| 0 <= j < i ==> (#[trigger] child_types@[j])@ == entry.children@[j].name@,
        decreases entry.children@.len() - i,
    {
        child_types.push(entry.children[i].name.clone());
        i += 1;
    }
    let reason = if available {
        None
    } else {
        let mut text: Vec<char> = Vec::new();
        push_str(&mut text, "not returned by describeMetadata for API ");
        push_str(&mut text, profile);
        push_str(&mut text, " in the guarded validation org");
        assert(text@ =~= unavailable_reason(profile@));
        Some(string_from_chars(text.as_slice()))
    };
    TypeCapability {
        metadata_type: entry.name.clone(),
        directory: entry.directory.clone(),
        suffix: copy_text(&entry.suffix),
        folder_type: copy_text(&entry.folder_type),
        in_folder: entry.in_folder,
        meta_file: entry.meta_file,
        bundle: entry.bundle,
        mixed_content: entry.mixed_content,
        child_types,
        source_supported: entry.source_supported,
        inventory: CapabilityState::Supported,
        retrieve: transport,
        deploy: transport,
        drift: CapabilityState::Supported,
        local_semantics: local_semantics_state(entry.name.as_str()),
        reason,
    }
}

/// The version text of a modeled profile is one the catalog must list.
proof fn lemma_modeled_version_is_required(version: ApiVersion)
    requires
        modeled_behavior(version) is Some,
    ensures
        required_api_versions().contains(version.spec_text()),
{
    reveal_with_fuel(decimal, 3);
    reveal_strlit("31.0");
    reveal_strlit("60.0");
    reveal_strlit("61.0");
    reveal_strlit("62.0");
    reveal_strlit("63.0");
    reveal_strlit("64.0");
    reveal_strlit("65.0");
    reveal_strlit("66.0");
    let m = version.spec_major() as nat;
    let r = required_api_versions();
    assert(decimal(0) == seq!['0']);
    let k: int = if m == 31 {
        0
    } else {
        m - 59
    };
    assert(0 <= k < 8);
    assert(decimal(m) =~= seq![r[k][0], r[k][1]]);
    assert(version.spec_text() =~= r[k]);
}

/// A usable catalog lists every required version.
proof fn lemma_required_profiles_listed(profiles: Seq<(String, Vec<String>)>, i: int)
    requires
        0 <= i,
        first_missing_profile(profiles, i) is None,
    ensures
        forall|j: int| i <= j < required_api_versions().len() ==> has_profile(profiles, #[trigger] required_api_versions()[j]),
    decreases required_api_versions().len() - i,
{
    if i < required_api_versions().len() {
        lemma_required_profiles_listed(profiles, i + 1);
    }
}

impl MetadataCatalog {
    /// What the toolchain supports for each catalog type, in catalog order,
    /// in the API profile `profile`: a type moves to and from the org when
    /// the org profile for the version lists it, whatever the case.
    pub fn capabilities(&self, profile: CompatibilityProfile) -> (result: Vec<TypeCapability>)
        ensures
            ({
                let document = self.spec_document();
                let version = profile.spec_api_version().spec_text();
                let enabled = enabled_names(document.org_profiles@, version);
                &&& result@.len() == document.types@.len()
                &&& forall|i: int| 0 <= i < result@.len() ==> describes(
                    #[trigger] result@[i],
                    document.types@[i],
                    enabled.contains(ascii_lower(document.types@[i].name@)),
                    version,
                )
            }),
    {
        proof {
            use_type_invariant(self);
        }
        let version = profile.api_version();
        let name = version.to_string();
        let ghost profiles = self.document.org_profiles@;
        proof {
            lemma_modeled_version_is_required(version);
            lemma_required_profiles_listed(profiles, 0);
            let k = choose|k: int| 0 <= k < required_api_versions().len() && required_api_versions()[k] == version.spec_text();
            assert(has_profile(profiles, required_api_versions()[k]));
            lemma_first_profile(profiles, version.spec_text(), 0);
        }
        let j = match find_profile(&self.document.org_profiles, chars_of(name.as_str()).as_slice()) {
            Some(j) => j,
            None => {
                assert(false);
                0
            },
        };
        let names = &self.document.org_profiles[j].1;
        let mut enabled: Vec<Vec<char>> = Vec::new();
        let mut i: usize = 0;
        while i < names.len()
            invariant
                i <= names@.len(),
                enabled@.len() == i,
                forall|k: int| 0 <= k < i ==> (#[trigger] enabled@[k])@ == ascii_lower(names@[k]@),
            decreases names@.len() - i,
        {
            enabled.push(lower_chars(chars_of(names[i].as_str()).as_slice()));
            i += 1;
        }
        let ghost spec_enabled = enabled_names(profiles, version.spec_text());
        assert(spec_enabled.len() == enabled@.len());
        assert forall|k: int| 0 <= k < enabled@.len() implies (#[trigger] enabled@[k])@ == spec_enabled[k] by {}
        let types = &self.document.types;
        let mut out: Vec<TypeCapability> = Vec::new();
        let mut t: usize = 0;
        while t < types.len()
            invariant
                name@ == version.spec_text(),
                t <= types@.len(),
                out@.len() == t,
                spec_enabled.len() == enabled@.len(),
                forall|k: int| 0 <= k < enabled@.len() ==> (#[trigger] enabled@[k])@ == spec_enabled[k],
                forall|k: int| 0 <= k < t ==> describes(
                    #[trigger] out@[k],
                    types@[k],
                    spec_enabled.contains(ascii_lower(types@[k].name@)),
                    version.spec_text(),
                ),
            decreases types@.len() - t,
        {
            let capability = type_capability(&types[t], &enabled, name.as_str());
            proof {
                let target = ascii_lower(types@[t as int].name@);
                if spec_enabled.contains(target) {
                    let k = choose|k: int| 0 <= k < spec_enabled.len() && spec_enabled[k] == target;
                    assert(enabled@[k]@ == target);
                }
                if exists|k: int| 0 <= k < enabled@.len() && (#[trigger] enabled@[k])@ == target {
                    let k = choose|k: int| 0 <= k < enabled@.len() && (#[trigger] enabled@[k])@ == target;
                    assert(spec_enabled[k] == target);
                }
                assert((exists|k: int| 0 <= k < enabled@.len() && (#[trigger] enabled@[k])@ == target)
                    == spec_enabled.contains(target));
            }
            out.push(capability);
            t += 1;
        }
        out
    }
}

/// How a package file was accounted for: recognized by the catalog, a
/// package support file (`.DS_Store`, `package.xml`), or a file the catalog
/// has no convention for.
pub open spec fn disposition_matches(
    d: FileDisposition,
    path: PathBuf,
    file_name: Option<Seq<char>>,
    classified: Option<(Seq<char>, Seq<char>, Seq<char>, ComponentCategory)>,
) -> bool {
    &&& d.path == path
    &&& match classified {
        Some(c) => {
            &&& d.kind == FileDispositionKind::RecognizedMetadata
            &&& option_text(d.metadata_type) == Some(c.0)
            &&& option_text(d.full_name) == Some(c.1)
            &&& d.reason@ == "matched the API-profiled metadata catalog"@
        },
        None => {
            let intentional = file_name == Some(".DS_Store"@) || file_name == Some("package.xml"@);
            &&& d.kind == (if intentional {
                FileDispositionKind::IntentionalNonMetadata
            } else {
                FileDispositionKind::UnsupportedMetadata
            })
            &&& d.metadata_type is None
            &&& d.full_name is None
            &&& d.reason@ == (if intentional {
                "package support file, not a deployable metadata component"@
            } else {
                "file is inside a package root but has no convention in the pinned catalog"@
            })
        },
    }
}

/// How the package file at `path`, named `file_name`, is accounted for,
/// given its classification.
pub fn disposition(path: PathBuf, file_name: Option<&str>, classified: Option<&ClassifiedMetadata>) -> (result: FileDisposition)
    ensures
        disposition_matches(
            result,
            path,
            match file_name {
                Some(n) => Some(n@),
                None => None,
            },
            match classified {
                Some(c) => Some(classified_view(*c)),
                None => None,
            },
        ),
{
    if let Some(classified) = classified {
        return FileDisposition {
            path,
            kind: FileDispositionKind::RecognizedMetadata,
            metadata_type: Some(classified.metadata_type.clone()),
            full_name: Some(classified.full_name.clone()),
            reason: "matched the API-profiled metadata catalog".to_string(),
        };
    }
    let intentional = match file_name {
        Some(name) => {
            let name = chars_of(name);
            chars_are(name.as_slice(), ".DS_Store") || chars_are(name.as_slice(), "package.xml")
        },
        None => false,
    };
    FileDisposition {
        path,
        kind: if intentional {
            FileDispositionKind::IntentionalNonMetadata
        } else {
            FileDispositionKind::UnsupportedMetadata
        },
        metadata_type: None,
        full_name: None,
        reason: if intentional {
            "package support file, not a deployable metadata component".to_string()
        } else {
            "file is inside a package root but has no convention in the pinned catalog".to_string()
        },
    }
}

/// How many of the first `n` dispositions are of kind `kind`.
pub open spec fn count_kind(dispositions: Seq<FileDisposition>, kind: FileDispositionKind, n: int) -> nat
    decreases n,
{
    if n <= 0 {
        0
    } else {
        count_kind(dispositions, kind, n - 1) + if dispositions[n - 1].kind == kind {
            1nat
        } else {
            0nat
        }
    }
}

/// How many dispositions are of kind `kind`.
pub fn count_disposition(dispositions: &[FileDisposition], kind: FileDispositionKind) -> (result: usize)
    ensures
        result == count_kind(dispositions@, kind, dispositions@.len() as int),
{
    let mut count: usize = 0;
    let mut i: usize = 0;
    while i < dispositions.len()
        invariant
            i <= dispositions@.len(),
            count == count_kind(dispositions@, kind, i as int),
            count <= i,
        decreases dispositions@.len() - i,
    {
        if dispositions[i].kind == kind {
            count += 1;
        }
        i += 1;
    }
    count
}

} // verus!
