//! Typed Salesforce API-version compatibility profiles.
//!
//! Every Apex source unit runs under one exact API version. Semantic analysis
//! and execution consume the typed profile instead of comparing version strings.

use vstd::prelude::*;

use std::collections::BTreeMap;
use std::str::FromStr;

use crate::lexer::digits_value;
use crate::span::{SourceId, Span};
use crate::text::{
    chars_of, concat3, decimal, digit_char, find_char, first_index, is_ascii_digit, push_decimal, push_str, slice_chars,
    spec_is_ascii_digit, string_from_chars,
};

verus! {

broadcast use vstd::std_specs::btree::group_btree_axioms;

/// Lowest major version of the current profile.
pub const MIN_CURRENT_API_MAJOR: u16 = 60;

/// Highest major version of the current profile.
pub const MAX_CURRENT_API_MAJOR: u16 = 66;

/// A Salesforce API version `major.minor`.
#[derive(Clone, Copy, Debug, PartialEq, Eq, PartialOrd, Ord, Hash, Structural)]
pub struct ApiVersion {
    major: u16,
    minor: u16,
}

impl ApiVersion {
    pub closed spec fn spec_major(self) -> u16 {
        self.major
    }

    pub closed spec fn spec_minor(self) -> u16 {
        self.minor
    }

    /// The version `major.minor`.
    pub fn new(major: u16, minor: u16) -> (result: ApiVersion)
        ensures
            result.spec_major() == major,
            result.spec_minor() == minor,
    {
        ApiVersion { major, minor }
    }

    /// API version 31.0, the legacy profile.
    #[allow(non_snake_case)]
    pub fn API_31() -> (result: ApiVersion)
        ensures
            result.spec_major() == 31,
            result.spec_minor() == 0,
    {
        ApiVersion { major: 31, minor: 0 }
    }

    /// API version 66.0, the newest current profile.
    #[allow(non_snake_case)]
    pub fn API_66() -> (result: ApiVersion)
        ensures
            result.spec_major() == 66,
            result.spec_minor() == 0,
    {
        ApiVersion { major: 66, minor: 0 }
    }

    pub fn major(self) -> (result: u16)
        ensures
            result == self.spec_major(),
    {
        self.major
    }

    pub fn minor(self) -> (result: u16)
        ensures
            result == self.spec_minor(),
    {
        self.minor
    }

    /// The text `major.minor`.
    pub open spec fn spec_text(self) -> Seq<char> {
        decimal(self.spec_major() as nat) + seq!['.'] + decimal(self.spec_minor() as nat)
    }

    /// The version written as `major.minor`.
    pub fn to_string(&self) -> (result: String)
        ensures
            result@ == self.spec_text(),
    {
        let mut out: Vec<char> = Vec::new();
        self.push_text(&mut out);
        string_from_chars(out.as_slice())
    }

    fn push_text(&self, out: &mut Vec<char>)
        ensures
            final(out)@ == old(out)@ + self.spec_text(),
    {
        push_decimal(out, self.major as usize);
        out.push('.');
        push_decimal(out, self.minor as usize);
        assert(final(out)@ =~= old(out)@ + self.spec_text());
    }
}

/// Why a version text was refused.
#[derive(Clone, Copy, Debug, PartialEq, Eq, Structural)]
pub enum ApiVersionFault {
    /// Not two runs of ASCII digits around the first `.`.
    Form,
    /// A part does not fit in 16 bits.
    Range,
    /// A minor version other than zero.
    Unmodeled,
}

/// Whether `s` is one or more ASCII digits.
pub open spec fn all_digits(s: Seq<char>) -> bool {
    s.len() > 0 && forall|i: int| 0 <= i < s.len() ==> spec_is_ascii_digit(#[trigger] s[i])
}

/// Text before the first `.`.
pub open spec fn major_text(value: Seq<char>) -> Seq<char> {
    value.take(first_index(value, '.', 0))
}

/// Text after the first `.`.
pub open spec fn minor_text(value: Seq<char>) -> Seq<char> {
    value.skip(first_index(value, '.', 0) + 1)
}

/// The outcome of reading a version text: its fault, or `None` when it is a
/// modeled `major.0` version.
pub open spec fn api_version_fault(value: Seq<char>) -> Option<ApiVersionFault> {
    if first_index(value, '.', 0) < 0 {
        Some(ApiVersionFault::Form)
    } else if !all_digits(major_text(value)) || !all_digits(minor_text(value)) {
        Some(ApiVersionFault::Form)
    } else if digits_value(major_text(value)) > u16::MAX || digits_value(minor_text(value)) > u16::MAX {
        Some(ApiVersionFault::Range)
    } else if digits_value(minor_text(value)) != 0 {
        Some(ApiVersionFault::Unmodeled)
    } else {
        None
    }
}

/// The message for a refused version text.
pub open spec fn api_version_message(value: Seq<char>, fault: ApiVersionFault) -> Seq<char> {
    "Salesforce API version `"@ + value + match fault {
        ApiVersionFault::Form => "` must use `major.minor` form"@,
        ApiVersionFault::Range => "` is out of range"@,
        ApiVersionFault::Unmodeled => "` is not modeled; supported versions use minor version 0"@,
    }
}

/// Appending a digit to a run of digits multiplies its value by ten and adds the digit.
proof fn lemma_digits_value_push(s: Seq<char>, i: int)
    requires
        0 <= i < s.len(),
    ensures
        digits_value(s.take(i + 1)) == digits_value(s.take(i)) * 10 + ((s[i] as u32) - ('0' as u32)) as nat,
{
    assert(s.take(i + 1).drop_last() =~= s.take(i));
}

/// The value of a prefix of digits never exceeds the value of a longer prefix.
proof fn lemma_digits_value_prefix(s: Seq<char>, i: int, j: int)
    requires
        0 <= i <= j <= s.len(),
        forall|k: int| 0 <= k < s.len() ==> spec_is_ascii_digit(#[trigger] s[k]),
    ensures
        digits_value(s.take(i)) <= digits_value(s.take(j)),
    decreases j - i,
{
    if i < j {
        lemma_digits_value_prefix(s, i, j - 1);
        lemma_digits_value_push(s, j - 1);
    }
}

/// The value of a run of ASCII digits, or `None` when it exceeds 16 bits.
fn digits_u16(s: &[char]) -> (result: Option<u16>)
    requires
        forall|k: int| 0 <= k < s@.len() ==> spec_is_ascii_digit(#[trigger] s@[k]),
    ensures
        match result {
            Some(v) => v as nat == digits_value(s@),
            None => digits_value(s@) > u16::MAX,
        },
{
    let mut value: u32 = 0;
    let mut i: usize = 0;
    while i < s.len()
        invariant
            i <= s@.len(),
            forall|k: int| 0 <= k < s@.len() ==> spec_is_ascii_digit(#[trigger] s@[k]),
            value as nat == digits_value(s@.take(i as int)),
            value <= u16::MAX,
        decreases s@.len() - i,
    {
        proof {
            lemma_digits_value_push(s@, i as int);
            assert(spec_is_ascii_digit(s@[i as int]));
        }
        let d: u32 = (s[i] as u32) - ('0' as u32);
        value = value * 10 + d;
        i += 1;
        if value > 65535 {
            proof {
                lemma_digits_value_prefix(s@, i as int, s@.len() as int);
                assert(s@.take(s@.len() as int) =~= s@);
            }
            return None;
        }
    }
    assert(s@.take(s@.len() as int) =~= s@);
    Some(value as u16)
}

/// Whether every character is an ASCII digit, and there is at least one.
fn chars_all_digits(s: &[char]) -> (result: bool)
    ensures
        result == all_digits(s@),
{
    if s.len() == 0 {
        return false;
    }
    let mut i: usize = 0;
    while i < s.len()
        invariant
            i <= s@.len(),
            forall|k: int| 0 <= k < i ==> spec_is_ascii_digit(#[trigger] s@[k]),
        decreases s@.len() - i,
    {
        if !is_ascii_digit(s[i]) {
            return false;
        }
        i += 1;
    }
    true
}

impl ApiVersion {
    /// Reads a modeled version text: `major.minor` with ASCII digits on both
    /// sides of the first `.`, each part within 16 bits and the minor part 0.
    pub fn parse(value: &str) -> (result: Result<ApiVersion, String>)
        ensures
            match api_version_fault(value@) {
                Some(fault) => result matches Err(message) && message@ == api_version_message(value@, fault),
                None => result matches Ok(version) && version.spec_major() as nat == digits_value(major_text(value@))
                    && version.spec_minor() == 0,
            },
    {
        let chars = chars_of(value);
        let dot = match find_char(chars.as_slice(), '.') {
            Some(dot) => dot,
            None => return Err(ApiVersion::fault_message(value, ApiVersionFault::Form)),
        };
        let major_chars = slice_chars(chars.as_slice(), 0, dot);
        let minor_chars = slice_chars(chars.as_slice(), dot + 1, chars.len());
        proof {
            assert(major_chars@ =~= major_text(value@));
            assert(minor_chars@ =~= minor_text(value@));
        }
        if !chars_all_digits(major_chars.as_slice()) || !chars_all_digits(minor_chars.as_slice()) {
            return Err(ApiVersion::fault_message(value, ApiVersionFault::Form));
        }
        let major = match digits_u16(major_chars.as_slice()) {
            Some(major) => major,
            None => return Err(ApiVersion::fault_message(value, ApiVersionFault::Range)),
        };
        let minor = match digits_u16(minor_chars.as_slice()) {
            Some(minor) => minor,
            None => return Err(ApiVersion::fault_message(value, ApiVersionFault::Range)),
        };
        if minor != 0 {
            return Err(ApiVersion::fault_message(value, ApiVersionFault::Unmodeled));
        }
        Ok(ApiVersion { major, minor })
    }

    fn fault_message(value: &str, fault: ApiVersionFault) -> (result: String)
        ensures
            result@ == api_version_message(value@, fault),
    {
        let tail = match fault {
            ApiVersionFault::Form => "` must use `major.minor` form",
            ApiVersionFault::Range => "` is out of range",
            ApiVersionFault::Unmodeled => "` is not modeled; supported versions use minor version 0",
        };
        concat3("Salesforce API version `", value, tail)
    }
}

impl FromStr for ApiVersion {
    type Err = String;

    fn from_str(value: &str) -> (result: Result<ApiVersion, String>) {
        ApiVersion::parse(value)
    }
}

/// Runtime behavior family of a modeled API version.
#[derive(Clone, Copy, Debug, PartialEq, Eq, PartialOrd, Ord, Hash, Structural)]
pub enum CompatibilityBehavior {
    LegacyApi31,
    CurrentApi60To66,
}

impl CompatibilityBehavior {
    pub open spec fn spec_label(self) -> Seq<char> {
        match self {
            CompatibilityBehavior::LegacyApi31 => "legacy-api-31"@,
            CompatibilityBehavior::CurrentApi60To66 => "current-api-60-to-66"@,
        }
    }

    /// Stable name of the behavior family.
    pub fn label(self) -> (result: &'static str)
        ensures
            result@ == self.spec_label(),
    {
        match self {
            CompatibilityBehavior::LegacyApi31 => "legacy-api-31",
            CompatibilityBehavior::CurrentApi60To66 => "current-api-60-to-66",
        }
    }
}

/// The behavior family of a version, or `None` when the version is not modeled.
pub open spec fn modeled_behavior(version: ApiVersion) -> Option<CompatibilityBehavior> {
    if version.spec_minor() != 0 {
        None
    } else if version.spec_major() == 31 {
        Some(CompatibilityBehavior::LegacyApi31)
    } else if MIN_CURRENT_API_MAJOR <= version.spec_major() <= MAX_CURRENT_API_MAJOR {
        Some(CompatibilityBehavior::CurrentApi60To66)
    } else {
        None
    }
}

/// The message for a version with no modeled profile.
pub open spec fn unmodeled_profile_message(version: ApiVersion) -> Seq<char> {
    if version.spec_minor() != 0 {
        "Salesforce API version `"@ + version.spec_text()
            + "` is not modeled; supported versions use minor version 0"@
    } else {
        "Salesforce API version `"@ + version.spec_text()
            + "` has no modeled compatibility profile; supported versions are 31.0 and 60.0 through 66.0"@
    }
}

/// One modeled API version together with its behavior family.
#[derive(Clone, Copy, Debug, PartialEq, Eq, Hash, Structural)]
pub struct CompatibilityProfile {
    api_version: ApiVersion,
    behavior: CompatibilityBehavior,
}

impl CompatibilityProfile {
    /// A profile always pairs a modeled version with that version's behavior.
    #[verifier::type_invariant]
    spec fn modeled(self) -> bool {
        modeled_behavior(self.api_version) == Some(self.behavior)
    }

    pub closed spec fn spec_api_version(self) -> ApiVersion {
        self.api_version
    }

    pub closed spec fn spec_behavior(self) -> CompatibilityBehavior {
        self.behavior
    }

    /// The profile of a modeled version; versions other than 31.0 and
    /// 60.0 through 66.0 are refused.
    pub fn for_api_version(api_version: ApiVersion) -> (result: Result<CompatibilityProfile, String>)
        ensures
            match modeled_behavior(api_version) {
                Some(behavior) => result matches Ok(profile) && profile.spec_api_version() == api_version
                    && profile.spec_behavior() == behavior,
                None => result matches Err(message) && message@ == unmodeled_profile_message(api_version),
            },
    {
        if api_version.minor != 0 {
            return Err(CompatibilityProfile::unmodeled_message(api_version, "` is not modeled; supported versions use minor version 0"));
        }
        let behavior = if api_version.major == 31 {
            CompatibilityBehavior::LegacyApi31
        } else if MIN_CURRENT_API_MAJOR <= api_version.major && api_version.major <= MAX_CURRENT_API_MAJOR {
            CompatibilityBehavior::CurrentApi60To66
        } else {
            return Err(CompatibilityProfile::unmodeled_message(
                api_version,
                "` has no modeled compatibility profile; supported versions are 31.0 and 60.0 through 66.0",
            ));
        };
        Ok(CompatibilityProfile { api_version, behavior })
    }

    fn unmodeled_message(api_version: ApiVersion, tail: &str) -> (result: String)
        ensures
            result@ == "Salesforce API version `"@ + api_version.spec_text() + tail@,
    {
        let mut out: Vec<char> = Vec::new();
        push_str(&mut out, "Salesforce API version `");
        api_version.push_text(&mut out);
        push_str(&mut out, tail);
        string_from_chars(out.as_slice())
    }

    /// The profile's version, which is always a modeled one.
    pub fn api_version(self) -> (result: ApiVersion)
        ensures
            result == self.spec_api_version(),
            modeled_behavior(result) == Some(self.spec_behavior()),
    {
        proof {
            use_type_invariant(&self);
        }
        self.api_version
    }

    pub fn behavior(self) -> (result: CompatibilityBehavior)
        ensures
            result == self.spec_behavior(),
            modeled_behavior(self.spec_api_version()) == Some(result),
    {
        proof {
            use_type_invariant(&self);
        }
        self.behavior
    }

    pub open spec fn spec_identity(self) -> Seq<char> {
        "salesforce-api-"@ + self.spec_api_version().spec_text()
    }

    /// `salesforce-api-` followed by the version.
    pub fn identity(self) -> (result: String)
        ensures
            result@ == self.spec_identity(),
    {
        let mut out: Vec<char> = Vec::new();
        push_str(&mut out, "salesforce-api-");
        self.api_version.push_text(&mut out);
        string_from_chars(out.as_slice())
    }

    /// Whether `null instanceof T` is true: only under API 31.0.
    pub fn null_instanceof_result(self) -> (result: bool)
        ensures
            result == (self.spec_behavior() is LegacyApi31),
            result == (self.spec_api_version().spec_major() == 31),
    {
        proof {
            use_type_invariant(&self);
        }
        matches!(self.behavior, CompatibilityBehavior::LegacyApi31)
    }

    /// Whether current Apex syntax is accepted: API 60.0 through 66.0.
    pub fn supports_current_syntax(self) -> (result: bool)
        ensures
            result == (self.spec_behavior() is CurrentApi60To66),
            result == (MIN_CURRENT_API_MAJOR <= self.spec_api_version().spec_major() <= MAX_CURRENT_API_MAJOR),
    {
        proof {
            use_type_invariant(&self);
        }
        matches!(self.behavior, CompatibilityBehavior::CurrentApi60To66)
    }

    /// Whether the curated platform surface is available: API 60.0 through 66.0.
    pub fn supports_curated_platform(self) -> (result: bool)
        ensures
            result == (self.spec_behavior() is CurrentApi60To66),
            result == (MIN_CURRENT_API_MAJOR <= self.spec_api_version().spec_major() <= MAX_CURRENT_API_MAJOR),
    {
        proof {
            use_type_invariant(&self);
        }
        matches!(self.behavior, CompatibilityBehavior::CurrentApi60To66)
    }
}

impl Default for CompatibilityProfile {
    /// API 66.0 with the current behavior.
    fn default() -> (result: CompatibilityProfile)
        ensures
            result.spec_api_version().spec_major() == 66,
            result.spec_api_version().spec_minor() == 0,
            result.spec_behavior() == CompatibilityBehavior::CurrentApi60To66,
    {
        CompatibilityProfile { api_version: ApiVersion::API_66(), behavior: CompatibilityBehavior::CurrentApi60To66 }
    }
}

/// The profile that applies to each source, with a default for sources that
/// have none of their own.
#[derive(Clone, Debug, PartialEq, Eq)]
pub struct SourceProfiles {
    default: CompatibilityProfile,
    by_source: BTreeMap<u32, CompatibilityProfile>,
}

impl SourceProfiles {
    pub closed spec fn spec_default(self) -> CompatibilityProfile {
        self.default
    }

    /// Profiles of the sources that have one, keyed by source number.
    pub closed spec fn spec_entries(self) -> Map<u32, CompatibilityProfile> {
        self.by_source@
    }

    /// The profile that applies to `source_id`.
    pub open spec fn spec_for_source(self, source_id: SourceId) -> CompatibilityProfile {
        let key = source_id.spec_number() as u32;
        if self.spec_entries().contains_key(key) {
            self.spec_entries()[key]
        } else {
            self.spec_default()
        }
    }

    /// No source has a profile of its own yet.
    pub fn new(default: CompatibilityProfile) -> (result: SourceProfiles)
        ensures
            result.spec_default() == default,
            result.spec_entries() == Map::<u32, CompatibilityProfile>::empty(),
    {
        SourceProfiles { default, by_source: BTreeMap::new() }
    }

    /// Gives `source_id` its own profile, replacing any earlier one.
    pub fn insert(&mut self, source_id: SourceId, profile: CompatibilityProfile)
        ensures
            final(self).spec_default() == old(self).spec_default(),
            final(self).spec_entries() == old(self).spec_entries().insert(source_id.spec_number() as u32, profile),
    {
        self.by_source.insert(source_id.number(), profile);
    }

    /// The profile of `source_id`, or the default when it has none.
    pub fn for_source(&self, source_id: SourceId) -> (result: CompatibilityProfile)
        ensures
            result == self.spec_for_source(source_id),
    {
        match self.by_source.get(&source_id.number()) {
            Some(profile) => *profile,
            None => self.default,
        }
    }

    /// The profile of the source that `span` lies in.
    pub fn for_span(&self, span: Span) -> (result: CompatibilityProfile)
        ensures
            result == self.spec_for_source(span.source_id),
    {
        self.for_source(span.source_id)
    }
}

impl Default for SourceProfiles {
    /// The default profile, also recorded for the anonymous source.
    fn default() -> (result: SourceProfiles)
        ensures
            result.spec_default().spec_api_version().spec_major() == 66,
            result.spec_default().spec_behavior() == CompatibilityBehavior::CurrentApi60To66,
            result.spec_entries() == Map::<u32, CompatibilityProfile>::empty().insert(0, result.spec_default()),
    {
        let profile = CompatibilityProfile::default();
        let mut profiles = SourceProfiles::new(profile);
        profiles.insert(SourceId::ANONYMOUS, profile);
        profiles
    }
}

/// Where a source's profile came from.
#[derive(Clone, Copy, Debug, PartialEq, Eq, PartialOrd, Ord, Structural)]
pub enum ProfileOrigin {
    ProjectDefault,
    Sidecar,
}

/// The profile that one named source ran under, as reported to users.
#[derive(Clone, Debug, PartialEq, Eq, PartialOrd, Ord)]
pub struct EffectiveProfile {
    pub source: String,
    pub api_version: ApiVersion,
    pub behavior: CompatibilityBehavior,
    pub origin: ProfileOrigin,
}

impl EffectiveProfile {
    pub fn new(source: String, profile: CompatibilityProfile, origin: ProfileOrigin) -> (result: EffectiveProfile)
        ensures
            result.source@ == source@,
            result.api_version == profile.spec_api_version(),
            result.behavior == profile.spec_behavior(),
            result.origin == origin,
    {
        EffectiveProfile { source, api_version: profile.api_version(), behavior: profile.behavior(), origin }
    }

    pub open spec fn spec_identity(&self) -> Seq<char> {
        self.source@ + seq![':'] + self.api_version.spec_text() + seq![':'] + self.behavior.spec_label()
    }

    /// `source:version:behavior`.
    pub fn identity(&self) -> (result: String)
        ensures
            result@ == self.spec_identity(),
    {
        let mut out: Vec<char> = Vec::new();
        push_str(&mut out, self.source.as_str());
        out.push(':');
        self.api_version.push_text(&mut out);
        out.push(':');
        push_str(&mut out, self.behavior.label());
        assert(out@ =~= self.spec_identity());
        string_from_chars(out.as_slice())
    }
}

/// A profile given to one source is what that source then reads back, and
/// every other source reads what it read before.
pub proof fn lemma_insert_then_for_source(
    before: SourceProfiles,
    after: SourceProfiles,
    source_id: SourceId,
    profile: CompatibilityProfile,
    other: SourceId,
)
    requires
        after.spec_default() == before.spec_default(),
        after.spec_entries() == before.spec_entries().insert(source_id.spec_number() as u32, profile),
    ensures
        after.spec_for_source(source_id) == profile,
        other.spec_number() != source_id.spec_number() ==> after.spec_for_source(other) == before.spec_for_source(other),
{
}

/// The profile that the last of `inserts` given to source number `key`
/// names, or `default` when none is given to it.
pub open spec fn last_profile_for(
    inserts: Seq<(SourceId, CompatibilityProfile)>,
    key: u32,
    default: CompatibilityProfile,
) -> CompatibilityProfile
    decreases inserts.len(),
{
    if inserts.len() == 0 {
        default
    } else if inserts.last().0.spec_number() as u32 == key {
        inserts.last().1
    } else {
        last_profile_for(inserts.drop_last(), key, default)
    }
}

/// After any sequence of inserts into profiles that start with a default
/// and no source of their own, a source reads the profile that the last
/// insert for it gave, and the default when no insert was for it.
/// `states[k]` is the profiles before insert `k`, and the last state is
/// the profiles after all of them.
pub proof fn lemma_inserts_then_for_source(
    states: Seq<SourceProfiles>,
    inserts: Seq<(SourceId, CompatibilityProfile)>,
    default: CompatibilityProfile,
    source_id: SourceId,
)
    requires
        states.len() == inserts.len() + 1,
        states[0].spec_default() == default,
        states[0].spec_entries() == Map::<u32, CompatibilityProfile>::empty(),
        forall|k: int|
            0 <= k < inserts.len() ==> (#[trigger] states[k + 1]).spec_default() == states[k].spec_default()
                && states[k + 1].spec_entries() == states[k].spec_entries().insert(
                inserts[k].0.spec_number() as u32,
                inserts[k].1,
            ),
    ensures
        states.last().spec_for_source(source_id) == last_profile_for(inserts, source_id.spec_number() as u32, default),
    decreases inserts.len(),
{
    if inserts.len() > 0 {
        let n = inserts.len() - 1;
        let fewer = states.take(states.len() - 1);
        assert forall|k: int| 0 <= k < inserts.drop_last().len() implies (#[trigger] fewer[k + 1]).spec_default()
            == fewer[k].spec_default() && fewer[k + 1].spec_entries() == fewer[k].spec_entries().insert(
            inserts.drop_last()[k].0.spec_number() as u32,
            inserts.drop_last()[k].1,
        ) by {
            assert(states[k + 1].spec_default() == states[k].spec_default());
        }
        lemma_inserts_then_for_source(fewer, inserts.drop_last(), default, source_id);
        assert(states[n + 1].spec_entries() == states[n].spec_entries().insert(
            inserts[n].0.spec_number() as u32,
            inserts[n].1,
        ));
        assert(states.last() == states[n + 1]);
        assert(fewer.last() == states[n]);
        assert(states[n + 1].spec_default() == states[n].spec_default());
    }
}

} // verus!

verus! {

/// The value of a digit character is the digit.
proof fn lemma_digit_char_value(d: nat)
    requires
        d < 10,
    ensures
        spec_is_ascii_digit(digit_char(d)),
        ((digit_char(d) as u32) - ('0' as u32)) as nat == d,
{
}

/// The decimal digits of a number are digits, with no `.`, and read back as the number.
proof fn lemma_decimal_reads_back(n: nat)
    ensures
        all_digits(decimal(n)),
        digits_value(decimal(n)) == n,
        first_index(decimal(n), '.', 0) == -1,
    decreases n,
{
    if n < 10 {
        lemma_digit_char_value(n);
        assert(decimal(n) == seq![digit_char(n)]);
        assert(decimal(n).drop_last() =~= Seq::<char>::empty());
        assert(digits_value(Seq::<char>::empty()) == 0);
        assert(digits_value(decimal(n)) == digits_value(decimal(n).drop_last()) * 10 + ((decimal(n).last() as u32)
            - ('0' as u32)) as nat);
        assert(first_index(decimal(n), '.', 1) == -1);
    } else {
        lemma_decimal_reads_back(n / 10);
        lemma_digit_char_value(n % 10);
        let s = decimal(n);
        assert(s == decimal(n / 10) + seq![digit_char(n % 10)]);
        assert(s.drop_last() =~= decimal(n / 10));
        assert(s.last() == digit_char(n % 10));
        assert((n / 10) * 10 + n % 10 == n) by (nonlinear_arith);
        assert(digits_value(s) == digits_value(s.drop_last()) * 10 + ((s.last() as u32) - ('0' as u32)) as nat);
        assert(digits_value(s) == (n / 10) * 10 + n % 10);
        assert forall|i: int| 0 <= i < s.len() implies spec_is_ascii_digit(#[trigger] s[i]) by {
            if i < s.len() - 1 {
                assert(s[i] == decimal(n / 10)[i]);
            }
        }
        lemma_first_index_absent(s, '.', 0);
    }
}

/// A text without `c` from `from` on has no index of `c` there.
proof fn lemma_first_index_absent(s: Seq<char>, c: char, from: int)
    requires
        0 <= from,
        forall|i: int| from <= i < s.len() ==> s[i] != c,
    ensures
        first_index(s, c, from) == -1,
    decreases s.len() - from,
{
    if from < s.len() {
        lemma_first_index_absent(s, c, from + 1);
    }
}

/// Reading the text of a version with minor version 0 gives the version back.
pub proof fn lemma_version_text_reads_back(version: ApiVersion)
    requires
        version.spec_minor() == 0,
    ensures
        api_version_fault(version.spec_text()) is None,
        digits_value(major_text(version.spec_text())) == version.spec_major(),
{
    let major = decimal(version.spec_major() as nat);
    let text = version.spec_text();
    lemma_decimal_reads_back(version.spec_major() as nat);
    lemma_decimal_reads_back(0);
    assert(decimal(0) == seq!['0']);
    assert(text == major + seq!['.'] + seq!['0']);
    assert forall|i: int| 0 <= i < major.len() implies text[i] != '.' by {
        assert(text[i] == major[i]);
        assert(spec_is_ascii_digit(major[i]));
    }
    lemma_first_index_prefix(text, '.', major.len() as int);
    assert(major_text(text) =~= major);
    assert(minor_text(text) =~= seq!['0']);
    assert(seq!['0'].drop_last() =~= Seq::<char>::empty());
}

/// The first `c` is at `k` when it is there and not before.
proof fn lemma_first_index_prefix(s: Seq<char>, c: char, k: int)
    requires
        0 <= k < s.len(),
        s[k] == c,
        forall|i: int| 0 <= i < k ==> s[i] != c,
    ensures
        first_index(s, c, 0) == k,
{
    lemma_first_index_from(s, c, 0, k);
}

proof fn lemma_first_index_from(s: Seq<char>, c: char, from: int, k: int)
    requires
        0 <= from <= k < s.len(),
        s[k] == c,
        forall|i: int| from <= i < k ==> s[i] != c,
    ensures
        first_index(s, c, from) == k,
    decreases k - from,
{
    if from < k {
        lemma_first_index_from(s, c, from + 1, k);
    }
}

} // verus!
