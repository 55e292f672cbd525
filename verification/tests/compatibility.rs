use apex_exec::compatibility::{ApiVersion, CompatibilityProfile};

#[test]
fn api_versions_are_strict_and_unmodeled_ranges_fail_explicitly() {
    assert_eq!("31.0".parse::<ApiVersion>().unwrap(), ApiVersion::API_31());
    assert!("31".parse::<ApiVersion>().is_err());
    assert!("31.1".parse::<ApiVersion>().is_err());
    assert!(CompatibilityProfile::for_api_version(ApiVersion::new(59, 0)).is_err());
    assert!(CompatibilityProfile::for_api_version(ApiVersion::new(67, 0)).is_err());
}

#[test]
fn modeled_profiles_expose_the_reviewed_runtime_difference() {
    let legacy = CompatibilityProfile::for_api_version(ApiVersion::API_31()).unwrap();
    let current = CompatibilityProfile::for_api_version(ApiVersion::API_66()).unwrap();
    assert!(legacy.null_instanceof_result());
    assert!(!current.null_instanceof_result());
    assert!(!legacy.supports_current_syntax());
    assert!(current.supports_current_syntax());
}

use apex_exec::compatibility::{
    CompatibilityBehavior, EffectiveProfile, ProfileOrigin, SourceProfiles,
};
use apex_exec::span::{SourceId, Span};

#[test]
fn version_texts_report_each_fault_with_the_text() {
    assert_eq!(
        ApiVersion::parse("abc").unwrap_err(),
        "Salesforce API version `abc` must use `major.minor` form"
    );
    assert_eq!(
        ApiVersion::parse(".0").unwrap_err(),
        "Salesforce API version `.0` must use `major.minor` form"
    );
    assert_eq!(
        ApiVersion::parse("60.0.1").unwrap_err(),
        "Salesforce API version `60.0.1` must use `major.minor` form"
    );
    assert_eq!(
        ApiVersion::parse("+6.0").unwrap_err(),
        "Salesforce API version `+6.0` must use `major.minor` form"
    );
    assert_eq!(
        ApiVersion::parse("70000.0").unwrap_err(),
        "Salesforce API version `70000.0` is out of range"
    );
    assert_eq!(
        ApiVersion::parse("31.70000").unwrap_err(),
        "Salesforce API version `31.70000` is out of range"
    );
    assert_eq!(
        ApiVersion::parse("31.1").unwrap_err(),
        "Salesforce API version `31.1` is not modeled; supported versions use minor version 0"
    );
    let version = ApiVersion::parse("0061.00").unwrap();
    assert_eq!((version.major(), version.minor()), (61, 0));
    assert_eq!(version.to_string(), "61.0");
    assert_eq!(ApiVersion::parse("65535.0").unwrap().major(), 65535);
}

#[test]
fn unmodeled_profiles_name_the_version_and_the_supported_ranges() {
    assert_eq!(
        CompatibilityProfile::for_api_version(ApiVersion::new(59, 0)).unwrap_err(),
        "Salesforce API version `59.0` has no modeled compatibility profile; supported versions are 31.0 and 60.0 through 66.0"
    );
    assert_eq!(
        CompatibilityProfile::for_api_version(ApiVersion::new(60, 2)).unwrap_err(),
        "Salesforce API version `60.2` is not modeled; supported versions use minor version 0"
    );
    for major in 60..=66 {
        let profile = CompatibilityProfile::for_api_version(ApiVersion::new(major, 0)).unwrap();
        assert_eq!(profile.behavior(), CompatibilityBehavior::CurrentApi60To66);
        assert!(profile.supports_curated_platform());
        assert_eq!(profile.api_version(), ApiVersion::new(major, 0));
    }
    let legacy = CompatibilityProfile::for_api_version(ApiVersion::API_31()).unwrap();
    assert_eq!(legacy.behavior().label(), "legacy-api-31");
    assert!(!legacy.supports_curated_platform());
    assert_eq!(legacy.identity(), "salesforce-api-31.0");
}

#[test]
fn default_profile_is_the_newest_current_version() {
    let profile = CompatibilityProfile::default();
    assert_eq!(profile.api_version(), ApiVersion::API_66());
    assert_eq!(profile.behavior().label(), "current-api-60-to-66");
    assert_eq!(profile.identity(), "salesforce-api-66.0");
}

#[test]
fn a_source_reads_back_the_profile_it_was_given_and_others_keep_theirs() {
    let legacy = CompatibilityProfile::for_api_version(ApiVersion::API_31()).unwrap();
    let current = CompatibilityProfile::default();
    let mut profiles = SourceProfiles::new(current);
    assert_eq!(profiles.for_source(SourceId::new(3)), current);
    profiles.insert(SourceId::new(3), legacy);
    assert_eq!(profiles.for_source(SourceId::new(3)), legacy);
    assert_eq!(profiles.for_span(Span::new_in(SourceId::new(3), 0, 1)), legacy);
    assert_eq!(profiles.for_source(SourceId::new(4)), current);
    assert_eq!(profiles.for_source(SourceId::ANONYMOUS), current);
    profiles.insert(SourceId::new(3), current);
    assert_eq!(profiles.for_source(SourceId::new(3)), current);

    let defaults = SourceProfiles::default();
    assert_eq!(defaults.for_span(Span::new(0, 0)), CompatibilityProfile::default());
}

#[test]
fn effective_profiles_identify_source_version_and_behavior() {
    let profile = CompatibilityProfile::for_api_version(ApiVersion::API_31()).unwrap();
    let effective = EffectiveProfile::new("classes/A.cls".to_owned(), profile, ProfileOrigin::Sidecar);
    assert_eq!(effective.api_version, ApiVersion::API_31());
    assert_eq!(effective.behavior, CompatibilityBehavior::LegacyApi31);
    assert_eq!(effective.origin, ProfileOrigin::Sidecar);
    assert_eq!(effective.identity(), "classes/A.cls:31.0:legacy-api-31");
}

#[test]
fn version_text_reads_back_as_the_version() {
    for major in [0u16, 9, 10, 31, 66, 65535] {
        let version = ApiVersion::new(major, 0);
        assert_eq!(ApiVersion::parse(&version.to_string()).unwrap(), version);
    }
}

#[test]
fn after_many_inserts_each_source_reads_its_last_profile() {
    let legacy = CompatibilityProfile::for_api_version(ApiVersion::API_31()).unwrap();
    let current = CompatibilityProfile::default();
    let mut profiles = SourceProfiles::new(current);
    profiles.insert(SourceId::new(1), legacy);
    profiles.insert(SourceId::new(2), legacy);
    profiles.insert(SourceId::new(1), current);
    profiles.insert(SourceId::new(5), legacy);
    assert_eq!(profiles.for_source(SourceId::new(1)), current);
    assert_eq!(profiles.for_source(SourceId::new(2)), legacy);
    assert_eq!(profiles.for_source(SourceId::new(5)), legacy);
    assert_eq!(profiles.for_source(SourceId::new(7)), current);
}
