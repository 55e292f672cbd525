use apex_exec::compatibility::{ApiVersion, CompatibilityProfile};
use apex_exec::hybrid::metadata::{
    category_for, count_disposition, disposition, local_semantics_state, CapabilityState,
    CatalogChild, CatalogDocument, CatalogSource, CatalogType, FileDispositionKind, MetadataCatalog,
};
use apex_exec::hybrid::ComponentCategory;
use std::path::PathBuf;

fn entry(name: &str, directory: &str, suffix: Option<&str>) -> CatalogType {
    CatalogType {
        name: name.to_owned(),
        directory: directory.to_owned(),
        suffix: suffix.map(str::to_owned),
        folder_type: None,
        in_folder: false,
        meta_file: true,
        bundle: false,
        mixed_content: false,
        strict_directory: false,
        children: Vec::new(),
        source_supported: true,
    }
}

fn catalog_types() -> Vec<CatalogType> {
    let mut object = entry("CustomObject", "objects", Some("object"));
    object.children = vec![CatalogChild {
        name: "CustomField".to_owned(),
        directory: "fields".to_owned(),
        suffix: Some("field".to_owned()),
        ignore_parent_name: false,
    }];
    let mut lwc = entry("LightningComponentBundle", "lwc", None);
    lwc.bundle = true;
    let mut report = entry("Report", "reports", Some("report"));
    report.in_folder = true;
    report.strict_directory = true;
    report.folder_type = Some("ReportFolder".to_owned());
    let mut dashboard = entry("Dashboard", "dashboards", Some("dashboard"));
    dashboard.in_folder = true;
    dashboard.strict_directory = true;
    let mut twin = entry("DashboardTwin", "twins", Some("dashboard"));
    twin.strict_directory = true;
    vec![
        entry("ApexClass", "classes", Some("cls")),
        object,
        lwc,
        report,
        entry("CustomMetadata", "customMetadata", Some("md")),
        entry("Settings", "settings", Some("xml")),
        dashboard,
        twin,
    ]
}

fn document(types: Vec<CatalogType>) -> CatalogDocument {
    let count = types.len();
    let mut org_profiles = Vec::new();
    for version in ["31.0", "60.0", "61.0", "62.0", "63.0", "64.0", "65.0", "66.0"] {
        org_profiles.push((
            version.to_owned(),
            vec!["apexclass".to_owned(), "CustomObject".to_owned()],
        ));
    }
    CatalogDocument {
        schema_version: 1,
        source: CatalogSource {
            name: "registry".to_owned(),
            version: "1.0.0".to_owned(),
            registry_types: count,
            catalog_types: count,
        },
        types,
        org_profiles,
    }
}

fn parts(path: &str) -> Vec<String> {
    path.split('/').map(str::to_owned).collect()
}

#[test]
fn catalog_classifies_children_bundles_folders_sidecars_and_namespaces() {
    let catalog = MetadataCatalog::new(document(catalog_types())).unwrap();
    let cases = [
        (
            "objects/ns__Invoice__c/fields/ns__Amount__c.field-meta.xml",
            "CustomField",
            "ns__Invoice__c.ns__Amount__c",
        ),
        (
            "lwc/invoiceCard/invoiceCard.js",
            "LightningComponentBundle",
            "invoiceCard",
        ),
        (
            "reports/Operations/Revenue.report-meta.xml",
            "Report",
            "Operations/Revenue",
        ),
        (
            "classes/Release.Service.cls-meta.xml",
            "ApexClass",
            "Release.Service",
        ),
        (
            "force-app/main/default/customMetadata/Feature.Flag.md-meta.xml",
            "CustomMetadata",
            "Feature.Flag",
        ),
    ];
    for (path, metadata_type, full_name) in cases {
        let classified = catalog.classify(&parts(path)).unwrap();
        assert_eq!(classified.metadata_type, metadata_type);
        assert_eq!(classified.full_name, full_name);
    }
}

#[test]
fn bundle_members_keep_their_path_inside_the_bundle_as_role() {
    let catalog = MetadataCatalog::new(document(catalog_types())).unwrap();
    let classified = catalog
        .classify(&parts("force-app/lwc/invoiceCard/templates/card.html"))
        .unwrap();
    assert_eq!(classified.full_name, "invoiceCard");
    assert_eq!(classified.role, "templates/card.html");
    assert_eq!(classified.category, ComponentCategory::Configuration);
    // A bundle folder alone is no component.
    assert!(catalog.classify(&parts("lwc/invoiceCard")).is_none());
}

#[test]
fn files_outside_a_type_folder_are_recognized_by_suffix() {
    let catalog = MetadataCatalog::new(document(catalog_types())).unwrap();
    let loose = catalog.classify(&parts("misc/Thing.cls")).unwrap();
    assert_eq!(loose.metadata_type, "ApexClass");
    assert_eq!(loose.full_name, "Thing");
    assert_eq!(loose.category, ComponentCategory::Code);
    let only = catalog.classify(&parts("misc/Revenue.report")).unwrap();
    assert_eq!(only.metadata_type, "Report");
    assert_eq!(only.full_name, "misc/Revenue");
    // Two folder-bound types share the suffix: no guess.
    assert!(catalog.classify(&parts("misc/Board.dashboard")).is_none());
    // An `xml` suffix never classifies by itself.
    assert!(catalog.classify(&parts("misc/Org.xml")).is_none());
    assert!(catalog.classify(&[]).is_none());
    assert!(catalog.classify(&parts("misc/readme.txt")).is_none());
}

#[test]
fn catalog_documents_are_checked_against_their_source_and_profiles() {
    let mut wrong_schema = document(catalog_types());
    wrong_schema.schema_version = 2;
    assert_eq!(
        MetadataCatalog::new(wrong_schema).err().unwrap(),
        "bundled metadata catalog schema/count does not match its source"
    );
    let mut wrong_count = document(catalog_types());
    wrong_count.source.catalog_types = 1;
    assert!(MetadataCatalog::new(wrong_count).is_err());
    let mut missing = document(catalog_types());
    missing.org_profiles.retain(|(version, _)| version != "61.0");
    assert_eq!(
        MetadataCatalog::new(missing).err().unwrap(),
        "bundled metadata catalog is missing API 61.0"
    );
    let catalog = MetadataCatalog::new(document(catalog_types())).unwrap();
    assert_eq!(catalog.source().name, "registry");
}

#[test]
fn capabilities_follow_the_org_profile_case_insensitively() {
    let catalog = MetadataCatalog::new(document(catalog_types())).unwrap();
    let profile = CompatibilityProfile::for_api_version(ApiVersion::API_66()).unwrap();
    let capabilities = catalog.capabilities(profile);
    assert_eq!(capabilities.len(), 8);
    let class = &capabilities[0];
    assert_eq!(class.metadata_type, "ApexClass");
    assert_eq!(class.retrieve, CapabilityState::Supported);
    assert_eq!(class.deploy, CapabilityState::Supported);
    assert_eq!(class.local_semantics, CapabilityState::Supported);
    assert_eq!(class.reason, None);
    let object = &capabilities[1];
    assert_eq!(object.child_types, vec!["CustomField".to_owned()]);
    assert_eq!(object.retrieve, CapabilityState::Supported);
    let report = &capabilities[3];
    assert_eq!(report.retrieve, CapabilityState::OrgUnavailable);
    assert_eq!(report.inventory, CapabilityState::Supported);
    assert_eq!(report.drift, CapabilityState::Supported);
    assert_eq!(report.local_semantics, CapabilityState::Unsupported);
    assert_eq!(report.folder_type.as_deref(), Some("ReportFolder"));
    assert_eq!(
        report.reason.as_deref(),
        Some("not returned by describeMetadata for API 66.0 in the guarded validation org")
    );
}

#[test]
fn categories_and_local_semantics_follow_the_type_name() {
    assert_eq!(category_for("ApexTrigger"), ComponentCategory::Code);
    assert_eq!(category_for("Index"), ComponentCategory::Schema);
    assert_eq!(category_for("Flow"), ComponentCategory::Configuration);
    assert_eq!(local_semantics_state("customfield"), CapabilityState::Supported);
    assert_eq!(local_semantics_state("Flow"), CapabilityState::Unsupported);
}

#[test]
fn dispositions_account_for_every_package_file() {
    let catalog = MetadataCatalog::new(document(catalog_types())).unwrap();
    let classified = catalog.classify(&parts("classes/Demo.cls")).unwrap();
    let recognized = disposition(PathBuf::from("classes/Demo.cls"), Some("Demo.cls"), Some(&classified));
    assert_eq!(recognized.kind, FileDispositionKind::RecognizedMetadata);
    assert_eq!(recognized.metadata_type.as_deref(), Some("ApexClass"));
    assert_eq!(recognized.full_name.as_deref(), Some("Demo"));
    let support = disposition(PathBuf::from("package.xml"), Some("package.xml"), None);
    assert_eq!(support.kind, FileDispositionKind::IntentionalNonMetadata);
    assert_eq!(support.reason, "package support file, not a deployable metadata component");
    let unknown = disposition(PathBuf::from("misc/readme.txt"), Some("readme.txt"), None);
    assert_eq!(unknown.kind, FileDispositionKind::UnsupportedMetadata);
    assert_eq!(unknown.metadata_type, None);
    let all = vec![recognized, support, unknown];
    assert_eq!(count_disposition(&all, FileDispositionKind::RecognizedMetadata), 1);
    assert_eq!(count_disposition(&all, FileDispositionKind::IntentionalNonMetadata), 1);
    assert_eq!(count_disposition(&all, FileDispositionKind::UnsupportedMetadata), 1);
}

#[test]
fn catalog_covers_every_modeled_profile_and_multipart_names() {
    let catalog = MetadataCatalog::new(document(catalog_types())).unwrap();
    let custom_metadata = catalog
        .classify(&parts("force-app/main/default/customMetadata/Feature.Flag.md-meta.xml"))
        .unwrap();
    assert_eq!(custom_metadata.metadata_type, "CustomMetadata");
    assert_eq!(custom_metadata.full_name, "Feature.Flag");

    for version in ["31.0", "60.0", "61.0", "62.0", "63.0", "64.0", "65.0", "66.0"] {
        let version = version.parse::<ApiVersion>().unwrap();
        let profile = CompatibilityProfile::for_api_version(version).unwrap();
        let capabilities = catalog.capabilities(profile);
        assert_eq!(capabilities.len(), catalog_types().len());
        assert_eq!(catalog.source().catalog_types, catalog_types().len());
    }
}
