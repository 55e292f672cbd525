use apex_exec::ast::{Identifier, NamedType, TypeName, TypeRef};
use apex_exec::span::Span;

#[test]
fn recognizes_core_exception_types_case_insensitively() {
    for name in [
        "Exception",
        "NullPointerException",
        "ListException",
        "MathException",
        "TypeException",
        "StringException",
        "IllegalArgumentException",
        "FinalException",
        "AssertException",
        "QueryException",
        "DmlException",
        "SObjectException",
        "NoAccessException",
    ] {
        let ty = TypeName::from_apex_name(&name.to_ascii_uppercase())
            .expect("core exception should be a known type");
        assert!(ty.is_exception());
        assert_eq!(ty.apex_name(), name);
    }

    assert_eq!(TypeName::from_apex_name("OBJECT"), Some(TypeName::Object));
    assert!(!TypeName::Object.is_exception());
}

#[test]
fn built_in_type_specs_preserve_aliases_and_non_builtin_rendering() {
    for (alias, expected) in [
        ("sYsTeM.sTrInG", TypeName::String),
        ("DATABASE.ACCESSLEVEL", TypeName::AccessLevel),
        ("Cache.Org.OrgCacheException", TypeName::OrgCacheException),
        ("Schema.DescribeFieldResult", TypeName::DescribeFieldResult),
    ] {
        assert_eq!(TypeName::from_apex_name(alias), Some(expected));
    }

    assert_eq!(
        TypeName::HttpCalloutMock.apex_name(),
        "System.HttpCalloutMock"
    );
    assert_eq!(TypeName::AccessLevel.apex_name(), "AccessLevel");
    let custom = TypeName::Custom(NamedType::new("Domain.Widget".to_owned(), Span::new(0, 13)));
    let generic = TypeName::MapOf(Box::new(TypeName::String), Box::new(custom));
    assert_eq!(generic.apex_name(), "Map<String,Domain.Widget>");
}

#[test]
fn a_type_references_canonical_form_is_its_lowered_spelling() {
    let segments = vec![
        Identifier::new("Schema".to_owned(), Span::new(0, 6)),
        Identifier::new("SObjectType".to_owned(), Span::new(7, 18)),
    ];
    let syntax = TypeRef { segments, type_arguments: Vec::new(), array_suffixes: Vec::new(), span: Span::new(0, 18) };
    assert_eq!(syntax.spelling(), "Schema.SObjectType");
    assert_eq!(syntax.canonical(), syntax.spelling().to_ascii_lowercase());
}
