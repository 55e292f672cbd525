use apex_exec::diagnostic::{Diagnostic, ExceptionKind};
use apex_exec::span::Span;

#[test]
fn renders_the_correct_line_column_and_highlight() {
    let source = "String message = 'ok';\nSystem.debug(mesage);";
    let start = source.find("mesage").unwrap();
    let diagnostic = Diagnostic::new("unknown variable `mesage`", Span::new(start, start + 6));
    let rendered = diagnostic.render("script.apex", source);

    assert!(rendered.contains(" --> script.apex:2:14"));
    assert!(rendered.contains("2 | System.debug(mesage);"));
    assert!(rendered.ends_with("^^^^^^"));
}

#[test]
fn reports_character_columns_when_prior_text_is_multibyte() {
    let source = "String é = value;";
    let start = source.find("value").unwrap();
    let diagnostic = Diagnostic::new("example", Span::new(start, start + 5));

    assert!(diagnostic.render("unicode.apex", source).contains(":1:12"));
}

#[test]
fn renders_runtime_exception_types_and_source_mapped_frames() {
    let source = "Integer fail() { return 1 / 0; }\nInteger value = fail();";
    let origin = source.find('/').unwrap();
    let call = source.rfind("fail").unwrap();
    let mut diagnostic = Diagnostic::runtime_exception(
        "MathException",
        "division by zero",
        Span::new(origin, origin + 1),
    );
    diagnostic.push_frame("fail", Span::new(call, call + 4));

    let rendered = diagnostic.render("script.apex", source);
    assert!(rendered.contains("error: MathException: division by zero"));
    assert!(rendered.contains("Apex stack trace:"));
    assert!(rendered.contains("at fail (script.apex:2:17)"));
}

#[test]
fn exception_names_read_back_as_the_same_kind() {
    let kinds = [
        ExceptionKind::NullPointer,
        ExceptionKind::List,
        ExceptionKind::Math,
        ExceptionKind::Type,
        ExceptionKind::String,
        ExceptionKind::IllegalArgument,
        ExceptionKind::Final,
        ExceptionKind::Assert,
        ExceptionKind::Query,
        ExceptionKind::Dml,
        ExceptionKind::SObject,
        ExceptionKind::Async,
        ExceptionKind::Callout,
        ExceptionKind::UserDefined("CustomException".to_owned()),
    ];
    for kind in kinds {
        assert_eq!(ExceptionKind::from_apex_name(kind.apex_name()), kind);
    }
    assert_eq!(ExceptionKind::from_apex_name("LISTEXCEPTION"), ExceptionKind::List);
}
