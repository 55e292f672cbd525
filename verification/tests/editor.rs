use apex_exec::diagnostic::Diagnostic;
use apex_exec::editor::{editor_diagnostic, line_column, location_for_span, offset_at, valid_identifier};
use std::path::PathBuf;
use apex_exec::span::Span;

#[test]
fn line_column_counts_lines_and_characters_from_one() {
    let source = "Integer a = 1;\nString é = 'x';\n";
    assert_eq!(line_column(source, 0), (1, 1));
    assert_eq!(line_column(source, 8), (1, 9));
    assert_eq!(line_column(source, 15), (2, 1));
    let after_accent = source.find(" = 'x'").unwrap();
    assert_eq!(line_column(source, after_accent), (2, 9));
}

#[test]
fn line_column_clamps_offsets_past_the_end() {
    let source = "a\nbc";
    assert_eq!(line_column(source, 100), (2, 3));
}

#[test]
fn offset_at_finds_line_starts_and_clamps_columns() {
    let source = "Integer a = 1;\nString é = 'x';\n";
    assert_eq!(offset_at(source, 1, 1), Some(0));
    assert_eq!(offset_at(source, 2, 1), Some(15));
    assert_eq!(offset_at(source, 2, 9), Some(source.find(" = 'x'").unwrap()));
    assert_eq!(offset_at(source, 1, 200), Some(14));
    assert_eq!(offset_at(source, 3, 1), Some(source.len()));
    assert_eq!(offset_at(source, 4, 1), None);
    assert_eq!(offset_at(source, 0, 1), None);
    assert_eq!(offset_at(source, 1, 0), None);
}

#[test]
fn offset_at_undoes_line_column() {
    let source = "a é\n\nzz\n";
    for (offset, _) in source.char_indices() {
        let (line, column) = line_column(source, offset);
        assert_eq!(offset_at(source, line, column), Some(offset));
    }
}

#[test]
fn editor_diagnostic_maps_both_ends_of_the_span() {
    let source = "String message = 'ok';\nSystem.debug(mesage);";
    let start = source.find("mesage").unwrap();
    let diagnostic = Diagnostic::new("unknown variable `mesage`", Span::new(start, start + 6));
    let editor = editor_diagnostic(source, &diagnostic);
    assert_eq!(editor.message, "unknown variable `mesage`");
    assert_eq!((editor.line, editor.column), (2, 14));
    assert_eq!((editor.end_line, editor.end_column), (2, 20));
}

#[test]
fn identifiers_start_with_a_letter_or_underscore() {
    assert!(valid_identifier("renamed"));
    assert!(valid_identifier("_value1"));
    assert!(!valid_identifier("1value"));
    assert!(!valid_identifier(""));
    assert!(!valid_identifier("with space"));
    assert!(!valid_identifier("é"));
}

#[test]
fn location_for_span_keeps_the_path_and_maps_both_ends() {
    let source = "a\nbcd\n";
    let location = location_for_span(PathBuf::from("classes/A.cls"), source, Span::new(3, 5));
    assert_eq!(location.path, PathBuf::from("classes/A.cls"));
    assert_eq!((location.line, location.column), (2, 2));
    assert_eq!((location.end_line, location.end_column), (2, 4));
}
