use apex_exec::oracle::{
    classify_diagnostic, parse_salesforce_dml, parse_salesforce_queries, parse_salesforce_triggers,
    salesforce_debug_output, DiagnosticCategory,
};

#[test]
fn diagnostic_categories_are_stable_and_broad() {
    assert_eq!(
        classify_diagnostic("Unexpected token '?'"),
        DiagnosticCategory::Syntax
    );
    assert_eq!(
        classify_diagnostic("Variable does not exist: missing"),
        DiagnosticCategory::Semantic
    );
    assert_eq!(
        classify_diagnostic("Organization policy rejected this"),
        DiagnosticCategory::Unknown
    );
}

#[test]
fn lexical_phrases_win_over_semantic_ones_but_not_over_syntax() {
    assert_eq!(
        classify_diagnostic("ILLEGAL CHARACTER in unknown input"),
        DiagnosticCategory::Lexical
    );
    assert_eq!(
        classify_diagnostic("Expecting ';' but found an invalid identifier"),
        DiagnosticCategory::Syntax
    );
    assert_eq!(classify_diagnostic(""), DiagnosticCategory::Unknown);
}

use apex_exec::oracle::{
    parse_salesforce_stack, salesforce_exception_type, soql_objects, strip_exception_type,
    validate_entrypoint, validate_fixture_name, validate_scopes, value_after, value_text_after,
    ComparisonScope, FixtureEntrypoint, StackObservation,
};

#[test]
fn exception_types_are_read_from_the_message_prefix() {
    assert_eq!(
        salesforce_exception_type("System.NullPointerException: Attempt to de-reference a null object"),
        "NullPointerException"
    );
    assert_eq!(salesforce_exception_type("  MyException : custom"), "MyException");
    assert_eq!(salesforce_exception_type("Fatal error: boom"), "RuntimeError");
    assert_eq!(salesforce_exception_type("no colon here"), "RuntimeError");
    assert_eq!(
        strip_exception_type("System.MathException:  Divide by 0 "),
        "Divide by 0"
    );
    assert_eq!(strip_exception_type("Fatal error: boom"), "Fatal error: boom");
    assert_eq!(strip_exception_type("plain"), "plain");
}

#[test]
fn values_after_markers_stop_at_bars_and_digits() {
    assert_eq!(
        value_text_after("12:00|USER_DEBUG|[3]|DEBUG|hello", "DEBUG|").as_deref(),
        Some("[3]")
    );
    assert_eq!(value_text_after("a | b", "x"), None);
    assert_eq!(value_after("Class.Foo.bar: line 12, column 3", "line "), Some(12));
    assert_eq!(value_after("line x", "line "), None);
    assert_eq!(value_after("line 99999999999999999999999", "line "), None);
    assert_eq!(value_after("no marker", "line "), None);
}

#[test]
fn soql_objects_are_the_words_after_from() {
    assert_eq!(
        soql_objects("SELECT Id FROM Account, Contact WHERE Name IN (SELECT Name from  ,Lead,, )"),
        vec!["Account".to_owned(), "Lead".to_owned()]
    );
    assert!(soql_objects("select id").is_empty());
    assert!(soql_objects("FROM").is_empty());
}

#[test]
fn salesforce_stacks_become_method_and_line_frames() {
    let frames = parse_salesforce_stack(
        "Class.Service.run: line 12, column 1\r\nAnonymousBlock: line 3, column 1\n\n   \nExternal entry point",
    );
    assert_eq!(
        frames,
        vec![
            StackObservation { method: "run".to_owned(), line: Some(12) },
            StackObservation { method: "AnonymousBlock".to_owned(), line: Some(3) },
            StackObservation { method: "External entry point".to_owned(), line: None },
        ]
    );
    assert!(parse_salesforce_stack("").is_empty());
}

#[test]
fn fixture_names_targets_and_scopes_are_validated() {
    assert_eq!(validate_fixture_name("   ").unwrap_err(), "oracle fixture name cannot be empty");
    assert_eq!(
        validate_fixture_name("a/b").unwrap_err(),
        "oracle fixture name `a/b` cannot contain path separators"
    );
    assert!(validate_fixture_name("ok").is_ok());

    let invoke = |target: &str| FixtureEntrypoint::Invoke { target: target.to_owned() };
    assert!(validate_entrypoint("f", &invoke("Service.run")).is_ok());
    assert!(validate_entrypoint("f", &FixtureEntrypoint::Compile).is_ok());
    for bad in ["Service", ".run", "Service.", "Service.run.now"] {
        assert_eq!(
            validate_entrypoint("f", &invoke(bad)).unwrap_err(),
            "fixture `f` target must have the form Class.method"
        );
    }
    assert!(validate_entrypoint("f", &FixtureEntrypoint::Test { filter: "T.m".to_owned() }).is_ok());

    assert_eq!(
        validate_scopes("f", &invoke("A.b"), &[]).unwrap_err(),
        "fixture `f` must select at least one comparison scope"
    );
    assert_eq!(
        validate_scopes("f", &invoke("A.b"), &[ComparisonScope::Compile, ComparisonScope::Output, ComparisonScope::Dml, ComparisonScope::Output]).unwrap_err(),
        "fixture `f` repeats comparison scope `Output`"
    );
    assert_eq!(
        validate_scopes("f", &invoke("A.b"), &[ComparisonScope::Output]).unwrap_err(),
        "fixture `f` must always compare compile behavior"
    );
    assert_eq!(
        validate_scopes("f", &FixtureEntrypoint::Compile, &[ComparisonScope::Compile, ComparisonScope::Output]).unwrap_err(),
        "compile-only fixture `f` can compare only the compile scope"
    );
    assert!(validate_scopes("f", &FixtureEntrypoint::Compile, &[ComparisonScope::Compile]).is_ok());
    assert!(validate_scopes("f", &invoke("A.b"), &[ComparisonScope::Output, ComparisonScope::Compile]).is_ok());
}

const EXECUTION_LOG: &str = "12:00:00.0|USER_DEBUG|[1]|DEBUG|APEX_EXEC_ORACLE_VALUE|count|2\n\
12:00:00.0|DML_BEGIN|[2]|Op:Insert|Type:Invoice__c|Rows:1\n\
12:00:00.0|CODE_UNIT_STARTED|[EXTERNAL]|InvoiceTrigger on Invoice__c trigger event BeforeInsert|x\n\
12:00:00.0|CODE_UNIT_FINISHED|InvoiceTrigger on Invoice__c trigger event BeforeInsert|x\n\
12:00:00.0|DML_END|[2]\n\
12:00:00.0|SOQL_EXECUTE_BEGIN|[3]|Aggregations:0|SELECT Id FROM Invoice__c\n\
12:00:00.0|SOQL_EXECUTE_END|[3]|Rows:1\n\
12:00:00.0|USER_DEBUG|[4]|DEBUG|done\n\
";

#[test]
fn debug_output_keeps_the_message_after_the_level() {
    assert_eq!(
        salesforce_debug_output(EXECUTION_LOG),
        ["APEX_EXEC_ORACLE_VALUE|count|2", "done"]
    );
    assert_eq!(salesforce_debug_output("x|USER_DEBUG|  plain  \r\nother"), ["plain"]);
    assert!(salesforce_debug_output("").is_empty());
}

#[test]
fn queries_record_objects_rows_and_completion() {
    let queries = parse_salesforce_queries(EXECUTION_LOG);
    assert_eq!(queries.len(), 1);
    assert_eq!(queries[0].kind, "soql");
    assert_eq!(queries[0].objects, ["Invoice__c"]);
    assert_eq!(queries[0].rows, 1);
    assert!(queries[0].succeeded);

    let unfinished = parse_salesforce_queries("|SOQL_EXECUTE_BEGIN|[1]|select Name from Account, Contact");
    assert_eq!(unfinished.len(), 1);
    assert_eq!(unfinished[0].objects, ["Account"]);
    assert_eq!(unfinished[0].rows, 0);
    assert!(!unfinished[0].succeeded);

    assert!(parse_salesforce_queries("|SOQL_EXECUTE_END|[1]|Rows:4").is_empty());
}

#[test]
fn dml_records_the_operation_object_and_rows() {
    let events = parse_salesforce_dml(EXECUTION_LOG);
    assert_eq!(events.len(), 1);
    assert_eq!(events[0].operation, "insert");
    assert_eq!(events[0].objects, ["Invoice__c"]);
    assert_eq!(events[0].records, 1);
    assert!(events[0].succeeded);

    let bare = parse_salesforce_dml("|DML_BEGIN|[1]");
    assert_eq!(bare.len(), 1);
    assert_eq!(bare[0].operation, "unknown");
    assert!(bare[0].objects.is_empty());
    assert_eq!(bare[0].records, 0);
    assert!(!bare[0].succeeded);
}

#[test]
fn triggers_record_entry_and_exit_with_phase_and_operation() {
    let events = parse_salesforce_triggers(EXECUTION_LOG);
    assert_eq!(events.len(), 2);
    assert_eq!(events[0].trigger, "InvoiceTrigger");
    assert_eq!(events[0].object, "Invoice__c");
    assert_eq!(events[0].operation, "insert");
    assert_eq!(events[0].phase, "before");
    assert_eq!(events[0].stage, "enter");
    assert_eq!(events[1].stage, "exit");

    let after = parse_salesforce_triggers("|CODE_UNIT_FINISHED|A on B on C trigger event AfterUpdate");
    assert_eq!(after.len(), 1);
    assert_eq!(after[0].trigger, "A on B");
    assert_eq!(after[0].object, "C");
    assert_eq!(after[0].operation, "update");
    assert_eq!(after[0].phase, "after");

    assert!(parse_salesforce_triggers("|CODE_UNIT_STARTED|Demo.run trigger event Other").is_empty());
    assert!(parse_salesforce_triggers("|CODE_UNIT_STARTED|Demo on X").is_empty());
}

use apex_exec::json::{JsonNumber, JsonValue};
use apex_exec::oracle::{
    apply_salesforce_execution, apply_salesforce_tests, collect_failure_messages, extract_values,
    find_key, parse_salesforce_deploy, CompileObservation, FixtureObservation, TestObservation,
};

fn text(value: &str) -> JsonValue {
    JsonValue::String(value.to_owned())
}

fn object(entries: Vec<(&str, JsonValue)>) -> JsonValue {
    let mut entries: Vec<(String, JsonValue)> = entries
        .into_iter()
        .map(|(key, value)| (key.to_owned(), value))
        .collect();
    entries.sort_by(|left, right| left.0.cmp(&right.0));
    JsonValue::Object(entries)
}

fn observation(name: &str, compiled: bool) -> FixtureObservation {
    FixtureObservation {
        name: name.to_owned(),
        compile: CompileObservation {
            success: compiled,
            diagnostic_category: None,
            diagnostics: Vec::new(),
        },
        values: Vec::new(),
        output: Vec::new(),
        exception: None,
        queries: Vec::new(),
        dml: Vec::new(),
        triggers: Vec::new(),
        tests: Vec::new(),
    }
}

fn decoded(values: &[(String, String)], name: &str) -> serde_json::Value {
    let encoded = &values.iter().rev().find(|(key, _)| key == name).unwrap().1;
    serde_json::from_str(encoded).unwrap_or_else(|_| serde_json::Value::String(encoded.clone()))
}

#[test]
fn extracts_typed_values_without_polluting_output() {
    let (values, output) = extract_values(vec![
        "ordinary".to_owned(),
        "APEX_EXEC_ORACLE_VALUE|count|3".to_owned(),
        "APEX_EXEC_ORACLE_VALUE|ready|true".to_owned(),
        "APEX_EXEC_ORACLE_VALUE|name|\"Ada\"".to_owned(),
    ]);
    assert_eq!(decoded(&values, "count"), serde_json::Value::from(3));
    assert_eq!(decoded(&values, "ready"), serde_json::Value::from(true));
    assert_eq!(decoded(&values, "name"), serde_json::Value::from("Ada"));
    assert_eq!(output, ["ordinary"]);
}

#[test]
fn normalizes_salesforce_execution_logs() {
    let response = object(vec![
        ("status", JsonValue::Number(JsonNumber::Unsigned(0))),
        (
            "result",
            object(vec![
                ("compiled", JsonValue::Bool(true)),
                ("success", JsonValue::Bool(true)),
                ("logs", text(EXECUTION_LOG)),
            ]),
        ),
    ]);
    let mut observation = observation("sample", true);
    let values = apply_salesforce_execution(&mut observation, &response).unwrap();
    assert_eq!(decoded(&values, "count"), serde_json::Value::from(2));
    assert_eq!(observation.output, ["done"]);
    assert_eq!(observation.dml[0].operation, "insert");
    assert_eq!(observation.queries[0].objects, ["Invoice__c"]);
    assert_eq!(observation.triggers.len(), 2);
    assert_eq!(observation.triggers[0].stage, "enter");
    assert_eq!(observation.triggers[1].stage, "exit");
}

#[test]
fn normalizes_runtime_exceptions_and_salesforce_stacks() {
    let response = object(vec![(
        "result",
        object(vec![
            ("compiled", JsonValue::Bool(true)),
            ("success", JsonValue::Bool(false)),
            ("exceptionMessage", text("System.MathException: Division by zero")),
            (
                "exceptionStackTrace",
                text("Class.Calculator.divide: line 8, column 1\nAnonymousBlock: line 1, column 1"),
            ),
            ("logs", text("")),
        ]),
    )]);
    let mut observation = observation("", false);
    apply_salesforce_execution(&mut observation, &response);
    let exception = observation.exception.unwrap();
    assert_eq!(exception.exception_type, "MathException");
    assert_eq!(exception.message, "Division by zero");
    assert_eq!(exception.stack[0].method, "divide");
    assert_eq!(exception.stack[0].line, Some(8));
}

#[test]
fn parses_salesforce_test_result_shapes_without_duplicates() {
    let response = object(vec![(
        "result",
        object(vec![(
            "tests",
            JsonValue::Array(vec![object(vec![
                ("ApexClass", object(vec![("Name", text("DemoTest"))])),
                ("MethodName", text("works")),
                ("Outcome", text("Pass")),
                ("Message", JsonValue::Null),
                ("StackTrace", JsonValue::Null),
            ])]),
        )]),
    )]);
    let mut observation = observation("", false);
    apply_salesforce_tests(&mut observation, &response);
    assert_eq!(
        observation.tests,
        [TestObservation {
            name: "DemoTest.works".to_owned(),
            outcome: "pass".to_owned(),
            message: None,
            stack: None,
        }]
    );
}

#[test]
fn compile_failures_take_the_problem_and_leave_the_rest() {
    let response = object(vec![
        ("compiled", JsonValue::Bool(false)),
        ("compileProblem", text("Unexpected token '?'")),
    ]);
    let mut observation = observation("f", true);
    observation.output = vec!["kept".to_owned()];
    assert!(apply_salesforce_execution(&mut observation, &response).is_none());
    assert!(!observation.compile.success);
    assert_eq!(observation.compile.diagnostic_category, Some(DiagnosticCategory::Syntax));
    assert_eq!(observation.compile.diagnostics, ["Unexpected token '?'"]);
    assert_eq!(observation.output, ["kept"]);
}

#[test]
fn tests_sort_by_lower_case_name_and_keep_each_name_once() {
    let test = |class: &str, method: &str, outcome: &str| {
        object(vec![
            ("className", text(class)),
            ("methodName", text(method)),
            ("outcome", text(outcome)),
        ])
    };
    let response = JsonValue::Array(vec![
        test("b", "one", "Fail"),
        test("A", "two", "pass"),
        test("b", "one", "Pass"),
        test("a", "two", "PASS"),
    ]);
    let mut observation = observation("", true);
    apply_salesforce_tests(&mut observation, &response);
    let names: Vec<&str> = observation.tests.iter().map(|test| test.name.as_str()).collect();
    assert_eq!(names, ["A.two", "a.two", "b.one"]);
    assert_eq!(observation.tests[2].outcome, "fail");
}

#[test]
fn deployments_report_status_and_sorted_distinct_messages() {
    let failure = object(vec![
        ("status", JsonValue::Number(JsonNumber::Unsigned(1))),
        (
            "result",
            object(vec![(
                "details",
                JsonValue::Array(vec![
                    object(vec![("problem", text("Variable does not exist: x"))]),
                    object(vec![("message", text("Unexpected token"))]),
                    object(vec![("problem", text("Variable does not exist: x"))]),
                ]),
            )]),
        ),
    ]);
    let observed = parse_salesforce_deploy("f", &failure);
    assert!(!observed.compile.success);
    assert_eq!(
        observed.compile.diagnostics,
        ["Unexpected token", "Variable does not exist: x"]
    );
    assert_eq!(observed.compile.diagnostic_category, Some(DiagnosticCategory::Syntax));
    assert_eq!(
        collect_failure_messages(&failure),
        ["Unexpected token", "Variable does not exist: x"]
    );

    let succeeded = object(vec![("status", text("Succeeded"))]);
    let observed = parse_salesforce_deploy("f", &succeeded);
    assert!(observed.compile.success);
    assert_eq!(observed.compile.diagnostic_category, None);

    let flagged = object(vec![("result", object(vec![("success", JsonValue::Bool(true))]))]);
    assert!(parse_salesforce_deploy("f", &flagged).compile.success);
    assert!(!parse_salesforce_deploy("f", &JsonValue::Null).compile.success);
}

#[test]
fn keys_are_found_in_document_order() {
    let value = object(vec![
        ("a", JsonValue::Array(vec![object(vec![("key", text("first"))])])),
        ("b", object(vec![("key", text("second"))])),
    ]);
    assert_eq!(find_key(&value, "key"), Some(&text("first")));
    assert_eq!(find_key(&value, "missing"), None);
}
