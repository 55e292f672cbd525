use apex_exec::ast::visit::{walk_program, Visit, Visitor};
use apex_exec::ast::{Expression, Identifier, NamedType};

#[derive(Default)]
struct RecordingVisitor {
    identifiers: Vec<String>,
    custom_types: Vec<String>,
    expressions: usize,
}

impl<'ast> Visitor<'ast> for RecordingVisitor {
    fn record(&mut self, _visit: Visit<'ast>) {}

    fn visit_identifier(&mut self, identifier: &'ast Identifier) -> bool {
        self.identifiers.push(identifier.canonical.clone());
        false
    }

    fn visit_named_type(&mut self, named_type: &'ast NamedType) -> bool {
        self.custom_types.push(named_type.canonical.clone());
        false
    }

    fn visit_expression(&mut self, _expression: &'ast Expression) -> bool {
        self.expressions += 1;
        true
    }
}

#[test]
fn traverses_declarations_types_and_nested_expressions() {
    let program = apex_exec::parse(
        "class Service extends Base implements Contract {
            Result build(Input value) {
                Map<String, Input> values = new Map<String, Input>{'key' => value};
                return Factory.create(values.get('key'));
            }
        }",
    )
    .unwrap();
    let mut visitor = RecordingVisitor::default();

    walk_program(&mut visitor, &program);

    assert!(visitor.identifiers.contains(&"service".to_owned()));
    assert!(visitor.identifiers.contains(&"build".to_owned()));
    assert!(visitor.identifiers.contains(&"factory".to_owned()));
    assert!(visitor.identifiers.contains(&"create".to_owned()));
    assert_eq!(
        visitor.custom_types,
        ["base", "contract", "result", "input", "input", "input"]
    );
    assert!(visitor.expressions >= 8);
}

#[derive(Default)]
struct IdentifierOrder(Vec<String>);

impl<'ast> Visitor<'ast> for IdentifierOrder {
    fn record(&mut self, _visit: Visit<'ast>) {}

    fn visit_identifier(&mut self, identifier: &'ast Identifier) -> bool {
        self.0.push(identifier.canonical.clone());
        false
    }
}

#[test]
fn do_while_traversal_preserves_source_order() {
    let program = apex_exec::parse("do { run(); } while (condition);").unwrap();
    let mut order = IdentifierOrder::default();

    walk_program(&mut order, &program);

    assert_eq!(order.0, ["run", "condition"]);
}

#[derive(Default)]
struct Pruning {
    identifiers: Vec<String>,
}

impl<'ast> Visitor<'ast> for Pruning {
    fn record(&mut self, _visit: Visit<'ast>) {}

    fn visit_identifier(&mut self, identifier: &'ast Identifier) -> bool {
        self.identifiers.push(identifier.canonical.clone());
        false
    }

    fn visit_expression(&mut self, expression: &'ast Expression) -> bool {
        !matches!(expression, Expression::FunctionCall { .. })
    }
}

#[test]
fn a_hook_answering_false_skips_the_node_children() {
    let program = apex_exec::parse("Integer total = add(first, second) + third;").unwrap();
    let mut pruning = Pruning::default();
    walk_program(&mut pruning, &program);
    assert_eq!(pruning.identifiers, ["total", "third"]);
}

#[derive(Default)]
struct BindCounter(usize);

impl<'ast> Visitor<'ast> for BindCounter {
    fn record(&mut self, _visit: Visit<'ast>) {}

    fn visit_identifier(&mut self, identifier: &'ast Identifier) -> bool {
        if identifier.canonical == "bound" {
            self.0 += 1;
        }
        false
    }
}

#[test]
fn query_binds_are_visited_including_subqueries() {
    let program = apex_exec::parse(
        "List<Account> rows = [SELECT Id, (SELECT Id FROM Contacts WHERE Name = :bound) FROM Account WHERE Name IN :bound LIMIT :bound];",
    )
    .unwrap();
    let mut counter = BindCounter::default();
    walk_program(&mut counter, &program);
    assert_eq!(counter.0, 3);
}

#[derive(Default)]
struct CallLog(Vec<String>);

impl<'ast> Visitor<'ast> for CallLog {
    fn record(&mut self, visit: Visit<'ast>) {
        let entry = match visit {
            Visit::Identifier(identifier, _) => format!("identifier {}", identifier.canonical),
            Visit::Expression(..) => "expression".to_owned(),
            Visit::Statement(..) => "statement".to_owned(),
            _ => "other".to_owned(),
        };
        self.0.push(entry);
    }
}

#[test]
fn default_hooks_log_every_call_in_source_order() {
    let program = apex_exec::parse("do { run(); } while (condition);").unwrap();
    let mut log = CallLog::default();

    walk_program(&mut log, &program);

    assert_eq!(
        log.0,
        [
            "statement",
            "statement",
            "statement",
            "expression",
            "identifier run",
            "expression",
            "identifier condition",
        ]
    );
}
