//! Shared immutable traversal for parsed Apex syntax.
//!
//! A walk reaches every node of a tree in source order. At each node it asks
//! the visitor's hook for that kind of node, and descends into the node's
//! children only when the hook answers `true`; every hook answers `true`
//! unless a visitor overrides it. Keeping the tree shape in one place prevents
//! compiler passes from growing independent, incomplete recursive walkers.
//!
//! Every hook call is recorded, with its node and its answer, in the
//! visitor's log (`Visitor::visits`); the contract of each walk says which
//! calls it adds to that log, in order, through `children` and `walked_list`.

use vstd::prelude::*;

use crate::ast::{
    Annotation, AnnotationArgument, AssignmentTarget, CatchClause, ClassDeclaration, ClassMember,
    CollectionInitializer, ConstructorDeclaration, Expression, FieldDeclaration, Identifier,
    MapEntry, MethodDeclaration, NamedType, Parameter, Program, PropertyAccessor,
    PropertyDeclaration, ReturnType, SoqlCondition, SoqlInValues, SoqlQuery, SoqlSelectItem,
    SoqlValue, SoslQuery, SoslReturning, Statement, SwitchArm, SwitchLabels, TriggerDeclaration,
    TypeArgument, TypeName, VariableDeclarator,
};

verus! {

/// A node of a tree, as the walks see it: the kinds that have a hook, and
/// the parts of embedded queries, which have none.
pub enum Node {
    Program(Program),
    ClassDeclaration(ClassDeclaration),
    TriggerDeclaration(TriggerDeclaration),
    ClassMember(ClassMember),
    FieldDeclaration(FieldDeclaration),
    PropertyDeclaration(PropertyDeclaration),
    PropertyAccessor(PropertyAccessor),
    ConstructorDeclaration(ConstructorDeclaration),
    MethodDeclaration(MethodDeclaration),
    Annotation(Annotation),
    AnnotationArgument(AnnotationArgument),
    Parameter(Parameter),
    ReturnType(ReturnType),
    CatchClause(CatchClause),
    VariableDeclarator(VariableDeclarator),
    SwitchArm(SwitchArm),
    Statement(Statement),
    Expression(Expression),
    AssignmentTarget(AssignmentTarget),
    CollectionInitializer(CollectionInitializer),
    MapEntry(MapEntry),
    TypeName(TypeName),
    NamedType(NamedType),
    Identifier(Identifier),
    SoqlQuery(SoqlQuery),
    SoslQuery(SoslQuery),
    SoqlCondition(SoqlCondition),
    SoqlValue(SoqlValue),
}

/// One call of a hook: the node it was given and its answer.
pub enum Visit<'ast> {
    Program(&'ast Program, bool),
    ClassDeclaration(&'ast ClassDeclaration, bool),
    TriggerDeclaration(&'ast TriggerDeclaration, bool),
    ClassMember(&'ast ClassMember, bool),
    FieldDeclaration(&'ast FieldDeclaration, bool),
    PropertyDeclaration(&'ast PropertyDeclaration, bool),
    PropertyAccessor(&'ast PropertyAccessor, bool),
    ConstructorDeclaration(&'ast ConstructorDeclaration, bool),
    MethodDeclaration(&'ast MethodDeclaration, bool),
    Annotation(&'ast Annotation, bool),
    AnnotationArgument(&'ast AnnotationArgument, bool),
    Parameter(&'ast Parameter, bool),
    ReturnType(&'ast ReturnType, bool),
    CatchClause(&'ast CatchClause, bool),
    VariableDeclarator(&'ast VariableDeclarator, bool),
    SwitchArm(&'ast SwitchArm, bool),
    Statement(&'ast Statement, bool),
    Expression(&'ast Expression, bool),
    AssignmentTarget(&'ast AssignmentTarget, bool),
    CollectionInitializer(&'ast CollectionInitializer, bool),
    MapEntry(&'ast MapEntry, bool),
    TypeName(&'ast TypeName, bool),
    NamedType(&'ast NamedType, bool),
    Identifier(&'ast Identifier, bool),
}

/// The node that a hook call was given.
pub open spec fn visit_node<'ast>(visit: Visit<'ast>) -> Node {
    match visit {
        Visit::Program(node, _) => Node::Program(*node),
        Visit::ClassDeclaration(node, _) => Node::ClassDeclaration(*node),
        Visit::TriggerDeclaration(node, _) => Node::TriggerDeclaration(*node),
        Visit::ClassMember(node, _) => Node::ClassMember(*node),
        Visit::FieldDeclaration(node, _) => Node::FieldDeclaration(*node),
        Visit::PropertyDeclaration(node, _) => Node::PropertyDeclaration(*node),
        Visit::PropertyAccessor(node, _) => Node::PropertyAccessor(*node),
        Visit::ConstructorDeclaration(node, _) => Node::ConstructorDeclaration(*node),
        Visit::MethodDeclaration(node, _) => Node::MethodDeclaration(*node),
        Visit::Annotation(node, _) => Node::Annotation(*node),
        Visit::AnnotationArgument(node, _) => Node::AnnotationArgument(*node),
        Visit::Parameter(node, _) => Node::Parameter(*node),
        Visit::ReturnType(node, _) => Node::ReturnType(*node),
        Visit::CatchClause(node, _) => Node::CatchClause(*node),
        Visit::VariableDeclarator(node, _) => Node::VariableDeclarator(*node),
        Visit::SwitchArm(node, _) => Node::SwitchArm(*node),
        Visit::Statement(node, _) => Node::Statement(*node),
        Visit::Expression(node, _) => Node::Expression(*node),
        Visit::AssignmentTarget(node, _) => Node::AssignmentTarget(*node),
        Visit::CollectionInitializer(node, _) => Node::CollectionInitializer(*node),
        Visit::MapEntry(node, _) => Node::MapEntry(*node),
        Visit::TypeName(node, _) => Node::TypeName(*node),
        Visit::NamedType(node, _) => Node::NamedType(*node),
        Visit::Identifier(node, _) => Node::Identifier(*node),
    }
}

/// What a hook call answered.
pub open spec fn visit_answer<'ast>(visit: Visit<'ast>) -> bool {
    match visit {
        Visit::Program(_, answer) => answer,
        Visit::ClassDeclaration(_, answer) => answer,
        Visit::TriggerDeclaration(_, answer) => answer,
        Visit::ClassMember(_, answer) => answer,
        Visit::FieldDeclaration(_, answer) => answer,
        Visit::PropertyDeclaration(_, answer) => answer,
        Visit::PropertyAccessor(_, answer) => answer,
        Visit::ConstructorDeclaration(_, answer) => answer,
        Visit::MethodDeclaration(_, answer) => answer,
        Visit::Annotation(_, answer) => answer,
        Visit::AnnotationArgument(_, answer) => answer,
        Visit::Parameter(_, answer) => answer,
        Visit::ReturnType(_, answer) => answer,
        Visit::CatchClause(_, answer) => answer,
        Visit::VariableDeclarator(_, answer) => answer,
        Visit::SwitchArm(_, answer) => answer,
        Visit::Statement(_, answer) => answer,
        Visit::Expression(_, answer) => answer,
        Visit::AssignmentTarget(_, answer) => answer,
        Visit::CollectionInitializer(_, answer) => answer,
        Visit::MapEntry(_, answer) => answer,
        Visit::TypeName(_, answer) => answer,
        Visit::NamedType(_, answer) => answer,
        Visit::Identifier(_, answer) => answer,
    }
}

/// The nodes of `items`, in order.
pub open spec fn class_nodes(items: Seq<ClassDeclaration>) -> Seq<Node> {
    items.map_values(|item: ClassDeclaration| Node::ClassDeclaration(item))
}

/// The nodes of `items`, in order.
pub open spec fn trigger_nodes(items: Seq<TriggerDeclaration>) -> Seq<Node> {
    items.map_values(|item: TriggerDeclaration| Node::TriggerDeclaration(item))
}

/// The nodes of `items`, in order.
pub open spec fn method_nodes(items: Seq<MethodDeclaration>) -> Seq<Node> {
    items.map_values(|item: MethodDeclaration| Node::MethodDeclaration(item))
}

/// The nodes of `items`, in order.
pub open spec fn annotation_nodes(items: Seq<Annotation>) -> Seq<Node> {
    items.map_values(|item: Annotation| Node::Annotation(item))
}

/// The nodes of `items`, in order.
pub open spec fn named_type_nodes(items: Seq<NamedType>) -> Seq<Node> {
    items.map_values(|item: NamedType| Node::NamedType(item))
}

/// The nodes of `items`, in order.
pub open spec fn member_nodes(items: Seq<ClassMember>) -> Seq<Node> {
    items.map_values(|item: ClassMember| Node::ClassMember(item))
}

/// The nodes of `items`, in order.
pub open spec fn declarator_nodes(items: Seq<VariableDeclarator>) -> Seq<Node> {
    items.map_values(|item: VariableDeclarator| Node::VariableDeclarator(item))
}

/// The nodes of `items`, in order.
pub open spec fn accessor_nodes(items: Seq<PropertyAccessor>) -> Seq<Node> {
    items.map_values(|item: PropertyAccessor| Node::PropertyAccessor(item))
}

/// The nodes of `items`, in order.
pub open spec fn parameter_nodes(items: Seq<Parameter>) -> Seq<Node> {
    items.map_values(|item: Parameter| Node::Parameter(item))
}

/// The nodes of `items`, in order.
pub open spec fn argument_nodes(items: Seq<AnnotationArgument>) -> Seq<Node> {
    items.map_values(|item: AnnotationArgument| Node::AnnotationArgument(item))
}

/// The nodes of `items`, in order.
pub open spec fn statement_nodes(items: Seq<Statement>) -> Seq<Node> {
    items.map_values(|item: Statement| Node::Statement(item))
}

/// The nodes of `items`, in order.
pub open spec fn catch_nodes(items: Seq<CatchClause>) -> Seq<Node> {
    items.map_values(|item: CatchClause| Node::CatchClause(item))
}

/// The nodes of `items`, in order.
pub open spec fn arm_nodes(items: Seq<SwitchArm>) -> Seq<Node> {
    items.map_values(|item: SwitchArm| Node::SwitchArm(item))
}

/// The nodes of `items`, in order.
pub open spec fn expression_nodes(items: Seq<Expression>) -> Seq<Node> {
    items.map_values(|item: Expression| Node::Expression(item))
}

/// The nodes of `items`, in order.
pub open spec fn entry_nodes(items: Seq<MapEntry>) -> Seq<Node> {
    items.map_values(|item: MapEntry| Node::MapEntry(item))
}

/// The nodes of `items`, in order.
pub open spec fn soql_value_nodes(items: Seq<SoqlValue>) -> Seq<Node> {
    items.map_values(|item: SoqlValue| Node::SoqlValue(item))
}

/// The nodes of `items`, in order.
pub open spec fn type_argument_nodes(items: Seq<TypeArgument>) -> Seq<Node> {
    items.map_values(|item: TypeArgument| Node::TypeName(item.ty))
}

/// The nodes that an optional node gives: none or one.
pub open spec fn optional(node: Option<Node>) -> Seq<Node> {
    match node {
        Some(node) => seq![node],
        None => Seq::empty(),
    }
}

/// An optional expression as a node.
pub open spec fn optional_expression(value: Option<Expression>) -> Option<Node> {
    match value {
        Some(value) => Some(Node::Expression(value)),
        None => None,
    }
}

/// An optional statement as a node.
pub open spec fn optional_statement(value: Option<Statement>) -> Option<Node> {
    match value {
        Some(value) => Some(Node::Statement(value)),
        None => None,
    }
}

/// An optional boxed statement as a node.
pub open spec fn optional_boxed_statement(value: Option<Box<Statement>>) -> Option<Node> {
    match value {
        Some(value) => Some(Node::Statement(*value)),
        None => None,
    }
}

/// An optional condition as a node.
pub open spec fn optional_condition(value: Option<SoqlCondition>) -> Option<Node> {
    match value {
        Some(value) => Some(Node::SoqlCondition(value)),
        None => None,
    }
}

/// An optional query value as a node.
pub open spec fn optional_value(value: Option<SoqlValue>) -> Option<Node> {
    match value {
        Some(value) => Some(Node::SoqlValue(value)),
        None => None,
    }
}

/// The subqueries among the selected items, in order.
pub open spec fn subquery_nodes(items: Seq<SoqlSelectItem>) -> Seq<Node>
    decreases items.len(),
{
    if items.len() == 0 {
        Seq::empty()
    } else {
        subquery_nodes(items.drop_last()) + (match items.last() {
            SoqlSelectItem::Subquery { query, .. } => seq![Node::SoqlQuery(*query)],
            _ => Seq::empty(),
        })
    }
}

/// The condition and limit of each returning clause, in order.
pub open spec fn returning_nodes(items: Seq<SoslReturning>) -> Seq<Node>
    decreases items.len(),
{
    if items.len() == 0 {
        Seq::empty()
    } else {
        returning_nodes(items.drop_last()) + optional(optional_condition(items.last().where_clause)) + optional(
            optional_value(items.last().limit),
        )
    }
}

/// The parts of a statement that a walk visits, in source order.
pub open spec fn statement_children(statement: Statement) -> Seq<Node> {
    match statement {
        Statement::VariableDeclaration { ty, name, initializer, .. } => seq![
            Node::TypeName(ty),
            Node::Identifier(name),
            Node::Expression(initializer),
        ],
        Statement::LocalDeclaration { ty, declarators, .. } => seq![Node::TypeName(ty)] + declarator_nodes(declarators@),
        Statement::Sequence { statements, .. } => statement_nodes(statements@),
        Statement::Block { statements, .. } => statement_nodes(statements@),
        Statement::Expression { expression, .. } => seq![Node::Expression(expression)],
        Statement::If { condition, then_branch, else_branch, .. } => seq![
            Node::Expression(condition),
            Node::Statement(*then_branch),
        ] + optional(optional_boxed_statement(else_branch)),
        Statement::While { condition, body, .. } => seq![Node::Expression(condition), Node::Statement(*body)],
        Statement::DoWhile { body, condition, .. } => seq![Node::Statement(*body), Node::Expression(condition)],
        Statement::Switch { value, arms, .. } => seq![Node::Expression(value)] + arm_nodes(arms@),
        Statement::For { initializer, condition, update, body, .. } => optional(optional_boxed_statement(initializer))
            + optional(optional_expression(condition)) + optional(optional_boxed_statement(update)) + seq![
            Node::Statement(*body),
        ],
        Statement::ForEach { element_type, name, iterable, body, .. } => seq![
            Node::TypeName(element_type),
            Node::Identifier(name),
            Node::Expression(iterable),
            Node::Statement(*body),
        ],
        Statement::Try { try_block, catches, finally_block, .. } => seq![Node::Statement(*try_block)] + catch_nodes(
            catches@,
        ) + optional(optional_boxed_statement(finally_block)),
        Statement::Throw { value, .. } => seq![Node::Expression(value)],
        Statement::Dml { value, .. } => seq![Node::Expression(value)],
        Statement::RunAs { user, body, .. } => seq![Node::Expression(user), Node::Statement(*body)],
        Statement::Return { value, .. } => optional(optional_expression(value)),
        Statement::Break { .. } => Seq::empty(),
        Statement::Continue { .. } => Seq::empty(),
    }
}

/// The parts of an expression that a walk visits, in source order.
pub open spec fn expression_children(expression: Expression) -> Seq<Node> {
    match expression {
        Expression::Soql(query) => seq![Node::SoqlQuery(*query)],
        Expression::Sosl(query) => seq![Node::SoslQuery(*query)],
        Expression::Variable(name) => seq![Node::Identifier(name)],
        Expression::TypeLiteral { ty, .. } => seq![Node::TypeName(ty)],
        Expression::Assignment { target, value, .. } => seq![Node::AssignmentTarget(target), Node::Expression(*value)],
        Expression::NewCollection { ty, initializer, .. } => seq![
            Node::TypeName(ty),
            Node::CollectionInitializer(initializer),
        ],
        Expression::NewException { exception_type, arguments, .. } => seq![Node::TypeName(exception_type)]
            + expression_nodes(arguments@),
        Expression::NewObject { ty, arguments, .. } => seq![Node::TypeName(ty)] + expression_nodes(arguments@),
        Expression::Index { collection, index, .. } => seq![Node::Expression(*collection), Node::Expression(*index)],
        Expression::FunctionCall { name, arguments, .. } => seq![Node::Identifier(name)] + expression_nodes(arguments@),
        Expression::MethodCall { receiver, method, arguments, .. } => seq![
            Node::Expression(*receiver),
            Node::Identifier(method),
        ] + expression_nodes(arguments@),
        Expression::MemberAccess { receiver, member, .. } => seq![Node::Expression(*receiver), Node::Identifier(member)],
        Expression::Cast { ty, expression, .. } => seq![Node::TypeName(ty), Node::Expression(*expression)],
        Expression::Conditional { condition, when_true, when_false, .. } => seq![
            Node::Expression(*condition),
            Node::Expression(*when_true),
            Node::Expression(*when_false),
        ],
        Expression::Instanceof { value, target, .. } => seq![Node::Expression(*value), Node::TypeName(target)],
        Expression::Unary { operand, .. } => seq![Node::Expression(*operand)],
        Expression::Postfix { operand, .. } => seq![Node::Expression(*operand)],
        Expression::Binary { left, right, .. } => seq![Node::Expression(*left), Node::Expression(*right)],
        Expression::NullCoalesce { left, right, .. } => seq![Node::Expression(*left), Node::Expression(*right)],
        _ => Seq::empty(),
    }
}

/// The parts of a node that a walk visits, in source order.
pub open spec fn children(node: Node) -> Seq<Node> {
    match node {
        Node::Program(program) => class_nodes(program.classes@) + trigger_nodes(program.triggers@) + method_nodes(
            program.methods@,
        ) + statement_nodes(program.statements@),
        Node::TriggerDeclaration(trigger) => seq![
            Node::Identifier(trigger.name),
            Node::NamedType(trigger.object),
            Node::Statement(trigger.body),
        ],
        Node::ClassDeclaration(class) => annotation_nodes(class.annotations@) + seq![Node::Identifier(class.name)]
            + optional(
            match class.superclass {
                Some(superclass) => Some(Node::NamedType(superclass)),
                None => None,
            },
        ) + named_type_nodes(class.interfaces@) + member_nodes(class.members@),
        Node::ClassMember(member) => match member {
            ClassMember::Field(field) => seq![Node::FieldDeclaration(field)],
            ClassMember::FieldGroup(group) => annotation_nodes(group.annotations@) + seq![Node::TypeName(group.ty)]
                + declarator_nodes(group.declarators@),
            ClassMember::Property(property) => seq![Node::PropertyDeclaration(property)],
            ClassMember::Constructor(constructor) => seq![Node::ConstructorDeclaration(constructor)],
            ClassMember::Method(method) => seq![Node::MethodDeclaration(method)],
            ClassMember::Initializer(initializer) => seq![Node::Statement(initializer.body)],
        },
        Node::FieldDeclaration(field) => annotation_nodes(field.annotations@) + seq![
            Node::TypeName(field.ty),
            Node::Identifier(field.name),
        ] + optional(optional_expression(field.initializer)),
        Node::PropertyDeclaration(property) => annotation_nodes(property.annotations@) + seq![
            Node::TypeName(property.ty),
            Node::Identifier(property.name),
        ] + accessor_nodes(property.accessors@),
        Node::PropertyAccessor(accessor) => optional(optional_statement(accessor.body)),
        Node::ConstructorDeclaration(constructor) => annotation_nodes(constructor.annotations@) + seq![
            Node::Identifier(constructor.name),
        ] + parameter_nodes(constructor.parameters@) + (match constructor.delegation {
            Some(delegation) => expression_nodes(delegation.arguments@),
            None => Seq::empty(),
        }) + seq![Node::Statement(constructor.body)],
        Node::MethodDeclaration(method) => annotation_nodes(method.annotations@) + seq![
            Node::ReturnType(method.return_type),
            Node::Identifier(method.name),
        ] + parameter_nodes(method.parameters@) + optional(optional_statement(method.body)),
        Node::Annotation(annotation) => seq![Node::Identifier(annotation.name)] + argument_nodes(annotation.arguments@),
        Node::AnnotationArgument(argument) => optional(
            match argument.name {
                Some(name) => Some(Node::Identifier(name)),
                None => None,
            },
        ) + seq![Node::Expression(argument.value)],
        Node::Parameter(parameter) => seq![Node::TypeName(parameter.ty), Node::Identifier(parameter.name)],
        Node::ReturnType(return_type) => match return_type {
            ReturnType::Value(ty) => seq![Node::TypeName(ty)],
            ReturnType::Void => Seq::empty(),
        },
        Node::CatchClause(catch) => seq![
            Node::TypeName(catch.exception_type),
            Node::Identifier(catch.name),
            Node::Statement(catch.body),
        ],
        Node::VariableDeclarator(declarator) => seq![Node::Identifier(declarator.name)] + optional(
            optional_expression(declarator.initializer),
        ),
        Node::SwitchArm(arm) => (match arm.labels {
            SwitchLabels::Expressions(labels) => expression_nodes(labels@),
            SwitchLabels::TypePattern(pattern) => seq![Node::TypeName(pattern.ty), Node::Identifier(pattern.binding)],
            SwitchLabels::Else(_) => Seq::empty(),
        }) + seq![Node::Statement(arm.body)],
        Node::Statement(statement) => statement_children(statement),
        Node::Expression(expression) => expression_children(expression),
        Node::AssignmentTarget(target) => match target {
            AssignmentTarget::Variable(name) => seq![Node::Identifier(name)],
            AssignmentTarget::Index { collection, index, .. } => seq![
                Node::Expression(*collection),
                Node::Expression(*index),
            ],
            AssignmentTarget::Member { receiver, member, .. } => seq![Node::Expression(*receiver), Node::Identifier(member)],
        },
        Node::CollectionInitializer(initializer) => match initializer {
            CollectionInitializer::Arguments(items) => expression_nodes(items@),
            CollectionInitializer::Elements(items) => expression_nodes(items@),
            CollectionInitializer::MapEntries(entries) => entry_nodes(entries@),
            CollectionInitializer::SizedArray(size) => seq![Node::Expression(*size)],
        },
        Node::MapEntry(entry) => seq![Node::Expression(entry.key), Node::Expression(entry.value)],
        Node::TypeName(ty) => match ty {
            TypeName::Custom(named) => seq![Node::NamedType(named)],
            TypeName::List(element) => seq![Node::TypeName(*element)],
            TypeName::SetOf(element) => seq![Node::TypeName(*element)],
            TypeName::Iterable(element) => seq![Node::TypeName(*element)],
            TypeName::MapOf(key, value) => seq![Node::TypeName(*key), Node::TypeName(*value)],
            _ => Seq::empty(),
        },
        Node::NamedType(named) => type_argument_nodes(named.type_arguments@),
        Node::Identifier(_) => Seq::empty(),
        Node::SoqlQuery(query) => subquery_nodes(query.select@) + optional(optional_condition(query.where_clause))
            + optional(optional_condition(query.having)) + optional(optional_value(query.limit)) + optional(
            optional_value(query.offset),
        ),
        Node::SoslQuery(query) => seq![Node::SoqlValue(query.search)] + returning_nodes(query.returning@),
        Node::SoqlCondition(condition) => match condition {
            SoqlCondition::AggregateComparison { right, .. } => seq![Node::SoqlValue(right)],
            SoqlCondition::Comparison { right, .. } => seq![Node::SoqlValue(right)],
            SoqlCondition::In { values, .. } => match values {
                SoqlInValues::Values(values) => soql_value_nodes(values@),
                SoqlInValues::Bind(bound) => seq![Node::Expression(*bound)],
            },
            SoqlCondition::Not { condition, .. } => seq![Node::SoqlCondition(*condition)],
            SoqlCondition::Logical { left, right, .. } => seq![Node::SoqlCondition(*left), Node::SoqlCondition(*right)],
        },
        Node::SoqlValue(value) => match value {
            SoqlValue::Bind(bound, _) => seq![Node::Expression(*bound)],
            _ => Seq::empty(),
        },
    }
}

/// Whether a node has a hook; the parts of embedded queries have none.
pub open spec fn hooked(node: Node) -> bool {
    !(node is SoqlQuery || node is SoslQuery || node is SoqlCondition || node is SoqlValue)
}

/// Reading the log from entry `i`, the index just past the calls that
/// visiting `node` makes, with at most `fuel` levels of nesting: the call of
/// its own hook, if it has one, and, unless that hook answered `false`, the
/// calls for its parts in order. `None` when the log does not read so.
pub open spec fn consume<'ast>(fuel: nat, node: Node, log: Seq<Visit<'ast>>, i: int) -> Option<int>
    decreases fuel, 0nat,
{
    if fuel == 0 {
        None
    } else if hooked(node) {
        if 0 <= i < log.len() && visit_node(log[i]) == node {
            if visit_answer(log[i]) {
                consume_list((fuel - 1) as nat, children(node), log, i + 1)
            } else {
                Some(i + 1)
            }
        } else {
            None
        }
    } else {
        consume_list((fuel - 1) as nat, children(node), log, i)
    }
}

/// Reading the log from entry `i`, the index just past the calls that
/// visiting each of `nodes` in turn makes.
pub open spec fn consume_list<'ast>(fuel: nat, nodes: Seq<Node>, log: Seq<Visit<'ast>>, i: int) -> Option<int>
    decreases fuel, nodes.len(),
{
    if nodes.len() == 0 {
        Some(i)
    } else {
        match consume(fuel, nodes[0], log, i) {
            Some(j) => consume_list(fuel, nodes.skip(1), log, j),
            None => None,
        }
    }
}

/// The log entries from `i` to `j` are exactly the calls that visiting `node` makes.
pub open spec fn walked<'ast>(node: Node, log: Seq<Visit<'ast>>, i: int, j: int) -> bool {
    exists|fuel: nat| #[trigger] consume(fuel, node, log, i) == Some(j)
}

/// The log entries from `i` to `j` are exactly the calls that visiting each
/// of `nodes` in turn makes.
pub open spec fn walked_list<'ast>(nodes: Seq<Node>, log: Seq<Visit<'ast>>, i: int, j: int) -> bool {
    exists|fuel: nat| #[trigger] consume_list(fuel, nodes, log, i) == Some(j)
}

/// `after` keeps `before` as its beginning.
pub open spec fn extends<'ast>(after: Seq<Visit<'ast>>, before: Seq<Visit<'ast>>) -> bool {
    &&& before.len() <= after.len()
    &&& forall|k: int| 0 <= k < before.len() ==> #[trigger] after[k] == before[k]
}

/// Reading a node's calls gives the same on a log that goes on further.
proof fn lemma_consume_frame<'ast>(fuel: nat, node: Node, before: Seq<Visit<'ast>>, after: Seq<Visit<'ast>>, i: int)
    requires
        extends(after, before),
        consume(fuel, node, before, i) is Some,
    ensures
        consume(fuel, node, after, i) == consume(fuel, node, before, i),
    decreases fuel, 0nat,
{
    if fuel > 0 {
        if hooked(node) {
            assert(after[i] == before[i]);
            if visit_answer(before[i]) {
                lemma_list_frame((fuel - 1) as nat, children(node), before, after, i + 1);
            }
        } else {
            lemma_list_frame((fuel - 1) as nat, children(node), before, after, i);
        }
    }
}

/// Reading the calls of a list gives the same on a log that goes on further.
proof fn lemma_list_frame<'ast>(fuel: nat, nodes: Seq<Node>, before: Seq<Visit<'ast>>, after: Seq<Visit<'ast>>, i: int)
    requires
        extends(after, before),
        consume_list(fuel, nodes, before, i) is Some,
    ensures
        consume_list(fuel, nodes, after, i) == consume_list(fuel, nodes, before, i),
    decreases fuel, nodes.len(),
{
    if nodes.len() > 0 {
        lemma_consume_frame(fuel, nodes[0], before, after, i);
        let j = consume(fuel, nodes[0], before, i)->0;
        lemma_list_frame(fuel, nodes.skip(1), before, after, j);
    }
}

/// More nesting allowed reads a node's calls the same.
proof fn lemma_consume_fuel<'ast>(fuel: nat, more: nat, node: Node, log: Seq<Visit<'ast>>, i: int)
    requires
        fuel <= more,
        consume(fuel, node, log, i) is Some,
    ensures
        consume(more, node, log, i) == consume(fuel, node, log, i),
    decreases fuel, 0nat,
{
    if fuel > 0 {
        if hooked(node) {
            if visit_answer(log[i]) {
                lemma_list_fuel((fuel - 1) as nat, (more - 1) as nat, children(node), log, i + 1);
            }
        } else {
            lemma_list_fuel((fuel - 1) as nat, (more - 1) as nat, children(node), log, i);
        }
    }
}

/// More nesting allowed reads a list's calls the same.
proof fn lemma_list_fuel<'ast>(fuel: nat, more: nat, nodes: Seq<Node>, log: Seq<Visit<'ast>>, i: int)
    requires
        fuel <= more,
        consume_list(fuel, nodes, log, i) is Some,
    ensures
        consume_list(more, nodes, log, i) == consume_list(fuel, nodes, log, i),
    decreases fuel, nodes.len(),
{
    if nodes.len() > 0 {
        lemma_consume_fuel(fuel, more, nodes[0], log, i);
        let j = consume(fuel, nodes[0], log, i)->0;
        lemma_list_fuel(fuel, more, nodes.skip(1), log, j);
    }
}

/// The calls of two lists one after the other are those of the first, then
/// those of the second.
proof fn lemma_list_append<'ast>(fuel: nat, first: Seq<Node>, second: Seq<Node>, log: Seq<Visit<'ast>>, i: int)
    ensures
        consume_list(fuel, first + second, log, i) == match consume_list(fuel, first, log, i) {
            Some(j) => consume_list(fuel, second, log, j),
            None => None,
        },
    decreases first.len(),
{
    if first.len() == 0 {
        assert(first + second =~= second);
    } else {
        assert((first + second)[0] == first[0]);
        assert((first + second).skip(1) =~= first.skip(1) + second);
        if let Some(j) = consume(fuel, first[0], log, i) {
            lemma_list_append(fuel, first.skip(1), second, log, j);
        }
    }
}

/// After a visit of `nodes` that continues the log from `before` to
/// `after`, the calls recorded since `start` are those of `done`, then those
/// of `nodes`.
proof fn lemma_step_list<'ast>(
    origin: Seq<Visit<'ast>>,
    done: Seq<Node>,
    nodes: Seq<Node>,
    before: Seq<Visit<'ast>>,
    after: Seq<Visit<'ast>>,
    start: int,
    fuel: nat,
) -> (next: nat)
    requires
        extends(before, origin),
        consume_list(fuel, done, before, start) == Some(before.len() as int),
        extends(after, before),
        walked_list(nodes, after, before.len() as int, after.len() as int),
    ensures
        extends(after, origin),
        consume_list(next, done + nodes, after, start) == Some(after.len() as int),
{
    let more = choose|more: nat| #[trigger] consume_list(more, nodes, after, before.len() as int) == Some(
        after.len() as int,
    );
    lemma_list_frame(fuel, done, before, after, start);
    let next = fuel + more;
    lemma_list_fuel(fuel, next, done, after, start);
    lemma_list_fuel(more, next, nodes, after, before.len() as int);
    lemma_list_append(next, done, nodes, after, start);
    assert forall|k: int| 0 <= k < origin.len() implies #[trigger] after[k] == origin[k] by {
        assert(after[k] == before[k]);
    }
    next
}

/// After a visit of `node` that continues the log from `before` to `after`,
/// the calls recorded since `start` are those of `done`, then those of `node`.
proof fn lemma_step<'ast>(
    origin: Seq<Visit<'ast>>,
    done: Seq<Node>,
    node: Node,
    before: Seq<Visit<'ast>>,
    after: Seq<Visit<'ast>>,
    start: int,
    fuel: nat,
) -> (next: nat)
    requires
        extends(before, origin),
        consume_list(fuel, done, before, start) == Some(before.len() as int),
        extends(after, before),
        walked(node, after, before.len() as int, after.len() as int),
    ensures
        extends(after, origin),
        consume_list(next, done.push(node), after, start) == Some(after.len() as int),
{
    let more = choose|more: nat| #[trigger] consume(more, node, after, before.len() as int) == Some(
        after.len() as int,
    );
    assert(seq![node].skip(1) =~= Seq::<Node>::empty());
    assert(seq![node][0] == node);
    assert(consume_list(more, Seq::<Node>::empty(), after, after.len() as int) == Some(after.len() as int));
    assert(consume_list(more, seq![node], after, before.len() as int) == Some(after.len() as int));
    assert(done + seq![node] =~= done.push(node));
    lemma_step_list(origin, done, seq![node], before, after, start, fuel)
}

/// A hook that answered `true`, followed by the walk of the node's parts,
/// is the visit of the node.
proof fn lemma_hook_descend<'ast>(node: Node, before: Seq<Visit<'ast>>, asked: Seq<Visit<'ast>>, after: Seq<Visit<'ast>>)
    requires
        hooked(node),
        asked.len() == before.len() + 1,
        extends(asked, before),
        visit_node(asked[before.len() as int]) == node,
        visit_answer(asked[before.len() as int]),
        extends(after, asked),
        walked_list(children(node), after, asked.len() as int, after.len() as int),
    ensures
        extends(after, before),
        walked(node, after, before.len() as int, after.len() as int),
{
    let fuel = choose|fuel: nat| #[trigger] consume_list(fuel, children(node), after, asked.len() as int) == Some(
        after.len() as int,
    );
    assert(after[before.len() as int] == asked[before.len() as int]);
    assert(consume(fuel + 1, node, after, before.len() as int) == Some(after.len() as int));
    assert forall|k: int| 0 <= k < before.len() implies #[trigger] after[k] == before[k] by {
        assert(after[k] == asked[k]);
    }
}

/// A hook that answered `false` is the whole visit of the node.
proof fn lemma_hook_stop<'ast>(node: Node, before: Seq<Visit<'ast>>, after: Seq<Visit<'ast>>)
    requires
        hooked(node),
        after.len() == before.len() + 1,
        extends(after, before),
        visit_node(after[before.len() as int]) == node,
        !visit_answer(after[before.len() as int]),
    ensures
        walked(node, after, before.len() as int, after.len() as int),
{
    assert(consume(1, node, after, before.len() as int) == Some(after.len() as int));
}

/// A node without a hook is visited by visiting its parts.
proof fn lemma_unhooked<'ast>(node: Node, before: Seq<Visit<'ast>>, after: Seq<Visit<'ast>>)
    requires
        !hooked(node),
        walked_list(children(node), after, before.len() as int, after.len() as int),
    ensures
        walked(node, after, before.len() as int, after.len() as int),
{
    let fuel = choose|fuel: nat| #[trigger] consume_list(fuel, children(node), after, before.len() as int) == Some(
        after.len() as int,
    );
    assert(consume(fuel + 1, node, after, before.len() as int) == Some(after.len() as int));
}

/// No calls are the visit of no nodes.
proof fn lemma_walk_start<'ast>(log: Seq<Visit<'ast>>)
    ensures
        consume_list(0, Seq::<Node>::empty(), log, log.len() as int) == Some(log.len() as int),
        extends(log, log),
{
}

/// The calls recorded since `start` are the walk of `nodes`.
proof fn lemma_walk_end<'ast>(done: Seq<Node>, nodes: Seq<Node>, log: Seq<Visit<'ast>>, start: int, fuel: nat)
    requires
        done =~= nodes,
        consume_list(fuel, done, log, start) == Some(log.len() as int),
    ensures
        walked_list(nodes, log, start, log.len() as int),
{
    assert(done == nodes);
}

/// A walk of one node is a walk of the list of that node.
proof fn lemma_single<'ast>(node: Node, before: Seq<Visit<'ast>>, after: Seq<Visit<'ast>>)
    requires
        extends(after, before),
        walked(node, after, before.len() as int, after.len() as int),
    ensures
        walked_list(seq![node], after, before.len() as int, after.len() as int),
{
    let fuel = choose|fuel: nat| #[trigger] consume(fuel, node, after, before.len() as int) == Some(after.len() as int);
    assert(seq![node].skip(1) =~= Seq::<Node>::empty());
    assert(seq![node][0] == node);
    assert(consume_list(fuel, Seq::<Node>::empty(), after, after.len() as int) == Some(after.len() as int));
    assert(consume_list(fuel, seq![node], after, before.len() as int) == Some(after.len() as int));
}

/// Hooks called by the walks, one per kind of node. Each answers whether the
/// walk descends into the node it was given, and records its call, with the
/// node and the answer, in the visitor's log of visits.
#[allow(unused_variables)]
pub trait Visitor<'ast> {
    /// The hook calls recorded so far, oldest first.
    open spec fn visits(&self) -> Seq<Visit<'ast>> {
        Seq::empty()
    }

    /// Records one hook call at the end of the log.
    fn record(&mut self, visit: Visit<'ast>)
        ensures
            final(self).visits() == old(self).visits().push(visit),
    ;

    fn visit_program(&mut self, program: &'ast Program) -> (descend: bool)
        ensures
            final(self).visits() == old(self).visits().push(Visit::Program(program, descend)),
    {
        self.record(Visit::Program(program, true));
        true
    }

    fn visit_class_declaration(&mut self, class: &'ast ClassDeclaration) -> (descend: bool)
        ensures
            final(self).visits() == old(self).visits().push(Visit::ClassDeclaration(class, descend)),
    {
        self.record(Visit::ClassDeclaration(class, true));
        true
    }

    fn visit_trigger_declaration(&mut self, trigger: &'ast TriggerDeclaration) -> (descend: bool)
        ensures
            final(self).visits() == old(self).visits().push(Visit::TriggerDeclaration(trigger, descend)),
    {
        self.record(Visit::TriggerDeclaration(trigger, true));
        true
    }

    fn visit_class_member(&mut self, member: &'ast ClassMember) -> (descend: bool)
        ensures
            final(self).visits() == old(self).visits().push(Visit::ClassMember(member, descend)),
    {
        self.record(Visit::ClassMember(member, true));
        true
    }

    fn visit_field_declaration(&mut self, field: &'ast FieldDeclaration) -> (descend: bool)
        ensures
            final(self).visits() == old(self).visits().push(Visit::FieldDeclaration(field, descend)),
    {
        self.record(Visit::FieldDeclaration(field, true));
        true
    }

    fn visit_property_declaration(&mut self, property: &'ast PropertyDeclaration) -> (descend: bool)
        ensures
            final(self).visits() == old(self).visits().push(Visit::PropertyDeclaration(property, descend)),
    {
        self.record(Visit::PropertyDeclaration(property, true));
        true
    }

    fn visit_property_accessor(&mut self, accessor: &'ast PropertyAccessor) -> (descend: bool)
        ensures
            final(self).visits() == old(self).visits().push(Visit::PropertyAccessor(accessor, descend)),
    {
        self.record(Visit::PropertyAccessor(accessor, true));
        true
    }

    fn visit_constructor_declaration(&mut self, constructor: &'ast ConstructorDeclaration) -> (descend: bool)
        ensures
            final(self).visits() == old(self).visits().push(Visit::ConstructorDeclaration(constructor, descend)),
    {
        self.record(Visit::ConstructorDeclaration(constructor, true));
        true
    }

    fn visit_method_declaration(&mut self, method: &'ast MethodDeclaration) -> (descend: bool)
        ensures
            final(self).visits() == old(self).visits().push(Visit::MethodDeclaration(method, descend)),
    {
        self.record(Visit::MethodDeclaration(method, true));
        true
    }

    fn visit_annotation(&mut self, annotation: &'ast Annotation) -> (descend: bool)
        ensures
            final(self).visits() == old(self).visits().push(Visit::Annotation(annotation, descend)),
    {
        self.record(Visit::Annotation(annotation, true));
        true
    }

    fn visit_annotation_argument(&mut self, argument: &'ast AnnotationArgument) -> (descend: bool)
        ensures
            final(self).visits() == old(self).visits().push(Visit::AnnotationArgument(argument, descend)),
    {
        self.record(Visit::AnnotationArgument(argument, true));
        true
    }

    fn visit_parameter(&mut self, parameter: &'ast Parameter) -> (descend: bool)
        ensures
            final(self).visits() == old(self).visits().push(Visit::Parameter(parameter, descend)),
    {
        self.record(Visit::Parameter(parameter, true));
        true
    }

    fn visit_return_type(&mut self, return_type: &'ast ReturnType) -> (descend: bool)
        ensures
            final(self).visits() == old(self).visits().push(Visit::ReturnType(return_type, descend)),
    {
        self.record(Visit::ReturnType(return_type, true));
        true
    }

    fn visit_catch_clause(&mut self, catch: &'ast CatchClause) -> (descend: bool)
        ensures
            final(self).visits() == old(self).visits().push(Visit::CatchClause(catch, descend)),
    {
        self.record(Visit::CatchClause(catch, true));
        true
    }

    fn visit_variable_declarator(&mut self, declarator: &'ast VariableDeclarator) -> (descend: bool)
        ensures
            final(self).visits() == old(self).visits().push(Visit::VariableDeclarator(declarator, descend)),
    {
        self.record(Visit::VariableDeclarator(declarator, true));
        true
    }

    fn visit_switch_arm(&mut self, arm: &'ast SwitchArm) -> (descend: bool)
        ensures
            final(self).visits() == old(self).visits().push(Visit::SwitchArm(arm, descend)),
    {
        self.record(Visit::SwitchArm(arm, true));
        true
    }

    fn visit_statement(&mut self, statement: &'ast Statement) -> (descend: bool)
        ensures
            final(self).visits() == old(self).visits().push(Visit::Statement(statement, descend)),
    {
        self.record(Visit::Statement(statement, true));
        true
    }

    fn visit_expression(&mut self, expression: &'ast Expression) -> (descend: bool)
        ensures
            final(self).visits() == old(self).visits().push(Visit::Expression(expression, descend)),
    {
        self.record(Visit::Expression(expression, true));
        true
    }

    fn visit_assignment_target(&mut self, target: &'ast AssignmentTarget) -> (descend: bool)
        ensures
            final(self).visits() == old(self).visits().push(Visit::AssignmentTarget(target, descend)),
    {
        self.record(Visit::AssignmentTarget(target, true));
        true
    }

    fn visit_collection_initializer(&mut self, initializer: &'ast CollectionInitializer) -> (descend: bool)
        ensures
            final(self).visits() == old(self).visits().push(Visit::CollectionInitializer(initializer, descend)),
    {
        self.record(Visit::CollectionInitializer(initializer, true));
        true
    }

    fn visit_map_entry(&mut self, entry: &'ast MapEntry) -> (descend: bool)
        ensures
            final(self).visits() == old(self).visits().push(Visit::MapEntry(entry, descend)),
    {
        self.record(Visit::MapEntry(entry, true));
        true
    }

    fn visit_type_name(&mut self, ty: &'ast TypeName) -> (descend: bool)
        ensures
            final(self).visits() == old(self).visits().push(Visit::TypeName(ty, descend)),
    {
        self.record(Visit::TypeName(ty, true));
        true
    }

    fn visit_named_type(&mut self, named_type: &'ast NamedType) -> (descend: bool)
        ensures
            final(self).visits() == old(self).visits().push(Visit::NamedType(named_type, descend)),
    {
        self.record(Visit::NamedType(named_type, true));
        true
    }

    fn visit_identifier(&mut self, identifier: &'ast Identifier) -> (descend: bool)
        ensures
            final(self).visits() == old(self).visits().push(Visit::Identifier(identifier, descend)),
    {
        self.record(Visit::Identifier(identifier, true));
        true
    }

}

/// Calls the program hook and walks the node when it answers `true`.
fn program<'ast, V: Visitor<'ast> + ?Sized>(visitor: &mut V, program: &'ast Program)
    ensures
        extends(final(visitor).visits(), old(visitor).visits()),
        walked(Node::Program(*program), final(visitor).visits(), old(visitor).visits().len() as int, final(visitor).visits().len() as int),
{
    let ghost before = visitor.visits();
    if visitor.visit_program(program) {
        let ghost asked = visitor.visits();
        walk_program(visitor, program);
        proof {
            lemma_hook_descend(Node::Program(*program), before, asked, visitor.visits());
        }
    } else {
        proof {
            lemma_hook_stop(Node::Program(*program), before, visitor.visits());
        }
    }
}

/// Calls the class declaration hook and walks the node when it answers `true`.
fn class_declaration<'ast, V: Visitor<'ast> + ?Sized>(visitor: &mut V, class: &'ast ClassDeclaration)
    ensures
        extends(final(visitor).visits(), old(visitor).visits()),
        walked(Node::ClassDeclaration(*class), final(visitor).visits(), old(visitor).visits().len() as int, final(visitor).visits().len() as int),
{
    let ghost before = visitor.visits();
    if visitor.visit_class_declaration(class) {
        let ghost asked = visitor.visits();
        walk_class_declaration(visitor, class);
        proof {
            lemma_hook_descend(Node::ClassDeclaration(*class), before, asked, visitor.visits());
        }
    } else {
        proof {
            lemma_hook_stop(Node::ClassDeclaration(*class), before, visitor.visits());
        }
    }
}

/// Calls the trigger declaration hook and walks the node when it answers `true`.
fn trigger_declaration<'ast, V: Visitor<'ast> + ?Sized>(visitor: &mut V, trigger: &'ast TriggerDeclaration)
    ensures
        extends(final(visitor).visits(), old(visitor).visits()),
        walked(Node::TriggerDeclaration(*trigger), final(visitor).visits(), old(visitor).visits().len() as int, final(visitor).visits().len() as int),
{
    let ghost before = visitor.visits();
    if visitor.visit_trigger_declaration(trigger) {
        let ghost asked = visitor.visits();
        walk_trigger_declaration(visitor, trigger);
        proof {
            lemma_hook_descend(Node::TriggerDeclaration(*trigger), before, asked, visitor.visits());
        }
    } else {
        proof {
            lemma_hook_stop(Node::TriggerDeclaration(*trigger), before, visitor.visits());
        }
    }
}

/// Calls the class member hook and walks the node when it answers `true`.
fn class_member<'ast, V: Visitor<'ast> + ?Sized>(visitor: &mut V, member: &'ast ClassMember)
    ensures
        extends(final(visitor).visits(), old(visitor).visits()),
        walked(Node::ClassMember(*member), final(visitor).visits(), old(visitor).visits().len() as int, final(visitor).visits().len() as int),
{
    let ghost before = visitor.visits();
    if visitor.visit_class_member(member) {
        let ghost asked = visitor.visits();
        walk_class_member(visitor, member);
        proof {
            lemma_hook_descend(Node::ClassMember(*member), before, asked, visitor.visits());
        }
    } else {
        proof {
            lemma_hook_stop(Node::ClassMember(*member), before, visitor.visits());
        }
    }
}

/// Calls the field declaration hook and walks the node when it answers `true`.
fn field_declaration<'ast, V: Visitor<'ast> + ?Sized>(visitor: &mut V, field: &'ast FieldDeclaration)
    ensures
        extends(final(visitor).visits(), old(visitor).visits()),
        walked(Node::FieldDeclaration(*field), final(visitor).visits(), old(visitor).visits().len() as int, final(visitor).visits().len() as int),
{
    let ghost before = visitor.visits();
    if visitor.visit_field_declaration(field) {
        let ghost asked = visitor.visits();
        walk_field_declaration(visitor, field);
        proof {
            lemma_hook_descend(Node::FieldDeclaration(*field), before, asked, visitor.visits());
        }
    } else {
        proof {
            lemma_hook_stop(Node::FieldDeclaration(*field), before, visitor.visits());
        }
    }
}

/// Calls the property declaration hook and walks the node when it answers `true`.
fn property_declaration<'ast, V: Visitor<'ast> + ?Sized>(visitor: &mut V, property: &'ast PropertyDeclaration)
    ensures
        extends(final(visitor).visits(), old(visitor).visits()),
        walked(Node::PropertyDeclaration(*property), final(visitor).visits(), old(visitor).visits().len() as int, final(visitor).visits().len() as int),
{
    let ghost before = visitor.visits();
    if visitor.visit_property_declaration(property) {
        let ghost asked = visitor.visits();
        walk_property_declaration(visitor, property);
        proof {
            lemma_hook_descend(Node::PropertyDeclaration(*property), before, asked, visitor.visits());
        }
    } else {
        proof {
            lemma_hook_stop(Node::PropertyDeclaration(*property), before, visitor.visits());
        }
    }
}

/// Calls the property accessor hook and walks the node when it answers `true`.
fn property_accessor<'ast, V: Visitor<'ast> + ?Sized>(visitor: &mut V, accessor: &'ast PropertyAccessor)
    ensures
        extends(final(visitor).visits(), old(visitor).visits()),
        walked(Node::PropertyAccessor(*accessor), final(visitor).visits(), old(visitor).visits().len() as int, final(visitor).visits().len() as int),
{
    let ghost before = visitor.visits();
    if visitor.visit_property_accessor(accessor) {
        let ghost asked = visitor.visits();
        walk_property_accessor(visitor, accessor);
        proof {
            lemma_hook_descend(Node::PropertyAccessor(*accessor), before, asked, visitor.visits());
        }
    } else {
        proof {
            lemma_hook_stop(Node::PropertyAccessor(*accessor), before, visitor.visits());
        }
    }
}

/// Calls the constructor declaration hook and walks the node when it answers `true`.
fn constructor_declaration<'ast, V: Visitor<'ast> + ?Sized>(visitor: &mut V, constructor: &'ast ConstructorDeclaration)
    ensures
        extends(final(visitor).visits(), old(visitor).visits()),
        walked(Node::ConstructorDeclaration(*constructor), final(visitor).visits(), old(visitor).visits().len() as int, final(visitor).visits().len() as int),
{
    let ghost before = visitor.visits();
    if visitor.visit_constructor_declaration(constructor) {
        let ghost asked = visitor.visits();
        walk_constructor_declaration(visitor, constructor);
        proof {
            lemma_hook_descend(Node::ConstructorDeclaration(*constructor), before, asked, visitor.visits());
        }
    } else {
        proof {
            lemma_hook_stop(Node::ConstructorDeclaration(*constructor), before, visitor.visits());
        }
    }
}

/// Calls the method declaration hook and walks the node when it answers `true`.
fn method_declaration<'ast, V: Visitor<'ast> + ?Sized>(visitor: &mut V, method: &'ast MethodDeclaration)
    ensures
        extends(final(visitor).visits(), old(visitor).visits()),
        walked(Node::MethodDeclaration(*method), final(visitor).visits(), old(visitor).visits().len() as int, final(visitor).visits().len() as int),
{
    let ghost before = visitor.visits();
    if visitor.visit_method_declaration(method) {
        let ghost asked = visitor.visits();
        walk_method_declaration(visitor, method);
        proof {
            lemma_hook_descend(Node::MethodDeclaration(*method), before, asked, visitor.visits());
        }
    } else {
        proof {
            lemma_hook_stop(Node::MethodDeclaration(*method), before, visitor.visits());
        }
    }
}

/// Calls the annotation hook and walks the node when it answers `true`.
fn annotation<'ast, V: Visitor<'ast> + ?Sized>(visitor: &mut V, annotation: &'ast Annotation)
    ensures
        extends(final(visitor).visits(), old(visitor).visits()),
        walked(Node::Annotation(*annotation), final(visitor).visits(), old(visitor).visits().len() as int, final(visitor).visits().len() as int),
{
    let ghost before = visitor.visits();
    if visitor.visit_annotation(annotation) {
        let ghost asked = visitor.visits();
        walk_annotation(visitor, annotation);
        proof {
            lemma_hook_descend(Node::Annotation(*annotation), before, asked, visitor.visits());
        }
    } else {
        proof {
            lemma_hook_stop(Node::Annotation(*annotation), before, visitor.visits());
        }
    }
}

/// Calls the annotation argument hook and walks the node when it answers `true`.
fn annotation_argument<'ast, V: Visitor<'ast> + ?Sized>(visitor: &mut V, argument: &'ast AnnotationArgument)
    ensures
        extends(final(visitor).visits(), old(visitor).visits()),
        walked(Node::AnnotationArgument(*argument), final(visitor).visits(), old(visitor).visits().len() as int, final(visitor).visits().len() as int),
{
    let ghost before = visitor.visits();
    if visitor.visit_annotation_argument(argument) {
        let ghost asked = visitor.visits();
        walk_annotation_argument(visitor, argument);
        proof {
            lemma_hook_descend(Node::AnnotationArgument(*argument), before, asked, visitor.visits());
        }
    } else {
        proof {
            lemma_hook_stop(Node::AnnotationArgument(*argument), before, visitor.visits());
        }
    }
}

/// Calls the parameter hook and walks the node when it answers `true`.
fn parameter<'ast, V: Visitor<'ast> + ?Sized>(visitor: &mut V, parameter: &'ast Parameter)
    ensures
        extends(final(visitor).visits(), old(visitor).visits()),
        walked(Node::Parameter(*parameter), final(visitor).visits(), old(visitor).visits().len() as int, final(visitor).visits().len() as int),
{
    let ghost before = visitor.visits();
    if visitor.visit_parameter(parameter) {
        let ghost asked = visitor.visits();
        walk_parameter(visitor, parameter);
        proof {
            lemma_hook_descend(Node::Parameter(*parameter), before, asked, visitor.visits());
        }
    } else {
        proof {
            lemma_hook_stop(Node::Parameter(*parameter), before, visitor.visits());
        }
    }
}

/// Calls the return type hook and walks the node when it answers `true`.
fn return_type<'ast, V: Visitor<'ast> + ?Sized>(visitor: &mut V, return_type: &'ast ReturnType)
    ensures
        extends(final(visitor).visits(), old(visitor).visits()),
        walked(Node::ReturnType(*return_type), final(visitor).visits(), old(visitor).visits().len() as int, final(visitor).visits().len() as int),
{
    let ghost before = visitor.visits();
    if visitor.visit_return_type(return_type) {
        let ghost asked = visitor.visits();
        walk_return_type(visitor, return_type);
        proof {
            lemma_hook_descend(Node::ReturnType(*return_type), before, asked, visitor.visits());
        }
    } else {
        proof {
            lemma_hook_stop(Node::ReturnType(*return_type), before, visitor.visits());
        }
    }
}

/// Calls the catch clause hook and walks the node when it answers `true`.
fn catch_clause<'ast, V: Visitor<'ast> + ?Sized>(visitor: &mut V, catch: &'ast CatchClause)
    ensures
        extends(final(visitor).visits(), old(visitor).visits()),
        walked(Node::CatchClause(*catch), final(visitor).visits(), old(visitor).visits().len() as int, final(visitor).visits().len() as int),
    decreases catch, 1nat,
{
    let ghost before = visitor.visits();
    if visitor.visit_catch_clause(catch) {
        let ghost asked = visitor.visits();
        walk_catch_clause(visitor, catch);
        proof {
            lemma_hook_descend(Node::CatchClause(*catch), before, asked, visitor.visits());
        }
    } else {
        proof {
            lemma_hook_stop(Node::CatchClause(*catch), before, visitor.visits());
        }
    }
}

/// Calls the variable declarator hook and walks the node when it answers `true`.
fn variable_declarator<'ast, V: Visitor<'ast> + ?Sized>(visitor: &mut V, declarator: &'ast VariableDeclarator)
    ensures
        extends(final(visitor).visits(), old(visitor).visits()),
        walked(Node::VariableDeclarator(*declarator), final(visitor).visits(), old(visitor).visits().len() as int, final(visitor).visits().len() as int),
{
    let ghost before = visitor.visits();
    if visitor.visit_variable_declarator(declarator) {
        let ghost asked = visitor.visits();
        walk_variable_declarator(visitor, declarator);
        proof {
            lemma_hook_descend(Node::VariableDeclarator(*declarator), before, asked, visitor.visits());
        }
    } else {
        proof {
            lemma_hook_stop(Node::VariableDeclarator(*declarator), before, visitor.visits());
        }
    }
}

/// Calls the switch arm hook and walks the node when it answers `true`.
fn switch_arm<'ast, V: Visitor<'ast> + ?Sized>(visitor: &mut V, arm: &'ast SwitchArm)
    ensures
        extends(final(visitor).visits(), old(visitor).visits()),
        walked(Node::SwitchArm(*arm), final(visitor).visits(), old(visitor).visits().len() as int, final(visitor).visits().len() as int),
    decreases arm, 1nat,
{
    let ghost before = visitor.visits();
    if visitor.visit_switch_arm(arm) {
        let ghost asked = visitor.visits();
        walk_switch_arm(visitor, arm);
        proof {
            lemma_hook_descend(Node::SwitchArm(*arm), before, asked, visitor.visits());
        }
    } else {
        proof {
            lemma_hook_stop(Node::SwitchArm(*arm), before, visitor.visits());
        }
    }
}

/// Calls the statement hook and walks the node when it answers `true`.
fn statement<'ast, V: Visitor<'ast> + ?Sized>(visitor: &mut V, statement: &'ast Statement)
    ensures
        extends(final(visitor).visits(), old(visitor).visits()),
        walked(Node::Statement(*statement), final(visitor).visits(), old(visitor).visits().len() as int, final(visitor).visits().len() as int),
    decreases statement, 2nat,
{
    let ghost before = visitor.visits();
    if visitor.visit_statement(statement) {
        let ghost asked = visitor.visits();
        walk_statement(visitor, statement);
        proof {
            lemma_hook_descend(Node::Statement(*statement), before, asked, visitor.visits());
        }
    } else {
        proof {
            lemma_hook_stop(Node::Statement(*statement), before, visitor.visits());
        }
    }
}

/// Calls the expression hook and walks the node when it answers `true`.
fn expression<'ast, V: Visitor<'ast> + ?Sized>(visitor: &mut V, expression: &'ast Expression)
    ensures
        extends(final(visitor).visits(), old(visitor).visits()),
        walked(Node::Expression(*expression), final(visitor).visits(), old(visitor).visits().len() as int, final(visitor).visits().len() as int),
    decreases expression, 1nat,
{
    let ghost before = visitor.visits();
    if visitor.visit_expression(expression) {
        let ghost asked = visitor.visits();
        walk_expression(visitor, expression);
        proof {
            lemma_hook_descend(Node::Expression(*expression), before, asked, visitor.visits());
        }
    } else {
        proof {
            lemma_hook_stop(Node::Expression(*expression), before, visitor.visits());
        }
    }
}

/// Calls the assignment target hook and walks the node when it answers `true`.
fn assignment_target<'ast, V: Visitor<'ast> + ?Sized>(visitor: &mut V, target: &'ast AssignmentTarget)
    ensures
        extends(final(visitor).visits(), old(visitor).visits()),
        walked(Node::AssignmentTarget(*target), final(visitor).visits(), old(visitor).visits().len() as int, final(visitor).visits().len() as int),
    decreases target, 1nat,
{
    let ghost before = visitor.visits();
    if visitor.visit_assignment_target(target) {
        let ghost asked = visitor.visits();
        walk_assignment_target(visitor, target);
        proof {
            lemma_hook_descend(Node::AssignmentTarget(*target), before, asked, visitor.visits());
        }
    } else {
        proof {
            lemma_hook_stop(Node::AssignmentTarget(*target), before, visitor.visits());
        }
    }
}

/// Calls the collection initializer hook and walks the node when it answers `true`.
fn collection_initializer<'ast, V: Visitor<'ast> + ?Sized>(visitor: &mut V, initializer: &'ast CollectionInitializer)
    ensures
        extends(final(visitor).visits(), old(visitor).visits()),
        walked(Node::CollectionInitializer(*initializer), final(visitor).visits(), old(visitor).visits().len() as int, final(visitor).visits().len() as int),
    decreases initializer, 1nat,
{
    let ghost before = visitor.visits();
    if visitor.visit_collection_initializer(initializer) {
        let ghost asked = visitor.visits();
        walk_collection_initializer(visitor, initializer);
        proof {
            lemma_hook_descend(Node::CollectionInitializer(*initializer), before, asked, visitor.visits());
        }
    } else {
        proof {
            lemma_hook_stop(Node::CollectionInitializer(*initializer), before, visitor.visits());
        }
    }
}

/// Calls the map entry hook and walks the node when it answers `true`.
fn map_entry<'ast, V: Visitor<'ast> + ?Sized>(visitor: &mut V, entry: &'ast MapEntry)
    ensures
        extends(final(visitor).visits(), old(visitor).visits()),
        walked(Node::MapEntry(*entry), final(visitor).visits(), old(visitor).visits().len() as int, final(visitor).visits().len() as int),
    decreases entry, 1nat,
{
    let ghost before = visitor.visits();
    if visitor.visit_map_entry(entry) {
        let ghost asked = visitor.visits();
        walk_map_entry(visitor, entry);
        proof {
            lemma_hook_descend(Node::MapEntry(*entry), before, asked, visitor.visits());
        }
    } else {
        proof {
            lemma_hook_stop(Node::MapEntry(*entry), before, visitor.visits());
        }
    }
}

/// Calls the type name hook and walks the node when it answers `true`.
fn type_node<'ast, V: Visitor<'ast> + ?Sized>(visitor: &mut V, ty: &'ast TypeName)
    ensures
        extends(final(visitor).visits(), old(visitor).visits()),
        walked(Node::TypeName(*ty), final(visitor).visits(), old(visitor).visits().len() as int, final(visitor).visits().len() as int),
    decreases ty, 1nat,
{
    let ghost before = visitor.visits();
    if visitor.visit_type_name(ty) {
        let ghost asked = visitor.visits();
        walk_type_name(visitor, ty);
        proof {
            lemma_hook_descend(Node::TypeName(*ty), before, asked, visitor.visits());
        }
    } else {
        proof {
            lemma_hook_stop(Node::TypeName(*ty), before, visitor.visits());
        }
    }
}

/// Calls the named type hook and walks the node when it answers `true`.
fn named_type<'ast, V: Visitor<'ast> + ?Sized>(visitor: &mut V, named_type: &'ast NamedType)
    ensures
        extends(final(visitor).visits(), old(visitor).visits()),
        walked(Node::NamedType(*named_type), final(visitor).visits(), old(visitor).visits().len() as int, final(visitor).visits().len() as int),
    decreases named_type, 1nat,
{
    let ghost before = visitor.visits();
    if visitor.visit_named_type(named_type) {
        let ghost asked = visitor.visits();
        walk_named_type(visitor, named_type);
        proof {
            lemma_hook_descend(Node::NamedType(*named_type), before, asked, visitor.visits());
        }
    } else {
        proof {
            lemma_hook_stop(Node::NamedType(*named_type), before, visitor.visits());
        }
    }
}

/// Calls the identifier hook and walks the node when it answers `true`.
fn identifier<'ast, V: Visitor<'ast> + ?Sized>(visitor: &mut V, identifier: &'ast Identifier)
    ensures
        extends(final(visitor).visits(), old(visitor).visits()),
        walked(Node::Identifier(*identifier), final(visitor).visits(), old(visitor).visits().len() as int, final(visitor).visits().len() as int),
{
    let ghost before = visitor.visits();
    if visitor.visit_identifier(identifier) {
        let ghost asked = visitor.visits();
        walk_identifier(visitor, identifier);
        proof {
            lemma_hook_descend(Node::Identifier(*identifier), before, asked, visitor.visits());
        }
    } else {
        proof {
            lemma_hook_stop(Node::Identifier(*identifier), before, visitor.visits());
        }
    }
}

/// Visits each of `items` in order.
fn classes<'ast, V: Visitor<'ast> + ?Sized>(visitor: &mut V, items: &'ast Vec<ClassDeclaration>)
    ensures
        extends(final(visitor).visits(), old(visitor).visits()),
        walked_list(class_nodes(items@), final(visitor).visits(), old(visitor).visits().len() as int, final(visitor).visits().len() as int),
{
    let ghost origin = visitor.visits();
    let ghost start = origin.len() as int;
    let ghost mut fuel: nat = 0;
    let mut i: usize = 0;
    while i < items.len()
        invariant
            i <= items@.len(),
            origin == old(visitor).visits(),
            start == origin.len(),
            extends(visitor.visits(), origin),
            consume_list(fuel, class_nodes(items@).take(i as int), visitor.visits(), start) == Some(visitor.visits().len() as int),
        decreases items@.len() - i,
    {
        let ghost before = visitor.visits();
        class_declaration(visitor, &items[i]);
        proof {
            fuel = lemma_step(origin, class_nodes(items@).take(i as int), Node::ClassDeclaration(items@[i as int]), before, visitor.visits(), start, fuel);
            assert(class_nodes(items@).take(i as int).push(Node::ClassDeclaration(items@[i as int])) =~= class_nodes(items@).take(i + 1));
        }
        i += 1;
    }
    proof {
        assert(class_nodes(items@).take(items@.len() as int) =~= class_nodes(items@));
    }
}

/// Visits each of `items` in order.
fn triggers<'ast, V: Visitor<'ast> + ?Sized>(visitor: &mut V, items: &'ast Vec<TriggerDeclaration>)
    ensures
        extends(final(visitor).visits(), old(visitor).visits()),
        walked_list(trigger_nodes(items@), final(visitor).visits(), old(visitor).visits().len() as int, final(visitor).visits().len() as int),
{
    let ghost origin = visitor.visits();
    let ghost start = origin.len() as int;
    let ghost mut fuel: nat = 0;
    let mut i: usize = 0;
    while i < items.len()
        invariant
            i <= items@.len(),
            origin == old(visitor).visits(),
            start == origin.len(),
            extends(visitor.visits(), origin),
            consume_list(fuel, trigger_nodes(items@).take(i as int), visitor.visits(), start) == Some(visitor.visits().len() as int),
        decreases items@.len() - i,
    {
        let ghost before = visitor.visits();
        trigger_declaration(visitor, &items[i]);
        proof {
            fuel = lemma_step(origin, trigger_nodes(items@).take(i as int), Node::TriggerDeclaration(items@[i as int]), before, visitor.visits(), start, fuel);
            assert(trigger_nodes(items@).take(i as int).push(Node::TriggerDeclaration(items@[i as int])) =~= trigger_nodes(items@).take(i + 1));
        }
        i += 1;
    }
    proof {
        assert(trigger_nodes(items@).take(items@.len() as int) =~= trigger_nodes(items@));
    }
}

/// Visits each of `items` in order.
fn methods<'ast, V: Visitor<'ast> + ?Sized>(visitor: &mut V, items: &'ast Vec<MethodDeclaration>)
    ensures
        extends(final(visitor).visits(), old(visitor).visits()),
        walked_list(method_nodes(items@), final(visitor).visits(), old(visitor).visits().len() as int, final(visitor).visits().len() as int),
{
    let ghost origin = visitor.visits();
    let ghost start = origin.len() as int;
    let ghost mut fuel: nat = 0;
    let mut i: usize = 0;
    while i < items.len()
        invariant
            i <= items@.len(),
            origin == old(visitor).visits(),
            start == origin.len(),
            extends(visitor.visits(), origin),
            consume_list(fuel, method_nodes(items@).take(i as int), visitor.visits(), start) == Some(visitor.visits().len() as int),
        decreases items@.len() - i,
    {
        let ghost before = visitor.visits();
        method_declaration(visitor, &items[i]);
        proof {
            fuel = lemma_step(origin, method_nodes(items@).take(i as int), Node::MethodDeclaration(items@[i as int]), before, visitor.visits(), start, fuel);
            assert(method_nodes(items@).take(i as int).push(Node::MethodDeclaration(items@[i as int])) =~= method_nodes(items@).take(i + 1));
        }
        i += 1;
    }
    proof {
        assert(method_nodes(items@).take(items@.len() as int) =~= method_nodes(items@));
    }
}

/// Visits each of `items` in order.
fn annotations<'ast, V: Visitor<'ast> + ?Sized>(visitor: &mut V, items: &'ast Vec<Annotation>)
    ensures
        extends(final(visitor).visits(), old(visitor).visits()),
        walked_list(annotation_nodes(items@), final(visitor).visits(), old(visitor).visits().len() as int, final(visitor).visits().len() as int),
{
    let ghost origin = visitor.visits();
    let ghost start = origin.len() as int;
    let ghost mut fuel: nat = 0;
    let mut i: usize = 0;
    while i < items.len()
        invariant
            i <= items@.len(),
            origin == old(visitor).visits(),
            start == origin.len(),
            extends(visitor.visits(), origin),
            consume_list(fuel, annotation_nodes(items@).take(i as int), visitor.visits(), start) == Some(visitor.visits().len() as int),
        decreases items@.len() - i,
    {
        let ghost before = visitor.visits();
        annotation(visitor, &items[i]);
        proof {
            fuel = lemma_step(origin, annotation_nodes(items@).take(i as int), Node::Annotation(items@[i as int]), before, visitor.visits(), start, fuel);
            assert(annotation_nodes(items@).take(i as int).push(Node::Annotation(items@[i as int])) =~= annotation_nodes(items@).take(i + 1));
        }
        i += 1;
    }
    proof {
        assert(annotation_nodes(items@).take(items@.len() as int) =~= annotation_nodes(items@));
    }
}

/// Visits each of `items` in order.
fn named_types<'ast, V: Visitor<'ast> + ?Sized>(visitor: &mut V, items: &'ast Vec<NamedType>)
    ensures
        extends(final(visitor).visits(), old(visitor).visits()),
        walked_list(named_type_nodes(items@), final(visitor).visits(), old(visitor).visits().len() as int, final(visitor).visits().len() as int),
{
    let ghost origin = visitor.visits();
    let ghost start = origin.len() as int;
    let ghost mut fuel: nat = 0;
    let mut i: usize = 0;
    while i < items.len()
        invariant
            i <= items@.len(),
            origin == old(visitor).visits(),
            start == origin.len(),
            extends(visitor.visits(), origin),
            consume_list(fuel, named_type_nodes(items@).take(i as int), visitor.visits(), start) == Some(visitor.visits().len() as int),
        decreases items@.len() - i,
    {
        let ghost before = visitor.visits();
        named_type(visitor, &items[i]);
        proof {
            fuel = lemma_step(origin, named_type_nodes(items@).take(i as int), Node::NamedType(items@[i as int]), before, visitor.visits(), start, fuel);
            assert(named_type_nodes(items@).take(i as int).push(Node::NamedType(items@[i as int])) =~= named_type_nodes(items@).take(i + 1));
        }
        i += 1;
    }
    proof {
        assert(named_type_nodes(items@).take(items@.len() as int) =~= named_type_nodes(items@));
    }
}

/// Visits each of `items` in order.
fn class_members<'ast, V: Visitor<'ast> + ?Sized>(visitor: &mut V, items: &'ast Vec<ClassMember>)
    ensures
        extends(final(visitor).visits(), old(visitor).visits()),
        walked_list(member_nodes(items@), final(visitor).visits(), old(visitor).visits().len() as int, final(visitor).visits().len() as int),
{
    let ghost origin = visitor.visits();
    let ghost start = origin.len() as int;
    let ghost mut fuel: nat = 0;
    let mut i: usize = 0;
    while i < items.len()
        invariant
            i <= items@.len(),
            origin == old(visitor).visits(),
            start == origin.len(),
            extends(visitor.visits(), origin),
            consume_list(fuel, member_nodes(items@).take(i as int), visitor.visits(), start) == Some(visitor.visits().len() as int),
        decreases items@.len() - i,
    {
        let ghost before = visitor.visits();
        class_member(visitor, &items[i]);
        proof {
            fuel = lemma_step(origin, member_nodes(items@).take(i as int), Node::ClassMember(items@[i as int]), before, visitor.visits(), start, fuel);
            assert(member_nodes(items@).take(i as int).push(Node::ClassMember(items@[i as int])) =~= member_nodes(items@).take(i + 1));
        }
        i += 1;
    }
    proof {
        assert(member_nodes(items@).take(items@.len() as int) =~= member_nodes(items@));
    }
}

/// Visits each of `items` in order.
fn declarators<'ast, V: Visitor<'ast> + ?Sized>(visitor: &mut V, items: &'ast Vec<VariableDeclarator>)
    ensures
        extends(final(visitor).visits(), old(visitor).visits()),
        walked_list(declarator_nodes(items@), final(visitor).visits(), old(visitor).visits().len() as int, final(visitor).visits().len() as int),
{
    let ghost origin = visitor.visits();
    let ghost start = origin.len() as int;
    let ghost mut fuel: nat = 0;
    let mut i: usize = 0;
    while i < items.len()
        invariant
            i <= items@.len(),
            origin == old(visitor).visits(),
            start == origin.len(),
            extends(visitor.visits(), origin),
            consume_list(fuel, declarator_nodes(items@).take(i as int), visitor.visits(), start) == Some(visitor.visits().len() as int),
        decreases items@.len() - i,
    {
        let ghost before = visitor.visits();
        variable_declarator(visitor, &items[i]);
        proof {
            fuel = lemma_step(origin, declarator_nodes(items@).take(i as int), Node::VariableDeclarator(items@[i as int]), before, visitor.visits(), start, fuel);
            assert(declarator_nodes(items@).take(i as int).push(Node::VariableDeclarator(items@[i as int])) =~= declarator_nodes(items@).take(i + 1));
        }
        i += 1;
    }
    proof {
        assert(declarator_nodes(items@).take(items@.len() as int) =~= declarator_nodes(items@));
    }
}

/// Visits each of `items` in order.
fn accessors<'ast, V: Visitor<'ast> + ?Sized>(visitor: &mut V, items: &'ast Vec<PropertyAccessor>)
    ensures
        extends(final(visitor).visits(), old(visitor).visits()),
        walked_list(accessor_nodes(items@), final(visitor).visits(), old(visitor).visits().len() as int, final(visitor).visits().len() as int),
{
    let ghost origin = visitor.visits();
    let ghost start = origin.len() as int;
    let ghost mut fuel: nat = 0;
    let mut i: usize = 0;
    while i < items.len()
        invariant
            i <= items@.len(),
            origin == old(visitor).visits(),
            start == origin.len(),
            extends(visitor.visits(), origin),
            consume_list(fuel, accessor_nodes(items@).take(i as int), visitor.visits(), start) == Some(visitor.visits().len() as int),
        decreases items@.len() - i,
    {
        let ghost before = visitor.visits();
        property_accessor(visitor, &items[i]);
        proof {
            fuel = lemma_step(origin, accessor_nodes(items@).take(i as int), Node::PropertyAccessor(items@[i as int]), before, visitor.visits(), start, fuel);
            assert(accessor_nodes(items@).take(i as int).push(Node::PropertyAccessor(items@[i as int])) =~= accessor_nodes(items@).take(i + 1));
        }
        i += 1;
    }
    proof {
        assert(accessor_nodes(items@).take(items@.len() as int) =~= accessor_nodes(items@));
    }
}

/// Visits each of `items` in order.
fn parameters<'ast, V: Visitor<'ast> + ?Sized>(visitor: &mut V, items: &'ast Vec<Parameter>)
    ensures
        extends(final(visitor).visits(), old(visitor).visits()),
        walked_list(parameter_nodes(items@), final(visitor).visits(), old(visitor).visits().len() as int, final(visitor).visits().len() as int),
{
    let ghost origin = visitor.visits();
    let ghost start = origin.len() as int;
    let ghost mut fuel: nat = 0;
    let mut i: usize = 0;
    while i < items.len()
        invariant
            i <= items@.len(),
            origin == old(visitor).visits(),
            start == origin.len(),
            extends(visitor.visits(), origin),
            consume_list(fuel, parameter_nodes(items@).take(i as int), visitor.visits(), start) == Some(visitor.visits().len() as int),
        decreases items@.len() - i,
    {
        let ghost before = visitor.visits();
        parameter(visitor, &items[i]);
        proof {
            fuel = lemma_step(origin, parameter_nodes(items@).take(i as int), Node::Parameter(items@[i as int]), before, visitor.visits(), start, fuel);
            assert(parameter_nodes(items@).take(i as int).push(Node::Parameter(items@[i as int])) =~= parameter_nodes(items@).take(i + 1));
        }
        i += 1;
    }
    proof {
        assert(parameter_nodes(items@).take(items@.len() as int) =~= parameter_nodes(items@));
    }
}

/// Visits each of `items` in order.
fn annotation_arguments<'ast, V: Visitor<'ast> + ?Sized>(visitor: &mut V, items: &'ast Vec<AnnotationArgument>)
    ensures
        extends(final(visitor).visits(), old(visitor).visits()),
        walked_list(argument_nodes(items@), final(visitor).visits(), old(visitor).visits().len() as int, final(visitor).visits().len() as int),
{
    let ghost origin = visitor.visits();
    let ghost start = origin.len() as int;
    let ghost mut fuel: nat = 0;
    let mut i: usize = 0;
    while i < items.len()
        invariant
            i <= items@.len(),
            origin == old(visitor).visits(),
            start == origin.len(),
            extends(visitor.visits(), origin),
            consume_list(fuel, argument_nodes(items@).take(i as int), visitor.visits(), start) == Some(visitor.visits().len() as int),
        decreases items@.len() - i,
    {
        let ghost before = visitor.visits();
        annotation_argument(visitor, &items[i]);
        proof {
            fuel = lemma_step(origin, argument_nodes(items@).take(i as int), Node::AnnotationArgument(items@[i as int]), before, visitor.visits(), start, fuel);
            assert(argument_nodes(items@).take(i as int).push(Node::AnnotationArgument(items@[i as int])) =~= argument_nodes(items@).take(i + 1));
        }
        i += 1;
    }
    proof {
        assert(argument_nodes(items@).take(items@.len() as int) =~= argument_nodes(items@));
    }
}

/// Visits each of `items` in order.
fn statements<'ast, V: Visitor<'ast> + ?Sized>(visitor: &mut V, items: &'ast Vec<Statement>)
    ensures
        extends(final(visitor).visits(), old(visitor).visits()),
        walked_list(statement_nodes(items@), final(visitor).visits(), old(visitor).visits().len() as int, final(visitor).visits().len() as int),
    decreases items, 0nat,
{
    let ghost origin = visitor.visits();
    let ghost start = origin.len() as int;
    let ghost mut fuel: nat = 0;
    let mut i: usize = 0;
    while i < items.len()
        invariant
            i <= items@.len(),
            origin == old(visitor).visits(),
            start == origin.len(),
            extends(visitor.visits(), origin),
            consume_list(fuel, statement_nodes(items@).take(i as int), visitor.visits(), start) == Some(visitor.visits().len() as int),
        decreases items@.len() - i,
    {
        let ghost before = visitor.visits();
        statement(visitor, &items[i]);
        proof {
            fuel = lemma_step(origin, statement_nodes(items@).take(i as int), Node::Statement(items@[i as int]), before, visitor.visits(), start, fuel);
            assert(statement_nodes(items@).take(i as int).push(Node::Statement(items@[i as int])) =~= statement_nodes(items@).take(i + 1));
        }
        i += 1;
    }
    proof {
        assert(statement_nodes(items@).take(items@.len() as int) =~= statement_nodes(items@));
    }
}

/// Visits each of `items` in order.
fn catch_clauses<'ast, V: Visitor<'ast> + ?Sized>(visitor: &mut V, items: &'ast Vec<CatchClause>)
    ensures
        extends(final(visitor).visits(), old(visitor).visits()),
        walked_list(catch_nodes(items@), final(visitor).visits(), old(visitor).visits().len() as int, final(visitor).visits().len() as int),
    decreases items, 0nat,
{
    let ghost origin = visitor.visits();
    let ghost start = origin.len() as int;
    let ghost mut fuel: nat = 0;
    let mut i: usize = 0;
    while i < items.len()
        invariant
            i <= items@.len(),
            origin == old(visitor).visits(),
            start == origin.len(),
            extends(visitor.visits(), origin),
            consume_list(fuel, catch_nodes(items@).take(i as int), visitor.visits(), start) == Some(visitor.visits().len() as int),
        decreases items@.len() - i,
    {
        let ghost before = visitor.visits();
        catch_clause(visitor, &items[i]);
        proof {
            fuel = lemma_step(origin, catch_nodes(items@).take(i as int), Node::CatchClause(items@[i as int]), before, visitor.visits(), start, fuel);
            assert(catch_nodes(items@).take(i as int).push(Node::CatchClause(items@[i as int])) =~= catch_nodes(items@).take(i + 1));
        }
        i += 1;
    }
    proof {
        assert(catch_nodes(items@).take(items@.len() as int) =~= catch_nodes(items@));
    }
}

/// Visits each of `items` in order.
fn switch_arms<'ast, V: Visitor<'ast> + ?Sized>(visitor: &mut V, items: &'ast Vec<SwitchArm>)
    ensures
        extends(final(visitor).visits(), old(visitor).visits()),
        walked_list(arm_nodes(items@), final(visitor).visits(), old(visitor).visits().len() as int, final(visitor).visits().len() as int),
    decreases items, 0nat,
{
    let ghost origin = visitor.visits();
    let ghost start = origin.len() as int;
    let ghost mut fuel: nat = 0;
    let mut i: usize = 0;
    while i < items.len()
        invariant
            i <= items@.len(),
            origin == old(visitor).visits(),
            start == origin.len(),
            extends(visitor.visits(), origin),
            consume_list(fuel, arm_nodes(items@).take(i as int), visitor.visits(), start) == Some(visitor.visits().len() as int),
        decreases items@.len() - i,
    {
        let ghost before = visitor.visits();
        switch_arm(visitor, &items[i]);
        proof {
            fuel = lemma_step(origin, arm_nodes(items@).take(i as int), Node::SwitchArm(items@[i as int]), before, visitor.visits(), start, fuel);
            assert(arm_nodes(items@).take(i as int).push(Node::SwitchArm(items@[i as int])) =~= arm_nodes(items@).take(i + 1));
        }
        i += 1;
    }
    proof {
        assert(arm_nodes(items@).take(items@.len() as int) =~= arm_nodes(items@));
    }
}

/// Visits each of `items` in order.
fn expressions<'ast, V: Visitor<'ast> + ?Sized>(visitor: &mut V, items: &'ast Vec<Expression>)
    ensures
        extends(final(visitor).visits(), old(visitor).visits()),
        walked_list(expression_nodes(items@), final(visitor).visits(), old(visitor).visits().len() as int, final(visitor).visits().len() as int),
    decreases items, 0nat,
{
    let ghost origin = visitor.visits();
    let ghost start = origin.len() as int;
    let ghost mut fuel: nat = 0;
    let mut i: usize = 0;
    while i < items.len()
        invariant
            i <= items@.len(),
            origin == old(visitor).visits(),
            start == origin.len(),
            extends(visitor.visits(), origin),
            consume_list(fuel, expression_nodes(items@).take(i as int), visitor.visits(), start) == Some(visitor.visits().len() as int),
        decreases items@.len() - i,
    {
        let ghost before = visitor.visits();
        expression(visitor, &items[i]);
        proof {
            fuel = lemma_step(origin, expression_nodes(items@).take(i as int), Node::Expression(items@[i as int]), before, visitor.visits(), start, fuel);
            assert(expression_nodes(items@).take(i as int).push(Node::Expression(items@[i as int])) =~= expression_nodes(items@).take(i + 1));
        }
        i += 1;
    }
    proof {
        assert(expression_nodes(items@).take(items@.len() as int) =~= expression_nodes(items@));
    }
}

/// Visits each of `items` in order.
fn map_entries<'ast, V: Visitor<'ast> + ?Sized>(visitor: &mut V, items: &'ast Vec<MapEntry>)
    ensures
        extends(final(visitor).visits(), old(visitor).visits()),
        walked_list(entry_nodes(items@), final(visitor).visits(), old(visitor).visits().len() as int, final(visitor).visits().len() as int),
    decreases items, 0nat,
{
    let ghost origin = visitor.visits();
    let ghost start = origin.len() as int;
    let ghost mut fuel: nat = 0;
    let mut i: usize = 0;
    while i < items.len()
        invariant
            i <= items@.len(),
            origin == old(visitor).visits(),
            start == origin.len(),
            extends(visitor.visits(), origin),
            consume_list(fuel, entry_nodes(items@).take(i as int), visitor.visits(), start) == Some(visitor.visits().len() as int),
        decreases items@.len() - i,
    {
        let ghost before = visitor.visits();
        map_entry(visitor, &items[i]);
        proof {
            fuel = lemma_step(origin, entry_nodes(items@).take(i as int), Node::MapEntry(items@[i as int]), before, visitor.visits(), start, fuel);
            assert(entry_nodes(items@).take(i as int).push(Node::MapEntry(items@[i as int])) =~= entry_nodes(items@).take(i + 1));
        }
        i += 1;
    }
    proof {
        assert(entry_nodes(items@).take(items@.len() as int) =~= entry_nodes(items@));
    }
}

/// Visits each of `items` in order.
fn soql_values<'ast, V: Visitor<'ast> + ?Sized>(visitor: &mut V, items: &'ast Vec<SoqlValue>)
    ensures
        extends(final(visitor).visits(), old(visitor).visits()),
        walked_list(soql_value_nodes(items@), final(visitor).visits(), old(visitor).visits().len() as int, final(visitor).visits().len() as int),
    decreases items, 0nat,
{
    let ghost origin = visitor.visits();
    let ghost start = origin.len() as int;
    let ghost mut fuel: nat = 0;
    let mut i: usize = 0;
    while i < items.len()
        invariant
            i <= items@.len(),
            origin == old(visitor).visits(),
            start == origin.len(),
            extends(visitor.visits(), origin),
            consume_list(fuel, soql_value_nodes(items@).take(i as int), visitor.visits(), start) == Some(visitor.visits().len() as int),
        decreases items@.len() - i,
    {
        let ghost before = visitor.visits();
        walk_soql_value(visitor, &items[i]);
        proof {
            fuel = lemma_step(origin, soql_value_nodes(items@).take(i as int), Node::SoqlValue(items@[i as int]), before, visitor.visits(), start, fuel);
            assert(soql_value_nodes(items@).take(i as int).push(Node::SoqlValue(items@[i as int])) =~= soql_value_nodes(items@).take(i + 1));
        }
        i += 1;
    }
    proof {
        assert(soql_value_nodes(items@).take(items@.len() as int) =~= soql_value_nodes(items@));
    }
}

/// Visits each of `items` in order.
fn type_arguments<'ast, V: Visitor<'ast> + ?Sized>(visitor: &mut V, items: &'ast Vec<TypeArgument>)
    ensures
        extends(final(visitor).visits(), old(visitor).visits()),
        walked_list(type_argument_nodes(items@), final(visitor).visits(), old(visitor).visits().len() as int, final(visitor).visits().len() as int),
    decreases items, 0nat,
{
    let ghost origin = visitor.visits();
    let ghost start = origin.len() as int;
    let ghost mut fuel: nat = 0;
    let mut i: usize = 0;
    while i < items.len()
        invariant
            i <= items@.len(),
            origin == old(visitor).visits(),
            start == origin.len(),
            extends(visitor.visits(), origin),
            consume_list(fuel, type_argument_nodes(items@).take(i as int), visitor.visits(), start) == Some(visitor.visits().len() as int),
        decreases items@.len() - i,
    {
        let ghost before = visitor.visits();
        type_node(visitor, &items[i].ty);
        proof {
            fuel = lemma_step(origin, type_argument_nodes(items@).take(i as int), Node::TypeName(items@[i as int].ty), before, visitor.visits(), start, fuel);
            assert(type_argument_nodes(items@).take(i as int).push(Node::TypeName(items@[i as int].ty)) =~= type_argument_nodes(items@).take(i + 1));
        }
        i += 1;
    }
    proof {
        assert(type_argument_nodes(items@).take(items@.len() as int) =~= type_argument_nodes(items@));
    }
}

/// Visits the classes, then the triggers, the methods and the statements.
pub fn walk_program<'ast, V: Visitor<'ast> + ?Sized>(visitor: &mut V, program: &'ast Program)
    ensures
        extends(final(visitor).visits(), old(visitor).visits()),
        walked_list(children(Node::Program(*program)), final(visitor).visits(), old(visitor).visits().len() as int, final(visitor).visits().len() as int),
{
    let ghost origin = visitor.visits();
    let ghost start = origin.len() as int;
    let ghost mut done: Seq<Node> = Seq::empty();
    let ghost mut fuel: nat = 0;
    let ghost mut before = origin;
    proof {
        lemma_walk_start(origin);
    }
    proof {
        before = visitor.visits();
    }
    classes(visitor, &program.classes);
    proof {
        fuel = lemma_step_list(origin, done, class_nodes(program.classes@), before, visitor.visits(), start, fuel);
        done = done + class_nodes(program.classes@);
    }
    proof {
        before = visitor.visits();
    }
    triggers(visitor, &program.triggers);
    proof {
        fuel = lemma_step_list(origin, done, trigger_nodes(program.triggers@), before, visitor.visits(), start, fuel);
        done = done + trigger_nodes(program.triggers@);
    }
    proof {
        before = visitor.visits();
    }
    methods(visitor, &program.methods);
    proof {
        fuel = lemma_step_list(origin, done, method_nodes(program.methods@), before, visitor.visits(), start, fuel);
        done = done + method_nodes(program.methods@);
    }
    proof {
        before = visitor.visits();
    }
    statements(visitor, &program.statements);
    proof {
        fuel = lemma_step_list(origin, done, statement_nodes(program.statements@), before, visitor.visits(), start, fuel);
        done = done + statement_nodes(program.statements@);
    }
    proof {
        lemma_walk_end(done, children(Node::Program(*program)), visitor.visits(), start, fuel);
    }
}

/// Visits the trigger's name, its object type and its body.
pub fn walk_trigger_declaration<'ast, V: Visitor<'ast> + ?Sized>(visitor: &mut V, trigger: &'ast TriggerDeclaration)
    ensures
        extends(final(visitor).visits(), old(visitor).visits()),
        walked_list(children(Node::TriggerDeclaration(*trigger)), final(visitor).visits(), old(visitor).visits().len() as int, final(visitor).visits().len() as int),
{
    let ghost origin = visitor.visits();
    let ghost start = origin.len() as int;
    let ghost mut done: Seq<Node> = Seq::empty();
    let ghost mut fuel: nat = 0;
    let ghost mut before = origin;
    proof {
        lemma_walk_start(origin);
    }
    proof {
        before = visitor.visits();
    }
    identifier(visitor, &trigger.name);
    proof {
        fuel = lemma_step(origin, done, Node::Identifier(trigger.name), before, visitor.visits(), start, fuel);
        done = done.push(Node::Identifier(trigger.name));
    }
    proof {
        before = visitor.visits();
    }
    named_type(visitor, &trigger.object);
    proof {
        fuel = lemma_step(origin, done, Node::NamedType(trigger.object), before, visitor.visits(), start, fuel);
        done = done.push(Node::NamedType(trigger.object));
    }
    proof {
        before = visitor.visits();
    }
    statement(visitor, &trigger.body);
    proof {
        fuel = lemma_step(origin, done, Node::Statement(trigger.body), before, visitor.visits(), start, fuel);
        done = done.push(Node::Statement(trigger.body));
    }
    proof {
        lemma_walk_end(done, children(Node::TriggerDeclaration(*trigger)), visitor.visits(), start, fuel);
    }
}

/// Visits the annotations, the name, the superclass, the interfaces and the members.
pub fn walk_class_declaration<'ast, V: Visitor<'ast> + ?Sized>(visitor: &mut V, class: &'ast ClassDeclaration)
    ensures
        extends(final(visitor).visits(), old(visitor).visits()),
        walked_list(children(Node::ClassDeclaration(*class)), final(visitor).visits(), old(visitor).visits().len() as int, final(visitor).visits().len() as int),
{
    let ghost origin = visitor.visits();
    let ghost start = origin.len() as int;
    let ghost mut done: Seq<Node> = Seq::empty();
    let ghost mut fuel: nat = 0;
    let ghost mut before = origin;
    proof {
        lemma_walk_start(origin);
    }
    proof {
        before = visitor.visits();
    }
    annotations(visitor, &class.annotations);
    proof {
        fuel = lemma_step_list(origin, done, annotation_nodes(class.annotations@), before, visitor.visits(), start, fuel);
        done = done + annotation_nodes(class.annotations@);
    }
    proof {
        before = visitor.visits();
    }
    identifier(visitor, &class.name);
    proof {
        fuel = lemma_step(origin, done, Node::Identifier(class.name), before, visitor.visits(), start, fuel);
        done = done.push(Node::Identifier(class.name));
    }
    if let Some(superclass) = &class.superclass {
        proof {
            before = visitor.visits();
        }
        named_type(visitor, superclass);
        proof {
            fuel = lemma_step(origin, done, Node::NamedType(*superclass), before, visitor.visits(), start, fuel);
            done = done.push(Node::NamedType(*superclass));
        }
    }
    proof {
        before = visitor.visits();
    }
    named_types(visitor, &class.interfaces);
    proof {
        fuel = lemma_step_list(origin, done, named_type_nodes(class.interfaces@), before, visitor.visits(), start, fuel);
        done = done + named_type_nodes(class.interfaces@);
    }
    proof {
        before = visitor.visits();
    }
    class_members(visitor, &class.members);
    proof {
        fuel = lemma_step_list(origin, done, member_nodes(class.members@), before, visitor.visits(), start, fuel);
        done = done + member_nodes(class.members@);
    }
    proof {
        lemma_walk_end(done, children(Node::ClassDeclaration(*class)), visitor.visits(), start, fuel);
    }
}

/// Visits the one declaration that the member holds.
pub fn walk_class_member<'ast, V: Visitor<'ast> + ?Sized>(visitor: &mut V, member: &'ast ClassMember)
    ensures
        extends(final(visitor).visits(), old(visitor).visits()),
        walked_list(children(Node::ClassMember(*member)), final(visitor).visits(), old(visitor).visits().len() as int, final(visitor).visits().len() as int),
{
    let ghost origin = visitor.visits();
    let ghost start = origin.len() as int;
    let ghost mut done: Seq<Node> = Seq::empty();
    let ghost mut fuel: nat = 0;
    let ghost mut before = origin;
    proof {
        lemma_walk_start(origin);
    }
    match member {
        ClassMember::Field(field) => {
            proof {
                before = visitor.visits();
            }
            field_declaration(visitor, field);
            proof {
                fuel = lemma_step(origin, done, Node::FieldDeclaration(*field), before, visitor.visits(), start, fuel);
                done = done.push(Node::FieldDeclaration(*field));
            }
        },
        ClassMember::FieldGroup(group) => {
            proof {
                before = visitor.visits();
            }
            annotations(visitor, &group.annotations);
            proof {
                fuel = lemma_step_list(origin, done, annotation_nodes(group.annotations@), before, visitor.visits(), start, fuel);
                done = done + annotation_nodes(group.annotations@);
            }
            proof {
                before = visitor.visits();
            }
            type_node(visitor, &group.ty);
            proof {
                fuel = lemma_step(origin, done, Node::TypeName(group.ty), before, visitor.visits(), start, fuel);
                done = done.push(Node::TypeName(group.ty));
            }
            proof {
                before = visitor.visits();
            }
            declarators(visitor, &group.declarators);
            proof {
                fuel = lemma_step_list(origin, done, declarator_nodes(group.declarators@), before, visitor.visits(), start, fuel);
                done = done + declarator_nodes(group.declarators@);
            }
        },
        ClassMember::Property(property) => {
            proof {
                before = visitor.visits();
            }
            property_declaration(visitor, property);
            proof {
                fuel = lemma_step(origin, done, Node::PropertyDeclaration(*property), before, visitor.visits(), start, fuel);
                done = done.push(Node::PropertyDeclaration(*property));
            }
        },
        ClassMember::Constructor(constructor) => {
            proof {
                before = visitor.visits();
            }
            constructor_declaration(visitor, constructor);
            proof {
                fuel = lemma_step(origin, done, Node::ConstructorDeclaration(*constructor), before, visitor.visits(), start, fuel);
                done = done.push(Node::ConstructorDeclaration(*constructor));
            }
        },
        ClassMember::Method(method) => {
            proof {
                before = visitor.visits();
            }
            method_declaration(visitor, method);
            proof {
                fuel = lemma_step(origin, done, Node::MethodDeclaration(*method), before, visitor.visits(), start, fuel);
                done = done.push(Node::MethodDeclaration(*method));
            }
        },
        ClassMember::Initializer(initializer) => {
            proof {
                before = visitor.visits();
            }
            statement(visitor, &initializer.body);
            proof {
                fuel = lemma_step(origin, done, Node::Statement(initializer.body), before, visitor.visits(), start, fuel);
                done = done.push(Node::Statement(initializer.body));
            }
        },
    }
    proof {
        lemma_walk_end(done, children(Node::ClassMember(*member)), visitor.visits(), start, fuel);
    }
}

/// Visits the annotations, the type, the name and the initializer.
pub fn walk_field_declaration<'ast, V: Visitor<'ast> + ?Sized>(visitor: &mut V, field: &'ast FieldDeclaration)
    ensures
        extends(final(visitor).visits(), old(visitor).visits()),
        walked_list(children(Node::FieldDeclaration(*field)), final(visitor).visits(), old(visitor).visits().len() as int, final(visitor).visits().len() as int),
{
    let ghost origin = visitor.visits();
    let ghost start = origin.len() as int;
    let ghost mut done: Seq<Node> = Seq::empty();
    let ghost mut fuel: nat = 0;
    let ghost mut before = origin;
    proof {
        lemma_walk_start(origin);
    }
    proof {
        before = visitor.visits();
    }
    annotations(visitor, &field.annotations);
    proof {
        fuel = lemma_step_list(origin, done, annotation_nodes(field.annotations@), before, visitor.visits(), start, fuel);
        done = done + annotation_nodes(field.annotations@);
    }
    proof {
        before = visitor.visits();
    }
    type_node(visitor, &field.ty);
    proof {
        fuel = lemma_step(origin, done, Node::TypeName(field.ty), before, visitor.visits(), start, fuel);
        done = done.push(Node::TypeName(field.ty));
    }
    proof {
        before = visitor.visits();
    }
    identifier(visitor, &field.name);
    proof {
        fuel = lemma_step(origin, done, Node::Identifier(field.name), before, visitor.visits(), start, fuel);
        done = done.push(Node::Identifier(field.name));
    }
    if let Some(initializer) = &field.initializer {
        proof {
            before = visitor.visits();
        }
        expression(visitor, initializer);
        proof {
            fuel = lemma_step(origin, done, Node::Expression(*initializer), before, visitor.visits(), start, fuel);
            done = done.push(Node::Expression(*initializer));
        }
    }
    proof {
        lemma_walk_end(done, children(Node::FieldDeclaration(*field)), visitor.visits(), start, fuel);
    }
}

/// Visits the annotations, the type, the name and the accessors.
pub fn walk_property_declaration<'ast, V: Visitor<'ast> + ?Sized>(visitor: &mut V, property: &'ast PropertyDeclaration)
    ensures
        extends(final(visitor).visits(), old(visitor).visits()),
        walked_list(children(Node::PropertyDeclaration(*property)), final(visitor).visits(), old(visitor).visits().len() as int, final(visitor).visits().len() as int),
{
    let ghost origin = visitor.visits();
    let ghost start = origin.len() as int;
    let ghost mut done: Seq<Node> = Seq::empty();
    let ghost mut fuel: nat = 0;
    let ghost mut before = origin;
    proof {
        lemma_walk_start(origin);
    }
    proof {
        before = visitor.visits();
    }
    annotations(visitor, &property.annotations);
    proof {
        fuel = lemma_step_list(origin, done, annotation_nodes(property.annotations@), before, visitor.visits(), start, fuel);
        done = done + annotation_nodes(property.annotations@);
    }
    proof {
        before = visitor.visits();
    }
    type_node(visitor, &property.ty);
    proof {
        fuel = lemma_step(origin, done, Node::TypeName(property.ty), before, visitor.visits(), start, fuel);
        done = done.push(Node::TypeName(property.ty));
    }
    proof {
        before = visitor.visits();
    }
    identifier(visitor, &property.name);
    proof {
        fuel = lemma_step(origin, done, Node::Identifier(property.name), before, visitor.visits(), start, fuel);
        done = done.push(Node::Identifier(property.name));
    }
    proof {
        before = visitor.visits();
    }
    accessors(visitor, &property.accessors);
    proof {
        fuel = lemma_step_list(origin, done, accessor_nodes(property.accessors@), before, visitor.visits(), start, fuel);
        done = done + accessor_nodes(property.accessors@);
    }
    proof {
        lemma_walk_end(done, children(Node::PropertyDeclaration(*property)), visitor.visits(), start, fuel);
    }
}

/// Visits the accessor's body, if it has one.
pub fn walk_property_accessor<'ast, V: Visitor<'ast> + ?Sized>(visitor: &mut V, accessor: &'ast PropertyAccessor)
    ensures
        extends(final(visitor).visits(), old(visitor).visits()),
        walked_list(children(Node::PropertyAccessor(*accessor)), final(visitor).visits(), old(visitor).visits().len() as int, final(visitor).visits().len() as int),
{
    let ghost origin = visitor.visits();
    let ghost start = origin.len() as int;
    let ghost mut done: Seq<Node> = Seq::empty();
    let ghost mut fuel: nat = 0;
    let ghost mut before = origin;
    proof {
        lemma_walk_start(origin);
    }
    if let Some(body) = &accessor.body {
        proof {
            before = visitor.visits();
        }
        statement(visitor, body);
        proof {
            fuel = lemma_step(origin, done, Node::Statement(*body), before, visitor.visits(), start, fuel);
            done = done.push(Node::Statement(*body));
        }
    }
    proof {
        lemma_walk_end(done, children(Node::PropertyAccessor(*accessor)), visitor.visits(), start, fuel);
    }
}

/// Visits the annotations, the name, the parameters, the delegation's
/// arguments and the body.
pub fn walk_constructor_declaration<'ast, V: Visitor<'ast> + ?Sized>(
    visitor: &mut V,
    constructor: &'ast ConstructorDeclaration,
)
    ensures
        extends(final(visitor).visits(), old(visitor).visits()),
        walked_list(children(Node::ConstructorDeclaration(*constructor)), final(visitor).visits(), old(visitor).visits().len() as int, final(visitor).visits().len() as int),
{
    let ghost origin = visitor.visits();
    let ghost start = origin.len() as int;
    let ghost mut done: Seq<Node> = Seq::empty();
    let ghost mut fuel: nat = 0;
    let ghost mut before = origin;
    proof {
        lemma_walk_start(origin);
    }
    proof {
        before = visitor.visits();
    }
    annotations(visitor, &constructor.annotations);
    proof {
        fuel = lemma_step_list(origin, done, annotation_nodes(constructor.annotations@), before, visitor.visits(), start, fuel);
        done = done + annotation_nodes(constructor.annotations@);
    }
    proof {
        before = visitor.visits();
    }
    identifier(visitor, &constructor.name);
    proof {
        fuel = lemma_step(origin, done, Node::Identifier(constructor.name), before, visitor.visits(), start, fuel);
        done = done.push(Node::Identifier(constructor.name));
    }
    proof {
        before = visitor.visits();
    }
    parameters(visitor, &constructor.parameters);
    proof {
        fuel = lemma_step_list(origin, done, parameter_nodes(constructor.parameters@), before, visitor.visits(), start, fuel);
        done = done + parameter_nodes(constructor.parameters@);
    }
    if let Some(delegation) = &constructor.delegation {
        proof {
            before = visitor.visits();
        }
        expressions(visitor, &delegation.arguments);
        proof {
            fuel = lemma_step_list(origin, done, expression_nodes(delegation.arguments@), before, visitor.visits(), start, fuel);
            done = done + expression_nodes(delegation.arguments@);
        }
    }
    proof {
        before = visitor.visits();
    }
    statement(visitor, &constructor.body);
    proof {
        fuel = lemma_step(origin, done, Node::Statement(constructor.body), before, visitor.visits(), start, fuel);
        done = done.push(Node::Statement(constructor.body));
    }
    proof {
        lemma_walk_end(done, children(Node::ConstructorDeclaration(*constructor)), visitor.visits(), start, fuel);
    }
}

/// Visits the annotations, the return type, the name, the parameters and the body.
pub fn walk_method_declaration<'ast, V: Visitor<'ast> + ?Sized>(visitor: &mut V, method: &'ast MethodDeclaration)
    ensures
        extends(final(visitor).visits(), old(visitor).visits()),
        walked_list(children(Node::MethodDeclaration(*method)), final(visitor).visits(), old(visitor).visits().len() as int, final(visitor).visits().len() as int),
{
    let ghost origin = visitor.visits();
    let ghost start = origin.len() as int;
    let ghost mut done: Seq<Node> = Seq::empty();
    let ghost mut fuel: nat = 0;
    let ghost mut before = origin;
    proof {
        lemma_walk_start(origin);
    }
    proof {
        before = visitor.visits();
    }
    annotations(visitor, &method.annotations);
    proof {
        fuel = lemma_step_list(origin, done, annotation_nodes(method.annotations@), before, visitor.visits(), start, fuel);
        done = done + annotation_nodes(method.annotations@);
    }
    proof {
        before = visitor.visits();
    }
    return_type(visitor, &method.return_type);
    proof {
        fuel = lemma_step(origin, done, Node::ReturnType(method.return_type), before, visitor.visits(), start, fuel);
        done = done.push(Node::ReturnType(method.return_type));
    }
    proof {
        before = visitor.visits();
    }
    identifier(visitor, &method.name);
    proof {
        fuel = lemma_step(origin, done, Node::Identifier(method.name), before, visitor.visits(), start, fuel);
        done = done.push(Node::Identifier(method.name));
    }
    proof {
        before = visitor.visits();
    }
    parameters(visitor, &method.parameters);
    proof {
        fuel = lemma_step_list(origin, done, parameter_nodes(method.parameters@), before, visitor.visits(), start, fuel);
        done = done + parameter_nodes(method.parameters@);
    }
    if let Some(body) = &method.body {
        proof {
            before = visitor.visits();
        }
        statement(visitor, body);
        proof {
            fuel = lemma_step(origin, done, Node::Statement(*body), before, visitor.visits(), start, fuel);
            done = done.push(Node::Statement(*body));
        }
    }
    proof {
        lemma_walk_end(done, children(Node::MethodDeclaration(*method)), visitor.visits(), start, fuel);
    }
}

/// Visits the annotation's name and arguments.
pub fn walk_annotation<'ast, V: Visitor<'ast> + ?Sized>(visitor: &mut V, annotation: &'ast Annotation)
    ensures
        extends(final(visitor).visits(), old(visitor).visits()),
        walked_list(children(Node::Annotation(*annotation)), final(visitor).visits(), old(visitor).visits().len() as int, final(visitor).visits().len() as int),
{
    let ghost origin = visitor.visits();
    let ghost start = origin.len() as int;
    let ghost mut done: Seq<Node> = Seq::empty();
    let ghost mut fuel: nat = 0;
    let ghost mut before = origin;
    proof {
        lemma_walk_start(origin);
    }
    proof {
        before = visitor.visits();
    }
    identifier(visitor, &annotation.name);
    proof {
        fuel = lemma_step(origin, done, Node::Identifier(annotation.name), before, visitor.visits(), start, fuel);
        done = done.push(Node::Identifier(annotation.name));
    }
    proof {
        before = visitor.visits();
    }
    annotation_arguments(visitor, &annotation.arguments);
    proof {
        fuel = lemma_step_list(origin, done, argument_nodes(annotation.arguments@), before, visitor.visits(), start, fuel);
        done = done + argument_nodes(annotation.arguments@);
    }
    proof {
        lemma_walk_end(done, children(Node::Annotation(*annotation)), visitor.visits(), start, fuel);
    }
}

/// Visits the argument's name, if it has one, and its value.
pub fn walk_annotation_argument<'ast, V: Visitor<'ast> + ?Sized>(visitor: &mut V, argument: &'ast AnnotationArgument)
    ensures
        extends(final(visitor).visits(), old(visitor).visits()),
        walked_list(children(Node::AnnotationArgument(*argument)), final(visitor).visits(), old(visitor).visits().len() as int, final(visitor).visits().len() as int),
{
    let ghost origin = visitor.visits();
    let ghost start = origin.len() as int;
    let ghost mut done: Seq<Node> = Seq::empty();
    let ghost mut fuel: nat = 0;
    let ghost mut before = origin;
    proof {
        lemma_walk_start(origin);
    }
    if let Some(name) = &argument.name {
        proof {
            before = visitor.visits();
        }
        identifier(visitor, name);
        proof {
            fuel = lemma_step(origin, done, Node::Identifier(*name), before, visitor.visits(), start, fuel);
            done = done.push(Node::Identifier(*name));
        }
    }
    proof {
        before = visitor.visits();
    }
    expression(visitor, &argument.value);
    proof {
        fuel = lemma_step(origin, done, Node::Expression(argument.value), before, visitor.visits(), start, fuel);
        done = done.push(Node::Expression(argument.value));
    }
    proof {
        lemma_walk_end(done, children(Node::AnnotationArgument(*argument)), visitor.visits(), start, fuel);
    }
}

/// Visits the parameter's type and name.
pub fn walk_parameter<'ast, V: Visitor<'ast> + ?Sized>(visitor: &mut V, parameter: &'ast Parameter)
    ensures
        extends(final(visitor).visits(), old(visitor).visits()),
        walked_list(children(Node::Parameter(*parameter)), final(visitor).visits(), old(visitor).visits().len() as int, final(visitor).visits().len() as int),
{
    let ghost origin = visitor.visits();
    let ghost start = origin.len() as int;
    let ghost mut done: Seq<Node> = Seq::empty();
    let ghost mut fuel: nat = 0;
    let ghost mut before = origin;
    proof {
        lemma_walk_start(origin);
    }
    proof {
        before = visitor.visits();
    }
    type_node(visitor, &parameter.ty);
    proof {
        fuel = lemma_step(origin, done, Node::TypeName(parameter.ty), before, visitor.visits(), start, fuel);
        done = done.push(Node::TypeName(parameter.ty));
    }
    proof {
        before = visitor.visits();
    }
    identifier(visitor, &parameter.name);
    proof {
        fuel = lemma_step(origin, done, Node::Identifier(parameter.name), before, visitor.visits(), start, fuel);
        done = done.push(Node::Identifier(parameter.name));
    }
    proof {
        lemma_walk_end(done, children(Node::Parameter(*parameter)), visitor.visits(), start, fuel);
    }
}

/// Visits the returned type; `void` has none.
pub fn walk_return_type<'ast, V: Visitor<'ast> + ?Sized>(visitor: &mut V, return_type: &'ast ReturnType)
    ensures
        extends(final(visitor).visits(), old(visitor).visits()),
        walked_list(children(Node::ReturnType(*return_type)), final(visitor).visits(), old(visitor).visits().len() as int, final(visitor).visits().len() as int),
{
    let ghost origin = visitor.visits();
    let ghost start = origin.len() as int;
    let ghost mut done: Seq<Node> = Seq::empty();
    let ghost mut fuel: nat = 0;
    let ghost mut before = origin;
    proof {
        lemma_walk_start(origin);
    }
    if let ReturnType::Value(ty) = return_type {
        proof {
            before = visitor.visits();
        }
        type_node(visitor, ty);
        proof {
            fuel = lemma_step(origin, done, Node::TypeName(*ty), before, visitor.visits(), start, fuel);
            done = done.push(Node::TypeName(*ty));
        }
    }
    proof {
        lemma_walk_end(done, children(Node::ReturnType(*return_type)), visitor.visits(), start, fuel);
    }
}

/// Visits the caught type, the bound name and the handler.
pub fn walk_catch_clause<'ast, V: Visitor<'ast> + ?Sized>(visitor: &mut V, catch: &'ast CatchClause)
    ensures
        extends(final(visitor).visits(), old(visitor).visits()),
        walked_list(children(Node::CatchClause(*catch)), final(visitor).visits(), old(visitor).visits().len() as int, final(visitor).visits().len() as int),
    decreases catch, 0nat,
{
    let ghost origin = visitor.visits();
    let ghost start = origin.len() as int;
    let ghost mut done: Seq<Node> = Seq::empty();
    let ghost mut fuel: nat = 0;
    let ghost mut before = origin;
    proof {
        lemma_walk_start(origin);
    }
    proof {
        before = visitor.visits();
    }
    type_node(visitor, &catch.exception_type);
    proof {
        fuel = lemma_step(origin, done, Node::TypeName(catch.exception_type), before, visitor.visits(), start, fuel);
        done = done.push(Node::TypeName(catch.exception_type));
    }
    proof {
        before = visitor.visits();
    }
    identifier(visitor, &catch.name);
    proof {
        fuel = lemma_step(origin, done, Node::Identifier(catch.name), before, visitor.visits(), start, fuel);
        done = done.push(Node::Identifier(catch.name));
    }
    proof {
        before = visitor.visits();
    }
    statement(visitor, &catch.body);
    proof {
        fuel = lemma_step(origin, done, Node::Statement(catch.body), before, visitor.visits(), start, fuel);
        done = done.push(Node::Statement(catch.body));
    }
    proof {
        lemma_walk_end(done, children(Node::CatchClause(*catch)), visitor.visits(), start, fuel);
    }
}

/// Visits the declared name and the initializer.
pub fn walk_variable_declarator<'ast, V: Visitor<'ast> + ?Sized>(visitor: &mut V, declarator: &'ast VariableDeclarator)
    ensures
        extends(final(visitor).visits(), old(visitor).visits()),
        walked_list(children(Node::VariableDeclarator(*declarator)), final(visitor).visits(), old(visitor).visits().len() as int, final(visitor).visits().len() as int),
{
    let ghost origin = visitor.visits();
    let ghost start = origin.len() as int;
    let ghost mut done: Seq<Node> = Seq::empty();
    let ghost mut fuel: nat = 0;
    let ghost mut before = origin;
    proof {
        lemma_walk_start(origin);
    }
    proof {
        before = visitor.visits();
    }
    identifier(visitor, &declarator.name);
    proof {
        fuel = lemma_step(origin, done, Node::Identifier(declarator.name), before, visitor.visits(), start, fuel);
        done = done.push(Node::Identifier(declarator.name));
    }
    if let Some(initializer) = &declarator.initializer {
        proof {
            before = visitor.visits();
        }
        expression(visitor, initializer);
        proof {
            fuel = lemma_step(origin, done, Node::Expression(*initializer), before, visitor.visits(), start, fuel);
            done = done.push(Node::Expression(*initializer));
        }
    }
    proof {
        lemma_walk_end(done, children(Node::VariableDeclarator(*declarator)), visitor.visits(), start, fuel);
    }
}

/// Visits the arm's labels, then its body.
pub fn walk_switch_arm<'ast, V: Visitor<'ast> + ?Sized>(visitor: &mut V, arm: &'ast SwitchArm)
    ensures
        extends(final(visitor).visits(), old(visitor).visits()),
        walked_list(children(Node::SwitchArm(*arm)), final(visitor).visits(), old(visitor).visits().len() as int, final(visitor).visits().len() as int),
    decreases arm, 0nat,
{
    let ghost origin = visitor.visits();
    let ghost start = origin.len() as int;
    let ghost mut done: Seq<Node> = Seq::empty();
    let ghost mut fuel: nat = 0;
    let ghost mut before = origin;
    proof {
        lemma_walk_start(origin);
    }
    match &arm.labels {
        SwitchLabels::Expressions(labels) => {
            proof {
                before = visitor.visits();
            }
            expressions(visitor, labels);
            proof {
                fuel = lemma_step_list(origin, done, expression_nodes(labels@), before, visitor.visits(), start, fuel);
                done = done + expression_nodes(labels@);
            }
        },
        SwitchLabels::TypePattern(pattern) => {
            proof {
                before = visitor.visits();
            }
            type_node(visitor, &pattern.ty);
            proof {
                fuel = lemma_step(origin, done, Node::TypeName(pattern.ty), before, visitor.visits(), start, fuel);
                done = done.push(Node::TypeName(pattern.ty));
            }
            proof {
                before = visitor.visits();
            }
            identifier(visitor, &pattern.binding);
            proof {
                fuel = lemma_step(origin, done, Node::Identifier(pattern.binding), before, visitor.visits(), start, fuel);
                done = done.push(Node::Identifier(pattern.binding));
            }
        },
        SwitchLabels::Else(_) => {},
    }
    proof {
        before = visitor.visits();
    }
    statement(visitor, &arm.body);
    proof {
        fuel = lemma_step(origin, done, Node::Statement(arm.body), before, visitor.visits(), start, fuel);
        done = done.push(Node::Statement(arm.body));
    }
    proof {
        lemma_walk_end(done, children(Node::SwitchArm(*arm)), visitor.visits(), start, fuel);
    }
}

/// Visits the statement's parts in source order.
pub fn walk_statement<'ast, V: Visitor<'ast> + ?Sized>(visitor: &mut V, statement: &'ast Statement)
    ensures
        extends(final(visitor).visits(), old(visitor).visits()),
        walked_list(children(Node::Statement(*statement)), final(visitor).visits(), old(visitor).visits().len() as int, final(visitor).visits().len() as int),
    decreases statement, 1nat,
{
    let ghost origin = visitor.visits();
    let ghost start = origin.len() as int;
    let ghost mut done: Seq<Node> = Seq::empty();
    let ghost mut fuel: nat = 0;
    let ghost mut before = origin;
    proof {
        lemma_walk_start(origin);
    }
    match statement {
        Statement::VariableDeclaration { .. } | Statement::LocalDeclaration { .. } => {
            walk_declaration_statement(visitor, statement);
        },
        Statement::Sequence { statements: items, .. } | Statement::Block { statements: items, .. } => {
            statements(visitor, items);
        },
        Statement::Expression { expression: value, .. } => {
            expression(visitor, value);
            proof {
                lemma_single(Node::Expression(*value), origin, visitor.visits());
            }
        },
        Statement::If { .. }
        | Statement::While { .. }
        | Statement::DoWhile { .. }
        | Statement::Switch { .. }
        | Statement::For { .. }
        | Statement::ForEach { .. } => walk_control_statement(visitor, statement),
        Statement::Try { try_block, catches, finally_block, .. } => {
            proof {
                before = visitor.visits();
            }
            self::statement(visitor, try_block);
            proof {
                fuel = lemma_step(origin, done, Node::Statement(**try_block), before, visitor.visits(), start, fuel);
                done = done.push(Node::Statement(**try_block));
            }
            proof {
                before = visitor.visits();
            }
            catch_clauses(visitor, catches);
            proof {
                fuel = lemma_step_list(origin, done, catch_nodes(catches@), before, visitor.visits(), start, fuel);
                done = done + catch_nodes(catches@);
            }
            if let Some(finally_block) = finally_block {
                proof {
                    before = visitor.visits();
                }
                self::statement(visitor, finally_block);
                proof {
                    fuel = lemma_step(origin, done, Node::Statement(**finally_block), before, visitor.visits(), start, fuel);
                    done = done.push(Node::Statement(**finally_block));
                }
            }
            proof {
                lemma_walk_end(done, children(Node::Statement(*statement)), visitor.visits(), start, fuel);
            }
        },
        Statement::Throw { value, .. } | Statement::Dml { value, .. } => {
            expression(visitor, value);
            proof {
                lemma_single(Node::Expression(*value), origin, visitor.visits());
            }
        },
        Statement::RunAs { user, body, .. } => {
            proof {
                before = visitor.visits();
            }
            expression(visitor, user);
            proof {
                fuel = lemma_step(origin, done, Node::Expression(*user), before, visitor.visits(), start, fuel);
                done = done.push(Node::Expression(*user));
            }
            proof {
                before = visitor.visits();
            }
            self::statement(visitor, body);
            proof {
                fuel = lemma_step(origin, done, Node::Statement(**body), before, visitor.visits(), start, fuel);
                done = done.push(Node::Statement(**body));
            }
            proof {
                lemma_walk_end(done, children(Node::Statement(*statement)), visitor.visits(), start, fuel);
            }
        },
        Statement::Return { value, .. } => {
            if let Some(value) = value {
                expression(visitor, value);
                proof {
                    lemma_single(Node::Expression(*value), origin, visitor.visits());
                }
            } else {
                proof {
                    lemma_walk_end(done, children(Node::Statement(*statement)), visitor.visits(), start, fuel);
                }
            }
        },
        Statement::Break { .. } | Statement::Continue { .. } => {
            proof {
                lemma_walk_end(done, children(Node::Statement(*statement)), visitor.visits(), start, fuel);
            }
        },
    }
}

/// Visits a declaration statement's type, then its names and initializers.
fn walk_declaration_statement<'ast, V: Visitor<'ast> + ?Sized>(visitor: &mut V, statement: &'ast Statement)
    requires
        statement is VariableDeclaration || statement is LocalDeclaration,
    ensures
        extends(final(visitor).visits(), old(visitor).visits()),
        walked_list(children(Node::Statement(*statement)), final(visitor).visits(), old(visitor).visits().len() as int, final(visitor).visits().len() as int),
{
    let ghost origin = visitor.visits();
    let ghost start = origin.len() as int;
    let ghost mut done: Seq<Node> = Seq::empty();
    let ghost mut fuel: nat = 0;
    let ghost mut before = origin;
    proof {
        lemma_walk_start(origin);
    }
    match statement {
        Statement::VariableDeclaration { ty, name, initializer, .. } => {
            proof {
                before = visitor.visits();
            }
            type_node(visitor, ty);
            proof {
                fuel = lemma_step(origin, done, Node::TypeName(*ty), before, visitor.visits(), start, fuel);
                done = done.push(Node::TypeName(*ty));
            }
            proof {
                before = visitor.visits();
            }
            identifier(visitor, name);
            proof {
                fuel = lemma_step(origin, done, Node::Identifier(*name), before, visitor.visits(), start, fuel);
                done = done.push(Node::Identifier(*name));
            }
            proof {
                before = visitor.visits();
            }
            expression(visitor, initializer);
            proof {
                fuel = lemma_step(origin, done, Node::Expression(*initializer), before, visitor.visits(), start, fuel);
                done = done.push(Node::Expression(*initializer));
            }
        },
        Statement::LocalDeclaration { ty, declarators: items, .. } => {
            proof {
                before = visitor.visits();
            }
            type_node(visitor, ty);
            proof {
                fuel = lemma_step(origin, done, Node::TypeName(*ty), before, visitor.visits(), start, fuel);
                done = done.push(Node::TypeName(*ty));
            }
            proof {
                before = visitor.visits();
            }
            declarators(visitor, items);
            proof {
                fuel = lemma_step_list(origin, done, declarator_nodes(items@), before, visitor.visits(), start, fuel);
                done = done + declarator_nodes(items@);
            }
        },
        _ => {},
    }
    proof {
        lemma_walk_end(done, children(Node::Statement(*statement)), visitor.visits(), start, fuel);
    }
}

/// Visits a control statement's parts in source order.
fn walk_control_statement<'ast, V: Visitor<'ast> + ?Sized>(visitor: &mut V, statement: &'ast Statement)
    requires
        statement is If || statement is While || statement is DoWhile || statement is Switch
            || statement is For || statement is ForEach,
    ensures
        extends(final(visitor).visits(), old(visitor).visits()),
        walked_list(children(Node::Statement(*statement)), final(visitor).visits(), old(visitor).visits().len() as int, final(visitor).visits().len() as int),
    decreases statement, 0nat,
{
    let ghost origin = visitor.visits();
    let ghost start = origin.len() as int;
    let ghost mut done: Seq<Node> = Seq::empty();
    let ghost mut fuel: nat = 0;
    let ghost mut before = origin;
    proof {
        lemma_walk_start(origin);
    }
    match statement {
        Statement::If { condition, then_branch, else_branch, .. } => {
            proof {
                before = visitor.visits();
            }
            expression(visitor, condition);
            proof {
                fuel = lemma_step(origin, done, Node::Expression(*condition), before, visitor.visits(), start, fuel);
                done = done.push(Node::Expression(*condition));
            }
            proof {
                before = visitor.visits();
            }
            self::statement(visitor, then_branch);
            proof {
                fuel = lemma_step(origin, done, Node::Statement(**then_branch), before, visitor.visits(), start, fuel);
                done = done.push(Node::Statement(**then_branch));
            }
            if let Some(else_branch) = else_branch {
                proof {
                    before = visitor.visits();
                }
                self::statement(visitor, else_branch);
                proof {
                    fuel = lemma_step(origin, done, Node::Statement(**else_branch), before, visitor.visits(), start, fuel);
                    done = done.push(Node::Statement(**else_branch));
                }
            }
        },
        Statement::While { condition, body, .. } => {
            proof {
                before = visitor.visits();
            }
            expression(visitor, condition);
            proof {
                fuel = lemma_step(origin, done, Node::Expression(*condition), before, visitor.visits(), start, fuel);
                done = done.push(Node::Expression(*condition));
            }
            proof {
                before = visitor.visits();
            }
            self::statement(visitor, body);
            proof {
                fuel = lemma_step(origin, done, Node::Statement(**body), before, visitor.visits(), start, fuel);
                done = done.push(Node::Statement(**body));
            }
        },
        Statement::DoWhile { body, condition, .. } => {
            proof {
                before = visitor.visits();
            }
            self::statement(visitor, body);
            proof {
                fuel = lemma_step(origin, done, Node::Statement(**body), before, visitor.visits(), start, fuel);
                done = done.push(Node::Statement(**body));
            }
            proof {
                before = visitor.visits();
            }
            expression(visitor, condition);
            proof {
                fuel = lemma_step(origin, done, Node::Expression(*condition), before, visitor.visits(), start, fuel);
                done = done.push(Node::Expression(*condition));
            }
        },
        Statement::Switch { value, arms, .. } => {
            proof {
                before = visitor.visits();
            }
            expression(visitor, value);
            proof {
                fuel = lemma_step(origin, done, Node::Expression(*value), before, visitor.visits(), start, fuel);
                done = done.push(Node::Expression(*value));
            }
            proof {
                before = visitor.visits();
            }
            switch_arms(visitor, arms);
            proof {
                fuel = lemma_step_list(origin, done, arm_nodes(arms@), before, visitor.visits(), start, fuel);
                done = done + arm_nodes(arms@);
            }
        },
        Statement::For { initializer, condition, update, body, .. } => {
            if let Some(initializer) = initializer {
                proof {
                    before = visitor.visits();
                }
                self::statement(visitor, initializer);
                proof {
                    fuel = lemma_step(origin, done, Node::Statement(**initializer), before, visitor.visits(), start, fuel);
                    done = done.push(Node::Statement(**initializer));
                }
            }
            if let Some(condition) = condition {
                proof {
                    before = visitor.visits();
                }
                expression(visitor, condition);
                proof {
                    fuel = lemma_step(origin, done, Node::Expression(*condition), before, visitor.visits(), start, fuel);
                    done = done.push(Node::Expression(*condition));
                }
            }
            if let Some(update) = update {
                proof {
                    before = visitor.visits();
                }
                self::statement(visitor, update);
                proof {
                    fuel = lemma_step(origin, done, Node::Statement(**update), before, visitor.visits(), start, fuel);
                    done = done.push(Node::Statement(**update));
                }
            }
            proof {
                before = visitor.visits();
            }
            self::statement(visitor, body);
            proof {
                fuel = lemma_step(origin, done, Node::Statement(**body), before, visitor.visits(), start, fuel);
                done = done.push(Node::Statement(**body));
            }
        },
        Statement::ForEach { element_type, name, iterable, body, .. } => {
            proof {
                before = visitor.visits();
            }
            type_node(visitor, element_type);
            proof {
                fuel = lemma_step(origin, done, Node::TypeName(*element_type), before, visitor.visits(), start, fuel);
                done = done.push(Node::TypeName(*element_type));
            }
            proof {
                before = visitor.visits();
            }
            identifier(visitor, name);
            proof {
                fuel = lemma_step(origin, done, Node::Identifier(*name), before, visitor.visits(), start, fuel);
                done = done.push(Node::Identifier(*name));
            }
            proof {
                before = visitor.visits();
            }
            expression(visitor, iterable);
            proof {
                fuel = lemma_step(origin, done, Node::Expression(*iterable), before, visitor.visits(), start, fuel);
                done = done.push(Node::Expression(*iterable));
            }
            proof {
                before = visitor.visits();
            }
            self::statement(visitor, body);
            proof {
                fuel = lemma_step(origin, done, Node::Statement(**body), before, visitor.visits(), start, fuel);
                done = done.push(Node::Statement(**body));
            }
        },
        _ => {},
    }
    proof {
        lemma_walk_end(done, children(Node::Statement(*statement)), visitor.visits(), start, fuel);
    }
}

/// Visits the expression's parts in source order; the bound expressions of an
/// embedded query are visited too.
pub fn walk_expression<'ast, V: Visitor<'ast> + ?Sized>(visitor: &mut V, expression: &'ast Expression)
    ensures
        extends(final(visitor).visits(), old(visitor).visits()),
        walked_list(children(Node::Expression(*expression)), final(visitor).visits(), old(visitor).visits().len() as int, final(visitor).visits().len() as int),
    decreases expression, 0nat,
{
    let ghost origin = visitor.visits();
    let ghost start = origin.len() as int;
    let ghost mut done: Seq<Node> = Seq::empty();
    let ghost mut fuel: nat = 0;
    let ghost mut before = origin;
    proof {
        lemma_walk_start(origin);
    }
    match expression {
        Expression::StringLiteral(..) | Expression::BooleanLiteral(..) => {},
        Expression::IntegerLiteral(..) | Expression::LongLiteral(..) => {},
        Expression::DecimalLiteral(..) | Expression::NullLiteral(..) => {},
        Expression::Soql(query) => {
            proof {
                before = visitor.visits();
            }
            walk_soql_query(visitor, query);
            proof {
                fuel = lemma_step(origin, done, Node::SoqlQuery(**query), before, visitor.visits(), start, fuel);
                done = done.push(Node::SoqlQuery(**query));
            }
        },
        Expression::Sosl(query) => {
            proof {
                before = visitor.visits();
            }
            walk_sosl_query(visitor, query);
            proof {
                fuel = lemma_step(origin, done, Node::SoslQuery(**query), before, visitor.visits(), start, fuel);
                done = done.push(Node::SoslQuery(**query));
            }
        },
        Expression::Variable(name) => {
            proof {
                before = visitor.visits();
            }
            identifier(visitor, name);
            proof {
                fuel = lemma_step(origin, done, Node::Identifier(*name), before, visitor.visits(), start, fuel);
                done = done.push(Node::Identifier(*name));
            }
        },
        Expression::TypeLiteral { ty, .. } => {
            proof {
                before = visitor.visits();
            }
            type_node(visitor, ty);
            proof {
                fuel = lemma_step(origin, done, Node::TypeName(*ty), before, visitor.visits(), start, fuel);
                done = done.push(Node::TypeName(*ty));
            }
        },
        Expression::Assignment { target, value, .. } => {
            proof {
                before = visitor.visits();
            }
            assignment_target(visitor, target);
            proof {
                fuel = lemma_step(origin, done, Node::AssignmentTarget(*target), before, visitor.visits(), start, fuel);
                done = done.push(Node::AssignmentTarget(*target));
            }
            proof {
                before = visitor.visits();
            }
            self::expression(visitor, value);
            proof {
                fuel = lemma_step(origin, done, Node::Expression(**value), before, visitor.visits(), start, fuel);
                done = done.push(Node::Expression(**value));
            }
        },
        Expression::NewCollection { ty, initializer, .. } => {
            proof {
                before = visitor.visits();
            }
            type_node(visitor, ty);
            proof {
                fuel = lemma_step(origin, done, Node::TypeName(*ty), before, visitor.visits(), start, fuel);
                done = done.push(Node::TypeName(*ty));
            }
            proof {
                before = visitor.visits();
            }
            collection_initializer(visitor, initializer);
            proof {
                fuel = lemma_step(origin, done, Node::CollectionInitializer(*initializer), before, visitor.visits(), start, fuel);
                done = done.push(Node::CollectionInitializer(*initializer));
            }
        },
        Expression::NewException { exception_type, arguments, .. } => {
            proof {
                before = visitor.visits();
            }
            type_node(visitor, exception_type);
            proof {
                fuel = lemma_step(origin, done, Node::TypeName(*exception_type), before, visitor.visits(), start, fuel);
                done = done.push(Node::TypeName(*exception_type));
            }
            proof {
                before = visitor.visits();
            }
            expressions(visitor, arguments);
            proof {
                fuel = lemma_step_list(origin, done, expression_nodes(arguments@), before, visitor.visits(), start, fuel);
                done = done + expression_nodes(arguments@);
            }
        },
        Expression::NewObject { ty, arguments, .. } => {
            proof {
                before = visitor.visits();
            }
            type_node(visitor, ty);
            proof {
                fuel = lemma_step(origin, done, Node::TypeName(*ty), before, visitor.visits(), start, fuel);
                done = done.push(Node::TypeName(*ty));
            }
            proof {
                before = visitor.visits();
            }
            expressions(visitor, arguments);
            proof {
                fuel = lemma_step_list(origin, done, expression_nodes(arguments@), before, visitor.visits(), start, fuel);
                done = done + expression_nodes(arguments@);
            }
        },
        Expression::Index { collection, index, .. } => {
            proof {
                before = visitor.visits();
            }
            self::expression(visitor, collection);
            proof {
                fuel = lemma_step(origin, done, Node::Expression(**collection), before, visitor.visits(), start, fuel);
                done = done.push(Node::Expression(**collection));
            }
            proof {
                before = visitor.visits();
            }
            self::expression(visitor, index);
            proof {
                fuel = lemma_step(origin, done, Node::Expression(**index), before, visitor.visits(), start, fuel);
                done = done.push(Node::Expression(**index));
            }
        },
        Expression::FunctionCall { name, arguments, .. } => {
            proof {
                before = visitor.visits();
            }
            identifier(visitor, name);
            proof {
                fuel = lemma_step(origin, done, Node::Identifier(*name), before, visitor.visits(), start, fuel);
                done = done.push(Node::Identifier(*name));
            }
            proof {
                before = visitor.visits();
            }
            expressions(visitor, arguments);
            proof {
                fuel = lemma_step_list(origin, done, expression_nodes(arguments@), before, visitor.visits(), start, fuel);
                done = done + expression_nodes(arguments@);
            }
        },
        Expression::MethodCall { receiver, method, arguments, .. } => {
            proof {
                before = visitor.visits();
            }
            self::expression(visitor, receiver);
            proof {
                fuel = lemma_step(origin, done, Node::Expression(**receiver), before, visitor.visits(), start, fuel);
                done = done.push(Node::Expression(**receiver));
            }
            proof {
                before = visitor.visits();
            }
            identifier(visitor, method);
            proof {
                fuel = lemma_step(origin, done, Node::Identifier(*method), before, visitor.visits(), start, fuel);
                done = done.push(Node::Identifier(*method));
            }
            proof {
                before = visitor.visits();
            }
            expressions(visitor, arguments);
            proof {
                fuel = lemma_step_list(origin, done, expression_nodes(arguments@), before, visitor.visits(), start, fuel);
                done = done + expression_nodes(arguments@);
            }
        },
        Expression::MemberAccess { receiver, member, .. } => {
            proof {
                before = visitor.visits();
            }
            self::expression(visitor, receiver);
            proof {
                fuel = lemma_step(origin, done, Node::Expression(**receiver), before, visitor.visits(), start, fuel);
                done = done.push(Node::Expression(**receiver));
            }
            proof {
                before = visitor.visits();
            }
            identifier(visitor, member);
            proof {
                fuel = lemma_step(origin, done, Node::Identifier(*member), before, visitor.visits(), start, fuel);
                done = done.push(Node::Identifier(*member));
            }
        },
        Expression::Cast { ty, expression: operand, .. } => {
            proof {
                before = visitor.visits();
            }
            type_node(visitor, ty);
            proof {
                fuel = lemma_step(origin, done, Node::TypeName(*ty), before, visitor.visits(), start, fuel);
                done = done.push(Node::TypeName(*ty));
            }
            proof {
                before = visitor.visits();
            }
            self::expression(visitor, operand);
            proof {
                fuel = lemma_step(origin, done, Node::Expression(**operand), before, visitor.visits(), start, fuel);
                done = done.push(Node::Expression(**operand));
            }
        },
        Expression::Conditional { condition, when_true, when_false, .. } => {
            proof {
                before = visitor.visits();
            }
            self::expression(visitor, condition);
            proof {
                fuel = lemma_step(origin, done, Node::Expression(**condition), before, visitor.visits(), start, fuel);
                done = done.push(Node::Expression(**condition));
            }
            proof {
                before = visitor.visits();
            }
            self::expression(visitor, when_true);
            proof {
                fuel = lemma_step(origin, done, Node::Expression(**when_true), before, visitor.visits(), start, fuel);
                done = done.push(Node::Expression(**when_true));
            }
            proof {
                before = visitor.visits();
            }
            self::expression(visitor, when_false);
            proof {
                fuel = lemma_step(origin, done, Node::Expression(**when_false), before, visitor.visits(), start, fuel);
                done = done.push(Node::Expression(**when_false));
            }
        },
        Expression::Instanceof { value, target, .. } => {
            proof {
                before = visitor.visits();
            }
            self::expression(visitor, value);
            proof {
                fuel = lemma_step(origin, done, Node::Expression(**value), before, visitor.visits(), start, fuel);
                done = done.push(Node::Expression(**value));
            }
            proof {
                before = visitor.visits();
            }
            type_node(visitor, target);
            proof {
                fuel = lemma_step(origin, done, Node::TypeName(*target), before, visitor.visits(), start, fuel);
                done = done.push(Node::TypeName(*target));
            }
        },
        Expression::Unary { operand, .. } | Expression::Postfix { operand, .. } => {
            proof {
                before = visitor.visits();
            }
            self::expression(visitor, operand);
            proof {
                fuel = lemma_step(origin, done, Node::Expression(**operand), before, visitor.visits(), start, fuel);
                done = done.push(Node::Expression(**operand));
            }
        },
        Expression::Binary { left, right, .. } | Expression::NullCoalesce { left, right, .. } => {
            proof {
                before = visitor.visits();
            }
            self::expression(visitor, left);
            proof {
                fuel = lemma_step(origin, done, Node::Expression(**left), before, visitor.visits(), start, fuel);
                done = done.push(Node::Expression(**left));
            }
            proof {
                before = visitor.visits();
            }
            self::expression(visitor, right);
            proof {
                fuel = lemma_step(origin, done, Node::Expression(**right), before, visitor.visits(), start, fuel);
                done = done.push(Node::Expression(**right));
            }
        },
    }
    proof {
        lemma_walk_end(done, children(Node::Expression(*expression)), visitor.visits(), start, fuel);
    }
}

/// Visits the assigned place's parts.
pub fn walk_assignment_target<'ast, V: Visitor<'ast> + ?Sized>(visitor: &mut V, target: &'ast AssignmentTarget)
    ensures
        extends(final(visitor).visits(), old(visitor).visits()),
        walked_list(children(Node::AssignmentTarget(*target)), final(visitor).visits(), old(visitor).visits().len() as int, final(visitor).visits().len() as int),
    decreases target, 0nat,
{
    let ghost origin = visitor.visits();
    let ghost start = origin.len() as int;
    let ghost mut done: Seq<Node> = Seq::empty();
    let ghost mut fuel: nat = 0;
    let ghost mut before = origin;
    proof {
        lemma_walk_start(origin);
    }
    match target {
        AssignmentTarget::Variable(name) => {
            proof {
                before = visitor.visits();
            }
            identifier(visitor, name);
            proof {
                fuel = lemma_step(origin, done, Node::Identifier(*name), before, visitor.visits(), start, fuel);
                done = done.push(Node::Identifier(*name));
            }
        },
        AssignmentTarget::Index { collection, index, .. } => {
            proof {
                before = visitor.visits();
            }
            expression(visitor, collection);
            proof {
                fuel = lemma_step(origin, done, Node::Expression(**collection), before, visitor.visits(), start, fuel);
                done = done.push(Node::Expression(**collection));
            }
            proof {
                before = visitor.visits();
            }
            expression(visitor, index);
            proof {
                fuel = lemma_step(origin, done, Node::Expression(**index), before, visitor.visits(), start, fuel);
                done = done.push(Node::Expression(**index));
            }
        },
        AssignmentTarget::Member { receiver, member, .. } => {
            proof {
                before = visitor.visits();
            }
            expression(visitor, receiver);
            proof {
                fuel = lemma_step(origin, done, Node::Expression(**receiver), before, visitor.visits(), start, fuel);
                done = done.push(Node::Expression(**receiver));
            }
            proof {
                before = visitor.visits();
            }
            identifier(visitor, member);
            proof {
                fuel = lemma_step(origin, done, Node::Identifier(*member), before, visitor.visits(), start, fuel);
                done = done.push(Node::Identifier(*member));
            }
        },
    }
    proof {
        lemma_walk_end(done, children(Node::AssignmentTarget(*target)), visitor.visits(), start, fuel);
    }
}

/// Visits the initializer's elements, entries or size.
pub fn walk_collection_initializer<'ast, V: Visitor<'ast> + ?Sized>(
    visitor: &mut V,
    initializer: &'ast CollectionInitializer,
)
    ensures
        extends(final(visitor).visits(), old(visitor).visits()),
        walked_list(children(Node::CollectionInitializer(*initializer)), final(visitor).visits(), old(visitor).visits().len() as int, final(visitor).visits().len() as int),
    decreases initializer, 0nat,
{
    let ghost origin = visitor.visits();
    let ghost start = origin.len() as int;
    let ghost mut done: Seq<Node> = Seq::empty();
    let ghost mut fuel: nat = 0;
    let ghost mut before = origin;
    proof {
        lemma_walk_start(origin);
    }
    match initializer {
        CollectionInitializer::Arguments(items) | CollectionInitializer::Elements(items) => {
            proof {
                before = visitor.visits();
            }
            expressions(visitor, items);
            proof {
                fuel = lemma_step_list(origin, done, expression_nodes(items@), before, visitor.visits(), start, fuel);
                done = done + expression_nodes(items@);
            }
        },
        CollectionInitializer::MapEntries(entries) => {
            proof {
                before = visitor.visits();
            }
            map_entries(visitor, entries);
            proof {
                fuel = lemma_step_list(origin, done, entry_nodes(entries@), before, visitor.visits(), start, fuel);
                done = done + entry_nodes(entries@);
            }
        },
        CollectionInitializer::SizedArray(size) => {
            proof {
                before = visitor.visits();
            }
            expression(visitor, size);
            proof {
                fuel = lemma_step(origin, done, Node::Expression(**size), before, visitor.visits(), start, fuel);
                done = done.push(Node::Expression(**size));
            }
        },
    }
    proof {
        lemma_walk_end(done, children(Node::CollectionInitializer(*initializer)), visitor.visits(), start, fuel);
    }
}

/// Visits the entry's key, then its value.
pub fn walk_map_entry<'ast, V: Visitor<'ast> + ?Sized>(visitor: &mut V, entry: &'ast MapEntry)
    ensures
        extends(final(visitor).visits(), old(visitor).visits()),
        walked_list(children(Node::MapEntry(*entry)), final(visitor).visits(), old(visitor).visits().len() as int, final(visitor).visits().len() as int),
    decreases entry, 0nat,
{
    let ghost origin = visitor.visits();
    let ghost start = origin.len() as int;
    let ghost mut done: Seq<Node> = Seq::empty();
    let ghost mut fuel: nat = 0;
    let ghost mut before = origin;
    proof {
        lemma_walk_start(origin);
    }
    proof {
        before = visitor.visits();
    }
    expression(visitor, &entry.key);
    proof {
        fuel = lemma_step(origin, done, Node::Expression(entry.key), before, visitor.visits(), start, fuel);
        done = done.push(Node::Expression(entry.key));
    }
    proof {
        before = visitor.visits();
    }
    expression(visitor, &entry.value);
    proof {
        fuel = lemma_step(origin, done, Node::Expression(entry.value), before, visitor.visits(), start, fuel);
        done = done.push(Node::Expression(entry.value));
    }
    proof {
        lemma_walk_end(done, children(Node::MapEntry(*entry)), visitor.visits(), start, fuel);
    }
}

/// Visits the named type, element types, or key and value types.
pub fn walk_type_name<'ast, V: Visitor<'ast> + ?Sized>(visitor: &mut V, ty: &'ast TypeName)
    ensures
        extends(final(visitor).visits(), old(visitor).visits()),
        walked_list(children(Node::TypeName(*ty)), final(visitor).visits(), old(visitor).visits().len() as int, final(visitor).visits().len() as int),
    decreases ty, 0nat,
{
    let ghost origin = visitor.visits();
    let ghost start = origin.len() as int;
    let ghost mut done: Seq<Node> = Seq::empty();
    let ghost mut fuel: nat = 0;
    let ghost mut before = origin;
    proof {
        lemma_walk_start(origin);
    }
    match ty {
        TypeName::Custom(named) => {
            proof {
                before = visitor.visits();
            }
            named_type(visitor, named);
            proof {
                fuel = lemma_step(origin, done, Node::NamedType(*named), before, visitor.visits(), start, fuel);
                done = done.push(Node::NamedType(*named));
            }
        },
        TypeName::List(element) | TypeName::SetOf(element) | TypeName::Iterable(element) => {
            proof {
                before = visitor.visits();
            }
            type_node(visitor, element);
            proof {
                fuel = lemma_step(origin, done, Node::TypeName(**element), before, visitor.visits(), start, fuel);
                done = done.push(Node::TypeName(**element));
            }
        },
        TypeName::MapOf(key, value) => {
            proof {
                before = visitor.visits();
            }
            type_node(visitor, key);
            proof {
                fuel = lemma_step(origin, done, Node::TypeName(**key), before, visitor.visits(), start, fuel);
                done = done.push(Node::TypeName(**key));
            }
            proof {
                before = visitor.visits();
            }
            type_node(visitor, value);
            proof {
                fuel = lemma_step(origin, done, Node::TypeName(**value), before, visitor.visits(), start, fuel);
                done = done.push(Node::TypeName(**value));
            }
        },
        _ => {},
    }
    proof {
        lemma_walk_end(done, children(Node::TypeName(*ty)), visitor.visits(), start, fuel);
    }
}

/// Visits the types of the generic arguments.
pub fn walk_named_type<'ast, V: Visitor<'ast> + ?Sized>(visitor: &mut V, named_type: &'ast NamedType)
    ensures
        extends(final(visitor).visits(), old(visitor).visits()),
        walked_list(children(Node::NamedType(*named_type)), final(visitor).visits(), old(visitor).visits().len() as int, final(visitor).visits().len() as int),
    decreases named_type, 0nat,
{
    let ghost origin = visitor.visits();
    let ghost start = origin.len() as int;
    let ghost mut done: Seq<Node> = Seq::empty();
    let ghost mut fuel: nat = 0;
    let ghost mut before = origin;
    proof {
        lemma_walk_start(origin);
    }
    proof {
        before = visitor.visits();
    }
    type_arguments(visitor, &named_type.type_arguments);
    proof {
        fuel = lemma_step_list(origin, done, type_argument_nodes(named_type.type_arguments@), before, visitor.visits(), start, fuel);
        done = done + type_argument_nodes(named_type.type_arguments@);
    }
    proof {
        lemma_walk_end(done, children(Node::NamedType(*named_type)), visitor.visits(), start, fuel);
    }
}

/// An identifier has no parts.
pub fn walk_identifier<'ast, V: Visitor<'ast> + ?Sized>(visitor: &mut V, identifier: &'ast Identifier)
    ensures
        extends(final(visitor).visits(), old(visitor).visits()),
        walked_list(children(Node::Identifier(*identifier)), final(visitor).visits(), old(visitor).visits().len() as int, final(visitor).visits().len() as int),
{
    let ghost origin = visitor.visits();
    let ghost start = origin.len() as int;
    let ghost mut done: Seq<Node> = Seq::empty();
    let ghost mut fuel: nat = 0;
    let ghost mut before = origin;
    proof {
        lemma_walk_start(origin);
    }
    proof {
        lemma_walk_end(done, children(Node::Identifier(*identifier)), visitor.visits(), start, fuel);
    }
}

/// Visits the bound expressions of a query, its subqueries included.
fn walk_soql_query<'ast, V: Visitor<'ast> + ?Sized>(visitor: &mut V, query: &'ast SoqlQuery)
    ensures
        extends(final(visitor).visits(), old(visitor).visits()),
        walked(Node::SoqlQuery(*query), final(visitor).visits(), old(visitor).visits().len() as int, final(visitor).visits().len() as int),
    decreases query, 0nat,
{
    let ghost origin = visitor.visits();
    let ghost start = origin.len() as int;
    let ghost mut done: Seq<Node> = Seq::empty();
    let ghost mut fuel: nat = 0;
    let ghost mut before = origin;
    proof {
        lemma_walk_start(origin);
    }
    let mut i: usize = 0;
    while i < query.select.len()
        invariant
            i <= query.select@.len(),
            origin == old(visitor).visits(),
            start == origin.len(),
            extends(visitor.visits(), origin),
            done == subquery_nodes(query.select@.take(i as int)),
            consume_list(fuel, done, visitor.visits(), start) == Some(visitor.visits().len() as int),
        decreases query.select@.len() - i,
    {
        proof {
            assert(query.select@.take(i + 1).drop_last() =~= query.select@.take(i as int));
        }
        if let SoqlSelectItem::Subquery { query: subquery, .. } = &query.select[i] {
            proof {
                before = visitor.visits();
            }
            walk_soql_query(visitor, subquery);
            proof {
                fuel = lemma_step(origin, done, Node::SoqlQuery(**subquery), before, visitor.visits(), start, fuel);
                done = done.push(Node::SoqlQuery(**subquery));
            }
            proof {
                assert(done =~= subquery_nodes(query.select@.take(i + 1)));
            }
        } else {
            proof {
                assert(done =~= subquery_nodes(query.select@.take(i + 1)));
            }
        }
        i += 1;
    }
    proof {
        assert(query.select@.take(query.select@.len() as int) =~= query.select@);
    }
    if let Some(condition) = &query.where_clause {
        proof {
            before = visitor.visits();
        }
        walk_soql_condition(visitor, condition);
        proof {
            fuel = lemma_step(origin, done, Node::SoqlCondition(*condition), before, visitor.visits(), start, fuel);
            done = done.push(Node::SoqlCondition(*condition));
        }
    }
    if let Some(condition) = &query.having {
        proof {
            before = visitor.visits();
        }
        walk_soql_condition(visitor, condition);
        proof {
            fuel = lemma_step(origin, done, Node::SoqlCondition(*condition), before, visitor.visits(), start, fuel);
            done = done.push(Node::SoqlCondition(*condition));
        }
    }
    if let Some(limit) = &query.limit {
        proof {
            before = visitor.visits();
        }
        walk_soql_value(visitor, limit);
        proof {
            fuel = lemma_step(origin, done, Node::SoqlValue(*limit), before, visitor.visits(), start, fuel);
            done = done.push(Node::SoqlValue(*limit));
        }
    }
    if let Some(offset) = &query.offset {
        proof {
            before = visitor.visits();
        }
        walk_soql_value(visitor, offset);
        proof {
            fuel = lemma_step(origin, done, Node::SoqlValue(*offset), before, visitor.visits(), start, fuel);
            done = done.push(Node::SoqlValue(*offset));
        }
    }
    proof {
        lemma_walk_end(done, children(Node::SoqlQuery(*query)), visitor.visits(), start, fuel);
        lemma_unhooked(Node::SoqlQuery(*query), origin, visitor.visits());
    }
}

/// Visits the bound expressions of a search and of its returning clauses.
fn walk_sosl_query<'ast, V: Visitor<'ast> + ?Sized>(visitor: &mut V, query: &'ast SoslQuery)
    ensures
        extends(final(visitor).visits(), old(visitor).visits()),
        walked(Node::SoslQuery(*query), final(visitor).visits(), old(visitor).visits().len() as int, final(visitor).visits().len() as int),
    decreases query, 0nat,
{
    let ghost origin = visitor.visits();
    let ghost start = origin.len() as int;
    let ghost mut done: Seq<Node> = Seq::empty();
    let ghost mut fuel: nat = 0;
    let ghost mut before = origin;
    proof {
        lemma_walk_start(origin);
    }
    proof {
        before = visitor.visits();
    }
    walk_soql_value(visitor, &query.search);
    proof {
        fuel = lemma_step(origin, done, Node::SoqlValue(query.search), before, visitor.visits(), start, fuel);
        done = done.push(Node::SoqlValue(query.search));
    }
    let mut i: usize = 0;
    while i < query.returning.len()
        invariant
            i <= query.returning@.len(),
            origin == old(visitor).visits(),
            start == origin.len(),
            extends(visitor.visits(), origin),
            done == seq![Node::SoqlValue(query.search)] + returning_nodes(query.returning@.take(i as int)),
            consume_list(fuel, done, visitor.visits(), start) == Some(visitor.visits().len() as int),
        decreases query.returning@.len() - i,
    {
        proof {
            assert(query.returning@.take(i + 1).drop_last() =~= query.returning@.take(i as int));
        }
        let returning: &SoslReturning = &query.returning[i];
        if let Some(condition) = &returning.where_clause {
            proof {
                before = visitor.visits();
            }
            walk_soql_condition(visitor, condition);
            proof {
                fuel = lemma_step(origin, done, Node::SoqlCondition(*condition), before, visitor.visits(), start, fuel);
                done = done.push(Node::SoqlCondition(*condition));
            }
        }
        if let Some(limit) = &returning.limit {
            proof {
                before = visitor.visits();
            }
            walk_soql_value(visitor, limit);
            proof {
                fuel = lemma_step(origin, done, Node::SoqlValue(*limit), before, visitor.visits(), start, fuel);
                done = done.push(Node::SoqlValue(*limit));
            }
        }
        proof {
            assert(done =~= seq![Node::SoqlValue(query.search)] + returning_nodes(query.returning@.take(i + 1)));
        }
        i += 1;
    }
    proof {
        assert(query.returning@.take(query.returning@.len() as int) =~= query.returning@);
    }
    proof {
        lemma_walk_end(done, children(Node::SoslQuery(*query)), visitor.visits(), start, fuel);
        lemma_unhooked(Node::SoslQuery(*query), origin, visitor.visits());
    }
}

/// Visits the bound expressions of a condition.
fn walk_soql_condition<'ast, V: Visitor<'ast> + ?Sized>(visitor: &mut V, condition: &'ast SoqlCondition)
    ensures
        extends(final(visitor).visits(), old(visitor).visits()),
        walked(Node::SoqlCondition(*condition), final(visitor).visits(), old(visitor).visits().len() as int, final(visitor).visits().len() as int),
    decreases condition, 0nat,
{
    let ghost origin = visitor.visits();
    let ghost start = origin.len() as int;
    let ghost mut done: Seq<Node> = Seq::empty();
    let ghost mut fuel: nat = 0;
    let ghost mut before = origin;
    proof {
        lemma_walk_start(origin);
    }
    match condition {
        SoqlCondition::AggregateComparison { right, .. } | SoqlCondition::Comparison { right, .. } => {
            proof {
                before = visitor.visits();
            }
            walk_soql_value(visitor, right);
            proof {
                fuel = lemma_step(origin, done, Node::SoqlValue(*right), before, visitor.visits(), start, fuel);
                done = done.push(Node::SoqlValue(*right));
            }
        },
        SoqlCondition::In { values, .. } => match values {
            SoqlInValues::Values(values) => {
                proof {
                    before = visitor.visits();
                }
                soql_values(visitor, values);
                proof {
                    fuel = lemma_step_list(origin, done, soql_value_nodes(values@), before, visitor.visits(), start, fuel);
                    done = done + soql_value_nodes(values@);
                }
            },
            SoqlInValues::Bind(bound) => {
                proof {
                    before = visitor.visits();
                }
                expression(visitor, bound);
                proof {
                    fuel = lemma_step(origin, done, Node::Expression(**bound), before, visitor.visits(), start, fuel);
                    done = done.push(Node::Expression(**bound));
                }
            },
        },
        SoqlCondition::Not { condition: inner, .. } => {
            proof {
                before = visitor.visits();
            }
            walk_soql_condition(visitor, inner);
            proof {
                fuel = lemma_step(origin, done, Node::SoqlCondition(**inner), before, visitor.visits(), start, fuel);
                done = done.push(Node::SoqlCondition(**inner));
            }
        },
        SoqlCondition::Logical { left, right, .. } => {
            proof {
                before = visitor.visits();
            }
            walk_soql_condition(visitor, left);
            proof {
                fuel = lemma_step(origin, done, Node::SoqlCondition(**left), before, visitor.visits(), start, fuel);
                done = done.push(Node::SoqlCondition(**left));
            }
            proof {
                before = visitor.visits();
            }
            walk_soql_condition(visitor, right);
            proof {
                fuel = lemma_step(origin, done, Node::SoqlCondition(**right), before, visitor.visits(), start, fuel);
                done = done.push(Node::SoqlCondition(**right));
            }
        },
    }
    proof {
        lemma_walk_end(done, children(Node::SoqlCondition(*condition)), visitor.visits(), start, fuel);
        lemma_unhooked(Node::SoqlCondition(*condition), origin, visitor.visits());
    }
}

/// Visits the expression of a bind value.
fn walk_soql_value<'ast, V: Visitor<'ast> + ?Sized>(visitor: &mut V, value: &'ast SoqlValue)
    ensures
        extends(final(visitor).visits(), old(visitor).visits()),
        walked(Node::SoqlValue(*value), final(visitor).visits(), old(visitor).visits().len() as int, final(visitor).visits().len() as int),
    decreases value, 0nat,
{
    let ghost origin = visitor.visits();
    let ghost start = origin.len() as int;
    let ghost mut done: Seq<Node> = Seq::empty();
    let ghost mut fuel: nat = 0;
    let ghost mut before = origin;
    proof {
        lemma_walk_start(origin);
    }
    if let SoqlValue::Bind(bound, _) = value {
        proof {
            before = visitor.visits();
        }
        expression(visitor, bound);
        proof {
            fuel = lemma_step(origin, done, Node::Expression(**bound), before, visitor.visits(), start, fuel);
            done = done.push(Node::Expression(**bound));
        }
    }
    proof {
        lemma_walk_end(done, children(Node::SoqlValue(*value)), visitor.visits(), start, fuel);
        lemma_unhooked(Node::SoqlValue(*value), origin, visitor.visits());
    }
}

} // verus!
