use vstd::prelude::*;

pub mod visit;

use crate::span::Span;
use crate::text::{ascii_lower, chars_are, eq_ignore_case, chars_of, concat3, lower_chars, push_chars, push_str, string_from_chars, to_ascii_lowercase};

verus! {

#[derive(Debug, PartialEq, Eq)]
pub struct Program {
    pub classes: Vec<ClassDeclaration>,
    pub triggers: Vec<TriggerDeclaration>,
    pub methods: Vec<MethodDeclaration>,
    pub statements: Vec<Statement>,
}

#[derive(Debug, PartialEq, Eq)]
pub struct TriggerDeclaration {
    pub name: Identifier,
    pub object: NamedType,
    pub events: Vec<TriggerEvent>,
    pub body: Statement,
    pub span: Span,
}

#[derive(Clone, Copy, Debug, PartialEq, Eq, Hash, Structural)]
pub enum TriggerEvent {
    BeforeInsert,
    BeforeUpdate,
    BeforeDelete,
    BeforeUndelete,
    AfterInsert,
    AfterUpdate,
    AfterDelete,
    AfterUndelete,
}



#[derive(Debug, PartialEq, Eq)]
pub struct ClassDeclaration {
    pub annotations: Vec<Annotation>,
    pub kind: ClassKind,
    pub modifiers: Vec<Modifier>,
    pub name: Identifier,
    /// Canonical source-qualified identity, including every enclosing type.
    pub qualified_name: NamedType,
    /// Qualified identity of the lexical owner for a nested declaration.
    pub enclosing_type: Option<NamedType>,
    pub superclass: Option<NamedType>,
    pub interfaces: Vec<NamedType>,
    pub enum_constants: Vec<Identifier>,
    pub members: Vec<ClassMember>,
    pub span: Span,
}

#[derive(Clone, Copy, Debug, PartialEq, Eq, Structural)]
pub enum ClassKind {
    Class,
    Interface,
    Enum,
}

#[derive(Clone, Copy, Debug, PartialEq, Eq, Hash, Structural)]
pub enum Modifier {
    Public,
    Private,
    Protected,
    Global,
    Static,
    Virtual,
    Abstract,
    Override,
    Final,
    Transient,
    WithSharing,
    WithoutSharing,
    InheritedSharing,
}

#[derive(Debug, PartialEq, Eq)]
pub enum ClassMember {
    Field(FieldDeclaration),
    FieldGroup(FieldGroupDeclaration),
    Property(PropertyDeclaration),
    Constructor(ConstructorDeclaration),
    Method(MethodDeclaration),
    Initializer(InitializerBlock),
}

#[derive(Debug, PartialEq, Eq)]
pub struct FieldGroupDeclaration {
    pub annotations: Vec<Annotation>,
    pub modifiers: Vec<Modifier>,
    pub ty: TypeName,
    pub declarators: Vec<VariableDeclarator>,
    pub span: Span,
}

#[derive(Debug, PartialEq, Eq)]
pub struct InitializerBlock {
    pub is_static: bool,
    pub body: Statement,
    pub span: Span,
}

#[derive(Debug, PartialEq, Eq)]
pub struct FieldDeclaration {
    pub annotations: Vec<Annotation>,
    pub modifiers: Vec<Modifier>,
    pub ty: TypeName,
    pub name: Identifier,
    pub initializer: Option<Expression>,
    pub span: Span,
}

#[derive(Debug, PartialEq, Eq)]
pub struct PropertyDeclaration {
    pub annotations: Vec<Annotation>,
    pub modifiers: Vec<Modifier>,
    pub ty: TypeName,
    pub name: Identifier,
    pub accessors: Vec<PropertyAccessor>,
    pub span: Span,
}

#[derive(Debug, PartialEq, Eq)]
pub struct PropertyAccessor {
    pub kind: AccessorKind,
    pub modifier: Option<Modifier>,
    pub body: Option<Statement>,
    pub span: Span,
}

#[derive(Clone, Copy, Debug, PartialEq, Eq, Structural)]
pub enum AccessorKind {
    Get,
    Setter,
}

#[derive(Debug, PartialEq, Eq)]
pub struct ConstructorDeclaration {
    pub annotations: Vec<Annotation>,
    pub modifiers: Vec<Modifier>,
    pub name: Identifier,
    pub parameters: Vec<Parameter>,
    pub delegation: Option<ConstructorDelegation>,
    pub body: Statement,
    pub span: Span,
}

#[derive(Debug, PartialEq, Eq)]
pub struct ConstructorDelegation {
    pub kind: ConstructorDelegationKind,
    pub arguments: Vec<Expression>,
    pub span: Span,
}

#[derive(Clone, Copy, Debug, PartialEq, Eq, Structural)]
pub enum ConstructorDelegationKind {
    This,
    Super,
}

#[derive(Debug, PartialEq, Eq)]
pub struct MethodDeclaration {
    pub annotations: Vec<Annotation>,
    pub modifiers: Vec<Modifier>,
    pub return_type: ReturnType,
    pub name: Identifier,
    pub parameters: Vec<Parameter>,
    pub body: Option<Statement>,
    pub span: Span,
}

#[derive(Debug, PartialEq, Eq)]
pub struct Annotation {
    pub name: Identifier,
    pub arguments: Vec<AnnotationArgument>,
    pub kind: AnnotationKind,
    pub span: Span,
}

#[derive(Debug, PartialEq, Eq)]
pub struct AnnotationArgument {
    pub name: Option<Identifier>,
    pub value: Expression,
    pub span: Span,
}

#[derive(Clone, Copy, Debug, PartialEq, Eq, Structural)]
pub enum AnnotationKind {
    IsTest {
        see_all_data: Option<bool>,
        is_parallel: Option<bool>,
    },
    TestSetup,
    Future,
    AuraEnabled {
        cacheable: Option<bool>,
        continuation: Option<bool>,
    },
    SuppressWarnings,
    TestVisible,
    Other,
}



#[derive(Debug, PartialEq, Eq)]
pub struct Parameter {
    pub ty: TypeName,
    pub name: Identifier,
    pub span: Span,
}

#[derive(Clone, Debug, PartialEq, Eq)]
pub enum ReturnType {
    Void,
    Value(TypeName),
}



#[derive(Debug, PartialEq, Eq)]
pub struct CatchClause {
    pub exception_type: TypeName,
    pub name: Identifier,
    pub body: Statement,
    pub span: Span,
}

#[derive(Debug, PartialEq, Eq)]
pub struct VariableDeclarator {
    pub name: Identifier,
    pub initializer: Option<Expression>,
    pub span: Span,
}

#[derive(Debug, PartialEq, Eq)]
pub struct SwitchArm {
    pub labels: SwitchLabels,
    pub body: Statement,
    pub span: Span,
}

/// A typed `switch when` label that binds a concrete SObject pattern.
///
/// Kept behind `SwitchLabels::TypePattern`'s boxed boundary so scalar switch
/// labels do not inherit the storage cost of a full `TypeName`.
#[derive(Debug, PartialEq, Eq)]
pub struct SwitchTypePattern {
    pub ty: TypeName,
    pub binding: Identifier,
    pub span: Span,
}

#[derive(Debug, PartialEq, Eq)]
pub enum SwitchLabels {
    Expressions(Vec<Expression>),
    TypePattern(Box<SwitchTypePattern>),
    Else(Span),
}

#[derive(Debug, PartialEq, Eq)]
pub enum Statement {
    VariableDeclaration {
        ty: TypeName,
        name: Identifier,
        initializer: Expression,
        span: Span,
    },
    LocalDeclaration {
        modifiers: Vec<Modifier>,
        ty: TypeName,
        declarators: Vec<VariableDeclarator>,
        span: Span,
    },
    Sequence {
        statements: Vec<Statement>,
        span: Span,
    },
    Expression {
        expression: Expression,
        span: Span,
    },
    Block {
        statements: Vec<Statement>,
        span: Span,
    },
    If {
        condition: Expression,
        then_branch: Box<Statement>,
        else_branch: Option<Box<Statement>>,
        span: Span,
    },
    While {
        condition: Expression,
        body: Box<Statement>,
        span: Span,
    },
    DoWhile {
        body: Box<Statement>,
        condition: Expression,
        span: Span,
    },
    Switch {
        value: Expression,
        arms: Vec<SwitchArm>,
        span: Span,
    },
    For {
        initializer: Option<Box<Statement>>,
        condition: Option<Expression>,
        update: Option<Box<Statement>>,
        body: Box<Statement>,
        span: Span,
    },
    ForEach {
        element_type: TypeName,
        name: Identifier,
        iterable: Expression,
        body: Box<Statement>,
        span: Span,
    },
    Break {
        span: Span,
    },
    Continue {
        span: Span,
    },
    Try {
        try_block: Box<Statement>,
        catches: Vec<CatchClause>,
        finally_block: Option<Box<Statement>>,
        span: Span,
    },
    Throw {
        value: Expression,
        span: Span,
    },
    RunAs {
        user: Expression,
        body: Box<Statement>,
        span: Span,
    },
    Dml {
        operation: DmlOperation,
        access: DmlAccess,
        value: Expression,
        external_id: Option<Identifier>,
        span: Span,
    },
    Return {
        value: Option<Expression>,
        span: Span,
    },
}

#[derive(Debug, PartialEq, Eq)]
pub enum Expression {
    StringLiteral(String, Span),
    BooleanLiteral(bool, Span),
    IntegerLiteral(i64, Span),
    LongLiteral(i128, Span),
    DecimalLiteral(String, Span),
    NullLiteral(Span),
    Soql(Box<SoqlQuery>),
    Sosl(Box<SoslQuery>),
    Variable(Identifier),
    TypeLiteral {
        ty: TypeName,
        span: Span,
    },
    Assignment {
        target: AssignmentTarget,
        operator: AssignmentOperator,
        operator_span: Span,
        value: Box<Expression>,
        span: Span,
    },
    NewCollection {
        ty: TypeName,
        initializer: CollectionInitializer,
        span: Span,
    },
    NewException {
        exception_type: TypeName,
        arguments: Vec<Expression>,
        span: Span,
    },
    NewObject {
        ty: TypeName,
        arguments: Vec<Expression>,
        span: Span,
    },
    Index {
        collection: Box<Expression>,
        index: Box<Expression>,
        span: Span,
    },
    FunctionCall {
        name: Identifier,
        arguments: Vec<Expression>,
        span: Span,
    },
    MethodCall {
        receiver: Box<Expression>,
        method: Identifier,
        arguments: Vec<Expression>,
        safe_navigation: bool,
        navigation_span: Span,
        span: Span,
    },
    MemberAccess {
        receiver: Box<Expression>,
        member: Identifier,
        safe_navigation: bool,
        navigation_span: Span,
        span: Span,
    },
    Cast {
        ty: TypeName,
        expression: Box<Expression>,
        span: Span,
    },
    Conditional {
        condition: Box<Expression>,
        when_true: Box<Expression>,
        when_false: Box<Expression>,
        question_span: Span,
        span: Span,
    },
    NullCoalesce {
        left: Box<Expression>,
        right: Box<Expression>,
        operator_span: Span,
        span: Span,
    },
    Instanceof {
        value: Box<Expression>,
        target: TypeName,
        target_span: Span,
        operator_span: Span,
        span: Span,
    },
    Unary {
        operator: UnaryOperator,
        operand: Box<Expression>,
        operator_span: Span,
        span: Span,
    },
    Postfix {
        operand: Box<Expression>,
        operator: PostfixOperator,
        operator_span: Span,
        span: Span,
    },
    Binary {
        left: Box<Expression>,
        operator: BinaryOperator,
        right: Box<Expression>,
        operator_span: Span,
        span: Span,
    },
}



#[derive(Clone, Copy, Debug, PartialEq, Eq, Structural)]
pub enum DmlOperation {
    Insert,
    Update,
    Upsert,
    Delete,
    Undelete,
}

#[derive(Clone, Copy, Debug, PartialEq, Eq, Structural)]
pub enum DmlAccess {
    Default,
    UserMode,
    SystemMode,
}

#[derive(Debug, PartialEq, Eq)]
pub struct SoqlQuery {
    pub select: Vec<SoqlSelectItem>,
    pub from: Identifier,
    pub where_clause: Option<SoqlCondition>,
    pub access: SoqlAccess,
    pub group_by: Vec<FieldPath>,
    pub having: Option<SoqlCondition>,
    pub order_by: Vec<SoqlOrderBy>,
    pub limit: Option<SoqlValue>,
    pub offset: Option<SoqlValue>,
    pub all_rows: bool,
    pub span: Span,
}

#[derive(Clone, Copy, Debug, PartialEq, Eq, Structural)]
pub enum SoqlAccess {
    Default,
    SecurityEnforced,
    UserMode,
    SystemMode,
}

#[derive(Debug, PartialEq, Eq)]
pub enum SoqlSelectItem {
    Field(FieldPath),
    Subquery {
        query: Box<SoqlQuery>,
        span: Span,
    },
    Aggregate {
        function: SoqlAggregateFunction,
        field: Option<FieldPath>,
        alias: Option<Identifier>,
        span: Span,
    },
}

#[derive(Clone, Copy, Debug, PartialEq, Eq, Structural)]
pub enum SoqlAggregateFunction {
    Count,
    Sum,
    Min,
    Max,
}

#[derive(Debug, PartialEq, Eq)]
pub struct FieldPath {
    pub segments: Vec<Identifier>,
    pub span: Span,
}

#[derive(Debug, PartialEq, Eq)]
pub enum SoqlCondition {
    AggregateComparison {
        function: SoqlAggregateFunction,
        field: Option<FieldPath>,
        operator: SoqlComparisonOperator,
        right: SoqlValue,
        span: Span,
    },
    Comparison {
        left: FieldPath,
        operator: SoqlComparisonOperator,
        right: SoqlValue,
        span: Span,
    },
    In {
        field: FieldPath,
        negated: bool,
        values: SoqlInValues,
        span: Span,
    },
    Not {
        condition: Box<SoqlCondition>,
        span: Span,
    },
    Logical {
        left: Box<SoqlCondition>,
        operator: SoqlLogicalOperator,
        right: Box<SoqlCondition>,
        span: Span,
    },
}



#[derive(Clone, Copy, Debug, PartialEq, Eq, Structural)]
pub enum SoqlComparisonOperator {
    Equal,
    NotEqual,
    Less,
    LessEqual,
    Greater,
    GreaterEqual,
    Like,
}

#[derive(Clone, Copy, Debug, PartialEq, Eq, Structural)]
pub enum SoqlLogicalOperator {
    And,
    Or,
}

#[derive(Debug, PartialEq, Eq)]
pub enum SoqlInValues {
    Values(Vec<SoqlValue>),
    Bind(Box<Expression>),
}

#[derive(Debug, PartialEq, Eq)]
pub enum SoqlValue {
    String(String, Span),
    Boolean(bool, Span),
    Integer(i64, Span),
    DateLiteral(SoqlDateLiteral),
    Null(Span),
    Bind(Box<Expression>, Span),
}



#[derive(Clone, Copy, Debug, PartialEq, Eq, Structural)]
pub struct SoqlDateLiteral {
    pub kind: SoqlDateLiteralKind,
    pub amount: Option<i64>,
    pub span: Span,
}

#[derive(Clone, Copy, Debug, PartialEq, Eq, Structural)]
pub enum SoqlDateLiteralKind {
    Yesterday,
    Today,
    Tomorrow,
    LastNDays,
    NextNDays,
    ThisWeek,
    LastWeek,
    NextWeek,
    ThisMonth,
    LastMonth,
    NextMonth,
    ThisYear,
    LastYear,
    NextYear,
}

#[derive(Debug, PartialEq, Eq)]
pub struct SoqlOrderBy {
    pub field: FieldPath,
    pub direction: SortDirection,
    pub nulls: Option<NullsOrder>,
    pub span: Span,
}

#[derive(Clone, Copy, Debug, PartialEq, Eq, Structural)]
pub enum SortDirection {
    Ascending,
    Descending,
}

#[derive(Clone, Copy, Debug, PartialEq, Eq, Structural)]
pub enum NullsOrder {
    First,
    Last,
}

#[derive(Debug, PartialEq, Eq)]
pub struct SoslQuery {
    pub search: SoqlValue,
    pub scope: SoslScope,
    pub returning: Vec<SoslReturning>,
    pub span: Span,
}

#[derive(Clone, Copy, Debug, PartialEq, Eq, Structural)]
pub enum SoslScope {
    AllFields,
    NameFields,
}

#[derive(Debug, PartialEq, Eq)]
pub struct SoslReturning {
    pub object: Identifier,
    pub fields: Vec<FieldPath>,
    pub where_clause: Option<SoqlCondition>,
    pub order_by: Vec<SoqlOrderBy>,
    pub limit: Option<SoqlValue>,
    pub span: Span,
}

#[derive(Debug, PartialEq, Eq)]
pub enum AssignmentTarget {
    Variable(Identifier),
    Index {
        collection: Box<Expression>,
        index: Box<Expression>,
        span: Span,
    },
    Member {
        receiver: Box<Expression>,
        member: Identifier,
        span: Span,
    },
}



#[derive(Debug, PartialEq, Eq)]
pub enum CollectionInitializer {
    Arguments(Vec<Expression>),
    Elements(Vec<Expression>),
    MapEntries(Vec<MapEntry>),
    SizedArray(Box<Expression>),
}

#[derive(Debug, PartialEq, Eq)]
pub struct MapEntry {
    pub key: Expression,
    pub value: Expression,
    pub span: Span,
}

#[derive(Clone, Copy, Debug, PartialEq, Eq, Structural)]
pub enum UnaryOperator {
    Positive,
    Negate,
    Not,
    BitwiseNot,
    PrefixIncrement,
    PrefixDecrement,
}

#[derive(Clone, Copy, Debug, PartialEq, Eq, Structural)]
pub enum PostfixOperator {
    Increment,
    Decrement,
}

#[derive(Clone, Copy, Debug, PartialEq, Eq, Structural)]
pub enum BinaryOperator {
    Add,
    Subtract,
    Multiply,
    Divide,
    Remainder,
    Less,
    LessEqual,
    Greater,
    GreaterEqual,
    Equal,
    NotEqual,
    ExactEqual,
    ExactNotEqual,
    BitwiseAnd,
    BitwiseOr,
    BitwiseXor,
    ShiftLeft,
    ShiftRight,
    UnsignedShiftRight,
    And,
    Or,
}

#[derive(Clone, Copy, Debug, PartialEq, Eq, Structural)]
pub enum AssignmentOperator {
    Assign,
    Add,
    Subtract,
    Multiply,
    Divide,
    Remainder,
    BitwiseAnd,
    BitwiseOr,
    BitwiseXor,
    ShiftLeft,
    ShiftRight,
    UnsignedShiftRight,
}

#[derive(Debug, PartialEq, Eq, Hash)]
pub struct Identifier {
    pub spelling: String,
    pub canonical: String,
    pub span: Span,
}



#[derive(Debug, PartialEq, Eq)]
pub enum TypeName {
    String,
    Boolean,
    Integer,
    Long,
    Decimal,
    Double,
    Date,
    Datetime,
    Time,
    Id,
    Blob,
    Object,
    Pattern,
    Matcher,
    Http,
    HttpRequest,
    HttpResponse,
    HttpCalloutMock,
    Callable,
    Queueable,
    QueueableContext,
    BatchableContext,
    FinalizerContext,
    ParentJobResult,
    Quiddity,
    TriggerOperation,
    LoggingLevel,
    CacheVisibility,
    CachePartition,
    Request,
    QueryLocator,
    DmlOptions,
    SaveResult,
    UpsertResult,
    DeleteResult,
    UndeleteResult,
    DatabaseError,
    StatusCode,
    AccessLevel,
    AccessType,
    SObjectAccessDecision,
    SchedulableContext,
    SObjectType,
    DescribeSObjectResult,
    SObjectField,
    DescribeFieldResult,
    SObjectFieldMap,
    FieldSetMap,
    FieldSet,
    FieldSetMember,
    PicklistEntry,
    VisualEditorDataRow,
    VisualEditorDynamicPickListRows,
    SoapType,
    DisplayType,
    Exception,
    NullPointerException,
    ListException,
    MathException,
    TypeException,
    StringException,
    IllegalArgumentException,
    FinalException,
    AssertException,
    QueryException,
    DmlException,
    SObjectException,
    NoAccessException,
    AsyncException,
    OrgCacheException,
    SessionCacheException,
    AggregateResult,
    Type,
    Custom(NamedType),
    List(Box<TypeName>),
    SetOf(Box<TypeName>),
    MapOf(Box<TypeName>, Box<TypeName>),
    Iterable(Box<TypeName>),
}


/// Lossless source syntax for one Apex type reference.
///
/// Semantic analysis exposes [`TypeName`] as a view of it, but parser lookahead
/// and every parsed generic or hierarchy reference share this single grammar and
/// retain spelling, segment spans, argument structure and array suffix spans.
#[derive(Debug, PartialEq, Eq)]
pub struct TypeRef {
    pub segments: Vec<Identifier>,
    pub type_arguments: Vec<TypeRef>,
    pub array_suffixes: Vec<Span>,
    pub span: Span,
}

/// A preserved generic argument on a named hierarchy or trigger type.
#[derive(Debug)]
pub struct TypeArgument {
    /// Lossless argument syntax.
    pub syntax: TypeRef,
    /// Parsed argument type.
    pub ty: TypeName,
    /// Exact source span of the argument syntax.
    pub span: Span,
}

#[derive(Debug)]
pub struct NamedType {
    pub spelling: String,
    pub canonical: String,
    /// Lossless parsed syntax when this name came from source.
    pub syntax: Option<TypeRef>,
    /// Generic arguments preserved from source for semantic validation.
    pub type_arguments: Vec<TypeArgument>,
    pub span: Span,
}

impl TriggerEvent {
    pub open spec fn spec_is_before(self) -> bool {
        self is BeforeInsert || self is BeforeUpdate || self is BeforeDelete || self is BeforeUndelete
    }

    pub open spec fn spec_operation(self) -> DmlOperation {
        match self {
            TriggerEvent::BeforeInsert | TriggerEvent::AfterInsert => DmlOperation::Insert,
            TriggerEvent::BeforeUpdate | TriggerEvent::AfterUpdate => DmlOperation::Update,
            TriggerEvent::BeforeDelete | TriggerEvent::AfterDelete => DmlOperation::Delete,
            TriggerEvent::BeforeUndelete | TriggerEvent::AfterUndelete => DmlOperation::Undelete,
        }
    }

    pub fn is_before(self) -> (result: bool)
        ensures
            result == self.spec_is_before(),
    {
        matches!(
            self,
            TriggerEvent::BeforeInsert | TriggerEvent::BeforeUpdate | TriggerEvent::BeforeDelete
                | TriggerEvent::BeforeUndelete
        )
    }

    pub fn operation(self) -> (result: DmlOperation)
        ensures
            result == self.spec_operation(),
    {
        match self {
            TriggerEvent::BeforeInsert | TriggerEvent::AfterInsert => DmlOperation::Insert,
            TriggerEvent::BeforeUpdate | TriggerEvent::AfterUpdate => DmlOperation::Update,
            TriggerEvent::BeforeDelete | TriggerEvent::AfterDelete => DmlOperation::Delete,
            TriggerEvent::BeforeUndelete | TriggerEvent::AfterUndelete => DmlOperation::Undelete,
        }
    }
}

impl AnnotationKind {
    pub fn is_test(self) -> (result: bool)
        ensures
            result == (self is IsTest),
    {
        matches!(self, AnnotationKind::IsTest { .. })
    }

    pub fn is_test_setup(self) -> (result: bool)
        ensures
            result == (self is TestSetup),
    {
        matches!(self, AnnotationKind::TestSetup)
    }

    pub fn is_future(self) -> (result: bool)
        ensures
            result == (self is Future),
    {
        matches!(self, AnnotationKind::Future)
    }

    pub fn test_parallelism(self) -> (result: Option<bool>)
        ensures
            result == (match self {
                AnnotationKind::IsTest { is_parallel, .. } => is_parallel,
                _ => None,
            }),
    {
        match self {
            AnnotationKind::IsTest { is_parallel, .. } => is_parallel,
            _ => None,
        }
    }
}

impl ReturnType {
    pub open spec fn spec_apex_name(self) -> Seq<char> {
        match self {
            ReturnType::Void => "void"@,
            ReturnType::Value(ty) => ty.spec_apex_name(),
        }
    }

    pub fn apex_name(&self) -> (result: String)
        ensures
            result@ == self.spec_apex_name(),
    {
        match self {
            ReturnType::Void => "void".to_owned(),
            ReturnType::Value(ty) => ty.apex_name(),
        }
    }
}

impl Expression {
    pub open spec fn spec_span(self) -> Span {
        match self {
            Expression::StringLiteral(_, span) => span,
            Expression::BooleanLiteral(_, span) => span,
            Expression::IntegerLiteral(_, span) => span,
            Expression::LongLiteral(_, span) => span,
            Expression::DecimalLiteral(_, span) => span,
            Expression::NullLiteral(span) => span,
            Expression::Soql(query) => query.span,
            Expression::Sosl(query) => query.span,
            Expression::Variable(identifier) => identifier.span,
            Expression::TypeLiteral { span, .. } => span,
            Expression::Assignment { span, .. } => span,
            Expression::NewCollection { span, .. } => span,
            Expression::NewException { span, .. } => span,
            Expression::NewObject { span, .. } => span,
            Expression::Index { span, .. } => span,
            Expression::FunctionCall { span, .. } => span,
            Expression::MethodCall { span, .. } => span,
            Expression::MemberAccess { span, .. } => span,
            Expression::Cast { span, .. } => span,
            Expression::Conditional { span, .. } => span,
            Expression::NullCoalesce { span, .. } => span,
            Expression::Instanceof { span, .. } => span,
            Expression::Unary { span, .. } => span,
            Expression::Postfix { span, .. } => span,
            Expression::Binary { span, .. } => span,
        }
    }

    pub fn span(&self) -> (result: Span)
        ensures
            result == self.spec_span(),
    {
        match self {
            Expression::StringLiteral(_, span) => *span,
            Expression::BooleanLiteral(_, span) => *span,
            Expression::IntegerLiteral(_, span) => *span,
            Expression::LongLiteral(_, span) => *span,
            Expression::DecimalLiteral(_, span) => *span,
            Expression::NullLiteral(span) => *span,
            Expression::Soql(query) => query.span,
            Expression::Sosl(query) => query.span,
            Expression::Variable(identifier) => identifier.span,
            Expression::TypeLiteral { span, .. } => *span,
            Expression::Assignment { span, .. } => *span,
            Expression::NewCollection { span, .. } => *span,
            Expression::NewException { span, .. } => *span,
            Expression::NewObject { span, .. } => *span,
            Expression::Index { span, .. } => *span,
            Expression::FunctionCall { span, .. } => *span,
            Expression::MethodCall { span, .. } => *span,
            Expression::MemberAccess { span, .. } => *span,
            Expression::Cast { span, .. } => *span,
            Expression::Conditional { span, .. } => *span,
            Expression::NullCoalesce { span, .. } => *span,
            Expression::Instanceof { span, .. } => *span,
            Expression::Unary { span, .. } => *span,
            Expression::Postfix { span, .. } => *span,
            Expression::Binary { span, .. } => *span,
        }
    }
}

impl SoqlCondition {
    pub open spec fn spec_span(self) -> Span {
        match self {
            SoqlCondition::AggregateComparison { span, .. } => span,
            SoqlCondition::Comparison { span, .. } => span,
            SoqlCondition::In { span, .. } => span,
            SoqlCondition::Not { span, .. } => span,
            SoqlCondition::Logical { span, .. } => span,
        }
    }

    pub fn span(&self) -> (result: Span)
        ensures
            result == self.spec_span(),
    {
        match self {
            SoqlCondition::AggregateComparison { span, .. } => *span,
            SoqlCondition::Comparison { span, .. } => *span,
            SoqlCondition::In { span, .. } => *span,
            SoqlCondition::Not { span, .. } => *span,
            SoqlCondition::Logical { span, .. } => *span,
        }
    }
}

impl SoqlValue {
    pub open spec fn spec_span(self) -> Span {
        match self {
            SoqlValue::String(_, span) => span,
            SoqlValue::Boolean(_, span) => span,
            SoqlValue::Integer(_, span) => span,
            SoqlValue::Null(span) => span,
            SoqlValue::Bind(_, span) => span,
            SoqlValue::DateLiteral(literal) => literal.span,
        }
    }

    pub fn span(&self) -> (result: Span)
        ensures
            result == self.spec_span(),
    {
        match self {
            SoqlValue::String(_, span) => *span,
            SoqlValue::Boolean(_, span) => *span,
            SoqlValue::Integer(_, span) => *span,
            SoqlValue::Null(span) => *span,
            SoqlValue::Bind(_, span) => *span,
            SoqlValue::DateLiteral(literal) => literal.span,
        }
    }
}

impl AssignmentTarget {
    pub open spec fn spec_span(self) -> Span {
        match self {
            AssignmentTarget::Variable(identifier) => identifier.span,
            AssignmentTarget::Index { span, .. } => span,
            AssignmentTarget::Member { span, .. } => span,
        }
    }

    pub fn span(&self) -> (result: Span)
        ensures
            result == self.spec_span(),
    {
        match self {
            AssignmentTarget::Variable(identifier) => identifier.span,
            AssignmentTarget::Index { span, .. } => *span,
            AssignmentTarget::Member { span, .. } => *span,
        }
    }
}

impl Statement {
    pub open spec fn spec_span(self) -> Span {
        match self {
            Statement::VariableDeclaration { span, .. } => span,
            Statement::LocalDeclaration { span, .. } => span,
            Statement::Sequence { span, .. } => span,
            Statement::Expression { span, .. } => span,
            Statement::Block { span, .. } => span,
            Statement::If { span, .. } => span,
            Statement::While { span, .. } => span,
            Statement::DoWhile { span, .. } => span,
            Statement::Switch { span, .. } => span,
            Statement::For { span, .. } => span,
            Statement::ForEach { span, .. } => span,
            Statement::Break { span } => span,
            Statement::Continue { span } => span,
            Statement::Try { span, .. } => span,
            Statement::Throw { span, .. } => span,
            Statement::RunAs { span, .. } => span,
            Statement::Dml { span, .. } => span,
            Statement::Return { span, .. } => span,
        }
    }

    pub fn span(&self) -> (result: Span)
        ensures
            result == self.spec_span(),
    {
        match self {
            Statement::VariableDeclaration { span, .. } => *span,
            Statement::LocalDeclaration { span, .. } => *span,
            Statement::Sequence { span, .. } => *span,
            Statement::Expression { span, .. } => *span,
            Statement::Block { span, .. } => *span,
            Statement::If { span, .. } => *span,
            Statement::While { span, .. } => *span,
            Statement::DoWhile { span, .. } => *span,
            Statement::Switch { span, .. } => *span,
            Statement::For { span, .. } => *span,
            Statement::ForEach { span, .. } => *span,
            Statement::Break { span } => *span,
            Statement::Continue { span } => *span,
            Statement::Try { span, .. } => *span,
            Statement::Throw { span, .. } => *span,
            Statement::RunAs { span, .. } => *span,
            Statement::Dml { span, .. } => *span,
            Statement::Return { span, .. } => *span,
        }
    }
}

impl Default for DmlAccess {
    fn default() -> (result: Self)
        ensures
            result == DmlAccess::Default,
    {
        DmlAccess::Default
    }
}

impl Default for SoqlAccess {
    fn default() -> (result: Self)
        ensures
            result == SoqlAccess::Default,
    {
        SoqlAccess::Default
    }
}

impl Identifier {
    /// An identifier keeps its spelling and compares by its ASCII lower-cased canonical form.
    pub fn new(spelling: String, span: Span) -> (result: Identifier)
        ensures
            result.spelling == spelling,
            result.canonical@ == ascii_lower(spelling@),
            result.span == span,
    {
        let canonical = to_ascii_lowercase(spelling.as_str());
        Identifier { spelling, canonical, span }
    }
}

impl Clone for Identifier {
    fn clone(&self) -> (result: Self)
        ensures
            result == *self,
    {
        Identifier { spelling: self.spelling.clone(), canonical: self.canonical.clone(), span: self.span }
    }
}

/// Texts joined with `.` between neighbours.
pub open spec fn join_dot(parts: Seq<Seq<char>>) -> Seq<char>
    decreases parts.len(),
{
    if parts.len() == 0 {
        Seq::empty()
    } else if parts.len() == 1 {
        parts[0]
    } else {
        join_dot(parts.drop_last()) + seq!['.'] + parts.last()
    }
}

pub open spec fn spellings(segments: Seq<Identifier>) -> Seq<Seq<char>> {
    segments.map_values(|segment: Identifier| segment.spelling@)
}

pub open spec fn canonicals(segments: Seq<Identifier>) -> Seq<Seq<char>> {
    segments.map_values(|segment: Identifier| segment.canonical@)
}

/// `parts` joined with `.`, where `parts` are the spellings or canonical forms of `segments`.
fn join_segments(segments: &Vec<Identifier>, canonical: bool) -> (result: String)
    ensures
        result@ == join_dot(if canonical { canonicals(segments@) } else { spellings(segments@) }),
{
    let ghost parts = if canonical { canonicals(segments@) } else { spellings(segments@) };
    let mut out: Vec<char> = Vec::new();
    let mut i: usize = 0;
    while i < segments.len()
        invariant
            i <= segments@.len(),
            parts.len() == segments@.len(),
            parts == (if canonical { canonicals(segments@) } else { spellings(segments@) }),
            out@ == join_dot(parts.take(i as int)),
        decreases segments@.len() - i,
    {
        let ghost before = out@;
        if i > 0 {
            out.push('.');
        }
        let part = if canonical { &segments[i].canonical } else { &segments[i].spelling };
        let chars = chars_of(part.as_str());
        push_chars(&mut out, chars.as_slice());
        proof {
            let next = parts.take(i + 1);
            assert(next.drop_last() =~= parts.take(i as int));
            assert(next.last() == parts[i as int]);
            if i == 0 {
                assert(out@ =~= next[0]);
            } else {
                assert(out@ =~= before + seq!['.'] + parts[i as int]);
            }
        }
        i += 1;
    }
    assert(parts.take(segments@.len() as int) =~= parts);
    string_from_chars(out.as_slice())
}

impl TypeRef {
    pub open spec fn spec_spelling(self) -> Seq<char> {
        join_dot(spellings(self.segments@))
    }

    pub open spec fn spec_canonical(self) -> Seq<char> {
        join_dot(canonicals(self.segments@))
    }

    /// The segments' spellings joined with `.`.
    pub fn spelling(&self) -> (result: String)
        ensures
            result@ == self.spec_spelling(),
    {
        join_segments(&self.segments, false)
    }

    /// The segments' canonical forms joined with `.`.
    pub fn canonical(&self) -> (result: String)
        ensures
            result@ == self.spec_canonical(),
    {
        join_segments(&self.segments, true)
    }
}

/// Lower-casing parts joined with `.` gives the lower-cased parts joined with `.`.
proof fn lemma_join_dot_lower(parts: Seq<Seq<char>>)
    ensures
        ascii_lower(join_dot(parts)) == join_dot(parts.map_values(|part: Seq<char>| ascii_lower(part))),
    decreases parts.len(),
{
    let lowered = parts.map_values(|part: Seq<char>| ascii_lower(part));
    if parts.len() == 1 {
        assert(lowered[0] == ascii_lower(parts[0]));
    } else if parts.len() > 1 {
        lemma_join_dot_lower(parts.drop_last());
        assert(parts.drop_last().map_values(|part: Seq<char>| ascii_lower(part)) =~= lowered.drop_last());
        assert(lowered.last() == ascii_lower(parts.last()));
        let head = join_dot(parts.drop_last());
        assert(ascii_lower(head + seq!['.'] + parts.last()) =~= ascii_lower(head) + seq!['.'] + ascii_lower(
            parts.last(),
        ));
    } else {
        assert(ascii_lower(Seq::<char>::empty()) =~= Seq::<char>::empty());
    }
}

/// When each segment's canonical form is its lower-cased spelling, the
/// canonical form of a type reference is its lower-cased spelling.
pub proof fn lemma_canonical_is_lowered_spelling(syntax: TypeRef)
    requires
        forall|i: int| 0 <= i < syntax.segments@.len() ==> (#[trigger] syntax.segments@[i]).canonical@ == ascii_lower(
            syntax.segments@[i].spelling@,
        ),
    ensures
        syntax.spec_canonical() == ascii_lower(syntax.spec_spelling()),
{
    lemma_join_dot_lower(spellings(syntax.segments@));
    assert(spellings(syntax.segments@).map_values(|part: Seq<char>| ascii_lower(part)) =~= canonicals(
        syntax.segments@,
    ));
}

fn clone_identifiers(items: &Vec<Identifier>) -> (result: Vec<Identifier>)
    ensures
        result@ == items@,
{
    let mut result: Vec<Identifier> = Vec::new();
    let mut i: usize = 0;
    while i < items.len()
        invariant
            i <= items@.len(),
            result@ == items@.take(i as int),
        decreases items@.len() - i,
    {
        result.push(items[i].clone());
        i += 1;
        assert(result@ =~= items@.take(i as int));
    }
    assert(items@.take(items@.len() as int) =~= items@);
    result
}

fn clone_spans(items: &Vec<Span>) -> (result: Vec<Span>)
    ensures
        result@ == items@,
{
    let mut result: Vec<Span> = Vec::new();
    let mut i: usize = 0;
    while i < items.len()
        invariant
            i <= items@.len(),
            result@ == items@.take(i as int),
        decreases items@.len() - i,
    {
        result.push(items[i]);
        i += 1;
        assert(result@ =~= items@.take(i as int));
    }
    assert(items@.take(items@.len() as int) =~= items@);
    result
}

/// Whether two type references are equal in every part, their generic
/// arguments included.
pub open spec fn same_type_ref(a: TypeRef, b: TypeRef) -> bool
    decreases a,
{
    &&& a.segments@ == b.segments@
    &&& a.array_suffixes@ == b.array_suffixes@
    &&& a.span == b.span
    &&& a.type_arguments@.len() == b.type_arguments@.len()
    &&& forall|i: int| 0 <= i < a.type_arguments@.len() ==> same_type_ref(
        #[trigger] a.type_arguments@[i],
        b.type_arguments@[i],
    )
}

fn clone_type_refs(items: &Vec<TypeRef>) -> (result: Vec<TypeRef>)
    ensures
        result@.len() == items@.len(),
        forall|i: int| 0 <= i < items@.len() ==> same_type_ref(#[trigger] items@[i], result@[i]),
    decreases items@,
{
    let mut result: Vec<TypeRef> = Vec::new();
    let mut i: usize = 0;
    while i < items.len()
        invariant
            i <= items@.len(),
            result@.len() == i,
            forall|k: int| 0 <= k < i ==> same_type_ref(#[trigger] items@[k], result@[k]),
        decreases items@.len() - i,
    {
        assert(decreases_to!(items@ => items@[i as int]));
        result.push(items[i].deep_copy());
        i += 1;
    }
    result
}

impl TypeRef {
    /// A copy of this type reference, equal to it in every part.
    pub fn deep_copy(&self) -> (result: TypeRef)
        ensures
            result.segments@ == self.segments@,
            result.type_arguments@.len() == self.type_arguments@.len(),
            result.array_suffixes@ == self.array_suffixes@,
            result.span == self.span,
            same_type_ref(*self, result),
        decreases *self,
    {
        TypeRef {
            segments: clone_identifiers(&self.segments),
            type_arguments: clone_type_refs(&self.type_arguments),
            array_suffixes: clone_spans(&self.array_suffixes),
            span: self.span,
        }
    }
}

impl Clone for TypeRef {
    fn clone(&self) -> (result: Self)
        ensures
            result.segments@ == self.segments@,
            result.type_arguments@.len() == self.type_arguments@.len(),
            result.array_suffixes@ == self.array_suffixes@,
            result.span == self.span,
            same_type_ref(*self, result),
    {
        self.deep_copy()
    }
}

impl NamedType {
    pub fn new(spelling: String, span: Span) -> (result: NamedType)
        ensures
            result.spelling == spelling,
            result.canonical@ == ascii_lower(spelling@),
            result.syntax is None,
            result.type_arguments@.len() == 0,
            result.span == span,
    {
        Self::with_type_arguments(spelling, Vec::new(), span)
    }

    pub fn with_type_arguments(spelling: String, type_arguments: Vec<TypeArgument>, span: Span) -> (result: NamedType)
        ensures
            result.spelling == spelling,
            result.canonical@ == ascii_lower(spelling@),
            result.syntax is None,
            result.type_arguments == type_arguments,
            result.span == span,
    {
        let canonical = to_ascii_lowercase(spelling.as_str());
        NamedType { spelling, canonical, syntax: None, type_arguments, span }
    }

    pub fn from_type_ref(syntax: TypeRef, type_arguments: Vec<TypeArgument>) -> (result: NamedType)
        ensures
            result.spelling@ == syntax.spec_spelling(),
            result.canonical@ == syntax.spec_canonical(),
            result.syntax == Some(syntax),
            result.type_arguments == type_arguments,
            result.span == syntax.span,
    {
        let spelling = syntax.spelling();
        let canonical = syntax.canonical();
        let span = syntax.span;
        NamedType { spelling, canonical, syntax: Some(syntax), type_arguments, span }
    }
}

impl TypeName {
    /// The built-in type with the given alias, compared without ASCII case.
    pub fn from_apex_name(name: &str) -> (result: Option<TypeName>)
        ensures
            result == spec_builtin_from_lower(ascii_lower(name@)),
    {
        let lower = lower_chars(chars_of(name).as_slice());
        builtin_from_lower(lower.as_slice())
    }

    fn built_in_apex_name(&self) -> (result: Option<&'static str>)
        ensures
            result is None <==> spec_builtin_apex_name(*self) is None,
            result matches Some(name) ==> spec_builtin_apex_name(*self) == Some(name@),
    {
        builtin_apex_name_of(self)
    }

    pub open spec fn spec_is_exception(self) -> bool {
        matches!(self, TypeName::Exception | TypeName::NullPointerException | TypeName::ListException | TypeName::MathException | TypeName::TypeException | TypeName::StringException | TypeName::IllegalArgumentException | TypeName::FinalException | TypeName::AssertException | TypeName::QueryException | TypeName::DmlException | TypeName::SObjectException | TypeName::NoAccessException | TypeName::AsyncException | TypeName::OrgCacheException | TypeName::SessionCacheException)
    }

    pub fn is_exception(&self) -> (result: bool)
        ensures
            result == self.spec_is_exception(),
    {
        matches!(self, TypeName::Exception | TypeName::NullPointerException | TypeName::ListException | TypeName::MathException | TypeName::TypeException | TypeName::StringException | TypeName::IllegalArgumentException | TypeName::FinalException | TypeName::AssertException | TypeName::QueryException | TypeName::DmlException | TypeName::SObjectException | TypeName::NoAccessException | TypeName::AsyncException | TypeName::OrgCacheException | TypeName::SessionCacheException)
    }

    pub open spec fn spec_apex_name(self) -> Seq<char>
        decreases self,
    {
        match self {
            TypeName::Custom(name) => name.spelling@,
            TypeName::List(element) => "List<"@ + element.spec_apex_name() + ">"@,
            TypeName::SetOf(element) => "Set<"@ + element.spec_apex_name() + ">"@,
            TypeName::MapOf(key, value) => "Map<"@ + key.spec_apex_name() + ","@ + value.spec_apex_name()
                + ">"@,
            TypeName::Iterable(element) => "Iterable<"@ + element.spec_apex_name() + ">"@,
            _ => spec_builtin_apex_name(self).unwrap(),
        }
    }

    /// The Apex spelling of the type: the canonical built-in name, the custom
    /// spelling, or the generic form with its arguments.
    pub fn apex_name(&self) -> (result: String)
        ensures
            result@ == self.spec_apex_name(),
        decreases self,
    {
        match self {
            TypeName::Custom(name) => name.spelling.clone(),
            TypeName::List(element) => {
                let inner = element.apex_name();
                concat3("List<", inner.as_str(), ">")
            },
            TypeName::SetOf(element) => {
                let inner = element.apex_name();
                concat3("Set<", inner.as_str(), ">")
            },
            TypeName::MapOf(key, value) => {
                let key_name = key.apex_name();
                let value_name = value.apex_name();
                let mut out: Vec<char> = Vec::new();
                push_str(&mut out, "Map<");
                push_str(&mut out, key_name.as_str());
                push_str(&mut out, ",");
                push_str(&mut out, value_name.as_str());
                push_str(&mut out, ">");
                assert(out@ =~= "Map<"@ + key.spec_apex_name() + ","@ + value.spec_apex_name() + ">"@);
                string_from_chars(out.as_slice())
            },
            TypeName::Iterable(element) => {
                let inner = element.apex_name();
                concat3("Iterable<", inner.as_str(), ">")
            },
            _ => {
                match self.built_in_apex_name() {
                    Some(name) => name.to_owned(),
                    None => String::new(),
                }
            },
        }
    }
}

/// Built-in types of table part 0, looked up by lower-cased alias.
pub open spec fn spec_builtin_part0(lower: Seq<char>) -> Option<TypeName> {
    if lower == "string"@ || lower == "system.string"@ {
        Some(TypeName::String)
    } else if lower == "boolean"@ || lower == "system.boolean"@ {
        Some(TypeName::Boolean)
    } else if lower == "integer"@ || lower == "system.integer"@ {
        Some(TypeName::Integer)
    } else if lower == "long"@ || lower == "system.long"@ {
        Some(TypeName::Long)
    } else if lower == "decimal"@ || lower == "system.decimal"@ {
        Some(TypeName::Decimal)
    } else if lower == "double"@ || lower == "system.double"@ {
        Some(TypeName::Double)
    } else if lower == "date"@ || lower == "system.date"@ {
        Some(TypeName::Date)
    } else if lower == "datetime"@ || lower == "system.datetime"@ {
        Some(TypeName::Datetime)
    } else if lower == "time"@ || lower == "system.time"@ {
        Some(TypeName::Time)
    } else if lower == "id"@ || lower == "system.id"@ {
        Some(TypeName::Id)
    } else if lower == "blob"@ || lower == "system.blob"@ {
        Some(TypeName::Blob)
    } else if lower == "object"@ || lower == "system.object"@ {
        Some(TypeName::Object)
    } else if lower == "pattern"@ || lower == "system.pattern"@ {
        Some(TypeName::Pattern)
    } else if lower == "matcher"@ || lower == "system.matcher"@ {
        Some(TypeName::Matcher)
    } else if lower == "http"@ || lower == "system.http"@ {
        Some(TypeName::Http)
    } else if lower == "httprequest"@ || lower == "system.httprequest"@ {
        Some(TypeName::HttpRequest)
    } else if lower == "httpresponse"@ || lower == "system.httpresponse"@ {
        Some(TypeName::HttpResponse)
    } else if lower == "httpcalloutmock"@ || lower == "system.httpcalloutmock"@ {
        Some(TypeName::HttpCalloutMock)
    } else if lower == "callable"@ || lower == "system.callable"@ {
        Some(TypeName::Callable)
    } else {
        None
    }
}

fn builtin_part0(lower: &[char]) -> (result: Option<TypeName>)
    ensures
        result == spec_builtin_part0(lower@),
{
    if chars_are(lower, "string") || chars_are(lower, "system.string") {
        return Some(TypeName::String);
    }
    if chars_are(lower, "boolean") || chars_are(lower, "system.boolean") {
        return Some(TypeName::Boolean);
    }
    if chars_are(lower, "integer") || chars_are(lower, "system.integer") {
        return Some(TypeName::Integer);
    }
    if chars_are(lower, "long") || chars_are(lower, "system.long") {
        return Some(TypeName::Long);
    }
    if chars_are(lower, "decimal") || chars_are(lower, "system.decimal") {
        return Some(TypeName::Decimal);
    }
    if chars_are(lower, "double") || chars_are(lower, "system.double") {
        return Some(TypeName::Double);
    }
    if chars_are(lower, "date") || chars_are(lower, "system.date") {
        return Some(TypeName::Date);
    }
    if chars_are(lower, "datetime") || chars_are(lower, "system.datetime") {
        return Some(TypeName::Datetime);
    }
    if chars_are(lower, "time") || chars_are(lower, "system.time") {
        return Some(TypeName::Time);
    }
    if chars_are(lower, "id") || chars_are(lower, "system.id") {
        return Some(TypeName::Id);
    }
    if chars_are(lower, "blob") || chars_are(lower, "system.blob") {
        return Some(TypeName::Blob);
    }
    if chars_are(lower, "object") || chars_are(lower, "system.object") {
        return Some(TypeName::Object);
    }
    if chars_are(lower, "pattern") || chars_are(lower, "system.pattern") {
        return Some(TypeName::Pattern);
    }
    if chars_are(lower, "matcher") || chars_are(lower, "system.matcher") {
        return Some(TypeName::Matcher);
    }
    if chars_are(lower, "http") || chars_are(lower, "system.http") {
        return Some(TypeName::Http);
    }
    if chars_are(lower, "httprequest") || chars_are(lower, "system.httprequest") {
        return Some(TypeName::HttpRequest);
    }
    if chars_are(lower, "httpresponse") || chars_are(lower, "system.httpresponse") {
        return Some(TypeName::HttpResponse);
    }
    if chars_are(lower, "httpcalloutmock") || chars_are(lower, "system.httpcalloutmock") {
        return Some(TypeName::HttpCalloutMock);
    }
    if chars_are(lower, "callable") || chars_are(lower, "system.callable") {
        return Some(TypeName::Callable);
    }
    None
}

/// Built-in types of table part 1, looked up by lower-cased alias.
pub open spec fn spec_builtin_part1(lower: Seq<char>) -> Option<TypeName> {
    if lower == "queueable"@ || lower == "system.queueable"@ {
        Some(TypeName::Queueable)
    } else if lower == "queueablecontext"@ || lower == "system.queueablecontext"@ {
        Some(TypeName::QueueableContext)
    } else if lower == "batchablecontext"@ || lower == "database.batchablecontext"@ {
        Some(TypeName::BatchableContext)
    } else if lower == "finalizercontext"@ || lower == "system.finalizercontext"@ {
        Some(TypeName::FinalizerContext)
    } else if lower == "parentjobresult"@ || lower == "system.parentjobresult"@ {
        Some(TypeName::ParentJobResult)
    } else if lower == "quiddity"@ || lower == "system.quiddity"@ {
        Some(TypeName::Quiddity)
    } else if lower == "triggeroperation"@ || lower == "system.triggeroperation"@ {
        Some(TypeName::TriggerOperation)
    } else if lower == "logginglevel"@ || lower == "system.logginglevel"@ {
        Some(TypeName::LoggingLevel)
    } else if lower == "cache.visibility"@ {
        Some(TypeName::CacheVisibility)
    } else if lower == "cache.partition"@ {
        Some(TypeName::CachePartition)
    } else if lower == "request"@ || lower == "system.request"@ {
        Some(TypeName::Request)
    } else if lower == "querylocator"@ || lower == "database.querylocator"@ {
        Some(TypeName::QueryLocator)
    } else if lower == "dmloptions"@ || lower == "database.dmloptions"@ {
        Some(TypeName::DmlOptions)
    } else if lower == "saveresult"@ || lower == "database.saveresult"@ {
        Some(TypeName::SaveResult)
    } else if lower == "upsertresult"@ || lower == "database.upsertresult"@ {
        Some(TypeName::UpsertResult)
    } else if lower == "deleteresult"@ || lower == "database.deleteresult"@ {
        Some(TypeName::DeleteResult)
    } else if lower == "undeleteresult"@ || lower == "database.undeleteresult"@ {
        Some(TypeName::UndeleteResult)
    } else if lower == "error"@ || lower == "database.error"@ {
        Some(TypeName::DatabaseError)
    } else if lower == "statuscode"@ || lower == "system.statuscode"@ {
        Some(TypeName::StatusCode)
    } else {
        None
    }
}

fn builtin_part1(lower: &[char]) -> (result: Option<TypeName>)
    ensures
        result == spec_builtin_part1(lower@),
{
    if chars_are(lower, "queueable") || chars_are(lower, "system.queueable") {
        return Some(TypeName::Queueable);
    }
    if chars_are(lower, "queueablecontext") || chars_are(lower, "system.queueablecontext") {
        return Some(TypeName::QueueableContext);
    }
    if chars_are(lower, "batchablecontext") || chars_are(lower, "database.batchablecontext") {
        return Some(TypeName::BatchableContext);
    }
    if chars_are(lower, "finalizercontext") || chars_are(lower, "system.finalizercontext") {
        return Some(TypeName::FinalizerContext);
    }
    if chars_are(lower, "parentjobresult") || chars_are(lower, "system.parentjobresult") {
        return Some(TypeName::ParentJobResult);
    }
    if chars_are(lower, "quiddity") || chars_are(lower, "system.quiddity") {
        return Some(TypeName::Quiddity);
    }
    if chars_are(lower, "triggeroperation") || chars_are(lower, "system.triggeroperation") {
        return Some(TypeName::TriggerOperation);
    }
    if chars_are(lower, "logginglevel") || chars_are(lower, "system.logginglevel") {
        return Some(TypeName::LoggingLevel);
    }
    if chars_are(lower, "cache.visibility") {
        return Some(TypeName::CacheVisibility);
    }
    if chars_are(lower, "cache.partition") {
        return Some(TypeName::CachePartition);
    }
    if chars_are(lower, "request") || chars_are(lower, "system.request") {
        return Some(TypeName::Request);
    }
    if chars_are(lower, "querylocator") || chars_are(lower, "database.querylocator") {
        return Some(TypeName::QueryLocator);
    }
    if chars_are(lower, "dmloptions") || chars_are(lower, "database.dmloptions") {
        return Some(TypeName::DmlOptions);
    }
    if chars_are(lower, "saveresult") || chars_are(lower, "database.saveresult") {
        return Some(TypeName::SaveResult);
    }
    if chars_are(lower, "upsertresult") || chars_are(lower, "database.upsertresult") {
        return Some(TypeName::UpsertResult);
    }
    if chars_are(lower, "deleteresult") || chars_are(lower, "database.deleteresult") {
        return Some(TypeName::DeleteResult);
    }
    if chars_are(lower, "undeleteresult") || chars_are(lower, "database.undeleteresult") {
        return Some(TypeName::UndeleteResult);
    }
    if chars_are(lower, "error") || chars_are(lower, "database.error") {
        return Some(TypeName::DatabaseError);
    }
    if chars_are(lower, "statuscode") || chars_are(lower, "system.statuscode") {
        return Some(TypeName::StatusCode);
    }
    None
}

/// Built-in types of table part 2, looked up by lower-cased alias.
pub open spec fn spec_builtin_part2(lower: Seq<char>) -> Option<TypeName> {
    if lower == "accesslevel"@ || lower == "system.accesslevel"@ || lower == "database.accesslevel"@ {
        Some(TypeName::AccessLevel)
    } else if lower == "accesstype"@ || lower == "system.accesstype"@ {
        Some(TypeName::AccessType)
    } else if lower == "sobjectaccessdecision"@ || lower == "system.sobjectaccessdecision"@ {
        Some(TypeName::SObjectAccessDecision)
    } else if lower == "schedulablecontext"@ || lower == "system.schedulablecontext"@ {
        Some(TypeName::SchedulableContext)
    } else if lower == "sobjecttype"@ || lower == "schema.sobjecttype"@ {
        Some(TypeName::SObjectType)
    } else if lower == "describesobjectresult"@ || lower == "schema.describesobjectresult"@ {
        Some(TypeName::DescribeSObjectResult)
    } else if lower == "sobjectfield"@ || lower == "schema.sobjectfield"@ {
        Some(TypeName::SObjectField)
    } else if lower == "describefieldresult"@ || lower == "schema.describefieldresult"@ {
        Some(TypeName::DescribeFieldResult)
    } else if lower == "sobjectfieldmap"@ || lower == "schema.sobjectfieldmap"@ {
        Some(TypeName::SObjectFieldMap)
    } else if lower == "fieldsetmap"@ || lower == "schema.fieldsetmap"@ {
        Some(TypeName::FieldSetMap)
    } else if lower == "fieldset"@ || lower == "schema.fieldset"@ {
        Some(TypeName::FieldSet)
    } else if lower == "fieldsetmember"@ || lower == "schema.fieldsetmember"@ {
        Some(TypeName::FieldSetMember)
    } else if lower == "picklistentry"@ || lower == "schema.picklistentry"@ {
        Some(TypeName::PicklistEntry)
    } else if lower == "visualeditor.datarow"@ {
        Some(TypeName::VisualEditorDataRow)
    } else if lower == "visualeditor.dynamicpicklistrows"@ {
        Some(TypeName::VisualEditorDynamicPickListRows)
    } else if lower == "soaptype"@ || lower == "schema.soaptype"@ {
        Some(TypeName::SoapType)
    } else if lower == "displaytype"@ || lower == "schema.displaytype"@ {
        Some(TypeName::DisplayType)
    } else if lower == "exception"@ || lower == "system.exception"@ {
        Some(TypeName::Exception)
    } else if lower == "nullpointerexception"@ || lower == "system.nullpointerexception"@ {
        Some(TypeName::NullPointerException)
    } else {
        None
    }
}

fn builtin_part2(lower: &[char]) -> (result: Option<TypeName>)
    ensures
        result == spec_builtin_part2(lower@),
{
    if chars_are(lower, "accesslevel") || chars_are(lower, "system.accesslevel") || chars_are(lower, "database.accesslevel") {
        return Some(TypeName::AccessLevel);
    }
    if chars_are(lower, "accesstype") || chars_are(lower, "system.accesstype") {
        return Some(TypeName::AccessType);
    }
    if chars_are(lower, "sobjectaccessdecision") || chars_are(lower, "system.sobjectaccessdecision") {
        return Some(TypeName::SObjectAccessDecision);
    }
    if chars_are(lower, "schedulablecontext") || chars_are(lower, "system.schedulablecontext") {
        return Some(TypeName::SchedulableContext);
    }
    if chars_are(lower, "sobjecttype") || chars_are(lower, "schema.sobjecttype") {
        return Some(TypeName::SObjectType);
    }
    if chars_are(lower, "describesobjectresult") || chars_are(lower, "schema.describesobjectresult") {
        return Some(TypeName::DescribeSObjectResult);
    }
    if chars_are(lower, "sobjectfield") || chars_are(lower, "schema.sobjectfield") {
        return Some(TypeName::SObjectField);
    }
    if chars_are(lower, "describefieldresult") || chars_are(lower, "schema.describefieldresult") {
        return Some(TypeName::DescribeFieldResult);
    }
    if chars_are(lower, "sobjectfieldmap") || chars_are(lower, "schema.sobjectfieldmap") {
        return Some(TypeName::SObjectFieldMap);
    }
    if chars_are(lower, "fieldsetmap") || chars_are(lower, "schema.fieldsetmap") {
        return Some(TypeName::FieldSetMap);
    }
    if chars_are(lower, "fieldset") || chars_are(lower, "schema.fieldset") {
        return Some(TypeName::FieldSet);
    }
    if chars_are(lower, "fieldsetmember") || chars_are(lower, "schema.fieldsetmember") {
        return Some(TypeName::FieldSetMember);
    }
    if chars_are(lower, "picklistentry") || chars_are(lower, "schema.picklistentry") {
        return Some(TypeName::PicklistEntry);
    }
    if chars_are(lower, "visualeditor.datarow") {
        return Some(TypeName::VisualEditorDataRow);
    }
    if chars_are(lower, "visualeditor.dynamicpicklistrows") {
        return Some(TypeName::VisualEditorDynamicPickListRows);
    }
    if chars_are(lower, "soaptype") || chars_are(lower, "schema.soaptype") {
        return Some(TypeName::SoapType);
    }
    if chars_are(lower, "displaytype") || chars_are(lower, "schema.displaytype") {
        return Some(TypeName::DisplayType);
    }
    if chars_are(lower, "exception") || chars_are(lower, "system.exception") {
        return Some(TypeName::Exception);
    }
    if chars_are(lower, "nullpointerexception") || chars_are(lower, "system.nullpointerexception") {
        return Some(TypeName::NullPointerException);
    }
    None
}

/// Built-in types of table part 3, looked up by lower-cased alias.
pub open spec fn spec_builtin_part3(lower: Seq<char>) -> Option<TypeName> {
    if lower == "listexception"@ || lower == "system.listexception"@ {
        Some(TypeName::ListException)
    } else if lower == "mathexception"@ || lower == "system.mathexception"@ {
        Some(TypeName::MathException)
    } else if lower == "typeexception"@ || lower == "system.typeexception"@ {
        Some(TypeName::TypeException)
    } else if lower == "stringexception"@ || lower == "system.stringexception"@ {
        Some(TypeName::StringException)
    } else if lower == "illegalargumentexception"@ || lower == "system.illegalargumentexception"@ {
        Some(TypeName::IllegalArgumentException)
    } else if lower == "finalexception"@ || lower == "system.finalexception"@ {
        Some(TypeName::FinalException)
    } else if lower == "assertexception"@ || lower == "system.assertexception"@ {
        Some(TypeName::AssertException)
    } else if lower == "queryexception"@ || lower == "system.queryexception"@ {
        Some(TypeName::QueryException)
    } else if lower == "dmlexception"@ || lower == "system.dmlexception"@ {
        Some(TypeName::DmlException)
    } else if lower == "sobjectexception"@ || lower == "system.sobjectexception"@ {
        Some(TypeName::SObjectException)
    } else if lower == "noaccessexception"@ || lower == "system.noaccessexception"@ {
        Some(TypeName::NoAccessException)
    } else if lower == "asyncexception"@ || lower == "system.asyncexception"@ {
        Some(TypeName::AsyncException)
    } else if lower == "cache.org.orgcacheexception"@ {
        Some(TypeName::OrgCacheException)
    } else if lower == "cache.session.sessioncacheexception"@ {
        Some(TypeName::SessionCacheException)
    } else if lower == "aggregateresult"@ || lower == "system.aggregateresult"@ {
        Some(TypeName::AggregateResult)
    } else if lower == "type"@ || lower == "system.type"@ {
        Some(TypeName::Type)
    } else {
        None
    }
}

fn builtin_part3(lower: &[char]) -> (result: Option<TypeName>)
    ensures
        result == spec_builtin_part3(lower@),
{
    if chars_are(lower, "listexception") || chars_are(lower, "system.listexception") {
        return Some(TypeName::ListException);
    }
    if chars_are(lower, "mathexception") || chars_are(lower, "system.mathexception") {
        return Some(TypeName::MathException);
    }
    if chars_are(lower, "typeexception") || chars_are(lower, "system.typeexception") {
        return Some(TypeName::TypeException);
    }
    if chars_are(lower, "stringexception") || chars_are(lower, "system.stringexception") {
        return Some(TypeName::StringException);
    }
    if chars_are(lower, "illegalargumentexception") || chars_are(lower, "system.illegalargumentexception") {
        return Some(TypeName::IllegalArgumentException);
    }
    if chars_are(lower, "finalexception") || chars_are(lower, "system.finalexception") {
        return Some(TypeName::FinalException);
    }
    if chars_are(lower, "assertexception") || chars_are(lower, "system.assertexception") {
        return Some(TypeName::AssertException);
    }
    if chars_are(lower, "queryexception") || chars_are(lower, "system.queryexception") {
        return Some(TypeName::QueryException);
    }
    if chars_are(lower, "dmlexception") || chars_are(lower, "system.dmlexception") {
        return Some(TypeName::DmlException);
    }
    if chars_are(lower, "sobjectexception") || chars_are(lower, "system.sobjectexception") {
        return Some(TypeName::SObjectException);
    }
    if chars_are(lower, "noaccessexception") || chars_are(lower, "system.noaccessexception") {
        return Some(TypeName::NoAccessException);
    }
    if chars_are(lower, "asyncexception") || chars_are(lower, "system.asyncexception") {
        return Some(TypeName::AsyncException);
    }
    if chars_are(lower, "cache.org.orgcacheexception") {
        return Some(TypeName::OrgCacheException);
    }
    if chars_are(lower, "cache.session.sessioncacheexception") {
        return Some(TypeName::SessionCacheException);
    }
    if chars_are(lower, "aggregateresult") || chars_are(lower, "system.aggregateresult") {
        return Some(TypeName::AggregateResult);
    }
    if chars_are(lower, "type") || chars_are(lower, "system.type") {
        return Some(TypeName::Type);
    }
    None
}

/// The built-in type whose alias, compared without ASCII case, is the lower-cased text.
pub open spec fn spec_builtin_from_lower(lower: Seq<char>) -> Option<TypeName> {
    if spec_builtin_part0(lower) is Some {
        spec_builtin_part0(lower)
    } else if spec_builtin_part1(lower) is Some {
        spec_builtin_part1(lower)
    } else if spec_builtin_part2(lower) is Some {
        spec_builtin_part2(lower)
    } else if spec_builtin_part3(lower) is Some {
        spec_builtin_part3(lower)
    } else {
        None
    }
}

fn builtin_from_lower(lower: &[char]) -> (result: Option<TypeName>)
    ensures
        result == spec_builtin_from_lower(lower@),
{
    let found = builtin_part0(lower);
    if found.is_some() {
        return found;
    }
    let found = builtin_part1(lower);
    if found.is_some() {
        return found;
    }
    let found = builtin_part2(lower);
    if found.is_some() {
        return found;
    }
    let found = builtin_part3(lower);
    if found.is_some() {
        return found;
    }
    None
}

/// The canonical Apex spelling of a built-in type; `None` for custom and generic types.
pub open spec fn spec_builtin_apex_name(ty: TypeName) -> Option<Seq<char>> {
    match ty {
        TypeName::String => Some("String"@),
        TypeName::Boolean => Some("Boolean"@),
        TypeName::Integer => Some("Integer"@),
        TypeName::Long => Some("Long"@),
        TypeName::Decimal => Some("Decimal"@),
        TypeName::Double => Some("Double"@),
        TypeName::Date => Some("Date"@),
        TypeName::Datetime => Some("Datetime"@),
        TypeName::Time => Some("Time"@),
        TypeName::Id => Some("Id"@),
        TypeName::Blob => Some("Blob"@),
        TypeName::Object => Some("Object"@),
        TypeName::Pattern => Some("Pattern"@),
        TypeName::Matcher => Some("Matcher"@),
        TypeName::Http => Some("Http"@),
        TypeName::HttpRequest => Some("HttpRequest"@),
        TypeName::HttpResponse => Some("HttpResponse"@),
        TypeName::HttpCalloutMock => Some("System.HttpCalloutMock"@),
        TypeName::Callable => Some("System.Callable"@),
        TypeName::Queueable => Some("System.Queueable"@),
        TypeName::QueueableContext => Some("System.QueueableContext"@),
        TypeName::BatchableContext => Some("Database.BatchableContext"@),
        TypeName::FinalizerContext => Some("System.FinalizerContext"@),
        TypeName::ParentJobResult => Some("System.ParentJobResult"@),
        TypeName::Quiddity => Some("System.Quiddity"@),
        TypeName::TriggerOperation => Some("System.TriggerOperation"@),
        TypeName::LoggingLevel => Some("System.LoggingLevel"@),
        TypeName::CacheVisibility => Some("Cache.Visibility"@),
        TypeName::CachePartition => Some("Cache.Partition"@),
        TypeName::Request => Some("System.Request"@),
        TypeName::QueryLocator => Some("Database.QueryLocator"@),
        TypeName::DmlOptions => Some("Database.DmlOptions"@),
        TypeName::SaveResult => Some("Database.SaveResult"@),
        TypeName::UpsertResult => Some("Database.UpsertResult"@),
        TypeName::DeleteResult => Some("Database.DeleteResult"@),
        TypeName::UndeleteResult => Some("Database.UndeleteResult"@),
        TypeName::DatabaseError => Some("Database.Error"@),
        TypeName::StatusCode => Some("StatusCode"@),
        TypeName::AccessLevel => Some("AccessLevel"@),
        TypeName::AccessType => Some("System.AccessType"@),
        TypeName::SObjectAccessDecision => Some("SObjectAccessDecision"@),
        TypeName::SchedulableContext => Some("System.SchedulableContext"@),
        TypeName::SObjectType => Some("Schema.SObjectType"@),
        TypeName::DescribeSObjectResult => Some("Schema.DescribeSObjectResult"@),
        TypeName::SObjectField => Some("Schema.SObjectField"@),
        TypeName::DescribeFieldResult => Some("Schema.DescribeFieldResult"@),
        TypeName::SObjectFieldMap => Some("Schema.SObjectFieldMap"@),
        TypeName::FieldSetMap => Some("Schema.FieldSetMap"@),
        TypeName::FieldSet => Some("Schema.FieldSet"@),
        TypeName::FieldSetMember => Some("Schema.FieldSetMember"@),
        TypeName::PicklistEntry => Some("Schema.PicklistEntry"@),
        TypeName::VisualEditorDataRow => Some("VisualEditor.DataRow"@),
        TypeName::VisualEditorDynamicPickListRows => Some("VisualEditor.DynamicPickListRows"@),
        TypeName::SoapType => Some("Schema.SoapType"@),
        TypeName::DisplayType => Some("Schema.DisplayType"@),
        TypeName::Exception => Some("Exception"@),
        TypeName::NullPointerException => Some("NullPointerException"@),
        TypeName::ListException => Some("ListException"@),
        TypeName::MathException => Some("MathException"@),
        TypeName::TypeException => Some("TypeException"@),
        TypeName::StringException => Some("StringException"@),
        TypeName::IllegalArgumentException => Some("IllegalArgumentException"@),
        TypeName::FinalException => Some("FinalException"@),
        TypeName::AssertException => Some("AssertException"@),
        TypeName::QueryException => Some("QueryException"@),
        TypeName::DmlException => Some("DmlException"@),
        TypeName::SObjectException => Some("SObjectException"@),
        TypeName::NoAccessException => Some("NoAccessException"@),
        TypeName::AsyncException => Some("AsyncException"@),
        TypeName::OrgCacheException => Some("Cache.Org.OrgCacheException"@),
        TypeName::SessionCacheException => Some("Cache.Session.SessionCacheException"@),
        TypeName::AggregateResult => Some("AggregateResult"@),
        TypeName::Type => Some("System.Type"@),
        _ => None,
    }
}

fn builtin_apex_name_of(ty: &TypeName) -> (result: Option<&'static str>)
    ensures
        result is None <==> spec_builtin_apex_name(*ty) is None,
        result matches Some(name) ==> spec_builtin_apex_name(*ty) == Some(name@),
{
    match ty {
        TypeName::String => Some("String"),
        TypeName::Boolean => Some("Boolean"),
        TypeName::Integer => Some("Integer"),
        TypeName::Long => Some("Long"),
        TypeName::Decimal => Some("Decimal"),
        TypeName::Double => Some("Double"),
        TypeName::Date => Some("Date"),
        TypeName::Datetime => Some("Datetime"),
        TypeName::Time => Some("Time"),
        TypeName::Id => Some("Id"),
        TypeName::Blob => Some("Blob"),
        TypeName::Object => Some("Object"),
        TypeName::Pattern => Some("Pattern"),
        TypeName::Matcher => Some("Matcher"),
        TypeName::Http => Some("Http"),
        TypeName::HttpRequest => Some("HttpRequest"),
        TypeName::HttpResponse => Some("HttpResponse"),
        TypeName::HttpCalloutMock => Some("System.HttpCalloutMock"),
        TypeName::Callable => Some("System.Callable"),
        TypeName::Queueable => Some("System.Queueable"),
        TypeName::QueueableContext => Some("System.QueueableContext"),
        TypeName::BatchableContext => Some("Database.BatchableContext"),
        TypeName::FinalizerContext => Some("System.FinalizerContext"),
        TypeName::ParentJobResult => Some("System.ParentJobResult"),
        TypeName::Quiddity => Some("System.Quiddity"),
        TypeName::TriggerOperation => Some("System.TriggerOperation"),
        TypeName::LoggingLevel => Some("System.LoggingLevel"),
        TypeName::CacheVisibility => Some("Cache.Visibility"),
        TypeName::CachePartition => Some("Cache.Partition"),
        TypeName::Request => Some("System.Request"),
        TypeName::QueryLocator => Some("Database.QueryLocator"),
        TypeName::DmlOptions => Some("Database.DmlOptions"),
        TypeName::SaveResult => Some("Database.SaveResult"),
        TypeName::UpsertResult => Some("Database.UpsertResult"),
        TypeName::DeleteResult => Some("Database.DeleteResult"),
        TypeName::UndeleteResult => Some("Database.UndeleteResult"),
        TypeName::DatabaseError => Some("Database.Error"),
        TypeName::StatusCode => Some("StatusCode"),
        TypeName::AccessLevel => Some("AccessLevel"),
        TypeName::AccessType => Some("System.AccessType"),
        TypeName::SObjectAccessDecision => Some("SObjectAccessDecision"),
        TypeName::SchedulableContext => Some("System.SchedulableContext"),
        TypeName::SObjectType => Some("Schema.SObjectType"),
        TypeName::DescribeSObjectResult => Some("Schema.DescribeSObjectResult"),
        TypeName::SObjectField => Some("Schema.SObjectField"),
        TypeName::DescribeFieldResult => Some("Schema.DescribeFieldResult"),
        TypeName::SObjectFieldMap => Some("Schema.SObjectFieldMap"),
        TypeName::FieldSetMap => Some("Schema.FieldSetMap"),
        TypeName::FieldSet => Some("Schema.FieldSet"),
        TypeName::FieldSetMember => Some("Schema.FieldSetMember"),
        TypeName::PicklistEntry => Some("Schema.PicklistEntry"),
        TypeName::VisualEditorDataRow => Some("VisualEditor.DataRow"),
        TypeName::VisualEditorDynamicPickListRows => Some("VisualEditor.DynamicPickListRows"),
        TypeName::SoapType => Some("Schema.SoapType"),
        TypeName::DisplayType => Some("Schema.DisplayType"),
        TypeName::Exception => Some("Exception"),
        TypeName::NullPointerException => Some("NullPointerException"),
        TypeName::ListException => Some("ListException"),
        TypeName::MathException => Some("MathException"),
        TypeName::TypeException => Some("TypeException"),
        TypeName::StringException => Some("StringException"),
        TypeName::IllegalArgumentException => Some("IllegalArgumentException"),
        TypeName::FinalException => Some("FinalException"),
        TypeName::AssertException => Some("AssertException"),
        TypeName::QueryException => Some("QueryException"),
        TypeName::DmlException => Some("DmlException"),
        TypeName::SObjectException => Some("SObjectException"),
        TypeName::NoAccessException => Some("NoAccessException"),
        TypeName::AsyncException => Some("AsyncException"),
        TypeName::OrgCacheException => Some("Cache.Org.OrgCacheException"),
        TypeName::SessionCacheException => Some("Cache.Session.SessionCacheException"),
        TypeName::AggregateResult => Some("AggregateResult"),
        TypeName::Type => Some("System.Type"),
        _ => None,
    }
}

/// Equality of types as the checker sees them: custom types compare by
/// canonical name and by the types of their generic arguments.
pub open spec fn type_equiv(a: TypeName, b: TypeName) -> bool
    decreases a,
{
    match a {
        TypeName::Custom(x) => match b {
            TypeName::Custom(y) => named_equiv(x, y),
            _ => false,
        },
        TypeName::List(x) => match b {
            TypeName::List(y) => type_equiv(*x, *y),
            _ => false,
        },
        TypeName::SetOf(x) => match b {
            TypeName::SetOf(y) => type_equiv(*x, *y),
            _ => false,
        },
        TypeName::MapOf(xk, xv) => match b {
            TypeName::MapOf(yk, yv) => type_equiv(*xk, *yk) && type_equiv(*xv, *yv),
            _ => false,
        },
        TypeName::Iterable(x) => match b {
            TypeName::Iterable(y) => type_equiv(*x, *y),
            _ => false,
        },
        _ => a == b,
    }
}

/// Equality of named types: same canonical name and equivalent argument types.
pub open spec fn named_equiv(x: NamedType, y: NamedType) -> bool
    decreases x,
{
    &&& x.canonical@ == y.canonical@
    &&& arguments_equiv(x.type_arguments@, y.type_arguments@)
}

pub open spec fn arguments_equiv(xs: Seq<TypeArgument>, ys: Seq<TypeArgument>) -> bool
    decreases xs,
{
    if xs.len() != ys.len() {
        false
    } else if xs.len() == 0 {
        true
    } else {
        type_equiv(xs[0].ty, ys[0].ty) && arguments_equiv(xs.drop_first(), ys.drop_first())
    }
}

fn type_names_equivalent(a: &TypeName, b: &TypeName) -> (result: bool)
    ensures
        result == type_equiv(*a, *b),
    decreases *a,
{
    match a {
        TypeName::Custom(x) => match b {
            TypeName::Custom(y) => named_types_equivalent(x, y),
            _ => false,
        },
        TypeName::List(x) => match b {
            TypeName::List(y) => type_names_equivalent(x, y),
            _ => false,
        },
        TypeName::SetOf(x) => match b {
            TypeName::SetOf(y) => type_names_equivalent(x, y),
            _ => false,
        },
        TypeName::MapOf(xk, xv) => match b {
            TypeName::MapOf(yk, yv) => type_names_equivalent(xk, yk) && type_names_equivalent(xv, yv),
            _ => false,
        },
        TypeName::Iterable(x) => match b {
            TypeName::Iterable(y) => type_names_equivalent(x, y),
            _ => false,
        },
        TypeName::String => matches!(b, TypeName::String),
        TypeName::Boolean => matches!(b, TypeName::Boolean),
        TypeName::Integer => matches!(b, TypeName::Integer),
        TypeName::Long => matches!(b, TypeName::Long),
        TypeName::Decimal => matches!(b, TypeName::Decimal),
        TypeName::Double => matches!(b, TypeName::Double),
        TypeName::Date => matches!(b, TypeName::Date),
        TypeName::Datetime => matches!(b, TypeName::Datetime),
        TypeName::Time => matches!(b, TypeName::Time),
        TypeName::Id => matches!(b, TypeName::Id),
        TypeName::Blob => matches!(b, TypeName::Blob),
        TypeName::Object => matches!(b, TypeName::Object),
        TypeName::Pattern => matches!(b, TypeName::Pattern),
        TypeName::Matcher => matches!(b, TypeName::Matcher),
        TypeName::Http => matches!(b, TypeName::Http),
        TypeName::HttpRequest => matches!(b, TypeName::HttpRequest),
        TypeName::HttpResponse => matches!(b, TypeName::HttpResponse),
        TypeName::HttpCalloutMock => matches!(b, TypeName::HttpCalloutMock),
        TypeName::Callable => matches!(b, TypeName::Callable),
        TypeName::Queueable => matches!(b, TypeName::Queueable),
        TypeName::QueueableContext => matches!(b, TypeName::QueueableContext),
        TypeName::BatchableContext => matches!(b, TypeName::BatchableContext),
        TypeName::FinalizerContext => matches!(b, TypeName::FinalizerContext),
        TypeName::ParentJobResult => matches!(b, TypeName::ParentJobResult),
        TypeName::Quiddity => matches!(b, TypeName::Quiddity),
        TypeName::TriggerOperation => matches!(b, TypeName::TriggerOperation),
        TypeName::LoggingLevel => matches!(b, TypeName::LoggingLevel),
        TypeName::CacheVisibility => matches!(b, TypeName::CacheVisibility),
        TypeName::CachePartition => matches!(b, TypeName::CachePartition),
        TypeName::Request => matches!(b, TypeName::Request),
        TypeName::QueryLocator => matches!(b, TypeName::QueryLocator),
        TypeName::DmlOptions => matches!(b, TypeName::DmlOptions),
        TypeName::SaveResult => matches!(b, TypeName::SaveResult),
        TypeName::UpsertResult => matches!(b, TypeName::UpsertResult),
        TypeName::DeleteResult => matches!(b, TypeName::DeleteResult),
        TypeName::UndeleteResult => matches!(b, TypeName::UndeleteResult),
        TypeName::DatabaseError => matches!(b, TypeName::DatabaseError),
        TypeName::StatusCode => matches!(b, TypeName::StatusCode),
        TypeName::AccessLevel => matches!(b, TypeName::AccessLevel),
        TypeName::AccessType => matches!(b, TypeName::AccessType),
        TypeName::SObjectAccessDecision => matches!(b, TypeName::SObjectAccessDecision),
        TypeName::SchedulableContext => matches!(b, TypeName::SchedulableContext),
        TypeName::SObjectType => matches!(b, TypeName::SObjectType),
        TypeName::DescribeSObjectResult => matches!(b, TypeName::DescribeSObjectResult),
        TypeName::SObjectField => matches!(b, TypeName::SObjectField),
        TypeName::DescribeFieldResult => matches!(b, TypeName::DescribeFieldResult),
        TypeName::SObjectFieldMap => matches!(b, TypeName::SObjectFieldMap),
        TypeName::FieldSetMap => matches!(b, TypeName::FieldSetMap),
        TypeName::FieldSet => matches!(b, TypeName::FieldSet),
        TypeName::FieldSetMember => matches!(b, TypeName::FieldSetMember),
        TypeName::PicklistEntry => matches!(b, TypeName::PicklistEntry),
        TypeName::VisualEditorDataRow => matches!(b, TypeName::VisualEditorDataRow),
        TypeName::VisualEditorDynamicPickListRows => matches!(b, TypeName::VisualEditorDynamicPickListRows),
        TypeName::SoapType => matches!(b, TypeName::SoapType),
        TypeName::DisplayType => matches!(b, TypeName::DisplayType),
        TypeName::Exception => matches!(b, TypeName::Exception),
        TypeName::NullPointerException => matches!(b, TypeName::NullPointerException),
        TypeName::ListException => matches!(b, TypeName::ListException),
        TypeName::MathException => matches!(b, TypeName::MathException),
        TypeName::TypeException => matches!(b, TypeName::TypeException),
        TypeName::StringException => matches!(b, TypeName::StringException),
        TypeName::IllegalArgumentException => matches!(b, TypeName::IllegalArgumentException),
        TypeName::FinalException => matches!(b, TypeName::FinalException),
        TypeName::AssertException => matches!(b, TypeName::AssertException),
        TypeName::QueryException => matches!(b, TypeName::QueryException),
        TypeName::DmlException => matches!(b, TypeName::DmlException),
        TypeName::SObjectException => matches!(b, TypeName::SObjectException),
        TypeName::NoAccessException => matches!(b, TypeName::NoAccessException),
        TypeName::AsyncException => matches!(b, TypeName::AsyncException),
        TypeName::OrgCacheException => matches!(b, TypeName::OrgCacheException),
        TypeName::SessionCacheException => matches!(b, TypeName::SessionCacheException),
        TypeName::AggregateResult => matches!(b, TypeName::AggregateResult),
        TypeName::Type => matches!(b, TypeName::Type),
    }
}

fn named_types_equivalent(x: &NamedType, y: &NamedType) -> (result: bool)
    ensures
        result == named_equiv(*x, *y),
    decreases *x,
{
    x.canonical == y.canonical && arguments_equivalent(&x.type_arguments, &y.type_arguments)
}

fn arguments_equivalent(xs: &Vec<TypeArgument>, ys: &Vec<TypeArgument>) -> (result: bool)
    ensures
        result == arguments_equiv(xs@, ys@),
    decreases xs@,
{
    if xs.len() != ys.len() {
        return false;
    }
    let mut i: usize = 0;
    assert(xs@.skip(0) =~= xs@);
    assert(ys@.skip(0) =~= ys@);
    while i < xs.len()
        invariant
            xs@.len() == ys@.len(),
            i <= xs@.len(),
            arguments_equiv(xs@, ys@) == arguments_equiv(xs@.skip(i as int), ys@.skip(i as int)),
        decreases xs@.len() - i,
    {
        let ghost rest_x = xs@.skip(i as int);
        let ghost rest_y = ys@.skip(i as int);
        assert(rest_x.drop_first() =~= xs@.skip(i + 1));
        assert(rest_y.drop_first() =~= ys@.skip(i + 1));
        assert(decreases_to!(xs@ => xs@[i as int]));
        if !type_names_equivalent(&xs[i].ty, &ys[i].ty) {
            return false;
        }
        i += 1;
    }
    assert(xs@.skip(xs@.len() as int).len() == 0);
    true
}

impl PartialEq for NamedType {
    fn eq(&self, other: &Self) -> (result: bool) {
        named_types_equivalent(self, other)
    }
}

impl vstd::std_specs::cmp::PartialEqSpecImpl for NamedType {
    open spec fn obeys_eq_spec() -> bool {
        true
    }

    open spec fn eq_spec(&self, other: &NamedType) -> bool {
        named_equiv(*self, *other)
    }
}

impl Eq for NamedType {
}

impl TypeName {
    /// A copy of this type, equal to it in every part.
    pub fn deep_copy(&self) -> (result: TypeName)
        ensures
            result.spec_apex_name() == self.spec_apex_name(),
            result.spec_is_exception() == self.spec_is_exception(),
        decreases *self,
    {
        match self {
            TypeName::Custom(name) => TypeName::Custom(name.deep_copy()),
            TypeName::List(element) => TypeName::List(Box::new(element.deep_copy())),
            TypeName::SetOf(element) => TypeName::SetOf(Box::new(element.deep_copy())),
            TypeName::MapOf(key, value) => TypeName::MapOf(Box::new(key.deep_copy()), Box::new(value.deep_copy())),
            TypeName::Iterable(element) => TypeName::Iterable(Box::new(element.deep_copy())),
            TypeName::String => TypeName::String,
            TypeName::Boolean => TypeName::Boolean,
            TypeName::Integer => TypeName::Integer,
            TypeName::Long => TypeName::Long,
            TypeName::Decimal => TypeName::Decimal,
            TypeName::Double => TypeName::Double,
            TypeName::Date => TypeName::Date,
            TypeName::Datetime => TypeName::Datetime,
            TypeName::Time => TypeName::Time,
            TypeName::Id => TypeName::Id,
            TypeName::Blob => TypeName::Blob,
            TypeName::Object => TypeName::Object,
            TypeName::Pattern => TypeName::Pattern,
            TypeName::Matcher => TypeName::Matcher,
            TypeName::Http => TypeName::Http,
            TypeName::HttpRequest => TypeName::HttpRequest,
            TypeName::HttpResponse => TypeName::HttpResponse,
            TypeName::HttpCalloutMock => TypeName::HttpCalloutMock,
            TypeName::Callable => TypeName::Callable,
            TypeName::Queueable => TypeName::Queueable,
            TypeName::QueueableContext => TypeName::QueueableContext,
            TypeName::BatchableContext => TypeName::BatchableContext,
            TypeName::FinalizerContext => TypeName::FinalizerContext,
            TypeName::ParentJobResult => TypeName::ParentJobResult,
            TypeName::Quiddity => TypeName::Quiddity,
            TypeName::TriggerOperation => TypeName::TriggerOperation,
            TypeName::LoggingLevel => TypeName::LoggingLevel,
            TypeName::CacheVisibility => TypeName::CacheVisibility,
            TypeName::CachePartition => TypeName::CachePartition,
            TypeName::Request => TypeName::Request,
            TypeName::QueryLocator => TypeName::QueryLocator,
            TypeName::DmlOptions => TypeName::DmlOptions,
            TypeName::SaveResult => TypeName::SaveResult,
            TypeName::UpsertResult => TypeName::UpsertResult,
            TypeName::DeleteResult => TypeName::DeleteResult,
            TypeName::UndeleteResult => TypeName::UndeleteResult,
            TypeName::DatabaseError => TypeName::DatabaseError,
            TypeName::StatusCode => TypeName::StatusCode,
            TypeName::AccessLevel => TypeName::AccessLevel,
            TypeName::AccessType => TypeName::AccessType,
            TypeName::SObjectAccessDecision => TypeName::SObjectAccessDecision,
            TypeName::SchedulableContext => TypeName::SchedulableContext,
            TypeName::SObjectType => TypeName::SObjectType,
            TypeName::DescribeSObjectResult => TypeName::DescribeSObjectResult,
            TypeName::SObjectField => TypeName::SObjectField,
            TypeName::DescribeFieldResult => TypeName::DescribeFieldResult,
            TypeName::SObjectFieldMap => TypeName::SObjectFieldMap,
            TypeName::FieldSetMap => TypeName::FieldSetMap,
            TypeName::FieldSet => TypeName::FieldSet,
            TypeName::FieldSetMember => TypeName::FieldSetMember,
            TypeName::PicklistEntry => TypeName::PicklistEntry,
            TypeName::VisualEditorDataRow => TypeName::VisualEditorDataRow,
            TypeName::VisualEditorDynamicPickListRows => TypeName::VisualEditorDynamicPickListRows,
            TypeName::SoapType => TypeName::SoapType,
            TypeName::DisplayType => TypeName::DisplayType,
            TypeName::Exception => TypeName::Exception,
            TypeName::NullPointerException => TypeName::NullPointerException,
            TypeName::ListException => TypeName::ListException,
            TypeName::MathException => TypeName::MathException,
            TypeName::TypeException => TypeName::TypeException,
            TypeName::StringException => TypeName::StringException,
            TypeName::IllegalArgumentException => TypeName::IllegalArgumentException,
            TypeName::FinalException => TypeName::FinalException,
            TypeName::AssertException => TypeName::AssertException,
            TypeName::QueryException => TypeName::QueryException,
            TypeName::DmlException => TypeName::DmlException,
            TypeName::SObjectException => TypeName::SObjectException,
            TypeName::NoAccessException => TypeName::NoAccessException,
            TypeName::AsyncException => TypeName::AsyncException,
            TypeName::OrgCacheException => TypeName::OrgCacheException,
            TypeName::SessionCacheException => TypeName::SessionCacheException,
            TypeName::AggregateResult => TypeName::AggregateResult,
            TypeName::Type => TypeName::Type,
        }
    }
}

impl NamedType {
    /// A copy of this named type, equal to it in every part.
    pub fn deep_copy(&self) -> (result: NamedType)
        ensures
            result.spelling == self.spelling,
            result.canonical == self.canonical,
            result.type_arguments@.len() == self.type_arguments@.len(),
            result.span == self.span,
        decreases *self,
    {
        let syntax = match &self.syntax {
            Some(syntax) => Some(syntax.deep_copy()),
            None => None,
        };
        NamedType {
            spelling: self.spelling.clone(),
            canonical: self.canonical.clone(),
            syntax,
            type_arguments: copy_type_arguments(&self.type_arguments),
            span: self.span,
        }
    }
}

fn copy_type_arguments(items: &Vec<TypeArgument>) -> (result: Vec<TypeArgument>)
    ensures
        result@.len() == items@.len(),
    decreases items@,
{
    let mut result: Vec<TypeArgument> = Vec::new();
    let mut i: usize = 0;
    while i < items.len()
        invariant
            i <= items@.len(),
            result@.len() == i,
        decreases items@.len() - i,
    {
        assert(decreases_to!(items@ => items@[i as int]));
        result.push(items[i].deep_copy());
        i += 1;
    }
    result
}

impl TypeArgument {
    /// A copy of this argument, equal to it in every part.
    pub fn deep_copy(&self) -> (result: TypeArgument)
        ensures
            result.ty.spec_apex_name() == self.ty.spec_apex_name(),
            result.span == self.span,
        decreases *self,
    {
        TypeArgument { syntax: self.syntax.deep_copy(), ty: self.ty.deep_copy(), span: self.span }
    }
}

impl Clone for TypeName {
    fn clone(&self) -> (result: Self)
        ensures
            result.spec_apex_name() == self.spec_apex_name(),
            result.spec_is_exception() == self.spec_is_exception(),
    {
        self.deep_copy()
    }
}

impl Clone for NamedType {
    fn clone(&self) -> (result: Self)
        ensures
            result.spelling == self.spelling,
            result.canonical == self.canonical,
            result.span == self.span,
    {
        self.deep_copy()
    }
}

impl Clone for TypeArgument {
    fn clone(&self) -> (result: Self)
        ensures
            result.ty.spec_apex_name() == self.ty.spec_apex_name(),
            result.span == self.span,
    {
        self.deep_copy()
    }
}

} // verus!

verus! {

/// Type names are read without regard to ASCII case: two names that differ
/// only in case denote the same built-in type, or none.
pub proof fn lemma_type_names_ignore_case(a: Seq<char>, b: Seq<char>)
    requires
        eq_ignore_case(a, b),
    ensures
        spec_builtin_from_lower(ascii_lower(a)) == spec_builtin_from_lower(ascii_lower(b)),
{
}

} // verus!
