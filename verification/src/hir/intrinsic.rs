//! Checker-selected targets for supported built-in calls.

use vstd::prelude::*;

verus! {

/// Checker-selected target for one supported built-in call.
///
/// Semantic analysis records this ID after validating the receiver, overload,
/// and argument types. Execution matches the ID directly and never repeats
/// case-insensitive method lookup.
#[derive(Clone, Copy, Debug, PartialEq, Eq, Hash, Structural)]
#[non_exhaustive]
pub enum IntrinsicId {
    StaticString(StaticStringIntrinsic),
    Math(MathIntrinsic),
    System(SystemIntrinsic),
    String(StringIntrinsic),
    Exception(ExceptionIntrinsic),
    List(ListIntrinsic),
    SetOf(SetIntrinsic),
    MapOf(MapIntrinsic),
    Platform(PlatformIntrinsic),
}

impl IntrinsicId {
    /// Calls made on a type rather than on a runtime value.
    pub open spec fn spec_is_static(self) -> bool {
        match self {
            IntrinsicId::StaticString(_) | IntrinsicId::Math(_) | IntrinsicId::System(_) => true,
            IntrinsicId::Platform(intrinsic) => intrinsic.spec_is_static(),
            _ => false,
        }
    }

    /// Calls whose behavior is modeled only by the current API profile family:
    /// every platform call, `Math.random`, and the clock reads of `System`.
    pub open spec fn spec_requires_curated_platform_profile(self) -> bool {
        match self {
            IntrinsicId::Platform(_) => true,
            IntrinsicId::Math(MathIntrinsic::Random) => true,
            IntrinsicId::System(SystemIntrinsic::Now) => true,
            IntrinsicId::System(SystemIntrinsic::Today) => true,
            IntrinsicId::System(SystemIntrinsic::CurrentTimeMillis) => true,
            _ => false,
        }
    }

    /// Whether the call has a static type receiver rather than a runtime value.
    pub fn is_static(self) -> (result: bool)
        ensures
            result == self.spec_is_static(),
    {
        match self {
            IntrinsicId::StaticString(_) | IntrinsicId::Math(_) | IntrinsicId::System(_) => true,
            IntrinsicId::Platform(intrinsic) => intrinsic.is_static(),
            _ => false,
        }
    }

    /// Whether this intrinsic belongs to the curated platform surface whose
    /// behavior is currently modeled only by the current API profile family.
    pub fn requires_curated_platform_profile(self) -> (result: bool)
        ensures
            result == self.spec_requires_curated_platform_profile(),
    {
        match self {
            IntrinsicId::Platform(_) => true,
            IntrinsicId::Math(MathIntrinsic::Random) => true,
            IntrinsicId::System(SystemIntrinsic::Now)
            | IntrinsicId::System(SystemIntrinsic::Today)
            | IntrinsicId::System(SystemIntrinsic::CurrentTimeMillis) => true,
            IntrinsicId::StaticString(_)
            | IntrinsicId::Math(_)
            | IntrinsicId::System(_)
            | IntrinsicId::String(_)
            | IntrinsicId::Exception(_)
            | IntrinsicId::List(_)
            | IntrinsicId::SetOf(_)
            | IntrinsicId::MapOf(_) => false,
        }
    }
}

/// Constructors for platform objects whose state is owned by the execution
/// store rather than by user-class fields.
#[derive(Clone, Copy, Debug, PartialEq, Eq, Hash, Structural)]
pub enum PlatformConstructor {
    Http,
    HttpRequest,
    HttpResponse,
    DmlOptions,
    VisualEditorDataRow,
    VisualEditorDynamicPickListRows,
}

/// Curated platform calls. This is a closed checker-selected set so
/// unsupported APIs cannot fall through to name-based runtime behavior.
#[derive(Clone, Copy, Debug, PartialEq, Eq, Hash, Structural)]
pub enum PlatformIntrinsic {
    DateNewInstance,
    DateValueOf,
    DateToday,
    DateAddDays,
    DateAddMonths,
    DateAddYears,
    DateDaysBetween,
    DateFormat,
    DateYear,
    DateMonth,
    DateDay,
    DatetimeNewInstance,
    DatetimeNow,
    DatetimeValueOf,
    DatetimeValueOfGmt,
    DatetimeGetTime,
    DatetimeDate,
    DatetimeDateGmt,
    DatetimeTime,
    DatetimeTimeGmt,
    DatetimeAddDays,
    DatetimeAddHours,
    DatetimeAddMinutes,
    DatetimeAddSeconds,
    DatetimeFormat,
    TimeNewInstance,
    TimeValueOf,
    TimeAddHours,
    TimeAddMinutes,
    TimeAddSeconds,
    TimeAddMilliseconds,
    TimeHour,
    TimeMinute,
    TimeSecond,
    TimeMillisecond,
    TimeFormat,
    DecimalValueOf,
    DecimalSetScale,
    DecimalAbs,
    DecimalScale,
    DoubleValueOf,
    IdValueOf,
    IdTo15,
    IdTo18,
    BlobValueOf,
    BlobToString,
    BlobSize,
    ObjectToString,
    JsonSerialize,
    JsonSerializePretty,
    JsonDeserialize,
    JsonDeserializeUntyped,
    PatternCompile,
    PatternQuote,
    PatternMatcher,
    MatcherMatches,
    MatcherFind,
    MatcherGroup,
    MatcherStart,
    MatcherEnd,
    SchemaGetGlobalDescribe,
    SObjectTypeGetDescribe,
    SObjectTypeGetName,
    SObjectTypeNewSObject,
    SObjectGetSObjectType,
    DescribeGetName,
    DescribeGetLocalName,
    DescribeGetLabel,
    DescribeGetLabelPlural,
    DescribeGetKeyPrefix,
    DescribeIsCustom,
    DescribeIsCustomSetting,
    DescribeIsAccessible,
    DescribeIsDeletable,
    DescribeIsUpdateable,
    SObjectFieldGetDescribe,
    SObjectFieldMapGetMap,
    FieldSetMapGetMap,
    DescribeFieldGetName,
    DescribeFieldGetLocalName,
    DescribeFieldGetLabel,
    DescribeFieldGetLength,
    DescribeFieldGetInlineHelpText,
    DescribeFieldGetRelationshipName,
    DescribeFieldGetSoapType,
    DescribeFieldGetType,
    DescribeFieldGetReferenceTo,
    DescribeFieldGetPicklistValues,
    DescribeFieldIsNameField,
    DescribeFieldIsSortable,
    DescribeFieldIsAccessible,
    FieldSetGetName,
    FieldSetGetLabel,
    FieldSetGetNamespace,
    FieldSetGetFields,
    FieldSetMemberGetFieldPath,
    FieldSetMemberGetLabel,
    FieldSetMemberGetSObjectField,
    PicklistEntryGetValue,
    TestStartTest,
    TestStopTest,
    TestIsRunningTest,
    TestSetMock,
    SystemEnqueueJob,
    SystemSchedule,
    SystemIsFuture,
    SystemIsQueueable,
    SystemIsBatch,
    SystemIsScheduled,
    DatabaseExecuteBatch,
    EventBusPublish,
    AsyncContextGetJobId,
    BatchableContextGetChildJobId,
    FinalizerContextGetAsyncApexJobId,
    FinalizerContextGetException,
    FinalizerContextGetResult,
    FinalizerContextGetRequestId,
    SchedulableContextGetTriggerId,
    RequestGetCurrent,
    RequestGetRequestId,
    RequestGetQuiddity,
    PlatformEnumName,
    PlatformEnumOrdinal,
    LoggingLevelValues,
    LoggingLevelValueOf,
    CacheGetPartition,
    CachePartitionContains,
    CachePartitionGet,
    CachePartitionIsAvailable,
    CachePartitionPut,
    CachePartitionRemove,
    CallableCall,
    TypeForName,
    TypeGetName,
    TypeNewInstance,
    LimitsGetQueries,
    LimitsGetLimitQueries,
    LimitsGetDmlStatements,
    LimitsGetLimitDmlStatements,
    LimitsGetCallouts,
    LimitsGetLimitCallouts,
    UserInfoGetUserId,
    UserInfoGetUserName,
    UserInfoGetProfileId,
    EncodingBase64Encode,
    EncodingBase64Decode,
    SecurityStripInaccessible,
    HttpRequestSetEndpoint,
    HttpRequestGetEndpoint,
    HttpRequestSetMethod,
    HttpRequestGetMethod,
    HttpRequestSetBody,
    HttpRequestGetBody,
    HttpRequestSetHeader,
    HttpRequestGetHeader,
    HttpRequestSetTimeout,
    HttpRequestGetTimeout,
    HttpResponseSetStatusCode,
    HttpResponseGetStatusCode,
    HttpResponseSetBody,
    HttpResponseGetBody,
    HttpResponseSetHeader,
    HttpResponseGetHeader,
    HttpResponseSetStatus,
    HttpResponseGetStatus,
    HttpSend,
    HttpCalloutMockRespond,
    VisualEditorDataRowGetLabel,
    VisualEditorDataRowGetValue,
    VisualEditorRowsAddRow,
    VisualEditorRowsGetDataRows,
}

impl PlatformIntrinsic {
    /// Calls made on a platform type (constructors, parsers, and the static
    /// services of `Test`, `System`, `Limits`, `UserInfo` and the like).
    pub open spec fn spec_is_static(self) -> bool {
            self is DateNewInstance
            || self is DateValueOf
            || self is DateToday
            || self is DatetimeNewInstance
            || self is DatetimeNow
            || self is DatetimeValueOf
            || self is DatetimeValueOfGmt
            || self is TimeNewInstance
            || self is TimeValueOf
            || self is DecimalValueOf
            || self is DoubleValueOf
            || self is IdValueOf
            || self is BlobValueOf
            || self is JsonSerialize
            || self is JsonSerializePretty
            || self is JsonDeserialize
            || self is JsonDeserializeUntyped
            || self is PatternCompile
            || self is PatternQuote
            || self is SchemaGetGlobalDescribe
            || self is TestStartTest
            || self is TestStopTest
            || self is TestIsRunningTest
            || self is TestSetMock
            || self is SystemEnqueueJob
            || self is SystemSchedule
            || self is SystemIsFuture
            || self is SystemIsQueueable
            || self is SystemIsBatch
            || self is SystemIsScheduled
            || self is DatabaseExecuteBatch
            || self is EventBusPublish
            || self is RequestGetCurrent
            || self is CacheGetPartition
            || self is TypeForName
            || self is LoggingLevelValues
            || self is LoggingLevelValueOf
            || self is LimitsGetQueries
            || self is LimitsGetLimitQueries
            || self is LimitsGetDmlStatements
            || self is LimitsGetLimitDmlStatements
            || self is LimitsGetCallouts
            || self is LimitsGetLimitCallouts
            || self is UserInfoGetUserId
            || self is UserInfoGetUserName
            || self is UserInfoGetProfileId
            || self is EncodingBase64Encode
            || self is EncodingBase64Decode
            || self is SecurityStripInaccessible
    }

    /// Whether the call has a static type receiver rather than a runtime value.
    pub fn is_static(self) -> (result: bool)
        ensures
            result == self.spec_is_static(),
    {
        match self {
            PlatformIntrinsic::DateNewInstance
            | PlatformIntrinsic::DateValueOf
            | PlatformIntrinsic::DateToday
            | PlatformIntrinsic::DatetimeNewInstance
            | PlatformIntrinsic::DatetimeNow
            | PlatformIntrinsic::DatetimeValueOf
            | PlatformIntrinsic::DatetimeValueOfGmt
            | PlatformIntrinsic::TimeNewInstance
            | PlatformIntrinsic::TimeValueOf
            | PlatformIntrinsic::DecimalValueOf
            | PlatformIntrinsic::DoubleValueOf
            | PlatformIntrinsic::IdValueOf
            | PlatformIntrinsic::BlobValueOf
            | PlatformIntrinsic::JsonSerialize
            | PlatformIntrinsic::JsonSerializePretty
            | PlatformIntrinsic::JsonDeserialize
            | PlatformIntrinsic::JsonDeserializeUntyped
            | PlatformIntrinsic::PatternCompile
            | PlatformIntrinsic::PatternQuote
            | PlatformIntrinsic::SchemaGetGlobalDescribe
            | PlatformIntrinsic::TestStartTest
            | PlatformIntrinsic::TestStopTest
            | PlatformIntrinsic::TestIsRunningTest
            | PlatformIntrinsic::TestSetMock
            | PlatformIntrinsic::SystemEnqueueJob
            | PlatformIntrinsic::SystemSchedule
            | PlatformIntrinsic::SystemIsFuture
            | PlatformIntrinsic::SystemIsQueueable
            | PlatformIntrinsic::SystemIsBatch
            | PlatformIntrinsic::SystemIsScheduled
            | PlatformIntrinsic::DatabaseExecuteBatch
            | PlatformIntrinsic::EventBusPublish
            | PlatformIntrinsic::RequestGetCurrent
            | PlatformIntrinsic::CacheGetPartition
            | PlatformIntrinsic::TypeForName
            | PlatformIntrinsic::LoggingLevelValues
            | PlatformIntrinsic::LoggingLevelValueOf
            | PlatformIntrinsic::LimitsGetQueries
            | PlatformIntrinsic::LimitsGetLimitQueries
            | PlatformIntrinsic::LimitsGetDmlStatements
            | PlatformIntrinsic::LimitsGetLimitDmlStatements
            | PlatformIntrinsic::LimitsGetCallouts
            | PlatformIntrinsic::LimitsGetLimitCallouts
            | PlatformIntrinsic::UserInfoGetUserId
            | PlatformIntrinsic::UserInfoGetUserName
            | PlatformIntrinsic::UserInfoGetProfileId
            | PlatformIntrinsic::EncodingBase64Encode
            | PlatformIntrinsic::EncodingBase64Decode
            | PlatformIntrinsic::SecurityStripInaccessible => true,
            _ => false,
        }
    }
}

/// Supported static methods on the Apex `String` type.
#[derive(Clone, Copy, Debug, PartialEq, Eq, Hash, Structural)]
#[non_exhaustive]
pub enum StaticStringIntrinsic {
    ValueOf,
    Join,
    Format,
    EscapeSingleQuotes,
    IsBlank,
    IsNotBlank,
    IsEmpty,
    IsNotEmpty,
}

/// Supported static methods on the Apex `Math` type.
#[derive(Clone, Copy, Debug, PartialEq, Eq, Hash, Structural)]
#[non_exhaustive]
pub enum MathIntrinsic {
    Abs,
    Max,
    Min,
    Mod,
    Random,
}

/// Supported static methods on the Apex `System` type.
#[derive(Clone, Copy, Debug, PartialEq, Eq, Hash, Structural)]
#[non_exhaustive]
pub enum SystemIntrinsic {
    Debug,
    Assert,
    AssertEquals,
    AssertNotEquals,
    Now,
    Today,
    CurrentTimeMillis,
}

/// Supported methods on an Apex `String` value.
#[derive(Clone, Copy, Debug, PartialEq, Eq, Hash, Structural)]
#[non_exhaustive]
pub enum StringIntrinsic {
    Length,
    Contains,
    ContainsIgnoreCase,
    StartsWith,
    EndsWith,
    Equals,
    EqualsIgnoreCase,
    IndexOf,
    Substring,
    SubstringBefore,
    SubstringAfter,
    SubstringAfterLast,
    SubstringBetween,
    Left,
    Split,
    Trim,
    ToLowerCase,
    ToUpperCase,
    Replace,
    ReplaceAll,
}

/// Supported methods on a core Apex exception value.
#[derive(Clone, Copy, Debug, PartialEq, Eq, Hash, Structural)]
#[non_exhaustive]
pub enum ExceptionIntrinsic {
    GetMessage,
    GetTypeName,
    GetStackTraceString,
}

/// Supported methods on an Apex `List` value.
#[derive(Clone, Copy, Debug, PartialEq, Eq, Hash, Structural)]
#[non_exhaustive]
pub enum ListIntrinsic {
    Add,
    AddAll,
    Clear,
    Clone,
    DeepClone,
    Contains,
    Get,
    IndexOf,
    IsEmpty,
    Remove,
    SetAt,
    Size,
    Sort,
}

/// Supported methods on an Apex `Set` value.
#[derive(Clone, Copy, Debug, PartialEq, Eq, Hash, Structural)]
#[non_exhaustive]
pub enum SetIntrinsic {
    Add,
    AddAll,
    Clear,
    Clone,
    Contains,
    ContainsAll,
    IsEmpty,
    Remove,
    RemoveAll,
    RetainAll,
    Size,
}

/// Supported methods on an Apex `Map` value.
#[derive(Clone, Copy, Debug, PartialEq, Eq, Hash, Structural)]
#[non_exhaustive]
pub enum MapIntrinsic {
    Clear,
    Clone,
    DeepClone,
    ContainsKey,
    Get,
    IsEmpty,
    KeySet,
    Put,
    PutAll,
    Remove,
    Size,
    Values,
}

} // verus!
