use apex_exec::hir::{
    IntrinsicId, ListIntrinsic, MathIntrinsic, PlatformIntrinsic, StaticStringIntrinsic,
    StringIntrinsic, SystemIntrinsic,
};

#[test]
fn static_receivers_are_type_calls() {
    assert!(IntrinsicId::StaticString(StaticStringIntrinsic::Join).is_static());
    assert!(IntrinsicId::Math(MathIntrinsic::Abs).is_static());
    assert!(IntrinsicId::System(SystemIntrinsic::Debug).is_static());
    assert!(!IntrinsicId::String(StringIntrinsic::Trim).is_static());
    assert!(!IntrinsicId::List(ListIntrinsic::SetAt).is_static());
    assert!(IntrinsicId::Platform(PlatformIntrinsic::DateToday).is_static());
    assert!(IntrinsicId::Platform(PlatformIntrinsic::LimitsGetCallouts).is_static());
    assert!(!IntrinsicId::Platform(PlatformIntrinsic::DateAddDays).is_static());
    assert!(!IntrinsicId::Platform(PlatformIntrinsic::HttpSend).is_static());
}

#[test]
fn curated_platform_profile_covers_platform_random_and_clock_calls() {
    assert!(IntrinsicId::Platform(PlatformIntrinsic::BlobSize).requires_curated_platform_profile());
    assert!(IntrinsicId::Math(MathIntrinsic::Random).requires_curated_platform_profile());
    assert!(IntrinsicId::System(SystemIntrinsic::Now).requires_curated_platform_profile());
    assert!(IntrinsicId::System(SystemIntrinsic::Today).requires_curated_platform_profile());
    assert!(IntrinsicId::System(SystemIntrinsic::CurrentTimeMillis).requires_curated_platform_profile());
    assert!(!IntrinsicId::Math(MathIntrinsic::Max).requires_curated_platform_profile());
    assert!(!IntrinsicId::System(SystemIntrinsic::AssertEquals).requires_curated_platform_profile());
    assert!(!IntrinsicId::String(StringIntrinsic::Length).requires_curated_platform_profile());
}
