//! Checked-program vocabulary shared by semantic analysis and execution.

pub mod intrinsic;

pub use intrinsic::{
    ExceptionIntrinsic, IntrinsicId, ListIntrinsic, MapIntrinsic, MathIntrinsic,
    PlatformConstructor, PlatformIntrinsic, SetIntrinsic, StaticStringIntrinsic, StringIntrinsic,
    SystemIntrinsic,
};
