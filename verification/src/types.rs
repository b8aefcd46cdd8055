//! Raw type codes of the engine's C interface, and the error type every
//! fallible operation of this crate reports.

use vstd::prelude::*;

verus! {

/// Raw code for the kind of device that holds a tensor.
pub type LiteDeviceType = u32;

/// Raw code for the element type of a tensor.
pub type LiteDataType = u32;

/// Raw code for an algorithm-selection strategy.
pub type LiteAlgoSelectStrategy = u32;

/// Raw code for the role of a network input or output.
pub type LiteIOType = u32;

/// The result type of every fallible operation of this crate.
pub type LiteResult<T> = Result<T, LiteError>;

/// A error type
#[derive(Debug)]
pub enum LiteError {
    /// An engine error with a description
    MGELiteError(String),
    /// Dynamic library cannot be loaded
    LoadingFault,
    /// The version is not match
    VersionNotMatch(String),
}

/// A type to describe device
#[non_exhaustive]
pub struct DeviceType;

impl DeviceType {
    pub const CPU: LiteDeviceType = 0;
    pub const CUDA: LiteDeviceType = 1;
    pub const NPU: LiteDeviceType = 2;
    pub const ATLAS: LiteDeviceType = 3;
    pub const CAMBRICON: LiteDeviceType = 4;
    pub const DEFAULT: LiteDeviceType = 5;
}

/// A type to describe data
#[non_exhaustive]
pub struct DataType;

impl DataType {
    pub const F32: LiteDataType = 0;
    pub const F16: LiteDataType = 1;
    pub const I32: LiteDataType = 2;
    pub const I16: LiteDataType = 3;
    pub const I8: LiteDataType = 4;
    pub const U32: LiteDataType = 5;
    pub const U8: LiteDataType = 6;
    pub const U16: LiteDataType = 7;
    pub const I64: LiteDataType = 8;
}

/// Whether `ty` is one of the element-type codes this crate knows.
pub open spec fn is_known_data_type(ty: LiteDataType) -> bool {
    ty == DataType::F32 || ty == DataType::F16 || ty == DataType::I32 || ty == DataType::I16
        || ty == DataType::I8 || ty == DataType::U32 || ty == DataType::U8 || ty == DataType::U16
        || ty == DataType::I64
}

/// The width in bytes of one element of type `ty`.
pub open spec fn spec_width(ty: LiteDataType) -> usize {
    if ty == DataType::F32 || ty == DataType::I32 || ty == DataType::U32 {
        4usize
    } else if ty == DataType::F16 || ty == DataType::I16 || ty == DataType::U16 {
        2usize
    } else if ty == DataType::I64 {
        8usize
    } else {
        1usize
    }
}

impl DataType {
    /// The size in bytes of one element of type `ty`.
    pub fn width(ty: LiteDataType) -> (r: usize)
        requires
            is_known_data_type(ty),
        ensures
            r == spec_width(ty),
    {
        if ty == Self::F32 || ty == Self::I32 || ty == Self::U32 {
            4
        } else if ty == Self::F16 || ty == Self::I16 || ty == Self::U16 {
            2
        } else if ty == Self::I64 {
            8
        } else {
            1
        }
    }
}

/// A type to describe fastrun strategy
#[non_exhaustive]
pub struct AlgoSelectStrategy;

impl AlgoSelectStrategy {
    pub const HEURISTIC: LiteAlgoSelectStrategy = 0;
    pub const PROFILE: LiteAlgoSelectStrategy = 1;
    pub const REPRODUCIBLE: LiteAlgoSelectStrategy = 2;
    pub const OPTIMIZED: LiteAlgoSelectStrategy = 3;
}

/// A type to describe network's input and output
#[non_exhaustive]
pub struct IOType;

impl IOType {
    pub const VALUE: LiteIOType = 0;
    pub const SHAPE: LiteIOType = 1;
}

/// Turns an engine status code into a result: zero is success, any other code
/// is an engine error carrying the given description.
pub fn code_to_result(code: i32, descp: String) -> (r: LiteResult<()>)
    ensures
        code == 0 <==> r is Ok,
        code != 0 ==> r == LiteResult::<()>::Err(LiteError::MGELiteError(descp)),
{
    if code == 0 {
        Ok(())
    } else {
        Err(LiteError::MGELiteError(descp))
    }
}

/// Conversion of an engine status code into a result.
pub trait IntoLiteRst {
    fn into_rst(self) -> LiteResult<()>;
}

impl IntoLiteRst for i32 {
    fn into_rst(self) -> LiteResult<()> {
        code_to_result(self, String::new())
    }
}

} // verus!
