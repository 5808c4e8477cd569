//! Values that cross the C interface: success code, callback progression and
//! the integer codes of name errors.
#![allow(non_camel_case_types)]
use vstd::prelude::*;

use crate::named_concept::SemanticStringError;

verus! {

/// Signals a successful call.
pub const IOX2_OK: i32 = 0;

/// Whether an iteration driven by a callback goes on.
#[derive(Debug, Clone, Copy, PartialEq, Eq, Structural)]
pub enum CallbackProgression {
    Stop,
    Continue,
}

/// `CallbackProgression` as the C interface spells it.
#[derive(Debug, Clone, Copy, PartialEq, Eq, Structural)]
pub enum iox2_callback_progression_e {
    STOP,
    CONTINUE,
}

/// `SemanticStringError` as the C interface spells it.
#[derive(Debug, Clone, Copy, PartialEq, Eq, Structural)]
pub enum iox2_semantic_string_error_e {
    INVALID_CONTENT,
    EXCEEDS_MAXIMUM_LENGTH,
}

/// The progression that a C value stands for.
pub open spec fn progression_of(value: iox2_callback_progression_e) -> CallbackProgression {
    match value {
        iox2_callback_progression_e::STOP => CallbackProgression::Stop,
        iox2_callback_progression_e::CONTINUE => CallbackProgression::Continue,
    }
}

impl From<iox2_callback_progression_e> for CallbackProgression {
    fn from(value: iox2_callback_progression_e) -> (r: Self)
        ensures
            r == progression_of(value),
    {
        match value {
            iox2_callback_progression_e::STOP => CallbackProgression::Stop,
            iox2_callback_progression_e::CONTINUE => CallbackProgression::Continue,
        }
    }
}

impl vstd::std_specs::convert::FromSpecImpl<iox2_callback_progression_e> for CallbackProgression {
    open spec fn obeys_from_spec() -> bool {
        true
    }

    open spec fn from_spec(v: iox2_callback_progression_e) -> Self {
        progression_of(v)
    }
}

impl iox2_semantic_string_error_e {
    /// The integer code: codes follow the success code, in declaration order.
    pub fn as_c_int(self) -> (r: i32)
        ensures
            r == match self {
                iox2_semantic_string_error_e::INVALID_CONTENT => IOX2_OK + 1,
                iox2_semantic_string_error_e::EXCEEDS_MAXIMUM_LENGTH => IOX2_OK + 2,
            },
    {
        match self {
            iox2_semantic_string_error_e::INVALID_CONTENT => IOX2_OK + 1,
            iox2_semantic_string_error_e::EXCEEDS_MAXIMUM_LENGTH => IOX2_OK + 2,
        }
    }
}

/// The C code of a name error.
pub open spec fn semantic_string_error_code(e: SemanticStringError) -> i32 {
    match e {
        SemanticStringError::InvalidContent => 1,
        SemanticStringError::ExceedsMaximumLength => 2,
    }
}

impl SemanticStringError {
    /// The error as its C enum value.
    pub fn into_c_enum(self) -> (r: iox2_semantic_string_error_e)
        ensures
            r == match self {
                SemanticStringError::InvalidContent => iox2_semantic_string_error_e::INVALID_CONTENT,
                SemanticStringError::ExceedsMaximumLength => iox2_semantic_string_error_e::EXCEEDS_MAXIMUM_LENGTH,
            },
    {
        match self {
            SemanticStringError::InvalidContent => iox2_semantic_string_error_e::INVALID_CONTENT,
            SemanticStringError::ExceedsMaximumLength => {
                iox2_semantic_string_error_e::EXCEEDS_MAXIMUM_LENGTH
            },
        }
    }

    /// The error as a C integer: never the success code.
    pub fn into_c_int(self) -> (r: i32)
        ensures
            r == semantic_string_error_code(self),
            r != IOX2_OK,
    {
        self.into_c_enum().as_c_int()
    }
}

} // verus!
