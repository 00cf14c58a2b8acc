//! The recoverable conditions that operations on messages report.

use vstd::prelude::*;

verus! {

/// Every failure in this crate is local and recoverable: the caller gets one of
/// these values back and nothing is aborted.
#[derive(Clone, Copy, Debug, PartialEq, Eq, Structural)]
pub enum AmqpError {
    /// A value that had to be a map was of another variant.
    MapRequired,
    /// A value that had to be a list was of another variant.
    ListRequired,
    /// A map key was of a variant that the section does not admit.
    KeyTypeRequired,
    /// Body content of one variant was added while another variant was set.
    VariantConflict,
    /// The bytes are not the encoding of any message.
    DecodeFailure,
    /// A chunk index was not below the number of chunks.
    IndexOutOfRange,
}

impl AmqpError {
    /// The three shape violations: a value of the wrong variant was supplied
    /// where a map, a list or an admissible key was required.
    pub open spec fn spec_is_shape_violation(self) -> bool {
        self == AmqpError::MapRequired || self == AmqpError::ListRequired || self
            == AmqpError::KeyTypeRequired
    }

    /// Whether the error is one of the three shape violations.
    #[verifier::when_used_as_spec(spec_is_shape_violation)]
    pub fn is_shape_violation(self) -> (r: bool)
        ensures
            r == self.spec_is_shape_violation(),
    {
        match self {
            AmqpError::MapRequired | AmqpError::ListRequired | AmqpError::KeyTypeRequired => true,
            _ => false,
        }
    }

    /// The status that crosses a foreign boundary: never zero.
    pub open spec fn spec_code(self) -> i32 {
        match self {
            AmqpError::MapRequired => 1,
            AmqpError::ListRequired => 2,
            AmqpError::KeyTypeRequired => 3,
            AmqpError::VariantConflict => 4,
            AmqpError::DecodeFailure => 5,
            AmqpError::IndexOutOfRange => 6,
        }
    }

    /// The status that stands for the error where only a number can be handed
    /// back.
    #[verifier::when_used_as_spec(spec_code)]
    pub fn code(self) -> (r: i32)
        ensures
            r == self.spec_code(),
            r != 0,
    {
        match self {
            AmqpError::MapRequired => 1,
            AmqpError::ListRequired => 2,
            AmqpError::KeyTypeRequired => 3,
            AmqpError::VariantConflict => 4,
            AmqpError::DecodeFailure => 5,
            AmqpError::IndexOutOfRange => 6,
        }
    }
}

} // verus!
