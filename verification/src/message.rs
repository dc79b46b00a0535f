//! Errors of converting a message from one signal type to another.

use vstd::prelude::*;

verus! {

/// A message could not be converted to the requested type.
#[derive(Debug, Clone, Copy, PartialEq, Eq, Structural)]
pub enum MessageConversionError {
    /// The message cannot be converted to a boolean.
    CannotConvertToBool,
    /// The message cannot be converted to an integer.
    CannotConvertToInt,
    /// The message cannot be converted to a float.
    CannotConvertToFloat,
    /// The message cannot be converted to a string.
    CannotConvertToString,
    /// The message cannot be converted to a list.
    CannotConvertToList,
    /// The message cannot be converted to a MIDI message.
    CannotConvertToMidi,
}

impl MessageConversionError {
    /// The description of the error.
    pub open spec fn message_spec(self) -> Seq<char> {
        match self {
            MessageConversionError::CannotConvertToBool => "Cannot convert message to boolean"@,
            MessageConversionError::CannotConvertToInt => "Cannot convert message to integer"@,
            MessageConversionError::CannotConvertToFloat => "Cannot convert message to float"@,
            MessageConversionError::CannotConvertToString => "Cannot convert message to string"@,
            MessageConversionError::CannotConvertToList => "Cannot convert message to list"@,
            MessageConversionError::CannotConvertToMidi => "Cannot convert message to MIDI"@,
        }
    }

    /// Returns a description of the error.
    pub fn message(&self) -> (r: &'static str)
        ensures
            r@ == self.message_spec(),
    {
        match self {
            MessageConversionError::CannotConvertToBool => "Cannot convert message to boolean",
            MessageConversionError::CannotConvertToInt => "Cannot convert message to integer",
            MessageConversionError::CannotConvertToFloat => "Cannot convert message to float",
            MessageConversionError::CannotConvertToString => "Cannot convert message to string",
            MessageConversionError::CannotConvertToList => "Cannot convert message to list",
            MessageConversionError::CannotConvertToMidi => "Cannot convert message to MIDI",
        }
    }
}

} // verus!
