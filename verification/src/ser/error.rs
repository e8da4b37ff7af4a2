//! The error taxonomy of serialization.

use vstd::prelude::*;
use vstd::string::StringExecFns;

verus! {

/// Why a serialization call failed.
///
/// `Io` reports a sink failure when the rendered bytes are later handed to a
/// fallible writer; the in-memory engine itself never produces it. `Custom`
/// carries a message from a value's own description logic. The key error is
/// raised when a mapping key is not an integer, character, string or
/// enumerated unit variant's name; it is never recovered, since coercing or
/// dropping the entry would corrupt the output's meaning.
#[derive(Debug)]
pub enum SerError {
    Io(String),
    Custom(String),
    KeyMustBeStringOrNumber,
}

impl SerError {
    /// A short description of the error.
    pub fn message(&self) -> (r: String)
        ensures
            match self {
                SerError::Io(m) => r@ == "Io Error: "@ + m@,
                SerError::Custom(m) => r@ == "Custom error: "@ + m@,
                SerError::KeyMustBeStringOrNumber => r@
                    == "Object key must be a string or a number"@,
            },
    {
        match self {
            SerError::Io(m) => {
                let mut s = String::from_str("Io Error: ");
                s.append(m.as_str());
                s
            },
            SerError::Custom(m) => {
                let mut s = String::from_str("Custom error: ");
                s.append(m.as_str());
                s
            },
            SerError::KeyMustBeStringOrNumber => String::from_str(
                "Object key must be a string or a number",
            ),
        }
    }

    /// Builds the error that carries a message from the value's own logic.
    pub fn custom(msg: String) -> (r: SerError)
        ensures
            r == SerError::Custom(msg),
    {
        SerError::Custom(msg)
    }
}

} // verus!
