//! The runtime state of one route or query parameter: missing, present
//! but unparseable, or a parsed value.

use vstd::prelude::*;
use vstd::string::StringExecFns;

verus! {

/// Holds the parsed state of a route or query parameter.
#[derive(Debug, PartialEq, Clone, Eq)]
pub enum ParamValue<T> {
    /// The parameter was not found or is an empty string.
    Missing,
    /// A value was present but failed to parse; the string is the raw value.
    ParseError(String),
    /// A successfully parsed value.
    Value(T),
}

impl<T> ParamValue<T> {
    /// The parsed value, if there is one.
    pub fn ok(self) -> (r: Option<T>)
        ensures
            r == (match self {
                ParamValue::Value(v) => Some(v),
                ParamValue::Missing => None::<T>,
                ParamValue::ParseError(_) => None::<T>,
            }),
    {
        match self {
            ParamValue::Value(v) => Some(v),
            ParamValue::Missing => None,
            ParamValue::ParseError(_) => None,
        }
    }

    /// The parsed value, or `default` when missing or unparseable.
    pub fn unwrap_or(self, default: T) -> (r: T)
        ensures
            r == (match self {
                ParamValue::Value(v) => v,
                ParamValue::Missing => default,
                ParamValue::ParseError(_) => default,
            }),
    {
        match self {
            ParamValue::Value(v) => v,
            ParamValue::Missing => default,
            ParamValue::ParseError(_) => default,
        }
    }
}

/// A parameter-related failure: the parameter was absent, or its raw text
/// did not parse.
#[derive(Debug)]
pub enum ParamError {
    /// A parameter with the given name was missing or empty.
    Missing(&'static str),
    /// A parameter could not be parsed; the string is the raw value.
    ParseError(String),
}

impl ParamError {
    /// Render the error as the human-readable message it stands for.
    pub fn message(&self) -> (r: String)
        ensures
            r@ == (match self {
                ParamError::Missing(name) => "missing param: "@ + name@,
                ParamError::ParseError(raw) => "failed to parse param: "@ + raw@,
            }),
    {
        match self {
            ParamError::Missing(name) => {
                let mut s = String::new();
                s.append("missing param: ");
                s.append(name);
                s
            },
            ParamError::ParseError(raw) => {
                let mut s = String::new();
                s.append("failed to parse param: ");
                s.append(raw.as_str());
                s
            },
        }
    }
}

} // verus!
