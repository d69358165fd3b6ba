use vstd::prelude::*;

verus! {

/// Why a query string could not be turned into filters.
#[derive(Debug, Clone, Copy, PartialEq, Eq, Structural)]
pub enum FilterParseError {
    /// A pair has no `=`, or its key does not follow the key grammar.
    FilterStructure,
    /// A value does not convert to the field's scalar type.
    Value,
    /// An operator code is not one the filter family knows.
    UnknownFilter,
}

impl FilterParseError {
    /// The human-readable description of the error.
    pub fn message(&self) -> (r: &'static str)
        ensures
            *self == FilterParseError::FilterStructure ==> r@ == "invalid filter structure"@,
            *self == FilterParseError::Value ==> r@ == "invalid filter value"@,
            *self == FilterParseError::UnknownFilter ==> r@ == "unknown filter"@,
    {
        match self {
            FilterParseError::FilterStructure => "invalid filter structure",
            FilterParseError::Value => "invalid filter value",
            FilterParseError::UnknownFilter => "unknown filter",
        }
    }
}

/// A request refused because its query string did not parse; it is answered
/// with status 400 and the error's message.
#[derive(Debug, Clone, Copy, PartialEq, Eq, Structural)]
pub struct FilterRejection(pub FilterParseError);

impl FilterRejection {
    /// The HTTP status of the answer.
    pub fn status_code(&self) -> (r: u16)
        ensures
            r == 400,
    {
        400
    }
}

} // verus!
