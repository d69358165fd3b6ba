use vstd::prelude::*;

use crate::common::{extract, extract_spec, FromStrFilter, OperatorCodes};
use crate::errors::FilterParseError;
use crate::filter_id::FilterId;
use crate::value::FilterValue;

verus! {

/// "The field equals this value": at most one value, the last one the query
/// gives for the field.
#[derive(Debug, Clone, PartialEq, Eq)]
pub struct EqualFilter<T>(pub Option<T>, pub Option<FilterId>);

impl<T> Default for EqualFilter<T> {
    fn default() -> (r: Self)
        ensures
            r.0 is None,
            r.1 is None,
    {
        EqualFilter(None, None)
    }
}

/// `r` is what parsing an equality on field `id` from query `q` gives: the
/// extraction error, or the value of the last pair of the field, whatever its
/// operator code, or none where the field has no pair.
pub open spec fn equal_parse<T: FilterValue>(
    id: Seq<char>,
    q: Seq<char>,
    r: Result<Option<T>, FilterParseError>,
) -> bool {
    match extract_spec::<T>(id, q, OperatorCodes::Any) {
        Err(e) => r == Err::<Option<T>, FilterParseError>(e),
        Ok(raw) => r is Ok && (raw.len() == 0 ==> r->Ok_0 is None) && (raw.len() > 0 ==> r->Ok_0
            is Some && T::is_value_of(raw.last().1, r->Ok_0->0)),
    }
}

impl<T> EqualFilter<T> {
    /// The value of a parse result.
    pub open spec fn result_view(r: Result<Self, FilterParseError>) -> Result<
        Option<T>,
        FilterParseError,
    > {
        match r {
            Ok(f) => Ok(f.0),
            Err(e) => Err(e),
        }
    }

    pub fn into_inner(self) -> (r: Option<T>)
        ensures
            r == self.0,
    {
        self.0
    }

    pub fn as_ref(&self) -> (r: Option<&T>)
        ensures
            match r {
                Some(v) => self.0 == Some(*v),
                None => self.0 is None,
            },
    {
        match &self.0 {
            Some(v) => Some(v),
            None => None,
        }
    }
}

impl<T> FromStrFilter<T> for EqualFilter<T> {
    /// Any code: the value, under an empty identifier.
    open spec fn decodes(op: Seq<char>, v: T, r: Result<Self, FilterParseError>) -> bool {
        r matches Ok(f) && f.0 == Some(v) && (f.1 matches Some(FilterId::Alone(id)) && id@.len() == 0)
    }

    fn from_str(_filter_key: &str, value: T) -> (r: Result<Self, FilterParseError>) {
        // any operator code means equality here
        Ok(EqualFilter(Some(value), Some(FilterId::Alone(String::new()))))
    }
}

impl<T: FilterValue> EqualFilter<T> {
    /// Parses the equality on field `search_id` from query `value`.
    pub fn from_str(search_id: &str, value: &str) -> (r: Result<Self, FilterParseError>)
        ensures
            equal_parse::<T>(search_id@, value@, Self::result_view(r)),
            r matches Ok(f) ==> (f.1 matches Some(FilterId::Alone(id)) && id@ == search_id@),
    {
        Self::from_id_value(FilterId::Alone(search_id.to_owned()), value)
    }

    /// Parses the equality on the field that `search_id` locates from query
    /// `value`.
    pub fn from_id_value(search_id: FilterId, value: &str) -> (r: Result<Self, FilterParseError>)
        ensures
            equal_parse::<T>(search_id.spec_id(), value@, Self::result_view(r)),
            r matches Ok(f) ==> f.1 == Some(search_id),
    {
        let pairs = match extract::<T>(search_id.id(), value) {
            Ok(p) => p,
            Err(e) => {
                return Err(e);
            },
        };
        let n = pairs.len();
        if n == 0 {
            Ok(EqualFilter(None, Some(search_id)))
        } else {
            let v = pairs[n - 1].1.duplicate();
            assert(pairs@[n - 1].1 == v);
            Ok(EqualFilter(Some(v), Some(search_id)))
        }
    }
}

} // verus!
