use vstd::prelude::*;

use crate::common::{extract, extract_spec, FromStrFilter, OperatorCodes};
use crate::errors::FilterParseError;
use crate::value::unsigned_text_value;

verus! {

/// The most results to return: `limit=N`.
#[derive(Debug, Clone, Copy, PartialEq, Eq, Structural)]
pub struct Limit(pub u64);

/// What parsing the limit from query `q` gives: the extraction error, or the
/// value of the first `limit` pair, or none.
pub open spec fn limit_spec(q: Seq<char>) -> Result<Option<Limit>, FilterParseError> {
    match extract_spec::<u64>("limit"@, q, OperatorCodes::Any) {
        Err(e) => Err(e),
        Ok(raw) => if raw.len() == 0 {
            Ok(None)
        } else {
            Ok(Some(Limit(unsigned_text_value(raw[0].1)->0 as u64)))
        },
    }
}

impl FromStrFilter<u64> for Limit {
    /// Any code: the value.
    open spec fn decodes(op: Seq<char>, v: u64, r: Result<Self, FilterParseError>) -> bool {
        r == Ok::<Limit, FilterParseError>(Limit(v))
    }

    fn from_str(_id: &str, value: u64) -> (r: Result<Self, FilterParseError>) {
        Ok(Limit(value))
    }
}

impl Limit {
    pub fn from_str(value: &str) -> (r: Result<Option<Self>, FilterParseError>)
        ensures
            r == limit_spec(value@),
    {
        let pairs = match extract::<u64>("limit", value) {
            Ok(p) => p,
            Err(e) => {
                return Err(e);
            },
        };
        if pairs.len() == 0 {
            Ok(None)
        } else {
            assert(pairs@[0].1 == pairs[0].1);
            Ok(Some(Limit(pairs[0].1)))
        }
    }
}

} // verus!
