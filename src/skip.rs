use vstd::prelude::*;

use crate::common::{extract, extract_spec, FromStrFilter, OperatorCodes};
use crate::errors::FilterParseError;
use crate::value::unsigned_text_value;

verus! {

/// How many results to pass over: `skip=N`.
#[derive(Debug, Clone, Copy, PartialEq, Eq, Structural)]
pub struct Skip(pub u64);

/// What parsing the offset from query `q` gives: the extraction error, or the
/// value of the first `skip` pair, or none.
pub open spec fn skip_spec(q: Seq<char>) -> Result<Option<Skip>, FilterParseError> {
    match extract_spec::<u64>("skip"@, q, OperatorCodes::Any) {
        Err(e) => Err(e),
        Ok(raw) => if raw.len() == 0 {
            Ok(None)
        } else {
            Ok(Some(Skip(unsigned_text_value(raw[0].1)->0 as u64)))
        },
    }
}

impl FromStrFilter<u64> for Skip {
    /// Any code: the value.
    open spec fn decodes(op: Seq<char>, v: u64, r: Result<Self, FilterParseError>) -> bool {
        r == Ok::<Skip, FilterParseError>(Skip(v))
    }

    fn from_str(_id: &str, value: u64) -> (r: Result<Self, FilterParseError>) {
        Ok(Skip(value))
    }
}

impl Skip {
    pub fn from_str(value: &str) -> (r: Result<Option<Self>, FilterParseError>)
        ensures
            r == skip_spec(value@),
    {
        let pairs = match extract::<u64>("skip", value) {
            Ok(p) => p,
            Err(e) => {
                return Err(e);
            },
        };
        if pairs.len() == 0 {
            Ok(None)
        } else {
            assert(pairs@[0].1 == pairs[0].1);
            Ok(Some(Skip(pairs[0].1)))
        }
    }
}

} // verus!
