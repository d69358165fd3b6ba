use vstd::prelude::*;

use crate::common::{extract_codes, extract_spec, lemma_codes_accepted, FromStrFilter, OperatorCodes};
use crate::errors::FilterParseError;
use crate::filter_id::FilterId;
use crate::text::same_text;

verus! {

/// A sort instruction: `order_by[asc]=field` or `order_by[desc]=field`.
#[derive(Debug, Clone, PartialEq, Eq)]
pub enum OrderBy {
    /// Ascending order.
    Asc(FilterId),
    /// Descending order.
    Desc(FilterId),
}

/// The operator codes of sort directions.
pub open spec fn is_direction_code(op: Seq<char>) -> bool {
    op == "asc"@ || op == "desc"@
}

/// The field identifier that sorting on `field` under `scope` uses.
pub open spec fn sort_id_is(id: FilterId, field: Seq<char>, scope: Option<Seq<char>>) -> bool {
    match scope {
        None => id is Alone && id.spec_id() == field,
        Some(p) => id is WithPrefix && id.spec_prefix() == Some(p) && id.spec_id() == field,
    }
}

impl OrderBy {
    pub open spec fn spec_field(self) -> FilterId {
        match self {
            OrderBy::Asc(id) => id,
            OrderBy::Desc(id) => id,
        }
    }

    /// Whether `self` sorts by direction code `op` on `field` under `scope`.
    pub open spec fn sorts(self, op: Seq<char>, field: Seq<char>, scope: Option<Seq<char>>) -> bool {
        &&& (self is Asc <==> op == "asc"@)
        &&& (self is Desc <==> op == "desc"@)
        &&& sort_id_is(self.spec_field(), field, scope)
    }

    /// Whether `op` is a sort direction.
    pub fn is_code(op: &str) -> (r: bool)
        ensures
            r == is_direction_code(op@),
    {
        same_text(op, "asc") || same_text(op, "desc")
    }

    /// The sort that code `op` names on `value`, or `UnknownFilter`.
    pub fn decode(op: &str, value: String) -> (r: Result<OrderBy, FilterParseError>)
        ensures
            is_direction_code(op@) ==> (r matches Ok(o) && o.sorts(op@, value@, None)),
            !is_direction_code(op@) ==> r == Err::<OrderBy, FilterParseError>(
                FilterParseError::UnknownFilter,
            ),
    {
        proof {
            reveal_strlit("asc");
            reveal_strlit("desc");
            assert("asc"@ != "desc"@) by {
                assert("asc"@.len() != "desc"@.len());
            }
        }
        if same_text(op, "asc") {
            Ok(OrderBy::Asc(FilterId::Alone(value)))
        } else if same_text(op, "desc") {
            Ok(OrderBy::Desc(FilterId::Alone(value)))
        } else {
            Err(FilterParseError::UnknownFilter)
        }
    }

    /// The same sort, on the same field name under scope `prefix`.
    pub fn with_prefix(self, prefix: &str) -> (r: OrderBy)
        requires
            self.spec_field() is Alone,
        ensures
            r is Asc <==> self is Asc,
            r.spec_field() is WithPrefix,
            r.spec_field().spec_prefix() == Some(prefix@),
            r.spec_field().spec_id() == self.spec_field().spec_id(),
    {
        match self {
            OrderBy::Asc(FilterId::Alone(name)) => OrderBy::Asc(
                FilterId::WithPrefix(prefix.to_owned(), name),
            ),
            OrderBy::Desc(FilterId::Alone(name)) => OrderBy::Desc(
                FilterId::WithPrefix(prefix.to_owned(), name),
            ),
            _ => self,
        }
    }
}

/// `r` is what parsing the sort from query `q` gives, its field put under
/// `scope`: the extraction error (an `order_by` code that is neither `asc`
/// nor `desc` among them), or the first `order_by` pair, or none.
pub open spec fn order_parse(
    q: Seq<char>,
    scope: Option<Seq<char>>,
    r: Result<Option<OrderBy>, FilterParseError>,
) -> bool {
    match extract_spec::<String>("order_by"@, q, OperatorCodes::Direction) {
        Err(e) => r == Err::<Option<OrderBy>, FilterParseError>(e),
        Ok(raw) => r is Ok && (raw.len() == 0 ==> r->Ok_0 is None) && (raw.len() > 0 ==> r->Ok_0
            is Some && r->Ok_0->0.sorts(raw[0].0, raw[0].1, scope)),
    }
}

impl FromStrFilter<String> for OrderBy {
    open spec fn decodes(op: Seq<char>, v: String, r: Result<Self, FilterParseError>) -> bool {
        if is_direction_code(op) {
            r matches Ok(o) && o.sorts(op, v@, None)
        } else {
            r == Err::<OrderBy, FilterParseError>(FilterParseError::UnknownFilter)
        }
    }

    fn from_str(id: &str, value: String) -> (r: Result<Self, FilterParseError>) {
        OrderBy::decode(id, value)
    }
}

impl OrderBy {
    /// Parses the sort from query `value`. Every `order_by` pair must name a
    /// direction; the first one is kept.
    pub fn from_str(value: &str) -> (r: Result<Option<Self>, FilterParseError>)
        ensures
            order_parse(value@, None, r),
    {
        let pairs = match extract_codes::<String>("order_by", value, OperatorCodes::Direction) {
            Ok(p) => p,
            Err(e) => {
                return Err(e);
            },
        };
        if pairs.len() == 0 {
            return Ok(None);
        }
        proof {
            lemma_codes_accepted::<String>("order_by"@, value@, OperatorCodes::Direction);
        }
        let ghost raw = extract_spec::<String>("order_by"@, value@, OperatorCodes::Direction)->Ok_0;
        assert(pairs@[0].0@ == raw[0].0 && pairs@[0].1@ == raw[0].1);
        assert(is_direction_code(raw[0].0));
        match OrderBy::decode(pairs[0].0.as_str(), pairs[0].1.clone()) {
            Ok(o) => Ok(Some(o)),
            Err(e) => Err(e),
        }
    }

    /// Parses the sort from query `value` and puts its field under scope
    /// `prefix`.
    pub fn from_str_prefix(prefix: &str, value: &str) -> (r: Result<Option<Self>, FilterParseError>)
        ensures
            order_parse(value@, Some(prefix@), r),
    {
        match Self::from_str(value) {
            Err(e) => Err(e),
            Ok(None) => Ok(None),
            Ok(Some(o)) => Ok(Some(o.with_prefix(prefix))),
        }
    }
}

} // verus!
