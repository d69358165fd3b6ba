use vstd::prelude::*;

use crate::common::{extract_spec, opt_view, OperatorCodes, WithFilterId};
use crate::errors::FilterParseError;
use crate::limit::{limit_spec, Limit};
use crate::order_by::{order_parse, OrderBy};
use crate::skip::{skip_spec, Skip};

verus! {

/// A set of field filters read from a whole query string.
///
/// `parses(s, r)` says that `r` is what reading query `s` gives. An
/// implementation that does not define it promises nothing of its result.
pub trait FromQuery: Sized {
    open spec fn parses(s: Seq<char>, r: Result<Self, FilterParseError>) -> bool {
        true
    }

    fn from_query(s: &str) -> (r: Result<Self, FilterParseError>)
        ensures
            Self::parses(s@, r),
    ;
}

/// A parsed request: the caller's field filters, and the sort and pagination
/// directives.
#[derive(Debug, Clone)]
pub struct FromQueryFilter<T> {
    /// The field filters.
    pub inner: T,
    /// The sort instruction, if present.
    pub order_by: Option<OrderBy>,
    /// The most results to return, if present.
    pub limit: Option<Limit>,
    /// How many results to pass over, if present.
    pub skip: Option<Skip>,
}

/// The first error among the sort, limit and skip directives of query `q`,
/// read in that order.
pub open spec fn directives_error(q: Seq<char>) -> Option<FilterParseError> {
    match extract_spec::<String>("order_by"@, q, OperatorCodes::Direction) {
        Err(e) => Some(e),
        Ok(_) => match limit_spec(q) {
            Err(e) => Some(e),
            Ok(_) => match skip_spec(q) {
                Err(e) => Some(e),
                Ok(_) => None,
            },
        },
    }
}

/// `r` is what parsing the directives of query `q`, the sort put under
/// `scope`, gives.
pub open spec fn directives_parse(
    q: Seq<char>,
    scope: Option<Seq<char>>,
    r: Result<(Option<OrderBy>, Option<Limit>, Option<Skip>), FilterParseError>,
) -> bool {
    match directives_error(q) {
        Some(e) => r == Err::<(Option<OrderBy>, Option<Limit>, Option<Skip>), FilterParseError>(e),
        None => r matches Ok((o, l, s)) && order_parse(q, scope, Ok(o)) && Ok::<
            Option<Limit>,
            FilterParseError,
        >(l) == limit_spec(q) && Ok::<Option<Skip>, FilterParseError>(s) == skip_spec(q),
    }
}

/// Parses the sort (put under `scope` where there is one), the limit and the
/// skip of query `value`, in that order, stopping at the first error.
pub fn parse_directives(scope: Option<&str>, value: &str) -> (r: Result<
    (Option<OrderBy>, Option<Limit>, Option<Skip>),
    FilterParseError,
>)
    ensures
        directives_parse(value@, opt_view(scope), r),
{
    let order_by = match scope {
        Some(prefix) => OrderBy::from_str_prefix(prefix, value),
        None => OrderBy::from_str(value),
    };
    let order_by = match order_by {
        Ok(o) => o,
        Err(e) => {
            return Err(e);
        },
    };
    let limit = match Limit::from_str(value) {
        Ok(l) => l,
        Err(e) => {
            return Err(e);
        },
    };
    let skip = match Skip::from_str(value) {
        Ok(s) => s,
        Err(e) => {
            return Err(e);
        },
    };
    Ok((order_by, limit, skip))
}

/// `r` is what parsing query `q` with field filters `T` gives: the first
/// directive error; else `T`'s own error, or the directives with the sort
/// under the scope that `T` declares, and `T`'s filters read from `q`.
pub open spec fn query_parsed<T: FromQuery + WithFilterId>(
    q: Seq<char>,
    r: Result<FromQueryFilter<T>, FilterParseError>,
) -> bool {
    match directives_error(q) {
        Some(e) => r == Err::<FromQueryFilter<T>, FilterParseError>(e),
        None => match r {
            Err(e) => T::parses(q, Err::<T, FilterParseError>(e)),
            Ok(f) => {
                &&& T::parses(q, Ok::<T, FilterParseError>(f.inner))
                &&& exists|scope: Option<Seq<char>>|
                    #[trigger] T::declares_scope(scope) && order_parse(q, scope, Ok(f.order_by))
                &&& limit_spec(q) == Ok::<Option<Limit>, FilterParseError>(f.limit)
                &&& skip_spec(q) == Ok::<Option<Skip>, FilterParseError>(f.skip)
            },
        },
    }
}

impl<T: FromQuery + WithFilterId> FromQueryFilter<T> {
    /// Parses a query string: the sort (under the scope that `T` declares),
    /// the limit, the skip, then `T`'s own filters, all from the same string.
    /// The first error ends the parse.
    pub fn from_str(value: &str) -> (r: Result<Self, FilterParseError>)
        ensures
            query_parsed::<T>(value@, r),
    {
        let scope = T::filter_id();
        let (order_by, limit, skip) = match parse_directives(scope, value) {
            Ok(d) => d,
            Err(e) => {
                return Err(e);
            },
        };
        assert(order_parse(value@, opt_view(scope), Ok(order_by)));
        let inner = match T::from_query(value) {
            Ok(i) => i,
            Err(e) => {
                return Err(e);
            },
        };
        Ok(FromQueryFilter { inner, order_by, limit, skip })
    }
}

impl<T: Default> FromQueryFilter<T> {
    /// No directives, and `T`'s default filters.
    pub fn empty() -> (r: Self)
        ensures
            r.order_by is None,
            r.limit is None,
            r.skip is None,
    {
        FromQueryFilter { inner: T::default(), order_by: None, limit: None, skip: None }
    }
}

impl<T> FromQueryFilter<T> {
    /// `inner`, with no directives.
    pub fn from_inner(inner: T) -> (r: Self)
        ensures
            r.inner == inner,
            r.order_by is None,
            r.limit is None,
            r.skip is None,
    {
        FromQueryFilter { inner, order_by: None, limit: None, skip: None }
    }
}

} // verus!
