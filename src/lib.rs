//! Turns bracket-notation query strings such as
//! `age[gte]=18&age[lt]=30&order_by[desc]=age&limit=10` into typed filters:
//! numeric, string and equality comparisons per field, a sort directive and
//! pagination bounds, each parse stated and proved against a model of the
//! query grammar.

pub mod common;
pub mod equal_filter;
pub mod errors;
pub mod filter_id;
pub mod grammar;
pub mod laws;
pub mod limit;
pub mod number_filter;
pub mod order_by;
pub mod predicate;
pub mod query_filter;
pub mod schema;
pub mod skip;
pub mod string_filter;
pub mod text;
pub mod value;

pub use common::{extract, extract_codes, from_str, FromStrFilter, OperatorCodes, WithFilterId};
pub use equal_filter::EqualFilter;
pub use errors::{FilterParseError, FilterRejection};
pub use filter_id::FilterId;
pub use grammar::{query_regex, KeyCaptures};
pub use limit::Limit;
pub use number_filter::{NumberFilter, NumberFilters};
pub use order_by::OrderBy;
pub use predicate::Condition;
pub use query_filter::{parse_directives, FromQuery, FromQueryFilter};
pub use schema::{FieldDecl, FieldFilter, FieldKind, FilterSchema};
pub use skip::Skip;
pub use string_filter::{StringFilter, StringFilters};
pub use value::FilterValue;
