use vstd::prelude::*;

use crate::common::{extract_spec, OperatorCodes};
use crate::equal_filter::{equal_parse, EqualFilter};
use crate::errors::FilterParseError;
use crate::filter_id::FilterId;
use crate::number_filter::{number_parse, NumberFilters};
use crate::query_filter::{directives_error, directives_parse, parse_directives, FromQueryFilter};
use crate::string_filter::{string_parse, StringFilters};

verus! {

/// Which filter family a declared field is parsed with.
#[derive(Debug, Clone, Copy, PartialEq, Eq, Structural)]
pub enum FieldKind {
    /// Numeric comparisons on `i64` values.
    Number,
    /// String comparisons on text.
    Text,
    /// Equality on a `bool`.
    EqualBool,
    /// Equality on an `i64`.
    EqualInt,
    /// Equality on text.
    EqualText,
}

/// One declared field of a filter set.
#[derive(Debug, Clone)]
pub struct FieldDecl {
    /// The field's name, its key in the query.
    pub name: String,
    pub kind: FieldKind,
    /// A scope (a table) for this field alone.
    pub table: Option<String>,
    /// The name the field is emitted under; it takes effect with a `table`.
    pub alias: Option<String>,
    /// Not parsed: the field holds its kind's empty filter.
    pub skip: bool,
}

/// A declared filter set: an optional scope for the whole set, and its fields
/// in order.
#[derive(Debug, Clone)]
pub struct FilterSchema {
    pub table: Option<String>,
    pub fields: Vec<FieldDecl>,
}

/// The parsed filter of one declared field.
#[derive(Debug, Clone, PartialEq)]
pub enum FieldFilter {
    Number(NumberFilters<i64>),
    Text(StringFilters<String>),
    EqualBool(EqualFilter<bool>),
    EqualInt(EqualFilter<i64>),
    EqualText(EqualFilter<String>),
}

/// The identifier of declared field `d`: scoped (and aliased, where an alias
/// is declared) when the field declares a table, else its bare name.
pub open spec fn field_id(d: FieldDecl) -> FilterId {
    match d.table {
        Some(t) => match d.alias {
            Some(a) => FilterId::WithPrefixAndAlias(t, d.name, a),
            None => FilterId::WithPrefix(t, d.name),
        },
        None => FilterId::Alone(d.name),
    }
}

/// The error that parsing a field of kind `kind` named `id` from query `q`
/// gives, if any.
pub open spec fn kind_error(kind: FieldKind, id: Seq<char>, q: Seq<char>) -> Option<FilterParseError> {
    let r = match kind {
        FieldKind::Number => extract_spec::<i64>(id, q, OperatorCodes::Number),
        FieldKind::Text => extract_spec::<String>(id, q, OperatorCodes::Text),
        FieldKind::EqualBool => extract_spec::<bool>(id, q, OperatorCodes::Any),
        FieldKind::EqualInt => extract_spec::<i64>(id, q, OperatorCodes::Any),
        FieldKind::EqualText => extract_spec::<String>(id, q, OperatorCodes::Any),
    };
    match r {
        Err(e) => Some(e),
        Ok(_) => None,
    }
}

/// The error that declared field `d` gives on query `q`, if any; a skipped
/// field gives none.
pub open spec fn decl_error(d: FieldDecl, q: Seq<char>) -> Option<FilterParseError> {
    if d.skip {
        None
    } else {
        kind_error(d.kind, field_id(d).spec_id(), q)
    }
}

/// The first error among the fields `ds` on query `q`, in declaration order.
pub open spec fn fields_error(ds: Seq<FieldDecl>, q: Seq<char>) -> Option<FilterParseError>
    decreases ds.len(),
{
    if ds.len() == 0 {
        None
    } else {
        match fields_error(ds.drop_last(), q) {
            Some(e) => Some(e),
            None => decl_error(ds.last(), q),
        }
    }
}

impl FieldFilter {
    /// Whether `self` is the empty filter of kind `kind`.
    pub open spec fn is_empty_of(self, kind: FieldKind) -> bool {
        match (kind, self) {
            (FieldKind::Number, FieldFilter::Number(f)) => f.0@.len() == 0 && f.1 is None,
            (FieldKind::Text, FieldFilter::Text(f)) => f.0@.len() == 0 && f.1 is None,
            (FieldKind::EqualBool, FieldFilter::EqualBool(f)) => f.0 is None && f.1 is None,
            (FieldKind::EqualInt, FieldFilter::EqualInt(f)) => f.0 is None && f.1 is None,
            (FieldKind::EqualText, FieldFilter::EqualText(f)) => f.0 is None && f.1 is None,
            _ => false,
        }
    }

    /// Whether `self` is what parsing a field of kind `kind` located by `id`
    /// from query `q` gives, where that parse succeeds.
    pub open spec fn parsed_from(self, kind: FieldKind, id: FilterId, q: Seq<char>) -> bool {
        match (kind, self) {
            (FieldKind::Number, FieldFilter::Number(f)) => number_parse::<i64>(
                id.spec_id(),
                q,
                Ok(f.0@),
            ) && f.1 == Some(id),
            (FieldKind::Text, FieldFilter::Text(f)) => string_parse::<String>(
                id.spec_id(),
                q,
                Ok(f.0@),
            ) && f.1 == Some(id),
            (FieldKind::EqualBool, FieldFilter::EqualBool(f)) => equal_parse::<bool>(
                id.spec_id(),
                q,
                Ok(f.0),
            ) && f.1 == Some(id),
            (FieldKind::EqualInt, FieldFilter::EqualInt(f)) => equal_parse::<i64>(
                id.spec_id(),
                q,
                Ok(f.0),
            ) && f.1 == Some(id),
            (FieldKind::EqualText, FieldFilter::EqualText(f)) => equal_parse::<String>(
                id.spec_id(),
                q,
                Ok(f.0),
            ) && f.1 == Some(id),
            _ => false,
        }
    }
}

/// Whether `f` is what declared field `d` gives on query `q`, where it
/// succeeds.
pub open spec fn field_parsed(d: FieldDecl, q: Seq<char>, f: FieldFilter) -> bool {
    if d.skip {
        f.is_empty_of(d.kind)
    } else {
        f.parsed_from(d.kind, field_id(d), q)
    }
}

/// `r` is what parsing the fields `ds` from query `q` gives: the first
/// field's error, or one filter per field, in declaration order.
pub open spec fn fields_parse(
    ds: Seq<FieldDecl>,
    q: Seq<char>,
    r: Result<Seq<FieldFilter>, FilterParseError>,
) -> bool {
    match fields_error(ds, q) {
        Some(e) => r == Err::<Seq<FieldFilter>, FilterParseError>(e),
        None => r matches Ok(fs) && fs.len() == ds.len() && forall|i: int|
            0 <= i < ds.len() ==> #[trigger] field_parsed(ds[i], q, fs[i]),
    }
}

/// The view of a parse result of a list of field filters.
pub open spec fn fields_view(r: Result<Vec<FieldFilter>, FilterParseError>) -> Result<
    Seq<FieldFilter>,
    FilterParseError,
> {
    match r {
        Ok(v) => Ok(v@),
        Err(e) => Err(e),
    }
}

fn copy_text(s: &Option<String>) -> (r: Option<String>)
    ensures
        r == *s,
{
    match s {
        Some(t) => Some(t.clone()),
        None => None,
    }
}

impl FieldDecl {
    /// The identifier that locates this field and names it when emitted.
    pub fn filter_id(&self) -> (r: FilterId)
        ensures
            r == field_id(*self),
    {
        let name = self.name.clone();
        match copy_text(&self.table) {
            Some(t) => match copy_text(&self.alias) {
                Some(a) => FilterId::WithPrefixAndAlias(t, name, a),
                None => FilterId::WithPrefix(t, name),
            },
            None => FilterId::Alone(name),
        }
    }

    /// The empty filter of this field's kind.
    pub fn empty_filter(&self) -> (r: FieldFilter)
        ensures
            r.is_empty_of(self.kind),
    {
        match self.kind {
            FieldKind::Number => FieldFilter::Number(NumberFilters(Vec::new(), None)),
            FieldKind::Text => FieldFilter::Text(StringFilters(Vec::new(), None)),
            FieldKind::EqualBool => FieldFilter::EqualBool(EqualFilter(None, None)),
            FieldKind::EqualInt => FieldFilter::EqualInt(EqualFilter(None, None)),
            FieldKind::EqualText => FieldFilter::EqualText(EqualFilter(None, None)),
        }
    }

    /// Parses this field from query `value`; a skipped field is not read and
    /// holds its kind's empty filter.
    pub fn parse(&self, value: &str) -> (r: Result<FieldFilter, FilterParseError>)
        ensures
            match r {
                Ok(f) => decl_error(*self, value@) is None && field_parsed(*self, value@, f),
                Err(e) => decl_error(*self, value@) == Some(e),
            },
    {
        if self.skip {
            return Ok(self.empty_filter());
        }
        let id = self.filter_id();
        match self.kind {
            FieldKind::Number => match NumberFilters::<i64>::from_id_value(id, value) {
                Ok(f) => Ok(FieldFilter::Number(f)),
                Err(e) => Err(e),
            },
            FieldKind::Text => match StringFilters::<String>::from_id_value(id, value) {
                Ok(f) => Ok(FieldFilter::Text(f)),
                Err(e) => Err(e),
            },
            FieldKind::EqualBool => match EqualFilter::<bool>::from_id_value(id, value) {
                Ok(f) => Ok(FieldFilter::EqualBool(f)),
                Err(e) => Err(e),
            },
            FieldKind::EqualInt => match EqualFilter::<i64>::from_id_value(id, value) {
                Ok(f) => Ok(FieldFilter::EqualInt(f)),
                Err(e) => Err(e),
            },
            FieldKind::EqualText => match EqualFilter::<String>::from_id_value(id, value) {
                Ok(f) => Ok(FieldFilter::EqualText(f)),
                Err(e) => Err(e),
            },
        }
    }
}

/// The first error of a whole query `q` against schema `s`: the directives'
/// first, then the fields'.
pub open spec fn query_error(s: FilterSchema, q: Seq<char>) -> Option<FilterParseError> {
    match directives_error(q) {
        Some(e) => Some(e),
        None => fields_error(s.fields@, q),
    }
}

impl FilterSchema {
    pub open spec fn spec_scope(&self) -> Option<Seq<char>> {
        match self.table {
            Some(t) => Some(t@),
            None => None,
        }
    }

    /// The scope the whole set declares.
    pub fn filter_id(&self) -> (r: Option<&str>)
        ensures
            match r {
                Some(t) => self.table matches Some(u) && t@ == u@,
                None => self.table is None,
            },
    {
        match &self.table {
            Some(t) => Some(t.as_str()),
            None => None,
        }
    }

    /// Parses every declared field from query `value`, in declaration order,
    /// stopping at the first error.
    pub fn parse_fields(&self, value: &str) -> (r: Result<Vec<FieldFilter>, FilterParseError>)
        ensures
            fields_parse(self.fields@, value@, fields_view(r)),
    {
        let mut out: Vec<FieldFilter> = Vec::new();
        let mut i: usize = 0;
        while i < self.fields.len()
            invariant
                i <= self.fields.len(),
                fields_error(self.fields@.take(i as int), value@) is None,
                out.len() == i,
                forall|j: int| 0 <= j < i ==> #[trigger] field_parsed(self.fields@[j], value@, out@[j]),
            decreases self.fields.len() - i,
        {
            let ghost ds = self.fields@.take(i + 1);
            assert(ds.drop_last() =~= self.fields@.take(i as int));
            match self.fields[i].parse(value) {
                Ok(f) => {
                    out.push(f);
                },
                Err(e) => {
                    proof {
                        lemma_fields_error_persists(self.fields@, value@, i + 1);
                    }
                    return Err(e);
                },
            }
            i = i + 1;
        }
        assert(self.fields@.take(i as int) =~= self.fields@);
        Ok(out)
    }

    /// Parses a whole query against this schema: the sort (under the
    /// schema's scope), the limit, the skip, then the declared fields.
    pub fn parse_query(&self, value: &str) -> (r: Result<
        FromQueryFilter<Vec<FieldFilter>>,
        FilterParseError,
    >)
        ensures
            match r {
                Ok(f) => query_error(*self, value@) is None && directives_parse(
                    value@,
                    self.spec_scope(),
                    Ok((f.order_by, f.limit, f.skip)),
                ) && fields_parse(self.fields@, value@, Ok(f.inner@)),
                Err(e) => query_error(*self, value@) == Some(e),
            },
    {
        let (order_by, limit, skip) = match parse_directives(self.filter_id(), value) {
            Ok(d) => d,
            Err(e) => {
                return Err(e);
            },
        };
        let inner = match self.parse_fields(value) {
            Ok(v) => v,
            Err(e) => {
                return Err(e);
            },
        };
        Ok(FromQueryFilter { inner, order_by, limit, skip })
    }
}

/// Once the first fields give an error, all of them give it.
proof fn lemma_fields_error_persists(ds: Seq<FieldDecl>, q: Seq<char>, m: int)
    requires
        0 <= m <= ds.len(),
        fields_error(ds.take(m), q) is Some,
    ensures
        fields_error(ds, q) == fields_error(ds.take(m), q),
    decreases ds.len(),
{
    if m == ds.len() {
        assert(ds.take(m) =~= ds);
    } else {
        let t = ds.drop_last();
        assert(t.take(m) =~= ds.take(m));
        lemma_fields_error_persists(t, q, m);
    }
}

} // verus!
