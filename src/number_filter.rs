use vstd::prelude::*;

use crate::common::{
    extract_codes, extract_spec, lemma_codes_accepted, lemma_split_count, lemma_split_once,
    single_separator, split_on, FromStrFilter, OperatorCodes,
};
use crate::errors::FilterParseError;
use crate::filter_id::FilterId;
use crate::text::{chars_of, same_text, text_between};
use crate::value::FilterValue;

verus! {

/// One numeric comparison.
#[derive(Clone, Copy, Debug, PartialEq, Eq, PartialOrd, Ord)]
pub enum NumberFilter<T> {
    /// Equal: `field[eq]=10`, or `field=10`.
    Eq(T),
    /// Not equal: `field[ne]=10`.
    Ne(T),
    /// Greater than: `field[gt]=10`.
    Gt(T),
    /// Less than: `field[lt]=10`.
    Lt(T),
    /// Greater than or equal: `field[gte]=10`.
    Gte(T),
    /// Less than or equal: `field[lte]=10`.
    Lte(T),
}

/// The operator codes of numeric comparisons.
pub open spec fn is_number_code(op: Seq<char>) -> bool {
    op == "eq"@ || op == "ne"@ || op == "gt"@ || op == "lt"@ || op == "gte"@ || op == "lte"@
}

/// The comparison that a known code `op` names, on `v`.
pub open spec fn number_filter_of<T>(op: Seq<char>, v: T) -> NumberFilter<T> {
    if op == "eq"@ {
        NumberFilter::Eq(v)
    } else if op == "ne"@ {
        NumberFilter::Ne(v)
    } else if op == "gt"@ {
        NumberFilter::Gt(v)
    } else if op == "lt"@ {
        NumberFilter::Lt(v)
    } else if op == "gte"@ {
        NumberFilter::Gte(v)
    } else {
        NumberFilter::Lte(v)
    }
}

impl<T> NumberFilter<T> {
    /// The value compared against.
    pub open spec fn operand(self) -> T {
        match self {
            NumberFilter::Eq(v) => v,
            NumberFilter::Ne(v) => v,
            NumberFilter::Gt(v) => v,
            NumberFilter::Lt(v) => v,
            NumberFilter::Gte(v) => v,
            NumberFilter::Lte(v) => v,
        }
    }

    /// Whether `op` is a numeric comparison code.
    pub fn is_code(op: &str) -> (r: bool)
        ensures
            r == is_number_code(op@),
    {
        same_text(op, "eq") || same_text(op, "ne") || same_text(op, "gt") || same_text(op, "lt")
            || same_text(op, "gte") || same_text(op, "lte")
    }

    /// The comparison that the numeric comparison code `op` names on `value`.
    pub fn from_code(op: &str, value: T) -> (r: NumberFilter<T>)
        requires
            is_number_code(op@),
        ensures
            r == number_filter_of(op@, value),
    {
        if same_text(op, "eq") {
            NumberFilter::Eq(value)
        } else if same_text(op, "ne") {
            NumberFilter::Ne(value)
        } else if same_text(op, "gt") {
            NumberFilter::Gt(value)
        } else if same_text(op, "lt") {
            NumberFilter::Lt(value)
        } else if same_text(op, "gte") {
            NumberFilter::Gte(value)
        } else {
            NumberFilter::Lte(value)
        }
    }

    /// The comparison that code `op` names on `value`, or `UnknownFilter`.
    pub fn decode(op: &str, value: T) -> (r: Result<NumberFilter<T>, FilterParseError>)
        ensures
            is_number_code(op@) ==> r == Ok::<NumberFilter<T>, FilterParseError>(
                number_filter_of(op@, value),
            ),
            !is_number_code(op@) ==> r == Err::<NumberFilter<T>, FilterParseError>(
                FilterParseError::UnknownFilter,
            ),
    {
        if Self::is_code(op) {
            Ok(Self::from_code(op, value))
        } else {
            Err(FilterParseError::UnknownFilter)
        }
    }
}

/// What the text form `v` of one comparison names: `code=value`, or a bare
/// value for equality where `v` does not hold exactly one `=`.
pub open spec fn number_text_outcome<T: FilterValue>(v: Seq<char>) -> Result<
    (Seq<char>, Seq<char>),
    FilterParseError,
> {
    let parts = split_on(v, '=');
    if parts.len() != 2 {
        if T::accepts_text(v) {
            Ok(("eq"@, v))
        } else {
            Err(FilterParseError::Value)
        }
    } else if !T::accepts_text(parts[1]) {
        Err(FilterParseError::Value)
    } else if !is_number_code(parts[0]) {
        Err(FilterParseError::UnknownFilter)
    } else {
        Ok((parts[0], parts[1]))
    }
}

impl<T: FilterValue> NumberFilter<T> {
    /// Reads one comparison from its text form: `gte=10`, or `10` for
    /// equality.
    pub fn from_filter_text(v: &str) -> (r: Result<NumberFilter<T>, FilterParseError>)
        ensures
            match r {
                Ok(f) => number_text_outcome::<T>(v@) matches Ok(p) && f == number_filter_of(
                    p.0,
                    f.operand(),
                ) && T::is_value_of(p.1, f.operand()),
                Err(e) => number_text_outcome::<T>(v@) == Err::<
                    (Seq<char>, Seq<char>),
                    FilterParseError,
                >(e),
            },
    {
        let cs = chars_of(v);
        proof {
            lemma_split_count(v@, '=');
        }
        match single_separator(&cs, '=') {
            None => match T::parse_text(v) {
                Some(x) => Ok(NumberFilter::Eq(x)),
                None => Err(FilterParseError::Value),
            },
            Some(p) => {
                proof {
                    lemma_split_once(v@, '=', p as int);
                }
                let key = text_between(v, 0, p);
                assert(key@ =~= v@.take(p as int));
                let text = v.substring_char(p + 1, cs.len());
                assert(text@ =~= v@.skip(p + 1));
                match T::parse_text(text) {
                    Some(x) => NumberFilter::decode(key.as_str(), x),
                    None => Err(FilterParseError::Value),
                }
            },
        }
    }
}

impl<T> FromStrFilter<T> for NumberFilter<T> {
    open spec fn decodes(op: Seq<char>, v: T, r: Result<Self, FilterParseError>) -> bool {
        r == if is_number_code(op) {
            Ok::<NumberFilter<T>, FilterParseError>(number_filter_of(op, v))
        } else {
            Err(FilterParseError::UnknownFilter)
        }
    }

    fn from_str(id: &str, value: T) -> (r: Result<Self, FilterParseError>) {
        NumberFilter::decode(id, value)
    }
}

/// `fs` holds, in order, the comparisons that the (code, value text) pairs
/// `raw` name.
pub open spec fn number_filters_of<T: FilterValue>(
    fs: Seq<NumberFilter<T>>,
    raw: Seq<(Seq<char>, Seq<char>)>,
) -> bool {
    &&& fs.len() == raw.len()
    &&& forall|i: int|
        0 <= i < fs.len() ==> #[trigger] fs[i] == number_filter_of(raw[i].0, fs[i].operand())
            && T::is_value_of(raw[i].1, fs[i].operand())
}

/// The numeric comparisons on one field, in query order.
#[derive(Clone, Debug, PartialEq, Eq)]
pub struct NumberFilters<T>(pub Vec<NumberFilter<T>>, pub Option<FilterId>);

impl<T> Default for NumberFilters<T> {
    fn default() -> (r: Self)
        ensures
            r.0@.len() == 0,
            r.1 is None,
    {
        NumberFilters(Vec::new(), None)
    }
}

/// `r` is what parsing the comparisons on field `id` from query `q` gives:
/// the extraction error (a code that is not a numeric comparison code among
/// them), or one comparison per pair, in order.
pub open spec fn number_parse<T: FilterValue>(
    id: Seq<char>,
    q: Seq<char>,
    r: Result<Seq<NumberFilter<T>>, FilterParseError>,
) -> bool {
    match extract_spec::<T>(id, q, OperatorCodes::Number) {
        Err(e) => r == Err::<Seq<NumberFilter<T>>, FilterParseError>(e),
        Ok(raw) => r is Ok && number_filters_of(r->Ok_0, raw),
    }
}

impl<T> NumberFilters<T> {
    /// The comparisons of a parse result.
    pub open spec fn result_view(r: Result<Self, FilterParseError>) -> Result<
        Seq<NumberFilter<T>>,
        FilterParseError,
    > {
        match r {
            Ok(f) => Ok(f.0@),
            Err(e) => Err(e),
        }
    }
}

impl<T: FilterValue> NumberFilters<T> {
    /// Parses the comparisons on field `search_id` from query `value`.
    pub fn from_str(search_id: &str, value: &str) -> (r: Result<Self, FilterParseError>)
        ensures
            number_parse::<T>(search_id@, value@, Self::result_view(r)),
            r matches Ok(f) ==> (f.1 matches Some(FilterId::Alone(id)) && id@ == search_id@),
    {
        Self::from_id_value(FilterId::Alone(search_id.to_owned()), value)
    }

    /// Parses the comparisons on the field that `search_id` locates from query
    /// `value`: the pairs of that field, each decoded by its operator code.
    pub fn from_id_value(search_id: FilterId, value: &str) -> (r: Result<Self, FilterParseError>)
        ensures
            number_parse::<T>(search_id.spec_id(), value@, Self::result_view(r)),
            r matches Ok(f) ==> f.1 == Some(search_id),
    {
        let pairs = match extract_codes::<T>(search_id.id(), value, OperatorCodes::Number) {
            Ok(p) => p,
            Err(e) => {
                return Err(e);
            },
        };
        let ghost raw = extract_spec::<T>(search_id.spec_id(), value@, OperatorCodes::Number)->Ok_0;
        proof {
            lemma_codes_accepted::<T>(search_id.spec_id(), value@, OperatorCodes::Number);
        }
        let mut filters: Vec<NumberFilter<T>> = Vec::new();
        let mut i: usize = 0;
        while i < pairs.len()
            invariant
                i <= pairs.len() == raw.len(),
                forall|j: int|
                    0 <= j < pairs.len() ==> (#[trigger] pairs@[j]).0@ == raw[j].0
                        && T::is_value_of(raw[j].1, pairs@[j].1),
                forall|j: int| 0 <= j < raw.len() ==> is_number_code(#[trigger] raw[j].0),
                number_filters_of(filters@, raw.take(i as int)),
            decreases pairs.len() - i,
        {
            assert(pairs@[i as int].0@ == raw[i as int].0);
            let v = pairs[i].1.duplicate();
            let f = NumberFilter::from_code(pairs[i].0.as_str(), v);
            filters.push(f);
            i = i + 1;
            assert(raw.take(i as int).drop_last() =~= raw.take(i - 1));
            assert(number_filters_of(filters@, raw.take(i as int)));
        }
        assert(raw.take(i as int) =~= raw);
        Ok(NumberFilters(filters, Some(search_id)))
    }
}

} // verus!
