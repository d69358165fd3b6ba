use vstd::prelude::*;

use crate::common::{
    extract_codes, extract_spec, lemma_codes_accepted, lemma_split_count, lemma_split_once,
    single_separator, split_on, FromStrFilter, OperatorCodes,
};
use crate::errors::FilterParseError;
use crate::filter_id::FilterId;
use crate::text::{chars_of, same_text, text_between};
use crate::value::FilterValue;

verus! {

/// One string comparison.
#[derive(Clone, Debug, PartialEq, Eq)]
pub enum StringFilter<T = String> {
    /// Exact match: `field[eq]=value`, or `field=value`.
    Eq(T),
    /// Not equal: `field[ne]=value`.
    Ne(T),
    /// SQL `LIKE` pattern: `field[like]=value` or `field[l]=value`.
    Like(T),
    /// SQL `NOT LIKE` pattern: `field[not_like]=value` or `field[nl]=value`.
    NotLike(T),
    /// Starts with: `field[starts_with]=value` or `field[sw]=value`.
    StartsWith(T),
    /// Ends with: `field[ends_with]=value` or `field[ew]=value`.
    EndsWith(T),
    /// Contains: `field[contains]=value` or `field[c]=value`.
    Contains(T),
}

/// The operator codes of string comparisons, short aliases included.
pub open spec fn is_string_code(op: Seq<char>) -> bool {
    op == "eq"@ || op == "ne"@ || op == "like"@ || op == "l"@ || op == "not_like"@ || op == "nl"@
        || op == "starts_with"@ || op == "sw"@ || op == "ends_with"@ || op == "ew"@ || op
        == "contains"@ || op == "c"@
}

/// The comparison that a known code `op` names, on `v`.
pub open spec fn string_filter_of<T>(op: Seq<char>, v: T) -> StringFilter<T> {
    if op == "eq"@ {
        StringFilter::Eq(v)
    } else if op == "ne"@ {
        StringFilter::Ne(v)
    } else if op == "like"@ || op == "l"@ {
        StringFilter::Like(v)
    } else if op == "not_like"@ || op == "nl"@ {
        StringFilter::NotLike(v)
    } else if op == "starts_with"@ || op == "sw"@ {
        StringFilter::StartsWith(v)
    } else if op == "ends_with"@ || op == "ew"@ {
        StringFilter::EndsWith(v)
    } else {
        StringFilter::Contains(v)
    }
}

impl<T> StringFilter<T> {
    /// The value compared against.
    pub open spec fn operand(self) -> T {
        match self {
            StringFilter::Eq(v) => v,
            StringFilter::Ne(v) => v,
            StringFilter::Like(v) => v,
            StringFilter::NotLike(v) => v,
            StringFilter::StartsWith(v) => v,
            StringFilter::EndsWith(v) => v,
            StringFilter::Contains(v) => v,
        }
    }

    /// Whether `op` is a string comparison code.
    pub fn is_code(op: &str) -> (r: bool)
        ensures
            r == is_string_code(op@),
    {
        same_text(op, "eq") || same_text(op, "ne") || same_text(op, "like") || same_text(op, "l")
            || same_text(op, "not_like") || same_text(op, "nl") || same_text(op, "starts_with")
            || same_text(op, "sw") || same_text(op, "ends_with") || same_text(op, "ew")
            || same_text(op, "contains") || same_text(op, "c")
    }

    /// The comparison that the string comparison code `op` names on `value`.
    pub fn from_code(op: &str, value: T) -> (r: StringFilter<T>)
        requires
            is_string_code(op@),
        ensures
            r == string_filter_of(op@, value),
    {
        if same_text(op, "eq") {
            StringFilter::Eq(value)
        } else if same_text(op, "ne") {
            StringFilter::Ne(value)
        } else if same_text(op, "like") || same_text(op, "l") {
            StringFilter::Like(value)
        } else if same_text(op, "not_like") || same_text(op, "nl") {
            StringFilter::NotLike(value)
        } else if same_text(op, "starts_with") || same_text(op, "sw") {
            StringFilter::StartsWith(value)
        } else if same_text(op, "ends_with") || same_text(op, "ew") {
            StringFilter::EndsWith(value)
        } else {
            StringFilter::Contains(value)
        }
    }

    /// The comparison that code `op` names on `value`, or `UnknownFilter`.
    pub fn decode(op: &str, value: T) -> (r: Result<StringFilter<T>, FilterParseError>)
        ensures
            is_string_code(op@) ==> r == Ok::<StringFilter<T>, FilterParseError>(
                string_filter_of(op@, value),
            ),
            !is_string_code(op@) ==> r == Err::<StringFilter<T>, FilterParseError>(
                FilterParseError::UnknownFilter,
            ),
    {
        if Self::is_code(op) {
            Ok(Self::from_code(op, value))
        } else {
            Err(FilterParseError::UnknownFilter)
        }
    }
}

/// What the text form `v` of one comparison names: `code=value`, or the
/// whole text for equality where `v` does not hold exactly one `=`.
pub open spec fn string_text_outcome(v: Seq<char>) -> Result<(Seq<char>, Seq<char>), FilterParseError> {
    let parts = split_on(v, '=');
    if parts.len() != 2 {
        Ok(("eq"@, v))
    } else if !is_string_code(parts[0]) {
        Err(FilterParseError::UnknownFilter)
    } else {
        Ok((parts[0], parts[1]))
    }
}

impl StringFilter<String> {
    /// Reads one comparison from its text form: `like=john`, or `john` for
    /// equality.
    pub fn from_filter_text(v: &str) -> (r: Result<StringFilter<String>, FilterParseError>)
        ensures
            match r {
                Ok(f) => string_text_outcome(v@) matches Ok(p) && f == string_filter_of(
                    p.0,
                    f.operand(),
                ) && f.operand()@ == p.1,
                Err(e) => string_text_outcome(v@) == Err::<(Seq<char>, Seq<char>), FilterParseError>(
                    e,
                ),
            },
    {
        let cs = chars_of(v);
        proof {
            lemma_split_count(v@, '=');
        }
        match single_separator(&cs, '=') {
            None => Ok(StringFilter::Eq(v.to_owned())),
            Some(p) => {
                proof {
                    lemma_split_once(v@, '=', p as int);
                }
                let key = text_between(v, 0, p);
                assert(key@ =~= v@.take(p as int));
                let text = text_between(v, p + 1, cs.len());
                assert(text@ =~= v@.skip(p + 1));
                StringFilter::decode(key.as_str(), text)
            },
        }
    }
}

impl<T> FromStrFilter<T> for StringFilter<T> {
    open spec fn decodes(op: Seq<char>, v: T, r: Result<Self, FilterParseError>) -> bool {
        r == if is_string_code(op) {
            Ok::<StringFilter<T>, FilterParseError>(string_filter_of(op, v))
        } else {
            Err(FilterParseError::UnknownFilter)
        }
    }

    fn from_str(id: &str, value: T) -> (r: Result<Self, FilterParseError>) {
        StringFilter::decode(id, value)
    }
}

/// `fs` holds, in order, the comparisons that the (code, value text) pairs
/// `raw` name.
pub open spec fn string_filters_of<T: FilterValue>(
    fs: Seq<StringFilter<T>>,
    raw: Seq<(Seq<char>, Seq<char>)>,
) -> bool {
    &&& fs.len() == raw.len()
    &&& forall|i: int|
        0 <= i < fs.len() ==> #[trigger] fs[i] == string_filter_of(raw[i].0, fs[i].operand())
            && T::is_value_of(raw[i].1, fs[i].operand())
}

/// `r` is what parsing the comparisons on field `id` from query `q` gives:
/// the extraction error (a code that is not a string comparison code among
/// them), or one comparison per pair, in order.
pub open spec fn string_parse<T: FilterValue>(
    id: Seq<char>,
    q: Seq<char>,
    r: Result<Seq<StringFilter<T>>, FilterParseError>,
) -> bool {
    match extract_spec::<T>(id, q, OperatorCodes::Text) {
        Err(e) => r == Err::<Seq<StringFilter<T>>, FilterParseError>(e),
        Ok(raw) => r is Ok && string_filters_of(r->Ok_0, raw),
    }
}

/// The string comparisons on one field, in query order.
#[derive(Clone, Debug, PartialEq, Eq)]
pub struct StringFilters<T = String>(pub Vec<StringFilter<T>>, pub Option<FilterId>);

impl<T> Default for StringFilters<T> {
    fn default() -> (r: Self)
        ensures
            r.0@.len() == 0,
            r.1 is None,
    {
        StringFilters(Vec::new(), None)
    }
}

impl<T> StringFilters<T> {
    /// The comparisons of a parse result.
    pub open spec fn result_view(r: Result<Self, FilterParseError>) -> Result<
        Seq<StringFilter<T>>,
        FilterParseError,
    > {
        match r {
            Ok(f) => Ok(f.0@),
            Err(e) => Err(e),
        }
    }
}

impl<T: FilterValue> StringFilters<T> {
    /// Parses the comparisons on field `search_id` from query `value`.
    pub fn from_str(search_id: &str, value: &str) -> (r: Result<Self, FilterParseError>)
        ensures
            string_parse::<T>(search_id@, value@, Self::result_view(r)),
            r matches Ok(f) ==> (f.1 matches Some(FilterId::Alone(id)) && id@ == search_id@),
    {
        Self::from_id_value(FilterId::Alone(search_id.to_owned()), value)
    }

    /// Parses the comparisons on the field that `search_id` locates from query
    /// `value`: the pairs of that field, each decoded by its operator code.
    pub fn from_id_value(search_id: FilterId, value: &str) -> (r: Result<Self, FilterParseError>)
        ensures
            string_parse::<T>(search_id.spec_id(), value@, Self::result_view(r)),
            r matches Ok(f) ==> f.1 == Some(search_id),
    {
        let pairs = match extract_codes::<T>(search_id.id(), value, OperatorCodes::Text) {
            Ok(p) => p,
            Err(e) => {
                return Err(e);
            },
        };
        let ghost raw = extract_spec::<T>(search_id.spec_id(), value@, OperatorCodes::Text)->Ok_0;
        proof {
            lemma_codes_accepted::<T>(search_id.spec_id(), value@, OperatorCodes::Text);
        }
        let mut filters: Vec<StringFilter<T>> = Vec::new();
        let mut i: usize = 0;
        while i < pairs.len()
            invariant
                i <= pairs.len() == raw.len(),
                forall|j: int|
                    0 <= j < pairs.len() ==> (#[trigger] pairs@[j]).0@ == raw[j].0
                        && T::is_value_of(raw[j].1, pairs@[j].1),
                forall|j: int| 0 <= j < raw.len() ==> is_string_code(#[trigger] raw[j].0),
                string_filters_of(filters@, raw.take(i as int)),
            decreases pairs.len() - i,
        {
            assert(pairs@[i as int].0@ == raw[i as int].0);
            let v = pairs[i].1.duplicate();
            let f = StringFilter::from_code(pairs[i].0.as_str(), v);
            filters.push(f);
            i = i + 1;
            assert(raw.take(i as int).drop_last() =~= raw.take(i - 1));
            assert(string_filters_of(filters@, raw.take(i as int)));
        }
        assert(raw.take(i as int) =~= raw);
        Ok(StringFilters(filters, Some(search_id)))
    }
}

} // verus!
