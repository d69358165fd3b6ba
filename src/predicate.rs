use vstd::prelude::*;

use crate::equal_filter::EqualFilter;
use crate::limit::Limit;
use crate::number_filter::{NumberFilter, NumberFilters};
use crate::order_by::OrderBy;
use crate::skip::Skip;
use crate::string_filter::{StringFilter, StringFilters};
use crate::value::FilterValue;

verus! {

/// One predicate to append to a query: ` AND <column><operator><bound value>`.
pub struct Condition<V> {
    pub column: String,
    /// The SQL operator, with its surrounding spaces.
    pub operator: &'static str,
    pub value: V,
}

/// The SQL operator of a numeric comparison.
pub open spec fn number_operator<T>(f: NumberFilter<T>) -> Seq<char> {
    match f {
        NumberFilter::Eq(_) => " = "@,
        NumberFilter::Ne(_) => " <> "@,
        NumberFilter::Gt(_) => " > "@,
        NumberFilter::Lt(_) => " < "@,
        NumberFilter::Gte(_) => " >= "@,
        NumberFilter::Lte(_) => " <= "@,
    }
}

/// The SQL operator of a string comparison.
pub open spec fn string_operator<T>(f: StringFilter<T>) -> Seq<char> {
    match f {
        StringFilter::Eq(_) => " = "@,
        StringFilter::Ne(_) => " <> "@,
        StringFilter::NotLike(_) => " NOT LIKE "@,
        _ => " LIKE "@,
    }
}

/// The value bound for a string comparison: the text itself, or a `LIKE`
/// pattern around it.
pub open spec fn string_operand(f: StringFilter<String>) -> Seq<char> {
    match f {
        StringFilter::StartsWith(v) => v@ + "%"@,
        StringFilter::EndsWith(v) => "%"@ + v@,
        StringFilter::Contains(v) => "%"@ + v@ + "%"@,
        _ => f.operand()@,
    }
}

fn number_operator_exec<T>(f: &NumberFilter<T>) -> (r: &'static str)
    ensures
        r@ == number_operator(*f),
{
    match f {
        NumberFilter::Eq(_) => " = ",
        NumberFilter::Ne(_) => " <> ",
        NumberFilter::Gt(_) => " > ",
        NumberFilter::Lt(_) => " < ",
        NumberFilter::Gte(_) => " >= ",
        NumberFilter::Lte(_) => " <= ",
    }
}

fn number_operand<T: FilterValue>(f: &NumberFilter<T>) -> (r: T)
    ensures
        r == f.operand(),
{
    match f {
        NumberFilter::Eq(v) => v.duplicate(),
        NumberFilter::Ne(v) => v.duplicate(),
        NumberFilter::Gt(v) => v.duplicate(),
        NumberFilter::Lt(v) => v.duplicate(),
        NumberFilter::Gte(v) => v.duplicate(),
        NumberFilter::Lte(v) => v.duplicate(),
    }
}

fn string_operator_exec<T>(f: &StringFilter<T>) -> (r: &'static str)
    ensures
        r@ == string_operator(*f),
{
    match f {
        StringFilter::Eq(_) => " = ",
        StringFilter::Ne(_) => " <> ",
        StringFilter::NotLike(_) => " NOT LIKE ",
        _ => " LIKE ",
    }
}

fn string_operand_exec(f: &StringFilter<String>) -> (r: String)
    ensures
        r@ == string_operand(*f),
{
    match f {
        StringFilter::StartsWith(v) => {
            let mut s = v.clone();
            s.append("%");
            s
        },
        StringFilter::EndsWith(v) => {
            let mut s = String::from_str("%");
            s.append(v.as_str());
            s
        },
        StringFilter::Contains(v) => {
            let mut s = String::from_str("%");
            s.append(v.as_str());
            s.append("%");
            s
        },
        StringFilter::Eq(v) => v.clone(),
        StringFilter::Ne(v) => v.clone(),
        StringFilter::Like(v) => v.clone(),
        StringFilter::NotLike(v) => v.clone(),
    }
}

impl<T: FilterValue> NumberFilters<T> {
    /// One condition per comparison, in order, on the identifier's emitted
    /// name; none without an identifier.
    pub fn conditions(&self) -> (r: Vec<Condition<T>>)
        ensures
            self.1 is None ==> r@.len() == 0,
            self.1 matches Some(id) ==> {
                &&& r@.len() == self.0@.len()
                &&& forall|i: int|
                    0 <= i < r@.len() ==> (#[trigger] r@[i]).column@ == id.spec_key()
                        && r@[i].operator@ == number_operator(self.0@[i]) && r@[i].value
                        == self.0@[i].operand()
            },
    {
        let mut r: Vec<Condition<T>> = Vec::new();
        match &self.1 {
            None => r,
            Some(id) => {
                let mut i: usize = 0;
                while i < self.0.len()
                    invariant
                        i <= self.0.len(),
                        self.1 == Some(*id),
                        r@.len() == i,
                        forall|j: int|
                            0 <= j < i ==> (#[trigger] r@[j]).column@ == id.spec_key()
                                && r@[j].operator@ == number_operator(self.0@[j]) && r@[j].value
                                == self.0@[j].operand(),
                    decreases self.0.len() - i,
                {
                    let f = &self.0[i];
                    let c = Condition {
                        column: id.key().to_owned(),
                        operator: number_operator_exec(f),
                        value: number_operand(f),
                    };
                    r.push(c);
                    i = i + 1;
                }
                r
            },
        }
    }
}

impl StringFilters<String> {
    /// One condition per comparison, in order, on the identifier's emitted
    /// name, its value the text or the `LIKE` pattern; none without an
    /// identifier.
    pub fn conditions(&self) -> (r: Vec<Condition<String>>)
        ensures
            self.1 is None ==> r@.len() == 0,
            self.1 matches Some(id) ==> {
                &&& r@.len() == self.0@.len()
                &&& forall|i: int|
                    0 <= i < r@.len() ==> (#[trigger] r@[i]).column@ == id.spec_key()
                        && r@[i].operator@ == string_operator(self.0@[i]) && r@[i].value@
                        == string_operand(self.0@[i])
            },
    {
        let mut r: Vec<Condition<String>> = Vec::new();
        match &self.1 {
            None => r,
            Some(id) => {
                let mut i: usize = 0;
                while i < self.0.len()
                    invariant
                        i <= self.0.len(),
                        self.1 == Some(*id),
                        r@.len() == i,
                        forall|j: int|
                            0 <= j < i ==> (#[trigger] r@[j]).column@ == id.spec_key()
                                && r@[j].operator@ == string_operator(self.0@[j]) && r@[j].value@
                                == string_operand(self.0@[j]),
                    decreases self.0.len() - i,
                {
                    let f = &self.0[i];
                    let c = Condition {
                        column: id.key().to_owned(),
                        operator: string_operator_exec(f),
                        value: string_operand_exec(f),
                    };
                    r.push(c);
                    i = i + 1;
                }
                r
            },
        }
    }
}

impl<T: FilterValue> EqualFilter<T> {
    /// The equality on the identifier's emitted name, where there are both a
    /// value and an identifier.
    pub fn condition(&self) -> (r: Option<Condition<T>>)
        ensures
            match (self.0, self.1) {
                (Some(v), Some(id)) => r matches Some(c) && c.column@ == id.spec_key()
                    && c.operator@ == " = "@ && c.value == v,
                _ => r is None,
            },
    {
        match (&self.0, &self.1) {
            (Some(v), Some(id)) => Some(
                Condition { column: id.key().to_owned(), operator: " = ", value: v.duplicate() },
            ),
            _ => None,
        }
    }
}

impl Limit {
    /// The limit as the signed value bound in SQL: the same bits, so a limit
    /// above `i64::MAX` wraps around to a negative value.
    pub fn sql_value(&self) -> (r: i64)
        ensures
            self.0 <= i64::MAX ==> r == self.0,
            self.0 > i64::MAX ==> r == self.0 - 0x1_0000_0000_0000_0000int,
    {
        if self.0 <= i64::MAX as u64 {
            self.0 as i64
        } else {
            (self.0 - 9223372036854775808u64) as i64 + i64::MIN
        }
    }
}

impl Skip {
    /// The offset as the signed value bound in SQL: the same bits, so an offset
    /// above `i64::MAX` wraps around to a negative value.
    pub fn sql_value(&self) -> (r: i64)
        ensures
            self.0 <= i64::MAX ==> r == self.0,
            self.0 > i64::MAX ==> r == self.0 - 0x1_0000_0000_0000_0000int,
    {
        if self.0 <= i64::MAX as u64 {
            self.0 as i64
        } else {
            (self.0 - 9223372036854775808u64) as i64 + i64::MIN
        }
    }
}

impl OrderBy {
    /// The column to sort on (the identifier's emitted name) and the SQL
    /// direction keyword, with its leading space.
    pub fn sql_order(&self) -> (r: (&str, &'static str))
        ensures
            r.0@ == self.spec_field().spec_key(),
            self is Asc ==> r.1@ == " ASC"@,
            self is Desc ==> r.1@ == " DESC"@,
    {
        match self {
            OrderBy::Asc(id) => (id.key(), " ASC"),
            OrderBy::Desc(id) => (id.key(), " DESC"),
        }
    }
}

} // verus!
