use vstd::prelude::*;

verus! {

/// Where a filter's data lies in a query string, and the name it is emitted
/// under.
///
/// The field name (the second field of the scoped variants) is always the key
/// that is looked up in the query; the scope only qualifies the emitted name,
/// and an alias replaces it there.
#[derive(Debug, Clone)]
pub enum FilterId {
    /// A bare field name.
    Alone(String),
    /// A scope (a table) and a field name.
    WithPrefix(String, String),
    /// A scope, a field name and the alias the field is emitted under.
    WithPrefixAndAlias(String, String, String),
}

impl FilterId {
    /// The field name, which locates the filter in a query string.
    pub open spec fn spec_id(&self) -> Seq<char> {
        match self {
            FilterId::Alone(id) => id@,
            FilterId::WithPrefix(_, id) => id@,
            FilterId::WithPrefixAndAlias(_, id, _) => id@,
        }
    }

    /// The scope, if any.
    pub open spec fn spec_prefix(&self) -> Option<Seq<char>> {
        match self {
            FilterId::Alone(_) => None,
            FilterId::WithPrefix(prefix, _) => Some(prefix@),
            FilterId::WithPrefixAndAlias(prefix, _, _) => Some(prefix@),
        }
    }

    /// The name the filter is emitted under: the alias where there is one,
    /// else the field name.
    pub open spec fn spec_key(&self) -> Seq<char> {
        match self {
            FilterId::Alone(id) => id@,
            FilterId::WithPrefix(_, id) => id@,
            FilterId::WithPrefixAndAlias(_, _, alias) => alias@,
        }
    }

    /// Both hold the same names in the same variant.
    pub open spec fn same_as(&self, o: &FilterId) -> bool {
        match (self, o) {
            (FilterId::Alone(a), FilterId::Alone(b)) => a@ == b@,
            (FilterId::WithPrefix(p, a), FilterId::WithPrefix(q, b)) => p@ == q@ && a@ == b@,
            (FilterId::WithPrefixAndAlias(p, a, x), FilterId::WithPrefixAndAlias(q, b, y)) => p@
                == q@ && a@ == b@ && x@ == y@,
            _ => false,
        }
    }

    pub fn id(&self) -> (r: &str)
        ensures
            r@ == self.spec_id(),
    {
        match self {
            FilterId::Alone(id) => id.as_str(),
            FilterId::WithPrefix(_, id) => id.as_str(),
            FilterId::WithPrefixAndAlias(_, id, _) => id.as_str(),
        }
    }

    pub fn prefix(&self) -> (r: Option<&str>)
        ensures
            match r {
                Some(p) => self.spec_prefix() == Some(p@),
                None => self.spec_prefix() is None,
            },
    {
        match self {
            FilterId::Alone(_) => None,
            FilterId::WithPrefix(prefix, _) => Some(prefix.as_str()),
            FilterId::WithPrefixAndAlias(prefix, _, _) => Some(prefix.as_str()),
        }
    }

    pub fn key(&self) -> (r: &str)
        ensures
            r@ == self.spec_key(),
    {
        match self {
            FilterId::Alone(id) => id.as_str(),
            FilterId::WithPrefix(_, id) => id.as_str(),
            FilterId::WithPrefixAndAlias(_, _, alias) => alias.as_str(),
        }
    }
}

impl PartialEq for FilterId {
    fn eq(&self, o: &FilterId) -> (r: bool) {
        match (self, o) {
            (FilterId::Alone(a), FilterId::Alone(b)) => a.eq(b),
            (FilterId::WithPrefix(p, a), FilterId::WithPrefix(q, b)) => p.eq(q) && a.eq(b),
            (FilterId::WithPrefixAndAlias(p, a, x), FilterId::WithPrefixAndAlias(q, b, y)) => p.eq(
                q,
            ) && a.eq(b) && x.eq(y),
            _ => false,
        }
    }
}

impl vstd::std_specs::cmp::PartialEqSpecImpl for FilterId {
    open spec fn obeys_eq_spec() -> bool {
        true
    }

    open spec fn eq_spec(&self, o: &FilterId) -> bool {
        self.same_as(o)
    }
}

impl Eq for FilterId {

}

impl From<String> for FilterId {
    fn from(value: String) -> (r: FilterId) {
        FilterId::Alone(value)
    }
}

impl vstd::std_specs::convert::FromSpecImpl<String> for FilterId {
    open spec fn obeys_from_spec() -> bool {
        true
    }

    open spec fn from_spec(v: String) -> FilterId {
        FilterId::Alone(v)
    }
}

} // verus!
