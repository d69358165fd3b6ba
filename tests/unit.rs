use filtrum::{
    from_str, query_regex, EqualFilter, FilterId, FilterParseError, FromQuery, FromQueryFilter,
    FromStrFilter, Limit, NumberFilter, NumberFilters, OrderBy, Skip, StringFilter,
    StringFilters, WithFilterId,
};

struct MockFilter(String, i32);

impl FromStrFilter<i32> for MockFilter {
    fn from_str(filter_key: &str, value: i32) -> Result<Self, FilterParseError> {
        Ok(MockFilter(filter_key.to_string(), value))
    }
}

#[test]
fn test_from_str_empty() {
    let res: Vec<MockFilter> = from_str("age", "").unwrap();
    assert!(res.is_empty());
}

#[test]
fn test_from_str_basic() {
    let qs = "age[eq]=10&age[lt]=20";
    let res: Vec<MockFilter> = from_str("age", qs).unwrap();
    assert_eq!(res.len(), 2);
    assert_eq!(res[0].0, "eq");
    assert_eq!(res[0].1, 10);
    assert_eq!(res[1].0, "lt");
    assert_eq!(res[1].1, 20);
}

#[test]
fn test_from_str_ignore_other_ids() {
    let qs = "age[eq]=10&height[eq]=20";
    let res: Vec<MockFilter> = from_str("age", qs).unwrap();
    assert_eq!(res.len(), 1);
    assert_eq!(res[0].1, 10);
}

#[test]
fn test_from_str_default_op() {
    let qs = "age=10";
    let res: Vec<MockFilter> = from_str("age", qs).unwrap();
    assert_eq!(res.len(), 1);
    assert_eq!(res[0].0, "eq");
    assert_eq!(res[0].1, 10);
}

#[test]
fn test_invalid_structure() {
    let qs = "age";
    let res: Result<Vec<MockFilter>, _> = from_str("age", qs);
    assert!(matches!(res, Err(FilterParseError::FilterStructure)));
}

#[test]
fn test_invalid_value() {
    let qs = "age[eq]=notanumber";
    let res: Result<Vec<MockFilter>, _> = from_str("age", qs);
    assert!(matches!(res, Err(FilterParseError::Value)));
}

#[test]
fn test_equal_filter_from_str() {
    let qs = "age=20";
    let f = EqualFilter::<i32>::from_str("age", qs).unwrap();
    assert_eq!(f.into_inner(), Some(20));

    let qs = "height=20";
    let f = EqualFilter::<i32>::from_str("age", qs).unwrap();
    assert_eq!(f.into_inner(), None);
}

#[test]
fn test_filter_id_methods() {
    let f1 = FilterId::Alone("age".to_string());
    assert_eq!(f1.id(), "age");
    assert_eq!(f1.prefix(), None);

    let f2 = FilterId::WithPrefix("user".to_string(), "age".to_string());
    assert_eq!(f2.id(), "age");
    assert_eq!(f2.prefix(), Some("user"));

    let f3 = FilterId::WithPrefixAndAlias("user".to_string(), "age".to_string(), "a".to_string());
    assert_eq!(f3.id(), "age");
    assert_eq!(f3.prefix(), Some("user"));
}

#[test]
fn test_from_string() {
    let f: FilterId = "age".to_string().into();
    assert_eq!(f, FilterId::Alone("age".to_string()));
}

#[test]
fn test_limit_from_str() {
    let qs = "limit=50";
    let l = Limit::from_str(qs).unwrap().unwrap();
    assert_eq!(l.0, 50);

    let qs = "other=50";
    let l = Limit::from_str(qs).unwrap();
    assert!(l.is_none());
}

#[test]
fn test_number_filter_parsing() {
    let qs = "age[gte]=18&age[lt]=100";
    let f = NumberFilters::<i32>::from_str("age", qs).unwrap();
    let filters = f.0;
    assert_eq!(filters.len(), 2);
    assert!(filters.contains(&NumberFilter::Gte(18)));
    assert!(filters.contains(&NumberFilter::Lt(100)));
}

#[test]
fn test_deserialization() {
    // "gte=10"
    let f = NumberFilter::<i32>::from_filter_text("gte=10").unwrap();
    assert_eq!(f, NumberFilter::Gte(10));

    // "10" -> Eq(10)
    let f = NumberFilter::<i32>::from_filter_text("10").unwrap();
    assert_eq!(f, NumberFilter::Eq(10));
}

#[test]
fn test_order_by() {
    let qs = "order_by[asc]=name";
    let ob = OrderBy::from_str(qs).unwrap().unwrap();
    match ob {
        OrderBy::Asc(id) => assert_eq!(id.id(), "name"),
        _ => panic!("Expected Asc"),
    }

    let qs = "order_by[desc]=age";
    let ob = OrderBy::from_str(qs).unwrap().unwrap();
    match ob {
        OrderBy::Desc(id) => assert_eq!(id.id(), "age"),
        _ => panic!("Expected Desc"),
    }
}

#[test]
fn test_order_by_prefix() {
    let qs = "order_by[asc]=name";
    let ob = OrderBy::from_str_prefix("user", qs).unwrap().unwrap();
    match ob {
        OrderBy::Asc(id) => {
            assert_eq!(id.id(), "name");
            assert_eq!(id.prefix(), Some("user"));
        }
        _ => panic!("Expected Asc"),
    }
}

#[derive(Default)]
struct MockQuery {
    age: EqualFilter<i32>,
}

impl WithFilterId for MockQuery {
    fn filter_id() -> Option<&'static str> {
        None
    }
}

impl FromQuery for MockQuery {
    fn from_query(s: &str) -> Result<Self, FilterParseError> {
        Ok(MockQuery {
            age: EqualFilter::from_str("age", s)?,
        })
    }
}

#[test]
fn test_from_query_filter() {
    let qs = "age=20&limit=10&order_by[asc]=age";
    let q: FromQueryFilter<MockQuery> = FromQueryFilter::from_str(qs).unwrap();

    assert_eq!(q.inner.age.into_inner(), Some(20));
    assert_eq!(q.limit.unwrap().0, 10);
    match q.order_by.unwrap() {
        OrderBy::Asc(id) => assert_eq!(id.id(), "age"),
        _ => panic!("Expected Asc"),
    }
}

#[test]
fn test_regex_matching() {
    // case: age[eq]
    let caps = query_regex("age[eq]").unwrap();
    assert_eq!(caps.name, "age");
    assert_eq!(caps.operator.as_deref(), Some("eq"));

    // case: age
    let caps = query_regex("age").unwrap();
    assert_eq!(caps.name, "age");
    assert!(caps.operator.is_none());

    // case: field[op][index]
    // age[eq][10]
    let caps = query_regex("age[eq][10]").unwrap();
    assert_eq!(caps.name, "age");
    assert_eq!(caps.operator.as_deref(), Some("eq"));
    assert_eq!(caps.index.as_deref(), Some("10"));
}

#[test]
fn test_skip_from_str() {
    let qs = "skip=10";
    let s = Skip::from_str(qs).unwrap().unwrap();
    assert_eq!(s.0, 10);

    let qs = "other=10";
    let s = Skip::from_str(qs).unwrap();
    assert!(s.is_none());

    // invalid
    let qs = "skip=abc";
    let s = Skip::from_str(qs);
    assert!(s.is_err());
}

#[test]
fn test_string_filter_parsing() {
    let qs = "name[like]=john&name[ne]=doe";
    let f = StringFilters::<String>::from_str("name", qs).unwrap();
    let filters = f.0;
    assert_eq!(filters.len(), 2);
    assert!(filters.contains(&StringFilter::Like("john".to_string())));
    assert!(filters.contains(&StringFilter::Ne("doe".to_string())));
}

#[test]
fn test_string_deserialization() {
    let f = StringFilter::from_filter_text("like=john").unwrap();
    assert_eq!(f, StringFilter::Like("john".to_string()));

    let f = StringFilter::from_filter_text("john").unwrap();
    assert_eq!(f, StringFilter::Eq("john".to_string()));
}
