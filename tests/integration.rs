use filtrum::{
    EqualFilter, FieldDecl, FieldFilter, FieldKind, FilterParseError, FilterSchema, FromQuery,
    FromQueryFilter, NumberFilter, NumberFilters, OrderBy, StringFilter, StringFilters,
    WithFilterId,
};

#[derive(Default, Debug)]
struct UserFilter {
    name: StringFilters,
    age: NumberFilters<i32>,
    active: EqualFilter<bool>,
}

impl WithFilterId for UserFilter {
    fn filter_id() -> Option<&'static str> {
        None
    }
}

impl FromQuery for UserFilter {
    fn from_query(s: &str) -> Result<Self, FilterParseError> {
        Ok(UserFilter {
            name: StringFilters::from_str("name", s)?,
            age: NumberFilters::from_str("age", s)?,
            active: EqualFilter::from_str("active", s)?,
        })
    }
}

#[test]
fn test_complex_query_parsing() {
    let query =
        "name[sw]=Ali&age[gte]=18&age[lt]=30&active=true&limit=10&skip=5&order_by[desc]=age";

    let filter = FromQueryFilter::<UserFilter>::from_str(query).expect("Failed to parse query");

    let name_filters = filter.inner.name.0;
    assert!(name_filters.contains(&StringFilter::StartsWith("Ali".to_string())));

    let age_filters = filter.inner.age.0;
    assert!(age_filters.contains(&NumberFilter::Gte(18)));
    assert!(age_filters.contains(&NumberFilter::Lt(30)));

    let active_filter = filter.inner.active.into_inner();
    assert_eq!(active_filter, Some(true));

    assert_eq!(filter.limit.map(|l| l.0), Some(10));
    assert_eq!(filter.skip.map(|s| s.0), Some(5));

    match filter.order_by {
        Some(OrderBy::Desc(id)) => assert_eq!(id.id(), "age"),
        _ => panic!("Expected Desc order by age"),
    }
}

#[test]
fn test_empty_query() {
    let query = "";
    let filter =
        FromQueryFilter::<UserFilter>::from_str(query).expect("Failed to parse empty query");

    assert!(filter.inner.name.0.is_empty());
    assert!(filter.inner.age.0.is_empty());
    assert_eq!(filter.inner.active.into_inner(), None);
    assert!(filter.limit.is_none());
    assert!(filter.skip.is_none());
    assert!(filter.order_by.is_none());
}

#[test]
fn test_prefixed_filters() {
    let query = "name[eq]=Bob&other_field[eq]=ignored";
    let filter = FromQueryFilter::<UserFilter>::from_str(query).unwrap();

    let name_filters = filter.inner.name.0;
    assert_eq!(name_filters.len(), 1);
    assert!(name_filters.contains(&StringFilter::Eq("Bob".to_string())));
}

fn field(name: &str, kind: FieldKind) -> FieldDecl {
    FieldDecl { name: name.to_string(), kind, table: None, alias: None, skip: false }
}

fn user_schema() -> FilterSchema {
    let mut name = field("name", FieldKind::Text);
    name.alias = Some("n".to_string());
    let mut ignored = field("ignored", FieldKind::EqualText);
    ignored.skip = true;
    FilterSchema {
        table: Some("users".to_string()),
        fields: vec![name, field("age", FieldKind::Number), ignored, field("is_active", FieldKind::EqualBool)],
    }
}

#[test]
fn test_derive_macro() {
    let query = "name[eq]=Alice&age[gte]=18&is_active=true";
    let fields = user_schema().parse_fields(query).expect("Failed to parse query");

    match &fields[0] {
        FieldFilter::Text(f) => assert!(!f.0.is_empty()),
        _ => panic!("Expected text filters"),
    }
    match &fields[1] {
        FieldFilter::Number(f) => assert!(!f.0.is_empty()),
        _ => panic!("Expected number filters"),
    }
    match &fields[3] {
        FieldFilter::EqualBool(f) => assert_eq!(f.clone().into_inner(), Some(true)),
        _ => panic!("Expected a bool equality"),
    }
    match &fields[2] {
        FieldFilter::EqualText(f) => assert_eq!(f.0, None),
        _ => panic!("Expected the skipped field"),
    }
    assert_eq!(user_schema().filter_id(), Some("users"));
}

#[test]
fn test_filter_id_impl() {
    assert_eq!(user_schema().filter_id(), Some("users"));
}
