use filtrum::{
    extract, from_str, FromStrFilter, parse_directives, query_regex, EqualFilter, FieldDecl, FieldFilter, FieldKind,
    FilterId, FilterParseError, FilterRejection, FilterSchema, FilterValue, Limit, NumberFilter,
    NumberFilters, OrderBy, Skip, StringFilter, StringFilters,
};

fn pairs<V: FilterValue>(id: &str, q: &str) -> Result<Vec<(String, V)>, FilterParseError> {
    extract::<V>(id, q)
}

#[test]
fn other_fields_give_no_pairs() {
    let r = pairs::<i64>("age", "height=1&name[eq]=x&order_by[desc]=age").unwrap();
    assert!(r.is_empty());
}

#[test]
fn malformed_pair_of_other_field_is_still_an_error() {
    let r = pairs::<i64>("age", "height");
    assert_eq!(r, Err(FilterParseError::FilterStructure));
}

#[test]
fn empty_query_gives_no_pairs() {
    assert!(pairs::<String>("anything", "").unwrap().is_empty());
}

#[test]
fn missing_operator_reads_as_eq() {
    let a = pairs::<i64>("age", "age=10").unwrap();
    let b = pairs::<i64>("age", "age[eq]=10").unwrap();
    assert_eq!(a, b);
    assert_eq!(a, vec![("eq".to_string(), 10)]);
}

#[test]
fn pairs_keep_query_order() {
    let r = pairs::<i64>("age", "age[gte]=1&age[lt]=9").unwrap();
    assert_eq!(r, vec![("gte".to_string(), 1), ("lt".to_string(), 9)]);
}

#[test]
fn duplicate_codes_both_appear() {
    let r = pairs::<i64>("age", "age[gt]=1&x=2&age[gt]=3").unwrap();
    assert_eq!(r, vec![("gt".to_string(), 1), ("gt".to_string(), 3)]);
}

#[test]
fn unknown_number_operator() {
    let r = NumberFilters::<i32>::from_str("age", "age[near]=1");
    assert_eq!(r.err(), Some(FilterParseError::UnknownFilter));
}

#[test]
fn first_error_in_query_order_wins() {
    let r = NumberFilters::<i32>::from_str("age", "age[near]=1&age=x");
    assert_eq!(r.err(), Some(FilterParseError::UnknownFilter));
    let r = NumberFilters::<i32>::from_str("age", "age=x&age[near]=1");
    assert_eq!(r.err(), Some(FilterParseError::Value));
    let r = NumberFilters::<i32>::from_str("age", "age[near]=1&oops");
    assert_eq!(r.err(), Some(FilterParseError::UnknownFilter));
    assert_eq!(OrderBy::from_str("order_by[asc]=a&order_by[up]=b"), Err(FilterParseError::UnknownFilter));
}

#[test]
fn unknown_string_operator() {
    let r = StringFilters::<String>::from_str("name", "name[gt]=x");
    assert_eq!(r.err(), Some(FilterParseError::UnknownFilter));
}

#[test]
fn unknown_sort_direction() {
    assert_eq!(OrderBy::from_str("order_by[up]=age"), Err(FilterParseError::UnknownFilter));
}

#[test]
fn pair_without_equals_is_structural() {
    let r = NumberFilters::<i32>::from_str("age", "age");
    assert_eq!(r.err(), Some(FilterParseError::FilterStructure));
    let r = NumberFilters::<i32>::from_str("age", "age=1&");
    assert_eq!(r.err(), Some(FilterParseError::FilterStructure));
}

#[test]
fn key_without_word_is_structural() {
    assert_eq!(pairs::<i64>("age", "=5"), Err(FilterParseError::FilterStructure));
    assert_eq!(pairs::<i64>("age", "-[]=5"), Err(FilterParseError::FilterStructure));
    assert!(pairs::<i64>("age", "-[eq]=5").unwrap().is_empty());
}

#[test]
fn value_that_does_not_convert() {
    let r = NumberFilters::<i32>::from_str("age", "age[eq]=notanumber");
    assert_eq!(r.err(), Some(FilterParseError::Value));
}

#[test]
fn equality_keeps_last_occurrence() {
    let f = EqualFilter::<i32>::from_str("age", "age=1&age=2").unwrap();
    assert_eq!(f.into_inner(), Some(2));
}

#[test]
fn integer_texts() {
    assert_eq!(pairs::<i32>("a", "a=2147483647").unwrap()[0].1, i32::MAX);
    assert_eq!(pairs::<i32>("a", "a=-2147483648").unwrap()[0].1, i32::MIN);
    assert_eq!(pairs::<i32>("a", "a=2147483648"), Err(FilterParseError::Value));
    assert_eq!(pairs::<i64>("a", "a=-9223372036854775808").unwrap()[0].1, i64::MIN);
    assert_eq!(pairs::<i64>("a", "a=9223372036854775808"), Err(FilterParseError::Value));
    assert_eq!(pairs::<u64>("a", "a=+5").unwrap()[0].1, 5);
    assert_eq!(pairs::<u64>("a", "a=18446744073709551615").unwrap()[0].1, u64::MAX);
    assert_eq!(pairs::<u64>("a", "a=18446744073709551616"), Err(FilterParseError::Value));
    assert_eq!(pairs::<u64>("a", "a=-0"), Err(FilterParseError::Value));
    assert_eq!(pairs::<u32>("a", "a=4294967296"), Err(FilterParseError::Value));
    assert_eq!(pairs::<i64>("a", "a=007").unwrap()[0].1, 7);
    assert_eq!(pairs::<i64>("a", "a="), Err(FilterParseError::Value));
    assert_eq!(pairs::<i64>("a", "a=+"), Err(FilterParseError::Value));
    assert_eq!(pairs::<i64>("a", "a= 1"), Err(FilterParseError::Value));
}

#[test]
fn bool_and_text_values() {
    assert_eq!(pairs::<bool>("a", "a=true&a=false").unwrap(), vec![("eq".to_string(), true), ("eq".to_string(), false)]);
    assert_eq!(pairs::<bool>("a", "a=True"), Err(FilterParseError::Value));
    assert_eq!(pairs::<String>("a", "a=").unwrap(), vec![("eq".to_string(), String::new())]);
    assert_eq!(pairs::<String>("a", "a=x=y").unwrap(), vec![("eq".to_string(), "x=y".to_string())]);
}

#[test]
fn key_grammar_edges() {
    let caps = query_regex("age[GTE]").unwrap();
    assert_eq!(caps.name, "age");
    assert!(caps.operator.is_none());
    let caps = query_regex("age[10]").unwrap();
    assert!(caps.operator.is_none());
    assert_eq!(caps.index.as_deref(), Some("10"));
    let caps = query_regex("[eq]").unwrap();
    assert_eq!(caps.name, "eq");
    assert!(query_regex("").is_none());
    assert!(query_regex("-[]").is_none());
    let caps = query_regex("name[not_like]").unwrap();
    assert!(caps.operator.is_none());
}

#[test]
fn string_short_codes() {
    let f = StringFilters::<String>::from_str("n", "n[sw]=a&n[ew]=b&n[c]=c&n[l]=d&n[nl]=e").unwrap();
    assert_eq!(
        f.0,
        vec![
            StringFilter::StartsWith("a".to_string()),
            StringFilter::EndsWith("b".to_string()),
            StringFilter::Contains("c".to_string()),
            StringFilter::Like("d".to_string()),
            StringFilter::NotLike("e".to_string()),
        ]
    );
}

#[test]
fn every_number_code() {
    let f = NumberFilters::<i64>::from_str("x", "x[eq]=1&x[ne]=2&x[gt]=3&x[lt]=4&x[gte]=5&x[lte]=6").unwrap();
    assert_eq!(
        f.0,
        vec![
            NumberFilter::Eq(1),
            NumberFilter::Ne(2),
            NumberFilter::Gt(3),
            NumberFilter::Lt(4),
            NumberFilter::Gte(5),
            NumberFilter::Lte(6),
        ]
    );
    assert_eq!(f.1, Some(FilterId::Alone("x".to_string())));
}

#[test]
fn directives_take_first_occurrence() {
    assert_eq!(Limit::from_str("limit=3&limit=4").unwrap(), Some(Limit(3)));
    assert_eq!(Skip::from_str("skip=7&skip=x"), Err(FilterParseError::Value));
    let o = OrderBy::from_str("order_by[asc]=a&order_by[desc]=b").unwrap().unwrap();
    assert_eq!(o, OrderBy::Asc(FilterId::Alone("a".to_string())));
}

#[test]
fn directives_with_scope() {
    let (o, l, s) = parse_directives(Some("t"), "order_by[desc]=x&skip=2").unwrap();
    assert_eq!(o, Some(OrderBy::Desc(FilterId::WithPrefix("t".to_string(), "x".to_string()))));
    assert_eq!(l, None);
    assert_eq!(s, Some(Skip(2)));
    assert_eq!(parse_directives(None, "limit=-1"), Err(FilterParseError::Value));
}

#[test]
fn text_forms() {
    assert_eq!(NumberFilter::<i32>::from_filter_text("lte=-3"), Ok(NumberFilter::Lte(-3)));
    assert_eq!(NumberFilter::<i32>::from_filter_text("near=1"), Err(FilterParseError::UnknownFilter));
    assert_eq!(NumberFilter::<i32>::from_filter_text("gte=abc"), Err(FilterParseError::Value));
    assert_eq!(NumberFilter::<i32>::from_filter_text("a=b=c"), Err(FilterParseError::Value));
    assert_eq!(StringFilter::from_filter_text("a=b=c"), Ok(StringFilter::Eq("a=b=c".to_string())));
    assert_eq!(StringFilter::from_filter_text("sw=Al"), Ok(StringFilter::StartsWith("Al".to_string())));
    assert_eq!(StringFilter::from_filter_text("zz=Al"), Err(FilterParseError::UnknownFilter));
}

fn decl(name: &str, kind: FieldKind) -> FieldDecl {
    FieldDecl { name: name.to_string(), kind, table: None, alias: None, skip: false }
}

#[test]
fn end_to_end_with_schema() {
    let schema = FilterSchema {
        table: None,
        fields: vec![decl("name", FieldKind::Text), decl("age", FieldKind::Number), decl("active", FieldKind::EqualBool)],
    };
    let q = "name[sw]=Ali&age[gte]=18&age[lt]=30&active=true&limit=10&skip=5&order_by[desc]=age";
    let f = schema.parse_query(q).unwrap();
    assert_eq!(
        f.inner,
        vec![
            FieldFilter::Text(StringFilters(
                vec![StringFilter::StartsWith("Ali".to_string())],
                Some(FilterId::Alone("name".to_string()))
            )),
            FieldFilter::Number(NumberFilters(
                vec![NumberFilter::Gte(18), NumberFilter::Lt(30)],
                Some(FilterId::Alone("age".to_string()))
            )),
            FieldFilter::EqualBool(EqualFilter(Some(true), Some(FilterId::Alone("active".to_string())))),
        ]
    );
    assert_eq!(f.limit, Some(Limit(10)));
    assert_eq!(f.skip, Some(Skip(5)));
    assert_eq!(f.order_by, Some(OrderBy::Desc(FilterId::Alone("age".to_string()))));
}

#[test]
fn schema_errors_in_order() {
    let schema = FilterSchema { table: None, fields: vec![decl("a", FieldKind::Number), decl("b", FieldKind::EqualInt)] };
    assert_eq!(schema.parse_query("b=x&a[zz]=1").err(), Some(FilterParseError::UnknownFilter));
    assert_eq!(schema.parse_query("limit=x&a[zz]=1").err(), Some(FilterParseError::Value));
    assert_eq!(schema.parse_query("b=x").err(), Some(FilterParseError::Value));
}

#[test]
fn alias_names_the_emitted_column() {
    let mut name = decl("name", FieldKind::Text);
    name.table = Some("users".to_string());
    name.alias = Some("n".to_string());
    assert_eq!(
        name.filter_id(),
        FilterId::WithPrefixAndAlias("users".to_string(), "name".to_string(), "n".to_string())
    );
    let schema = FilterSchema { table: Some("users".to_string()), fields: vec![name] };
    let f = schema.parse_query("name[eq]=Bob&order_by[asc]=name").unwrap();
    match &f.inner[0] {
        FieldFilter::Text(t) => {
            assert_eq!(t.0, vec![StringFilter::Eq("Bob".to_string())]);
            let c = t.conditions();
            assert_eq!(c.len(), 1);
            assert_eq!(c[0].column, "n");
        }
        _ => panic!("Expected text filters"),
    }
    assert_eq!(
        f.order_by,
        Some(OrderBy::Asc(FilterId::WithPrefix("users".to_string(), "name".to_string())))
    );
    let mut bare = decl("name", FieldKind::Text);
    bare.alias = Some("n".to_string());
    assert_eq!(bare.filter_id(), FilterId::Alone("name".to_string()));
    assert_eq!(bare.filter_id().key(), "name");
}

#[test]
fn parsing_twice_gives_equal_results() {
    let q = "age[gte]=1&age=3&name[c]=x&limit=2";
    assert_eq!(NumberFilters::<i64>::from_str("age", q), NumberFilters::<i64>::from_str("age", q));
    assert_eq!(EqualFilter::<i64>::from_str("age", q), EqualFilter::<i64>::from_str("age", q));
    assert_eq!(StringFilters::<String>::from_str("name", q), StringFilters::<String>::from_str("name", q));
    assert_eq!(pairs::<i64>("age", q), pairs::<i64>("age", q));
}

#[test]
fn predicate_conditions() {
    let f = StringFilters::<String>::from_str("name", "name[sw]=Al&name[ew]=ce&name[c]=li&name[nl]=x&name=Bo").unwrap();
    let c = f.conditions();
    let got: Vec<(String, &str, String)> = c.into_iter().map(|c| (c.column, c.operator, c.value)).collect();
    assert_eq!(
        got,
        vec![
            ("name".to_string(), " LIKE ", "Al%".to_string()),
            ("name".to_string(), " LIKE ", "%ce".to_string()),
            ("name".to_string(), " LIKE ", "%li%".to_string()),
            ("name".to_string(), " NOT LIKE ", "x".to_string()),
            ("name".to_string(), " = ", "Bo".to_string()),
        ]
    );
    let n = NumberFilters::<i32>::from_str("age", "age[gte]=18&age[ne]=20").unwrap();
    let c = n.conditions();
    assert_eq!(c.len(), 2);
    assert_eq!((c[0].operator, c[0].value), (" >= ", 18));
    assert_eq!((c[1].operator, c[1].value), (" <> ", 20));
    let e = EqualFilter::<bool>::from_str("active", "active=true").unwrap();
    let c = e.condition().unwrap();
    assert_eq!((c.column.as_str(), c.operator, c.value), ("active", " = ", true));
    assert!(EqualFilter::<bool>::from_str("active", "").unwrap().condition().is_none());
    assert!(NumberFilters::<i32>(vec![NumberFilter::Eq(1)], None).conditions().is_empty());
    assert_eq!(Limit(10).sql_value(), 10);
    assert_eq!(Skip(5).sql_value(), 5);
    assert_eq!(Limit(u64::MAX).sql_value(), -1);
    assert_eq!(Skip(9223372036854775808).sql_value(), i64::MIN);
    let o = OrderBy::Desc(FilterId::Alone("age".to_string()));
    assert_eq!(o.sql_order(), ("age", " DESC"));
}

#[test]
fn error_messages() {
    assert_eq!(FilterParseError::FilterStructure.message(), "invalid filter structure");
    assert_eq!(FilterParseError::Value.message(), "invalid filter value");
    assert_eq!(FilterParseError::UnknownFilter.message(), "unknown filter");
    assert_eq!(FilterRejection(FilterParseError::Value).status_code(), 400);
}

#[test]
fn filter_id_keys() {
    let f = FilterId::WithPrefixAndAlias("u".to_string(), "name".to_string(), "n".to_string());
    assert_eq!(f.key(), "n");
    assert_eq!(f.id(), "name");
    assert_eq!(FilterId::WithPrefix("u".to_string(), "age".to_string()).key(), "age");
}

#[test]
fn generic_decoding_reports_first_error_in_query_order() {
    let r = from_str::<i32, NumberFilter<i32>>("age", "age[near]=1&oops");
    assert_eq!(r.err(), Some(FilterParseError::UnknownFilter));
    let r = from_str::<i32, NumberFilter<i32>>("age", "age=x&age[near]=1");
    assert_eq!(r.err(), Some(FilterParseError::Value));
    let r = from_str::<i32, NumberFilter<i32>>("age", "oops&age[near]=1");
    assert_eq!(r.err(), Some(FilterParseError::FilterStructure));
    let r = from_str::<i32, NumberFilter<i32>>("age", "age[gte]=1&b=2&age[lt]=9").unwrap();
    assert_eq!(r, vec![NumberFilter::Gte(1), NumberFilter::Lt(9)]);
}

#[test]
fn generic_decoding_agrees_with_families() {
    for q in ["age[near]=1&oops", "age=x&age[near]=1", "age[gt]=1&age[lte]=4", "", "x=1", "age[sw]=1"] {
        let family = NumberFilters::<i64>::from_str("age", q).map(|f| f.0);
        let generic = from_str::<i64, NumberFilter<i64>>("age", q);
        assert_eq!(family, generic);
        let family = StringFilters::<String>::from_str("age", q).map(|f| f.0);
        let generic = from_str::<String, StringFilter<String>>("age", q);
        assert_eq!(family, generic);
    }
    let eq = EqualFilter::<i64>::from_str("age", "age=1&age=2").unwrap();
    let generic = from_str::<i64, EqualFilter<i64>>("age", "age=1&age=2").unwrap();
    assert_eq!(generic.len(), 2);
    assert_eq!(eq.0, generic[1].0);
    assert!(from_str::<i64, EqualFilter<i64>>("age", "age=x").is_err());
    assert!(EqualFilter::<i64>::from_str("age", "age=x").is_err());
}

#[test]
fn single_pair_decoders() {
    assert_eq!(<NumberFilter<i32> as FromStrFilter<i32>>::from_str("gte", 5), Ok(NumberFilter::Gte(5)));
    assert_eq!(<NumberFilter<i32> as FromStrFilter<i32>>::from_str("near", 5), Err(FilterParseError::UnknownFilter));
    assert_eq!(
        <StringFilter<String> as FromStrFilter<String>>::from_str("sw", "a".to_string()),
        Ok(StringFilter::StartsWith("a".to_string()))
    );
    assert_eq!(
        <StringFilter<String> as FromStrFilter<String>>::from_str("gt", "a".to_string()),
        Err(FilterParseError::UnknownFilter)
    );
    let e = <EqualFilter<i32> as FromStrFilter<i32>>::from_str("anything", 3).unwrap();
    assert_eq!(e.0, Some(3));
    assert_eq!(<Limit as FromStrFilter<u64>>::from_str("x", 4), Ok(Limit(4)));
    assert_eq!(<Skip as FromStrFilter<u64>>::from_str("x", 4), Ok(Skip(4)));
    assert_eq!(
        <OrderBy as FromStrFilter<String>>::from_str("desc", "a".to_string()),
        Ok(OrderBy::Desc(FilterId::Alone("a".to_string())))
    );
    assert_eq!(
        <OrderBy as FromStrFilter<String>>::from_str("up", "a".to_string()),
        Err(FilterParseError::UnknownFilter)
    );
}

#[test]
fn small_and_pointer_sized_integers() {
    assert_eq!(pairs::<u8>("a", "a=255").unwrap()[0].1, 255);
    assert_eq!(pairs::<u8>("a", "a=256"), Err(FilterParseError::Value));
    assert_eq!(pairs::<i8>("a", "a=-128").unwrap()[0].1, -128);
    assert_eq!(pairs::<i8>("a", "a=128"), Err(FilterParseError::Value));
    assert_eq!(pairs::<u16>("a", "a=65535").unwrap()[0].1, 65535);
    assert_eq!(pairs::<u16>("a", "a=65536"), Err(FilterParseError::Value));
    assert_eq!(pairs::<i16>("a", "a=-32769"), Err(FilterParseError::Value));
    assert_eq!(pairs::<usize>("a", "a=+7").unwrap()[0].1, 7);
    assert_eq!(pairs::<usize>("a", "a=-1"), Err(FilterParseError::Value));
    assert_eq!(pairs::<isize>("a", "a=-7").unwrap()[0].1, -7);
}

#[test]
fn missing_operator_inside_longer_query() {
    let a = pairs::<i64>("age", "x=1&age=10&age[lt]=20").unwrap();
    let b = pairs::<i64>("age", "x=1&age[eq]=10&age[lt]=20").unwrap();
    assert_eq!(a, b);
}
