use vstd::prelude::*;

use crate::common::{
    accepts_code, count_of, decode_ok_before, decoded_to, decodes_ok, extract_spec, extracted,
    filters_decoded, find_from,
    lemma_split_nonempty, lemma_split_without_sep, operator_or_eq, pair_outcome, scan_pairs,
    scan_spec, segment_pairs, split_on, FromStrFilter, OperatorCodes, WithFilterId,
};
use crate::equal_filter::{equal_parse, EqualFilter};
use crate::errors::FilterParseError;
use crate::grammar::{is_word_char, key_name, key_operator, lower_end, name_end, name_start, word_end};
use crate::number_filter::{is_number_code, number_parse, NumberFilter};
use crate::order_by::{order_parse, OrderBy};
use crate::query_filter::{directives_error, query_parsed, FromQuery, FromQueryFilter};
use crate::schema::{field_id, FieldDecl};
use crate::value::FilterValue;

verus! {

/// Whether segment `seg` is a well-formed `key=value` pair whose key names a
/// field other than `id`.
pub open spec fn names_other_field(id: Seq<char>, seg: Seq<char>) -> bool {
    &&& find_from(seg, '=', 0) is Some
    &&& key_name(seg.take(find_from(seg, '=', 0)->0 as int)) matches Some(n)
    &&& n != id
}

proof fn lemma_other_segments<V: FilterValue>(id: Seq<char>, segs: Seq<Seq<char>>, codes: OperatorCodes)
    requires
        forall|i: int| 0 <= i < segs.len() ==> names_other_field(id, #[trigger] segs[i]),
    ensures
        segment_pairs::<V>(id, segs, codes) == Ok::<Seq<(Seq<char>, Seq<char>)>, FilterParseError>(
            Seq::empty(),
        ),
    decreases segs.len(),
{
    if segs.len() > 0 {
        let t = segs.drop_last();
        assert forall|i: int| 0 <= i < t.len() implies names_other_field(id, #[trigger] t[i]) by {
            assert(t[i] == segs[i]);
        }
        lemma_other_segments::<V>(id, t, codes);
        assert(names_other_field(id, segs[segs.len() - 1]));
    }
}

/// A query whose pairs all name other fields gives no pair for `id`, and no
/// error. (A malformed pair is an error whatever field it names.)
pub proof fn lemma_other_fields_give_nothing<V: FilterValue>(
    id: Seq<char>,
    q: Seq<char>,
    codes: OperatorCodes,
)
    requires
        forall|i: int|
            0 <= i < split_on(q, '&').len() ==> names_other_field(id, #[trigger] split_on(q, '&')[i]),
    ensures
        extract_spec::<V>(id, q, codes) == Ok::<Seq<(Seq<char>, Seq<char>)>, FilterParseError>(
            Seq::empty(),
        ),
{
    if q.len() > 0 {
        lemma_other_segments::<V>(id, split_on(q, '&'), codes);
    }
}

/// The empty query gives no pair, for any field.
pub proof fn lemma_empty_query<V: FilterValue>(id: Seq<char>, codes: OperatorCodes)
    ensures
        extract_spec::<V>(id, Seq::empty(), codes) == Ok::<Seq<(Seq<char>, Seq<char>)>, FilterParseError>(
            Seq::empty(),
        ),
{
}

/// Whether `n` is a possible field name: one or more ASCII word characters.
pub open spec fn is_field_name(n: Seq<char>) -> bool {
    n.len() > 0 && forall|i: int| 0 <= i < n.len() ==> #[trigger] is_word_char(n[i])
}

proof fn lemma_word_run(k: Seq<char>, i: nat, e: nat)
    requires
        i <= e <= k.len(),
        forall|j: int| i <= j < e ==> #[trigger] is_word_char(k[j]),
    ensures
        word_end(k, i) == word_end(k, e),
    decreases e - i,
{
    if i < e {
        lemma_word_run(k, i + 1, e);
    }
}

proof fn lemma_find_skips(s: Seq<char>, c: char, i: nat, e: nat)
    requires
        i <= e <= s.len(),
        forall|j: int| i <= j < e ==> #[trigger] s[j] != c,
    ensures
        find_from(s, c, i) == find_from(s, c, e),
    decreases e - i,
{
    if i < e {
        lemma_find_skips(s, c, i + 1, e);
    }
}

proof fn lemma_no_char(s: Seq<char>, c: char)
    requires
        forall|j: int| 0 <= j < s.len() ==> #[trigger] s[j] != c,
    ensures
        count_of(s, c) == 0,
    decreases s.len(),
{
    if s.len() > 0 {
        let t = s.drop_last();
        assert forall|j: int| 0 <= j < t.len() implies #[trigger] t[j] != c by {
            assert(t[j] == s[j]);
        }
        lemma_no_char(t, c);
    }
}

/// The segment `n=t` and the segment `n[eq]=t` give the same outcome: a
/// key without operator code stands for `eq`.
pub proof fn lemma_missing_operator_is_eq_segment<V: FilterValue>(
    id: Seq<char>,
    n: Seq<char>,
    t: Seq<char>,
    codes: OperatorCodes,
)
    requires
        is_field_name(n),
    ensures
        pair_outcome::<V>(id, n + seq!['='] + t, codes) == pair_outcome::<V>(
            id,
            n + seq!['[', 'e', 'q', ']', '='] + t,
            codes,
        ),
        pair_outcome::<V>(id, n + seq!['='] + t, codes) == (if n != id {
            Ok::<Option<(Seq<char>, Seq<char>)>, FilterParseError>(None)
        } else if !V::accepts_text(t) {
            Err(FilterParseError::Value)
        } else if !accepts_code(codes, "eq"@) {
            Err(FilterParseError::UnknownFilter)
        } else {
            Ok(Some(("eq"@, t)))
        }),
{
    reveal_strlit("eq");
    let m: int = n.len() as int;
    let s1 = n + seq!['='] + t;
    let s2 = n + seq!['[', 'e', 'q', ']', '='] + t;
    // the first segment
    assert forall|j: int| 0 <= j < m implies #[trigger] s1[j] != '=' by {
        assert(s1[j] == n[j]);
        assert(is_word_char(n[j]));
    }
    lemma_find_skips(s1, '=', 0, m as nat);
    assert(s1[m as int] == '=');
    assert(find_from(s1, '=', 0) == Some(m as nat));
    let k1 = s1.take(m as int);
    assert(k1 =~= n);
    assert(s1.skip(m + 1) =~= t);
    assert(is_word_char(n[0]));
    assert(name_start(n) == 0);
    lemma_word_run(n, 0, m as nat);
    assert(name_end(n) == m);
    assert(n.subrange(0, m as int) =~= n);
    assert(key_name(n) == Some(n));
    assert(key_operator(n) is None);
    assert(operator_or_eq(n) == "eq"@);
    // the second segment
    assert forall|j: int| 0 <= j < m + 4 implies #[trigger] s2[j] != '=' by {
        if j < m {
            assert(s2[j] == n[j]);
            assert(is_word_char(n[j]));
        }
    }
    lemma_find_skips(s2, '=', 0, (m + 4) as nat);
    assert(s2[m + 4] == '=');
    assert(find_from(s2, '=', 0) == Some((m + 4) as nat));
    let k2 = s2.take(m + 4);
    assert(k2 =~= n + seq!['[', 'e', 'q', ']']);
    assert(s2.skip(m + 5) =~= t);
    assert(k2[0] == n[0]);
    assert(name_start(k2) == 0);
    assert forall|j: int| 0 <= j < m implies #[trigger] is_word_char(k2[j]) by {
        assert(k2[j] == n[j]);
    }
    lemma_word_run(k2, 0, m as nat);
    assert(!is_word_char(k2[m as int]));
    assert(name_end(k2) == m);
    assert(k2.subrange(0, m as int) =~= n);
    assert(key_name(k2) == Some(n));
    assert(lower_end(k2, (m + 1) as nat) == m + 3) by {
        assert(k2[m + 1] == 'e');
        assert(k2[m + 2] == 'q');
        assert(k2[m + 3] == ']');
        assert(lower_end(k2, (m + 3) as nat) == m + 3);
        assert(lower_end(k2, (m + 2) as nat) == m + 3);
    }
    assert(k2.subrange(m + 1, m + 3) =~= seq!['e', 'q']);
    assert(key_operator(k2) == Some(seq!['e', 'q']));
    assert(operator_or_eq(k2) == "eq"@);
}

/// The pairs of two results in sequence: the first error, else both lists
/// one after the other.
pub open spec fn join_pairs(
    a: Result<Seq<(Seq<char>, Seq<char>)>, FilterParseError>,
    b: Result<Seq<(Seq<char>, Seq<char>)>, FilterParseError>,
) -> Result<Seq<(Seq<char>, Seq<char>)>, FilterParseError> {
    match a {
        Err(e) => Err(e),
        Ok(x) => match b {
            Err(e) => Err(e),
            Ok(y) => Ok(x + y),
        },
    }
}

proof fn lemma_split_concat(a: Seq<char>, b: Seq<char>, sep: char)
    ensures
        split_on(a + seq![sep] + b, sep) == split_on(a, sep) + split_on(b, sep),
    decreases b.len(),
{
    let s = a + seq![sep] + b;
    if b.len() == 0 {
        assert(s.drop_last() =~= a);
        assert(split_on(a, sep).push(Seq::empty()) =~= split_on(a, sep) + split_on(b, sep));
    } else {
        assert(s.drop_last() =~= a + seq![sep] + b.drop_last());
        lemma_split_concat(a, b.drop_last(), sep);
        lemma_split_nonempty(b.drop_last(), sep);
        if b.last() == sep {
            assert(split_on(s, sep) =~= split_on(a, sep) + split_on(b, sep));
        } else {
            assert(split_on(s, sep) =~= split_on(a, sep) + split_on(b, sep));
        }
    }
}

proof fn lemma_segments_concat<V: FilterValue>(
    id: Seq<char>,
    s1: Seq<Seq<char>>,
    s2: Seq<Seq<char>>,
    codes: OperatorCodes,
)
    ensures
        segment_pairs::<V>(id, s1 + s2, codes) == join_pairs(
            segment_pairs::<V>(id, s1, codes),
            segment_pairs::<V>(id, s2, codes),
        ),
    decreases s2.len(),
{
    if s2.len() == 0 {
        assert(s1 + s2 =~= s1);
        if let Ok(x) = segment_pairs::<V>(id, s1, codes) {
            assert(x + Seq::empty() =~= x);
        }
    } else {
        assert((s1 + s2).drop_last() =~= s1 + s2.drop_last());
        lemma_segments_concat::<V>(id, s1, s2.drop_last(), codes);
        if let (Ok(x), Ok(y)) = (
            segment_pairs::<V>(id, s1, codes),
            segment_pairs::<V>(id, s2.drop_last(), codes),
        ) {
            if let Ok(Some(p)) = pair_outcome::<V>(id, s2.last(), codes) {
                assert((x + y).push(p) =~= x + y.push(p));
            }
        }
    }
}

/// The pairs of `q1&q2` are those of `q1` followed by those of `q2`: pairs
/// keep the order of the query, and the first error wins.
pub proof fn lemma_pairs_keep_query_order<V: FilterValue>(
    id: Seq<char>,
    q1: Seq<char>,
    q2: Seq<char>,
    codes: OperatorCodes,
)
    requires
        q1.len() > 0,
        q2.len() > 0,
    ensures
        extract_spec::<V>(id, q1 + seq!['&'] + q2, codes) == join_pairs(
            extract_spec::<V>(id, q1, codes),
            extract_spec::<V>(id, q2, codes),
        ),
{
    lemma_split_concat(q1, q2, '&');
    lemma_segments_concat::<V>(id, split_on(q1, '&'), split_on(q2, '&'), codes);
}

/// Whether a text converts to at most one value of `T`.
pub open spec fn values_unique<T: FilterValue>() -> bool {
    forall|s: Seq<char>, v1: T, v2: T|
        T::is_value_of(s, v1) && T::is_value_of(s, v2) ==> v1 == v2
}

/// Integers and booleans convert each text to at most one value.
pub proof fn lemma_scalar_values_unique()
    ensures
        values_unique::<i8>(),
        values_unique::<i16>(),
        values_unique::<i32>(),
        values_unique::<i64>(),
        values_unique::<isize>(),
        values_unique::<u8>(),
        values_unique::<u16>(),
        values_unique::<u32>(),
        values_unique::<u64>(),
        values_unique::<usize>(),
        values_unique::<bool>(),
{
}

/// Extracting the same field from the same query twice gives the same error,
/// or the same operator codes with the same values.
pub proof fn lemma_extract_repeatable<V: FilterValue>(
    id: Seq<char>,
    q: Seq<char>,
    codes: OperatorCodes,
    r1: Result<Vec<(String, V)>, FilterParseError>,
    r2: Result<Vec<(String, V)>, FilterParseError>,
)
    requires
        values_unique::<V>(),
        extracted(id, q, codes, r1),
        extracted(id, q, codes, r2),
    ensures
        r1 is Err ==> r1 == r2,
        r1 matches Ok(a) ==> r2 matches Ok(b) && a@.len() == b@.len() && forall|i: int|
            0 <= i < a@.len() ==> (#[trigger] a@[i]).0@ == b@[i].0@ && a@[i].1 == b@[i].1,
{
}

/// Parsing the same numeric comparisons from the same query twice gives the
/// same result.
pub proof fn lemma_number_parse_repeatable<T: FilterValue>(
    id: Seq<char>,
    q: Seq<char>,
    r1: Result<Seq<NumberFilter<T>>, FilterParseError>,
    r2: Result<Seq<NumberFilter<T>>, FilterParseError>,
)
    requires
        values_unique::<T>(),
        number_parse::<T>(id, q, r1),
        number_parse::<T>(id, q, r2),
    ensures
        r1 == r2,
{
    if let (Ok(a), Ok(b)) = (r1, r2) {
        let raw = extract_spec::<T>(id, q, OperatorCodes::Number)->Ok_0;
        assert forall|i: int| 0 <= i < a.len() implies a[i] == b[i] by {
            assert(T::is_value_of(raw[i].1, a[i].operand()));
            assert(T::is_value_of(raw[i].1, b[i].operand()));
        }
        assert(a =~= b);
    }
}

/// Parsing the same equality from the same query twice gives the same
/// result.
pub proof fn lemma_equal_parse_repeatable<T: FilterValue>(
    id: Seq<char>,
    q: Seq<char>,
    r1: Result<Option<T>, FilterParseError>,
    r2: Result<Option<T>, FilterParseError>,
)
    requires
        values_unique::<T>(),
        equal_parse::<T>(id, q, r1),
        equal_parse::<T>(id, q, r2),
    ensures
        r1 == r2,
{
}

/// A field declared with a table and an alias is looked up by its own name
/// and emitted under the alias; a field declared without a table is looked
/// up and emitted under its own name, whatever alias it declares.
pub proof fn lemma_alias_naming(d: FieldDecl)
    ensures
        (d.table is Some && d.alias is Some) ==> field_id(d).spec_id() == d.name@
            && field_id(d).spec_key() == d.alias->0@,
        d.table is None ==> field_id(d).spec_id() == d.name@ && field_id(d).spec_key() == d.name@,
        d.alias is None ==> field_id(d).spec_key() == d.name@,
{
}

proof fn lemma_same_outcomes<V: FilterValue>(
    id: Seq<char>,
    s1: Seq<Seq<char>>,
    s2: Seq<Seq<char>>,
    codes: OperatorCodes,
)
    requires
        s1.len() == s2.len(),
        forall|i: int|
            0 <= i < s1.len() ==> pair_outcome::<V>(id, #[trigger] s1[i], codes) == pair_outcome::<V>(
                id,
                s2[i],
                codes,
            ),
    ensures
        segment_pairs::<V>(id, s1, codes) == segment_pairs::<V>(id, s2, codes),
        scan_pairs::<V>(id, s1, codes) == scan_pairs::<V>(id, s2, codes),
    decreases s1.len(),
{
    if s1.len() > 0 {
        let t1 = s1.drop_last();
        let t2 = s2.drop_last();
        assert forall|i: int| 0 <= i < t1.len() implies pair_outcome::<V>(id, #[trigger] t1[i], codes)
            == pair_outcome::<V>(id, t2[i], codes) by {
            assert(t1[i] == s1[i]);
            assert(t2[i] == s2[i]);
        }
        lemma_same_outcomes::<V>(id, t1, t2, codes);
        assert(pair_outcome::<V>(id, s1[s1.len() - 1], codes) == pair_outcome::<V>(
            id,
            s2[s1.len() - 1],
            codes,
        ));
    }
}

/// The query made of the pairs `a`, then segment `s`, then the pairs `b`,
/// where `a` and `b` may be empty.
pub open spec fn in_query(a: Seq<char>, s: Seq<char>, b: Seq<char>) -> Seq<char> {
    (if a.len() == 0 { s } else { a + seq!['&'] + s }) + (if b.len() == 0 {
        Seq::empty()
    } else {
        seq!['&'] + b
    })
}

/// The segments of `in_query(a, s, b)`, where `s` holds no `&`.
proof fn lemma_in_query_segments(a: Seq<char>, s: Seq<char>, b: Seq<char>)
    requires
        split_on(s, '&') == seq![s],
    ensures
        split_on(in_query(a, s, b), '&') == (if a.len() == 0 {
            Seq::empty()
        } else {
            split_on(a, '&')
        }) + seq![s] + (if b.len() == 0 { Seq::empty() } else { split_on(b, '&') }),
        in_query(a, s, b).len() > 0 || s.len() == 0,
{
    let q = in_query(a, s, b);
    if a.len() == 0 && b.len() == 0 {
        assert(q =~= s);
        assert(Seq::<Seq<char>>::empty() + seq![s] + Seq::empty() =~= seq![s]);
    } else if a.len() == 0 {
        assert(q =~= s + seq!['&'] + b);
        lemma_split_concat(s, b, '&');
        assert(Seq::<Seq<char>>::empty() + seq![s] + split_on(b, '&') =~= seq![s] + split_on(b, '&'));
    } else if b.len() == 0 {
        assert(q =~= a + seq!['&'] + s);
        lemma_split_concat(a, s, '&');
        assert(split_on(a, '&') + seq![s] + Seq::empty() =~= split_on(a, '&') + seq![s]);
    } else {
        assert(q =~= a + seq!['&'] + (s + seq!['&'] + b));
        lemma_split_concat(a, s + seq!['&'] + b, '&');
        lemma_split_concat(s, b, '&');
        assert(split_on(a, '&') + (seq![s] + split_on(b, '&')) =~= split_on(a, '&') + seq![s]
            + split_on(b, '&'));
    }
}

/// Anywhere in a query, the pair `n=t` and the pair `n[eq]=t` give the same
/// extraction and the same scan: a key without operator code stands for
/// `eq`. The value text holds no `&`.
pub proof fn lemma_missing_operator_is_eq_in_query<V: FilterValue>(
    id: Seq<char>,
    a: Seq<char>,
    n: Seq<char>,
    t: Seq<char>,
    b: Seq<char>,
    codes: OperatorCodes,
)
    requires
        is_field_name(n),
        forall|j: int| 0 <= j < t.len() ==> #[trigger] t[j] != '&',
    ensures
        extract_spec::<V>(id, in_query(a, n + seq!['='] + t, b), codes) == extract_spec::<V>(
            id,
            in_query(a, n + seq!['[', 'e', 'q', ']', '='] + t, b),
            codes,
        ),
        scan_spec::<V>(id, in_query(a, n + seq!['='] + t, b), codes) == scan_spec::<V>(
            id,
            in_query(a, n + seq!['[', 'e', 'q', ']', '='] + t, b),
            codes,
        ),
{
    let s1 = n + seq!['='] + t;
    let s2 = n + seq!['[', 'e', 'q', ']', '='] + t;
    lemma_missing_operator_is_eq_segment::<V>(id, n, t, codes);
    let m: int = n.len() as int;
    assert forall|j: int| 0 <= j < s1.len() implies #[trigger] s1[j] != '&' by {
        if j < m {
            assert(s1[j] == n[j]);
            assert(is_word_char(n[j]));
        } else if j > m {
            assert(s1[j] == t[j - m - 1]);
        }
    }
    assert forall|j: int| 0 <= j < s2.len() implies #[trigger] s2[j] != '&' by {
        if j < m {
            assert(s2[j] == n[j]);
            assert(is_word_char(n[j]));
        } else if j > m + 4 {
            assert(s2[j] == t[j - m - 5]);
        }
    }
    lemma_no_char(s1, '&');
    lemma_no_char(s2, '&');
    lemma_split_without_sep(s1, '&');
    lemma_split_without_sep(s2, '&');
    lemma_in_query_segments(a, s1, b);
    lemma_in_query_segments(a, s2, b);
    let pa: Seq<Seq<char>> = if a.len() == 0 { Seq::empty() } else { split_on(a, '&') };
    let pb: Seq<Seq<char>> = if b.len() == 0 { Seq::empty() } else { split_on(b, '&') };
    let g1 = pa + seq![s1] + pb;
    let g2 = pa + seq![s2] + pb;
    assert forall|i: int| 0 <= i < g1.len() implies pair_outcome::<V>(id, #[trigger] g1[i], codes)
        == pair_outcome::<V>(id, g2[i], codes) by {
        if i != pa.len() {
            assert(g1[i] == g2[i]);
        } else {
            assert(g1[i] == s1);
            assert(g2[i] == s2);
        }
    }
    lemma_same_outcomes::<V>(id, g1, g2, codes);
}

/// Decoding with any `T` admits the same results for a query with the pair
/// `n=t` as for the same query with `n[eq]=t` in its place.
pub proof fn lemma_missing_operator_is_eq_decoded<V: FilterValue, T: FromStrFilter<V>>(
    id: Seq<char>,
    a: Seq<char>,
    n: Seq<char>,
    t: Seq<char>,
    b: Seq<char>,
    r: Result<Seq<T>, FilterParseError>,
)
    requires
        is_field_name(n),
        forall|j: int| 0 <= j < t.len() ==> #[trigger] t[j] != '&',
    ensures
        filters_decoded::<V, T>(id, in_query(a, n + seq!['='] + t, b), r) == filters_decoded::<V, T>(
            id,
            in_query(a, n + seq!['[', 'e', 'q', ']', '='] + t, b),
            r,
        ),
{
    lemma_missing_operator_is_eq_in_query::<V>(id, a, n, t, b, OperatorCodes::Any);
}

/// `T`'s reading of a query has one outcome for each query.
pub open spec fn parses_repeatably<T: FromQuery>() -> bool {
    forall|s: Seq<char>, r1: Result<T, FilterParseError>, r2: Result<T, FilterParseError>|
        T::parses(s, r1) && T::parses(s, r2) ==> r1 == r2
}

/// `T` declares one scope.
pub open spec fn declares_one_scope<T: WithFilterId>() -> bool {
    forall|s1: Option<Seq<char>>, s2: Option<Seq<char>>|
        #[trigger] T::declares_scope(s1) && #[trigger] T::declares_scope(s2) ==> s1 == s2
}

/// Both sort the same way on identifiers with the same names, or both are
/// absent.
pub open spec fn same_sort(a: Option<OrderBy>, b: Option<OrderBy>) -> bool {
    match (a, b) {
        (None, None) => true,
        (Some(x), Some(y)) => (x is Asc <==> y is Asc) && x.spec_field().same_as(&y.spec_field()),
        _ => false,
    }
}

/// Parsing the same query twice with field filters whose own reading and
/// scope have one outcome gives the same error, or the same filters, limit,
/// skip and sort.
pub proof fn lemma_query_parse_repeatable<T: FromQuery + WithFilterId>(
    q: Seq<char>,
    r1: Result<FromQueryFilter<T>, FilterParseError>,
    r2: Result<FromQueryFilter<T>, FilterParseError>,
)
    requires
        parses_repeatably::<T>(),
        declares_one_scope::<T>(),
        query_parsed::<T>(q, r1),
        query_parsed::<T>(q, r2),
    ensures
        r1 is Err ==> r1 == r2,
        r1 matches Ok(f1) ==> (r2 matches Ok(f2) && f1.inner == f2.inner && f1.limit == f2.limit
            && f1.skip == f2.skip && same_sort(f1.order_by, f2.order_by)),
{
    if directives_error(q) is None {
        match (r1, r2) {
            (Ok(f1), Ok(f2)) => {
                assert(T::parses(q, Ok::<T, FilterParseError>(f1.inner)));
                assert(T::parses(q, Ok::<T, FilterParseError>(f2.inner)));
                let s1 = choose|scope: Option<Seq<char>>|
                    #[trigger] T::declares_scope(scope) && order_parse(q, scope, Ok(f1.order_by));
                let s2 = choose|scope: Option<Seq<char>>|
                    #[trigger] T::declares_scope(scope) && order_parse(q, scope, Ok(f2.order_by));
                assert(s1 == s2);
            },
            (Ok(f1), Err(e2)) => {
                assert(T::parses(q, Ok::<T, FilterParseError>(f1.inner)));
                assert(T::parses(q, Err::<T, FilterParseError>(e2)));
            },
            (Err(e1), Ok(f2)) => {
                assert(T::parses(q, Ok::<T, FilterParseError>(f2.inner)));
                assert(T::parses(q, Err::<T, FilterParseError>(e1)));
            },
            (Err(e1), Err(e2)) => {
                assert(T::parses(q, Err::<T, FilterParseError>(e1)));
                assert(T::parses(q, Err::<T, FilterParseError>(e2)));
            },
        }
    }
}

/// Whether every code of `ps` is a numeric comparison code.
pub open spec fn all_number_codes(ps: Seq<(Seq<char>, Seq<char>)>) -> bool {
    forall|i: int| 0 <= i < ps.len() ==> is_number_code(#[trigger] ps[i].0)
}

proof fn lemma_scan_with_any_codes<V: FilterValue>(id: Seq<char>, segs: Seq<Seq<char>>)
    ensures
        segment_pairs::<V>(id, segs, OperatorCodes::Any) == match scan_pairs::<V>(
            id,
            segs,
            OperatorCodes::Any,
        ) {
            (ps, None) => Ok::<Seq<(Seq<char>, Seq<char>)>, FilterParseError>(ps),
            (_, Some(e)) => Err(e),
        },
    decreases segs.len(),
{
    if segs.len() > 0 {
        lemma_scan_with_any_codes::<V>(id, segs.drop_last());
    }
}

proof fn lemma_scan_with_number_codes<V: FilterValue>(id: Seq<char>, segs: Seq<Seq<char>>)
    ensures
        all_number_codes(scan_pairs::<V>(id, segs, OperatorCodes::Any).0) ==> segment_pairs::<V>(
            id,
            segs,
            OperatorCodes::Number,
        ) == match scan_pairs::<V>(id, segs, OperatorCodes::Any) {
            (ps, None) => Ok::<Seq<(Seq<char>, Seq<char>)>, FilterParseError>(ps),
            (_, Some(e)) => Err(e),
        },
        !all_number_codes(scan_pairs::<V>(id, segs, OperatorCodes::Any).0) ==> segment_pairs::<V>(
            id,
            segs,
            OperatorCodes::Number,
        ) == Err::<Seq<(Seq<char>, Seq<char>)>, FilterParseError>(FilterParseError::UnknownFilter),
    decreases segs.len(),
{
    if segs.len() > 0 {
        let t = segs.drop_last();
        lemma_scan_with_number_codes::<V>(id, t);
        let prev = scan_pairs::<V>(id, t, OperatorCodes::Any).0;
        let now = scan_pairs::<V>(id, segs, OperatorCodes::Any).0;
        if !all_number_codes(prev) {
            let i = choose|i: int| 0 <= i < prev.len() && !is_number_code(#[trigger] prev[i].0);
            assert(now[i] == prev[i]);
        }
        if let Ok(Some(p)) = pair_outcome::<V>(id, segs.last(), OperatorCodes::Any) {
            if scan_pairs::<V>(id, t, OperatorCodes::Any).1 is None && !is_number_code(p.0) {
                assert(now[now.len() - 1] == p);
            }
        }
    }
}

/// Parsing numeric comparisons by their family and decoding each pair with
/// `NumberFilter` give the same result: the same error, or the same
/// comparisons in the same order.
pub proof fn lemma_number_family_is_generic<T: FilterValue>(
    id: Seq<char>,
    q: Seq<char>,
    rf: Result<Seq<NumberFilter<T>>, FilterParseError>,
    rg: Result<Seq<NumberFilter<T>>, FilterParseError>,
)
    requires
        values_unique::<T>(),
        number_parse::<T>(id, q, rf),
        filters_decoded::<T, NumberFilter<T>>(id, q, rg),
    ensures
        rf == rg,
{
    if q.len() > 0 {
        lemma_scan_with_number_codes::<T>(id, split_on(q, '&'));
    }
    let ps = scan_spec::<T>(id, q, OperatorCodes::Any).0;
    let err = scan_spec::<T>(id, q, OperatorCodes::Any).1;
    match rg {
        Ok(ts) => {
            assert forall|i: int| 0 <= i < ps.len() implies is_number_code(#[trigger] ps[i].0) by {
                assert(decoded_to::<T, NumberFilter<T>>(ps[i], Ok(ts[i])));
            }
            assert(all_number_codes(ps));
            let fs = rf->Ok_0;
            assert forall|i: int| 0 <= i < ts.len() implies fs[i] == #[trigger] ts[i] by {
                assert(decoded_to::<T, NumberFilter<T>>(ps[i], Ok(ts[i])));
                let v = choose|v: T|
                    #[trigger] T::is_value_of(ps[i].1, v) && NumberFilter::<T>::decodes(
                        ps[i].0,
                        v,
                        Ok(ts[i]),
                    );
                assert(T::is_value_of(ps[i].1, fs[i].operand()));
            }
            assert(fs =~= ts);
        },
        Err(e) => {
            if err == Some(e) && decode_ok_before::<T, NumberFilter<T>>(ps, ps.len() as int) {
                assert forall|i: int| 0 <= i < ps.len() implies is_number_code(#[trigger] ps[i].0) by {
                    assert(decodes_ok::<T, NumberFilter<T>>(ps[i]));
                    let t = choose|t: NumberFilter<T>|
                        #[trigger] decoded_to::<T, NumberFilter<T>>(ps[i], Ok(t));
                }
                assert(all_number_codes(ps));
            } else {
                let i = choose|i: int|
                    0 <= i < ps.len() && decode_ok_before::<T, NumberFilter<T>>(ps, i)
                        && #[trigger] decoded_to::<T, NumberFilter<T>>(ps[i], Err(e));
                assert(!is_number_code(ps[i].0));
                assert(!all_number_codes(ps));
            }
        },
    }
}

/// Parsing an equality by its family and decoding each pair with
/// `EqualFilter` succeed on the same queries and fail with the same error;
/// the family keeps the value of the last decoded pair.
pub proof fn lemma_equal_family_is_generic<T: FilterValue>(
    id: Seq<char>,
    q: Seq<char>,
    rf: Result<Option<T>, FilterParseError>,
    rg: Result<Seq<EqualFilter<T>>, FilterParseError>,
)
    requires
        values_unique::<T>(),
        equal_parse::<T>(id, q, rf),
        filters_decoded::<T, EqualFilter<T>>(id, q, rg),
    ensures
        rf matches Err(e) ==> rg == Err::<Seq<EqualFilter<T>>, FilterParseError>(e),
        rg matches Err(e) ==> rf == Err::<Option<T>, FilterParseError>(e),
        rf matches Ok(v) ==> (rg matches Ok(ts) && v == (if ts.len() == 0 {
            None
        } else {
            ts.last().0
        })),
{
    if q.len() > 0 {
        lemma_scan_with_any_codes::<T>(id, split_on(q, '&'));
    }
    let ps = scan_spec::<T>(id, q, OperatorCodes::Any).0;
    let err = scan_spec::<T>(id, q, OperatorCodes::Any).1;
    match rg {
        Ok(ts) => {
            if ts.len() > 0 {
                let k = ts.len() - 1;
                assert(decoded_to::<T, EqualFilter<T>>(ps[k], Ok(ts[k])));
                let v = choose|v: T|
                    #[trigger] T::is_value_of(ps[k].1, v) && EqualFilter::<T>::decodes(
                        ps[k].0,
                        v,
                        Ok(ts[k]),
                    );
                assert(ps.last() == ps[k]);
            }
        },
        Err(e) => {
            if !(err == Some(e)) {
                let i = choose|i: int|
                    0 <= i < ps.len() && decode_ok_before::<T, EqualFilter<T>>(ps, i)
                        && #[trigger] decoded_to::<T, EqualFilter<T>>(ps[i], Err(e));
                let v = choose|v: T|
                    #[trigger] T::is_value_of(ps[i].1, v) && EqualFilter::<T>::decodes(
                        ps[i].0,
                        v,
                        Err(e),
                    );
            }
        },
    }
}

} // verus!
