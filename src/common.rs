use vstd::prelude::*;

use crate::errors::FilterParseError;
use crate::grammar::{key_name, key_operator, match_key};
use crate::text::{chars_of, text_between};
use crate::number_filter::{is_number_code, NumberFilter};
use crate::order_by::{is_direction_code, OrderBy};
use crate::string_filter::{is_string_code, StringFilter};
use crate::value::FilterValue;

verus! {

/// The pieces of `s` between the separators `sep`, as `str::split` gives them:
/// always at least one, empty pieces included.
pub open spec fn split_on(s: Seq<char>, sep: char) -> Seq<Seq<char>>
    decreases s.len(),
{
    if s.len() == 0 {
        seq![Seq::empty()]
    } else {
        let prev = split_on(s.drop_last(), sep);
        if s.last() == sep {
            prev.push(Seq::empty())
        } else {
            prev.update(prev.len() - 1, prev.last().push(s.last()))
        }
    }
}

/// The first position at or after `i` where `s` holds `c`.
pub open spec fn find_from(s: Seq<char>, c: char, i: nat) -> Option<nat>
    decreases s.len() - i,
{
    if i >= s.len() {
        None
    } else if s[i as int] == c {
        Some(i)
    } else {
        find_from(s, c, i + 1)
    }
}

/// The operator code of key `k`, `eq` where it has none.
pub open spec fn operator_or_eq(k: Seq<char>) -> Seq<char> {
    match key_operator(k) {
        Some(op) => op,
        None => "eq"@,
    }
}

/// The operator codes that a filter family accepts.
#[derive(Debug, Clone, Copy, PartialEq, Eq, Structural)]
pub enum OperatorCodes {
    /// Any code: the code carries no meaning for the family.
    Any,
    /// The numeric comparison codes.
    Number,
    /// The string comparison codes, short aliases included.
    Text,
    /// The sort directions `asc` and `desc`.
    Direction,
}

pub open spec fn accepts_code(codes: OperatorCodes, op: Seq<char>) -> bool {
    match codes {
        OperatorCodes::Any => true,
        OperatorCodes::Number => is_number_code(op),
        OperatorCodes::Text => is_string_code(op),
        OperatorCodes::Direction => is_direction_code(op),
    }
}

impl OperatorCodes {
    /// Whether the family accepts code `op`.
    pub fn accepts(&self, op: &str) -> (r: bool)
        ensures
            r == accepts_code(*self, op@),
    {
        match self {
            OperatorCodes::Any => true,
            OperatorCodes::Number => NumberFilter::<u64>::is_code(op),
            OperatorCodes::Text => StringFilter::<String>::is_code(op),
            OperatorCodes::Direction => OrderBy::is_code(op),
        }
    }
}

/// What one `key=value` segment of a query gives for field `id` in a family
/// accepting `codes`: an error, no pair (the key names another field), or the
/// operator code and value text. The checks run in this order: the `=`, the
/// key, the field name, the value, the code.
pub open spec fn pair_outcome<V: FilterValue>(id: Seq<char>, seg: Seq<char>, codes: OperatorCodes) -> Result<
    Option<(Seq<char>, Seq<char>)>,
    FilterParseError,
> {
    match find_from(seg, '=', 0) {
        None => Err(FilterParseError::FilterStructure),
        Some(e) => {
            let key = seg.take(e as int);
            let text = seg.skip(e + 1 as int);
            match key_name(key) {
                None => Err(FilterParseError::FilterStructure),
                Some(name) => if name != id {
                    Ok(None)
                } else if !V::accepts_text(text) {
                    Err(FilterParseError::Value)
                } else if !accepts_code(codes, operator_or_eq(key)) {
                    Err(FilterParseError::UnknownFilter)
                } else {
                    Ok(Some((operator_or_eq(key), text)))
                },
            }
        },
    }
}

/// The pairs for field `id` that the segments `segs` give, in order, or the
/// first error among them.
pub open spec fn segment_pairs<V: FilterValue>(
    id: Seq<char>,
    segs: Seq<Seq<char>>,
    codes: OperatorCodes,
) -> Result<
    Seq<(Seq<char>, Seq<char>)>,
    FilterParseError,
>
    decreases segs.len(),
{
    if segs.len() == 0 {
        Ok(Seq::empty())
    } else {
        match segment_pairs::<V>(id, segs.drop_last(), codes) {
            Err(e) => Err(e),
            Ok(prev) => match pair_outcome::<V>(id, segs.last(), codes) {
                Err(e) => Err(e),
                Ok(None) => Ok(prev),
                Ok(Some(p)) => Ok(prev.push(p)),
            },
        }
    }
}

/// Every (operator code, value text) pair of query `q` for field `id`, in the
/// order of the query, each code one that `codes` accepts; none for an empty
/// query.
pub open spec fn extract_spec<V: FilterValue>(id: Seq<char>, q: Seq<char>, codes: OperatorCodes) -> Result<
    Seq<(Seq<char>, Seq<char>)>,
    FilterParseError,
> {
    if q.len() == 0 {
        Ok(Seq::empty())
    } else {
        segment_pairs::<V>(id, split_on(q, '&'), codes)
    }
}

/// `r` holds the operator codes of `raw` and the values its texts convert to.
pub open spec fn typed_pairs<V: FilterValue>(
    r: Seq<(String, V)>,
    raw: Seq<(Seq<char>, Seq<char>)>,
) -> bool {
    &&& r.len() == raw.len()
    &&& forall|i: int|
        0 <= i < r.len() ==> (#[trigger] r[i]).0@ == raw[i].0 && V::is_value_of(raw[i].1, r[i].1)
}

/// `r` is what extracting field `id` from query `q` for a family accepting
/// `codes` gives.
pub open spec fn extracted<V: FilterValue>(
    id: Seq<char>,
    q: Seq<char>,
    codes: OperatorCodes,
    r: Result<Vec<(String, V)>, FilterParseError>,
) -> bool {
    match r {
        Ok(v) => extract_spec::<V>(id, q, codes) is Ok && typed_pairs(
            v@,
            extract_spec::<V>(id, q, codes)->Ok_0,
        ),
        Err(e) => extract_spec::<V>(id, q, codes) == Err::<
            Seq<(Seq<char>, Seq<char>)>,
            FilterParseError,
        >(e),
    }
}

pub proof fn lemma_split_nonempty(s: Seq<char>, sep: char)
    ensures
        split_on(s, sep).len() >= 1,
    decreases s.len(),
{
    if s.len() > 0 {
        lemma_split_nonempty(s.drop_last(), sep);
    }
}

/// The pieces of a beginning of `s`, but the last, are pieces of `s`.
proof fn lemma_split_prefix(s: Seq<char>, sep: char, j: int)
    requires
        0 <= j <= s.len(),
    ensures
        split_on(s.take(j), sep).len() <= split_on(s, sep).len(),
        forall|k: int|
            0 <= k < split_on(s.take(j), sep).len() - 1 ==> split_on(s, sep)[k] == split_on(
                s.take(j),
                sep,
            )[k],
    decreases s.len(),
{
    if j == s.len() {
        assert(s.take(j) =~= s);
    } else {
        let t = s.drop_last();
        assert(t.take(j) =~= s.take(j));
        lemma_split_prefix(t, sep, j);
        lemma_split_nonempty(t, sep);
    }
}

/// Once the first segments give an error, the whole sequence gives it.
proof fn lemma_error_persists<V: FilterValue>(
    id: Seq<char>,
    segs: Seq<Seq<char>>,
    codes: OperatorCodes,
    m: int,
)
    requires
        0 <= m <= segs.len(),
        segment_pairs::<V>(id, segs.take(m), codes) is Err,
    ensures
        segment_pairs::<V>(id, segs, codes) == segment_pairs::<V>(id, segs.take(m), codes),
    decreases segs.len(),
{
    if m == segs.len() {
        assert(segs.take(m) =~= segs);
    } else {
        let t = segs.drop_last();
        assert(t.take(m) =~= segs.take(m));
        lemma_error_persists::<V>(id, t, codes, m);
    }
}

proof fn lemma_segments_accepted<V: FilterValue>(
    id: Seq<char>,
    segs: Seq<Seq<char>>,
    codes: OperatorCodes,
)
    requires
        segment_pairs::<V>(id, segs, codes) is Ok,
    ensures
        forall|i: int|
            0 <= i < segment_pairs::<V>(id, segs, codes)->Ok_0.len() ==> accepts_code(
                codes,
                #[trigger] segment_pairs::<V>(id, segs, codes)->Ok_0[i].0,
            ),
    decreases segs.len(),
{
    if segs.len() > 0 {
        lemma_segments_accepted::<V>(id, segs.drop_last(), codes);
    }
}

/// Every code that an extraction gives is one the family accepts.
pub proof fn lemma_codes_accepted<V: FilterValue>(id: Seq<char>, q: Seq<char>, codes: OperatorCodes)
    requires
        extract_spec::<V>(id, q, codes) is Ok,
    ensures
        forall|i: int|
            0 <= i < extract_spec::<V>(id, q, codes)->Ok_0.len() ==> accepts_code(
                codes,
                #[trigger] extract_spec::<V>(id, q, codes)->Ok_0[i].0,
            ),
{
    if q.len() > 0 {
        lemma_segments_accepted::<V>(id, split_on(q, '&'), codes);
    }
}

/// A copy of the characters of `q` from `lo` up to `hi`.
fn copy_range(q: &Vec<char>, lo: usize, hi: usize) -> (r: Vec<char>)
    requires
        lo <= hi <= q.len(),
    ensures
        r@ == q@.subrange(lo as int, hi as int),
{
    let mut r: Vec<char> = Vec::new();
    let mut i = lo;
    while i < hi
        invariant
            lo <= i <= hi <= q.len(),
            r@ == q@.subrange(lo as int, i as int),
        decreases hi - i,
    {
        r.push(q[i]);
        i = i + 1;
        assert(r@ =~= q@.subrange(lo as int, i as int));
    }
    r
}

/// Whether the characters of `a` from `lo` up to `hi` are those of `b`.
fn range_equals(a: &Vec<char>, lo: usize, hi: usize, b: &Vec<char>) -> (r: bool)
    requires
        lo <= hi <= a.len(),
    ensures
        r == (a@.subrange(lo as int, hi as int) == b@),
{
    if hi - lo != b.len() {
        return false;
    }
    let mut i: usize = 0;
    while i < b.len()
        invariant
            hi - lo == b.len(),
            lo <= hi <= a.len(),
            i <= b.len(),
            forall|j: int| 0 <= j < i ==> a@[lo + j] == b@[j],
        decreases b.len() - i,
    {
        if a[lo + i] != b[i] {
            assert(a@.subrange(lo as int, hi as int)[i as int] != b@[i as int]);
            return false;
        }
        i = i + 1;
    }
    assert(a@.subrange(lo as int, hi as int) =~= b@);
    true
}

/// Reads the segment of `query` from `lo` up to `hi` for field `id`.
fn read_pair<V: FilterValue>(
    query: &str,
    q: &Vec<char>,
    id: &Vec<char>,
    lo: usize,
    hi: usize,
    codes: OperatorCodes,
) -> (r: Result<Option<(String, V)>, FilterParseError>)
    requires
        lo <= hi <= q.len(),
        q@ == query@,
    ensures
        match r {
            Ok(Some(p)) => pair_outcome::<V>(id@, q@.subrange(lo as int, hi as int), codes) matches Ok(
                Some(raw),
            ) && p.0@ == raw.0 && V::is_value_of(raw.1, p.1),
            Ok(None) => pair_outcome::<V>(id@, q@.subrange(lo as int, hi as int), codes) == Ok::<
                Option<(Seq<char>, Seq<char>)>,
                FilterParseError,
            >(None),
            Err(e) => pair_outcome::<V>(id@, q@.subrange(lo as int, hi as int), codes) == Err::<
                Option<(Seq<char>, Seq<char>)>,
                FilterParseError,
            >(e),
        },
{
    let ghost seg = q@.subrange(lo as int, hi as int);
    let mut eq = lo;
    while eq < hi && q[eq] != '='
        invariant
            lo <= eq <= hi <= q.len(),
            seg == q@.subrange(lo as int, hi as int),
            find_from(seg, '=', 0) == find_from(seg, '=', (eq - lo) as nat),
        decreases hi - eq,
    {
        assert(seg[eq - lo] == q@[eq as int]);
        eq = eq + 1;
    }
    if eq == hi {
        return Err(FilterParseError::FilterStructure);
    }
    assert(seg[eq - lo] == q@[eq as int]);
    let key = copy_range(q, lo, eq);
    assert(key@ =~= seg.take(eq - lo));
    let spans = match match_key(&key) {
        None => {
            return Err(FilterParseError::FilterStructure);
        },
        Some(s) => s,
    };
    if !range_equals(&key, spans.name.0, spans.name.1, id) {
        return Ok(None);
    }
    let text = query.substring_char(eq + 1, hi);
    assert(text@ =~= seg.skip(eq - lo + 1));
    let value = match V::parse_text(text) {
        None => {
            return Err(FilterParseError::Value);
        },
        Some(v) => v,
    };
    let op = match spans.operator {
        Some((a, b)) => {
            let o = text_between(query, lo + a, lo + b);
            assert(o@ =~= key@.subrange(a as int, b as int));
            o
        },
        None => {
            let o = String::from_str("eq");
            o
        },
    };
    if !codes.accepts(op.as_str()) {
        return Err(FilterParseError::UnknownFilter);
    }
    Ok(Some((op, value)))
}

/// Every (operator code, value) pair that query `query` gives for field
/// `search_id`, in the order of the query. The query is split on `&`, each
/// segment at its first `=`; a segment whose key names another field is
/// passed over; a key without operator code stands for `eq`; each value is
/// converted to `V`. The first malformed segment or value ends the scan with
/// its error. An empty query gives no pairs.
pub fn extract<V: FilterValue>(search_id: &str, query: &str) -> (r: Result<
    Vec<(String, V)>,
    FilterParseError,
>)
    ensures
        extracted(search_id@, query@, OperatorCodes::Any, r),
{
    extract_codes(search_id, query, OperatorCodes::Any)
}

/// Extracts as `extract` does, for a family accepting `codes`: a pair whose
/// code the family does not accept ends the scan with `UnknownFilter`, in
/// its place among the other errors.
pub fn extract_codes<V: FilterValue>(
    search_id: &str,
    query: &str,
    codes: OperatorCodes,
) -> (r: Result<Vec<(String, V)>, FilterParseError>)
    ensures
        extracted(search_id@, query@, codes, r),
{
    let q = chars_of(query);
    let n = q.len();
    if n == 0 {
        return Ok(Vec::new());
    }
    let id = chars_of(search_id);
    let mut out: Vec<(String, V)> = Vec::new();
    let ghost mut done: Seq<Seq<char>> = Seq::empty();
    let mut lo: usize = 0;
    let mut i: usize = 0;
    assert(q@.take(0) =~= Seq::<char>::empty());
    assert(done.push(q@.subrange(0, 0)) =~= seq![Seq::<char>::empty()]);
    while i < n
        invariant
            n == q.len() == query@.len(),
            q@ == query@,
            id@ == search_id@,
            lo <= i <= n,
            split_on(q@.take(i as int), '&') == done.push(q@.subrange(lo as int, i as int)),
            segment_pairs::<V>(id@, done, codes) is Ok,
            typed_pairs(out@, segment_pairs::<V>(id@, done, codes)->Ok_0),
        decreases n - i,
    {
        let ghost t = q@.take(i + 1);
        assert(t.drop_last() =~= q@.take(i as int));
        if q[i] == '&' {
            let ghost seg = q@.subrange(lo as int, i as int);
            let ghost prev = segment_pairs::<V>(id@, done, codes)->Ok_0;
            assert(done.push(seg).drop_last() =~= done);
            assert(split_on(t, '&') == done.push(seg).push(Seq::empty()));
            match read_pair::<V>(query, &q, &id, lo, i, codes) {
                Err(e) => {
                    proof {
                        lemma_split_prefix(q@, '&', i + 1);
                        assert(q@.take(n as int) =~= q@);
                        let all = split_on(q@, '&');
                        assert(all.take(done.len() + 1 as int) =~= done.push(seg));
                        lemma_error_persists::<V>(id@, all, codes, done.len() + 1 as int);
                    }
                    return Err(e);
                },
                Ok(None) => {},
                Ok(Some(p)) => {
                    out.push(p);
                },
            }
            proof {
                done = done.push(seg);
            }
            lo = i + 1;
            assert(q@.subrange(lo as int, lo as int) =~= Seq::<char>::empty());
        } else {
            assert(q@.subrange(lo as int, i + 1) =~= q@.subrange(lo as int, i as int).push(q@[i as int]));
            assert(split_on(t, '&') == done.push(q@.subrange(lo as int, i + 1)));
        }
        i = i + 1;
    }
    assert(q@.take(n as int) =~= q@);
    let ghost seg = q@.subrange(lo as int, n as int);
    assert(done.push(seg).drop_last() =~= done);
    match read_pair::<V>(query, &q, &id, lo, n, codes) {
        Err(e) => Err(e),
        Ok(None) => Ok(out),
        Ok(Some(p)) => {
            out.push(p);
            Ok(out)
        },
    }
}

/// How many times `s` holds `c`.
pub open spec fn count_of(s: Seq<char>, c: char) -> nat
    decreases s.len(),
{
    if s.len() == 0 {
        0
    } else {
        count_of(s.drop_last(), c) + if s.last() == c { 1nat } else { 0nat }
    }
}

pub proof fn lemma_split_without_sep(s: Seq<char>, sep: char)
    requires
        count_of(s, sep) == 0,
    ensures
        split_on(s, sep) == seq![s],
    decreases s.len(),
{
    if s.len() > 0 {
        lemma_split_without_sep(s.drop_last(), sep);
        assert(s.drop_last().push(s.last()) =~= s);
    } else {
        assert(s =~= Seq::<char>::empty());
    }
}

/// A text that holds `sep` exactly once splits into what precedes and what
/// follows it.
pub proof fn lemma_split_once(s: Seq<char>, sep: char, p: int)
    requires
        count_of(s, sep) == 1,
        0 <= p < s.len(),
        s[p] == sep,
    ensures
        split_on(s, sep) == seq![s.take(p), s.skip(p + 1)],
    decreases s.len(),
{
    let t = s.drop_last();
    if s.last() == sep {
        if p != s.len() - 1 {
            lemma_count_positive(t, sep, p);
        }
        lemma_split_without_sep(t, sep);
        assert(t =~= s.take(p));
        assert(s.skip(p + 1) =~= Seq::<char>::empty());
    } else {
        lemma_split_once(t, sep, p);
        assert(t.take(p) =~= s.take(p));
        assert(t.skip(p + 1).push(s.last()) =~= s.skip(p + 1));
    }
}

proof fn lemma_count_positive(s: Seq<char>, c: char, p: int)
    requires
        0 <= p < s.len(),
        s[p] == c,
    ensures
        count_of(s, c) >= 1,
    decreases s.len(),
{
    if p < s.len() - 1 {
        lemma_count_positive(s.drop_last(), c, p);
    }
}

/// A text splits into one more piece than it holds separators.
pub proof fn lemma_split_count(s: Seq<char>, sep: char)
    ensures
        split_on(s, sep).len() == count_of(s, sep) + 1,
    decreases s.len(),
{
    if s.len() > 0 {
        lemma_split_count(s.drop_last(), sep);
    }
}

/// Where `s` holds `sep` exactly once, its position.
pub fn single_separator(s: &Vec<char>, sep: char) -> (r: Option<usize>)
    ensures
        match r {
            Some(p) => p < s.len() && s@[p as int] == sep && count_of(s@, sep) == 1,
            None => count_of(s@, sep) != 1,
        },
{
    let mut count: usize = 0;
    let mut at: usize = 0;
    let mut i: usize = 0;
    while i < s.len()
        invariant
            i <= s.len(),
            count as nat == count_of(s@.take(i as int), sep),
            count <= i,
            count >= 1 ==> at < i && s@[at as int] == sep,
        decreases s.len() - i,
    {
        assert(s@.take(i + 1).drop_last() =~= s@.take(i as int));
        if s[i] == sep {
            count = count + 1;
            at = i;
        }
        i = i + 1;
    }
    assert(s@.take(i as int) =~= s@);
    if count == 1 {
        Some(at)
    } else {
        None
    }
}

/// Turns one operator code and converted value into a filter.
///
/// `decodes(op, v, r)` says that `r` is what code `op` and value `v` give.
/// An implementation that does not define it promises nothing of its result.
pub trait FromStrFilter<T>: Sized {
    open spec fn decodes(op: Seq<char>, v: T, r: Result<Self, FilterParseError>) -> bool {
        true
    }

    fn from_str(filter_key: &str, value: T) -> (r: Result<Self, FilterParseError>)
        ensures
            Self::decodes(filter_key@, value, r),
    ;
}

/// The view of an optional `&str`.
pub open spec fn opt_view(s: Option<&str>) -> Option<Seq<char>> {
    match s {
        Some(p) => Some(p@),
        None => None,
    }
}

/// The scope a set of field filters declares, if any.
///
/// `declares_scope(s)` says that `filter_id` gives scope `s`. An
/// implementation that does not define it promises nothing of the scope.
pub trait WithFilterId {
    open spec fn declares_scope(scope: Option<Seq<char>>) -> bool {
        true
    }

    fn filter_id() -> (r: Option<&'static str>)
        ensures
            Self::declares_scope(opt_view(r)),
    ;
}

/// The pairs that the segments `segs` give for field `id`, up to the first
/// segment that gives an error, and that error, if any.
pub open spec fn scan_pairs<V: FilterValue>(
    id: Seq<char>,
    segs: Seq<Seq<char>>,
    codes: OperatorCodes,
) -> (Seq<(Seq<char>, Seq<char>)>, Option<FilterParseError>)
    decreases segs.len(),
{
    if segs.len() == 0 {
        (Seq::empty(), None)
    } else {
        let (ps, err) = scan_pairs::<V>(id, segs.drop_last(), codes);
        if err is Some {
            (ps, err)
        } else {
            match pair_outcome::<V>(id, segs.last(), codes) {
                Err(e) => (ps, Some(e)),
                Ok(None) => (ps, None),
                Ok(Some(p)) => (ps.push(p), None),
            }
        }
    }
}

/// The pairs of query `q` for field `id` up to its first erroneous segment,
/// and that segment's error, if any.
pub open spec fn scan_spec<V: FilterValue>(id: Seq<char>, q: Seq<char>, codes: OperatorCodes) -> (
    Seq<(Seq<char>, Seq<char>)>,
    Option<FilterParseError>,
) {
    if q.len() == 0 {
        (Seq::empty(), None)
    } else {
        scan_pairs::<V>(id, split_on(q, '&'), codes)
    }
}

proof fn lemma_scan_error_persists<V: FilterValue>(
    id: Seq<char>,
    segs: Seq<Seq<char>>,
    codes: OperatorCodes,
    m: int,
)
    requires
        0 <= m <= segs.len(),
        scan_pairs::<V>(id, segs.take(m), codes).1 is Some,
    ensures
        scan_pairs::<V>(id, segs, codes) == scan_pairs::<V>(id, segs.take(m), codes),
    decreases segs.len(),
{
    if m == segs.len() {
        assert(segs.take(m) =~= segs);
    } else {
        let t = segs.drop_last();
        assert(t.take(m) =~= segs.take(m));
        lemma_scan_error_persists::<V>(id, t, codes, m);
    }
}

/// Without an error in the first segments, their pairs begin the pairs of
/// all segments.
proof fn lemma_scan_prefix<V: FilterValue>(
    id: Seq<char>,
    segs: Seq<Seq<char>>,
    codes: OperatorCodes,
    m: int,
)
    requires
        0 <= m <= segs.len(),
        scan_pairs::<V>(id, segs.take(m), codes).1 is None,
    ensures
        scan_pairs::<V>(id, segs.take(m), codes).0.len() <= scan_pairs::<V>(id, segs, codes).0.len(),
        forall|k: int|
            0 <= k < scan_pairs::<V>(id, segs.take(m), codes).0.len() ==> #[trigger] scan_pairs::<V>(
                id,
                segs,
                codes,
            ).0[k] == scan_pairs::<V>(id, segs.take(m), codes).0[k],
    decreases segs.len(),
{
    if m == segs.len() {
        assert(segs.take(m) =~= segs);
    } else {
        let t = segs.drop_last();
        assert(t.take(m) =~= segs.take(m));
        lemma_scan_prefix::<V>(id, t, codes, m);
    }
}

/// Code and value text `p` give `r`: some value that the text converts to,
/// decoded with the code, gives `r`.
pub open spec fn decoded_to<V: FilterValue, T: FromStrFilter<V>>(
    p: (Seq<char>, Seq<char>),
    r: Result<T, FilterParseError>,
) -> bool {
    exists|v: V| #[trigger] V::is_value_of(p.1, v) && T::decodes(p.0, v, r)
}

/// Code and value text `p` can decode without error.
pub open spec fn decodes_ok<V: FilterValue, T: FromStrFilter<V>>(p: (Seq<char>, Seq<char>)) -> bool {
    exists|t: T| #[trigger] decoded_to::<V, T>(p, Ok(t))
}

/// The first `n` pairs of `ps` decode without error.
pub open spec fn decode_ok_before<V: FilterValue, T: FromStrFilter<V>>(
    ps: Seq<(Seq<char>, Seq<char>)>,
    n: int,
) -> bool {
    forall|j: int| 0 <= j < n ==> #[trigger] decodes_ok::<V, T>(ps[j])
}

/// `r` is what decoding the pairs of field `id` in query `q` with `T` gives,
/// scanning the query once: one `T` per pair, in order, or the first error in
/// query order, whether a segment's or a decode's.
pub open spec fn filters_decoded<V: FilterValue, T: FromStrFilter<V>>(
    id: Seq<char>,
    q: Seq<char>,
    r: Result<Seq<T>, FilterParseError>,
) -> bool {
    let ps = scan_spec::<V>(id, q, OperatorCodes::Any).0;
    let err = scan_spec::<V>(id, q, OperatorCodes::Any).1;
    match r {
        Ok(ts) => err is None && ts.len() == ps.len() && forall|i: int|
            0 <= i < ts.len() ==> #[trigger] decoded_to::<V, T>(ps[i], Ok(ts[i])),
        Err(e) => (err == Some(e) && decode_ok_before::<V, T>(ps, ps.len() as int)) || exists|i: int|
            0 <= i < ps.len() && decode_ok_before::<V, T>(ps, i) && #[trigger] decoded_to::<V, T>(
                ps[i],
                Err(e),
            ),
    }
}

/// The view of a result holding a `Vec`.
pub open spec fn seq_result<T>(r: Result<Vec<T>, FilterParseError>) -> Result<Seq<T>, FilterParseError> {
    match r {
        Ok(v) => Ok(v@),
        Err(e) => Err(e),
    }
}

/// Reads the segment of `query` from `lo` up to `hi` for field `id` and
/// decodes its pair, if any, with `T`.
fn decode_pair<V: FilterValue, T: FromStrFilter<V>>(
    query: &str,
    q: &Vec<char>,
    id: &Vec<char>,
    lo: usize,
    hi: usize,
) -> (r: Result<Option<T>, FilterParseError>)
    requires
        lo <= hi <= q.len(),
        q@ == query@,
    ensures
        match r {
            Ok(None) => pair_outcome::<V>(id@, q@.subrange(lo as int, hi as int), OperatorCodes::Any)
                == Ok::<Option<(Seq<char>, Seq<char>)>, FilterParseError>(None),
            Ok(Some(t)) => pair_outcome::<V>(
                id@,
                q@.subrange(lo as int, hi as int),
                OperatorCodes::Any,
            ) matches Ok(Some(p)) && decoded_to::<V, T>(p, Ok(t)),
            Err(e) => pair_outcome::<V>(id@, q@.subrange(lo as int, hi as int), OperatorCodes::Any)
                == Err::<Option<(Seq<char>, Seq<char>)>, FilterParseError>(e) || (pair_outcome::<V>(
                id@,
                q@.subrange(lo as int, hi as int),
                OperatorCodes::Any,
            ) matches Ok(Some(p)) && decoded_to::<V, T>(p, Err(e))),
        },
{
    match read_pair::<V>(query, q, id, lo, hi, OperatorCodes::Any) {
        Err(e) => Err(e),
        Ok(None) => Ok(None),
        Ok(Some((op, v))) => {
            let d = T::from_str(op.as_str(), v);
            match d {
                Ok(t) => Ok(Some(t)),
                Err(e) => Err(e),
            }
        },
    }
}

/// Scans query `value` once and decodes each pair of field `search_id` with
/// `T` where it stands: the result holds one `T` per pair, in order, or the
/// first error in query order, whether a malformed segment's, a value's or a
/// decode's. An empty query gives none.
pub fn from_str<V: FilterValue, T: FromStrFilter<V>>(search_id: &str, value: &str) -> (r: Result<
    Vec<T>,
    FilterParseError,
>)
    ensures
        filters_decoded::<V, T>(search_id@, value@, seq_result(r)),
{
    let q = chars_of(value);
    let n = q.len();
    if n == 0 {
        return Ok(Vec::new());
    }
    let id = chars_of(search_id);
    let ghost codes = OperatorCodes::Any;
    let mut out: Vec<T> = Vec::new();
    let ghost mut done: Seq<Seq<char>> = Seq::empty();
    let mut lo: usize = 0;
    let mut i: usize = 0;
    assert(q@.take(0) =~= Seq::<char>::empty());
    assert(done.push(q@.subrange(0, 0)) =~= seq![Seq::<char>::empty()]);
    while i < n
        invariant
            n == q.len() == value@.len(),
            q@ == value@,
            id@ == search_id@,
            codes == OperatorCodes::Any,
            lo <= i <= n,
            split_on(q@.take(i as int), '&') == done.push(q@.subrange(lo as int, i as int)),
            scan_pairs::<V>(id@, done, codes).1 is None,
            out@.len() == scan_pairs::<V>(id@, done, codes).0.len(),
            forall|j: int|
                0 <= j < out@.len() ==> #[trigger] decoded_to::<V, T>(
                    scan_pairs::<V>(id@, done, codes).0[j],
                    Ok(out@[j]),
                ),
        decreases n - i,
    {
        let ghost t = q@.take(i + 1);
        assert(t.drop_last() =~= q@.take(i as int));
        if q[i] == '&' {
            let ghost seg = q@.subrange(lo as int, i as int);
            let ghost ps = scan_pairs::<V>(id@, done, codes).0;
            assert(done.push(seg).drop_last() =~= done);
            assert(split_on(t, '&') == done.push(seg).push(Seq::empty()));
            proof {
                lemma_split_prefix(q@, '&', i + 1);
                assert(q@.take(n as int) =~= q@);
                assert(split_on(q@, '&').take(done.len() + 1 as int) =~= done.push(seg));
                assert forall|j: int| 0 <= j < ps.len() implies #[trigger] decodes_ok::<V, T>(
                    ps[j],
                ) by {
                    assert(decoded_to::<V, T>(ps[j], Ok(out@[j])));
                }
            }
            match decode_pair::<V, T>(value, &q, &id, lo, i) {
                Err(e) => {
                    proof {
                        let all = split_on(q@, '&');
                        let m = done.len() + 1 as int;
                        if scan_pairs::<V>(id@, done.push(seg), codes).1 is Some {
                            lemma_scan_error_persists::<V>(id@, all, codes, m);
                        } else {
                            lemma_scan_prefix::<V>(id@, all, codes, m);
                            let k = ps.len() as int;
                            assert(scan_pairs::<V>(id@, all, codes).0[k] == scan_pairs::<V>(
                                id@,
                                all.take(m),
                                codes,
                            ).0[k]);
                            assert forall|j: int| 0 <= j < k implies #[trigger] decodes_ok::<V, T>(
                                scan_pairs::<V>(id@, all, codes).0[j],
                            ) by {
                                assert(scan_pairs::<V>(id@, all, codes).0[j] == scan_pairs::<V>(
                                    id@,
                                    all.take(m),
                                    codes,
                                ).0[j]);
                            }
                        }
                    }
                    return Err(e);
                },
                Ok(None) => {},
                Ok(Some(f)) => {
                    out.push(f);
                },
            }
            proof {
                done = done.push(seg);
            }
            lo = i + 1;
            assert(q@.subrange(lo as int, lo as int) =~= Seq::<char>::empty());
        } else {
            assert(q@.subrange(lo as int, i + 1) =~= q@.subrange(lo as int, i as int).push(
                q@[i as int],
            ));
            assert(split_on(t, '&') == done.push(q@.subrange(lo as int, i + 1)));
        }
        i = i + 1;
    }
    assert(q@.take(n as int) =~= q@);
    let ghost seg = q@.subrange(lo as int, n as int);
    let ghost ps = scan_pairs::<V>(id@, done, codes).0;
    assert(done.push(seg).drop_last() =~= done);
    proof {
        assert forall|j: int| 0 <= j < ps.len() implies #[trigger] decodes_ok::<V, T>(ps[j]) by {
            assert(decoded_to::<V, T>(ps[j], Ok(out@[j])));
        }
    }
    assert(split_on(q@, '&') == done.push(seg));
    assert(scan_spec::<V>(id@, q@, codes) == scan_pairs::<V>(id@, done.push(seg), codes));
    match decode_pair::<V, T>(value, &q, &id, lo, n) {
        Err(e) => {
            proof {
                if scan_pairs::<V>(id@, done.push(seg), codes).1 is None {
                    let k = ps.len() as int;
                    let all_ps = scan_pairs::<V>(id@, done.push(seg), codes).0;
                    assert(all_ps == ps.push(all_ps[k]));
                    assert forall|j: int| 0 <= j < k implies #[trigger] decodes_ok::<V, T>(
                        all_ps[j],
                    ) by {
                        assert(all_ps[j] == ps[j]);
                    }
                    assert(decoded_to::<V, T>(all_ps[k], Err(e)));
                }
            }
            Err(e)
        },
        Ok(None) => Ok(out),
        Ok(Some(f)) => {
            let ghost old_out = out@;
            out.push(f);
            proof {
                let all_ps = scan_pairs::<V>(id@, done.push(seg), codes).0;
                assert forall|j: int| 0 <= j < out@.len() implies #[trigger] decoded_to::<V, T>(
                    all_ps[j],
                    Ok(out@[j]),
                ) by {
                    if j < old_out.len() {
                        assert(out@[j] == old_out[j]);
                        assert(all_ps[j] == ps[j]);
                    }
                }
            }
            Ok(out)
        },
    }
}

} // verus!
