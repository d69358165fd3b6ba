use vstd::prelude::*;

use crate::text::{chars_of, same_text};

verus! {

/// Whether `c` is an ASCII decimal digit.
pub open spec fn is_digit(c: char) -> bool {
    '0' <= c <= '9'
}

/// The value of the digit `c`.
pub open spec fn digit_value(c: char) -> int {
    (c as u32) as int - ('0' as u32) as int
}

/// Whether `s` is a non-empty run of decimal digits.
pub open spec fn is_digits(s: Seq<char>) -> bool {
    s.len() > 0 && forall|i: int| 0 <= i < s.len() ==> #[trigger] is_digit(s[i])
}

/// The number written by the decimal digits `s`.
pub open spec fn digits_value(s: Seq<char>) -> int
    decreases s.len(),
{
    if s.len() == 0 {
        0
    } else {
        digits_value(s.drop_last()) * 10 + digit_value(s.last())
    }
}

/// The number written by `s` as an optional `+` followed by decimal digits.
pub open spec fn unsigned_text_value(s: Seq<char>) -> Option<int> {
    let d = if s.len() > 0 && s[0] == '+' { s.drop_first() } else { s };
    if is_digits(d) { Some(digits_value(d)) } else { None }
}

/// The number written by `s` as an optional `+` or `-` followed by decimal digits.
pub open spec fn signed_text_value(s: Seq<char>) -> Option<int> {
    if s.len() > 0 && s[0] == '-' {
        if is_digits(s.drop_first()) {
            Some(-digits_value(s.drop_first()))
        } else {
            None
        }
    } else {
        unsigned_text_value(s)
    }
}

/// A scalar that a filter value converts to.
///
/// `accepts_text` tells which texts convert, and `is_value_of` which value a
/// text converts to.
pub trait FilterValue: Sized {
    spec fn accepts_text(s: Seq<char>) -> bool;

    spec fn is_value_of(s: Seq<char>, v: Self) -> bool;

    /// Converts `s`, or returns `None` where it does not convert.
    fn parse_text(s: &str) -> (r: Option<Self>)
        ensures
            match r {
                Some(v) => Self::accepts_text(s@) && Self::is_value_of(s@, v),
                None => !Self::accepts_text(s@),
            },
    ;

    /// A copy of the value.
    fn duplicate(&self) -> (r: Self)
        ensures
            r == *self,
    ;
}

proof fn lemma_digits_value_nonneg(s: Seq<char>)
    requires
        forall|i: int| 0 <= i < s.len() ==> #[trigger] is_digit(s[i]),
    ensures
        digits_value(s) >= 0,
    decreases s.len(),
{
    if s.len() > 0 {
        let t = s.drop_last();
        assert forall|i: int| 0 <= i < t.len() implies #[trigger] is_digit(t[i]) by {
            assert(t[i] == s[i]);
        }
        lemma_digits_value_nonneg(t);
        assert(is_digit(s[s.len() - 1]));
    }
}

/// A longer run of digits is worth at least as much as its beginning.
proof fn lemma_digits_value_grows(s: Seq<char>, k: int)
    requires
        0 <= k <= s.len(),
        forall|i: int| 0 <= i < s.len() ==> #[trigger] is_digit(s[i]),
    ensures
        digits_value(s.take(k)) <= digits_value(s),
    decreases s.len(),
{
    if k < s.len() {
        let t = s.drop_last();
        assert forall|i: int| 0 <= i < t.len() implies #[trigger] is_digit(t[i]) by {
            assert(t[i] == s[i]);
        }
        lemma_digits_value_grows(t, k);
        assert(t.take(k) =~= s.take(k));
        lemma_digits_value_nonneg(t);
        assert(is_digit(s[s.len() - 1]));
    } else {
        assert(s.take(k) =~= s);
    }
}

fn digit_of(c: char) -> (r: u64)
    requires
        is_digit(c),
    ensures
        r as int == digit_value(c),
        r < 10,
{
    let code: u32 = c as u32;
    (code - '0' as u32) as u64
}

/// The number written by the digits of `v` from `from` on, where they are
/// digits only, at least one, and the number fits in a `u64`.
fn digits_magnitude(v: &Vec<char>, from: usize) -> (r: Option<u64>)
    requires
        from <= v.len(),
    ensures
        match r {
            Some(m) => is_digits(v@.skip(from as int)) && m as int == digits_value(
                v@.skip(from as int),
            ),
            None => !is_digits(v@.skip(from as int)) || digits_value(v@.skip(from as int))
                > u64::MAX,
        },
{
    let ghost d = v@.skip(from as int);
    let n = v.len();
    if from == n {
        return None;
    }
    let mut i: usize = from;
    while i < n
        invariant
            from <= i <= n,
            n == v.len(),
            d == v@.skip(from as int),
            forall|j: int| from <= j < i ==> #[trigger] is_digit(v@[j]),
        decreases n - i,
    {
        let c = v[i];
        if !('0' <= c && c <= '9') {
            assert(d[i - from] == c);
            assert(!is_digit(d[i - from]));
            return None;
        }
        i = i + 1;
    }
    assert forall|j: int| 0 <= j < d.len() implies #[trigger] is_digit(d[j]) by {
        assert(d[j] == v@[from + j]);
    }
    let mut acc: u64 = 0;
    let mut i: usize = from;
    while i < n
        invariant
            from <= i <= n,
            n == v.len(),
            d == v@.skip(from as int),
            forall|j: int| 0 <= j < d.len() ==> #[trigger] is_digit(d[j]),
            acc as int == digits_value(d.take(i - from)),
        decreases n - i,
    {
        assert(d.take(i - from + 1).drop_last() =~= d.take(i - from));
        assert(d[i - from] == v@[i as int]);
        assert(is_digit(d[i - from]));
        let dv = digit_of(v[i]);
        match acc.checked_mul(10) {
            Some(t) => match t.checked_add(dv) {
                Some(u) => {
                    acc = u;
                },
                None => {
                    proof {
                        lemma_digits_value_grows(d, i - from + 1);
                    }
                    return None;
                },
            },
            None => {
                proof {
                    lemma_digits_value_grows(d, i - from + 1);
                    lemma_digits_value_nonneg(d.take(i - from));
                }
                return None;
            },
        }
        i = i + 1;
    }
    assert(d.take(n - from) =~= d);
    Some(acc)
}

impl FilterValue for u64 {
    open spec fn accepts_text(s: Seq<char>) -> bool {
        unsigned_text_value(s) is Some && unsigned_text_value(s)->0 <= u64::MAX
    }

    open spec fn is_value_of(s: Seq<char>, v: u64) -> bool {
        unsigned_text_value(s) == Some(v as int)
    }

    fn parse_text(s: &str) -> (r: Option<u64>) {
        let v = chars_of(s);
        let from: usize = if v.len() > 0 && v[0] == '+' { 1 } else { 0 };
        assert(v@.skip(from as int) =~= (if s@.len() > 0 && s@[0] == '+' { s@.drop_first() } else { s@ }));
        digits_magnitude(&v, from)
    }

    fn duplicate(&self) -> (r: u64) {
        *self
    }
}

impl FilterValue for u32 {
    open spec fn accepts_text(s: Seq<char>) -> bool {
        unsigned_text_value(s) is Some && unsigned_text_value(s)->0 <= u32::MAX
    }

    open spec fn is_value_of(s: Seq<char>, v: u32) -> bool {
        unsigned_text_value(s) == Some(v as int)
    }

    fn parse_text(s: &str) -> (r: Option<u32>) {
        match u64::parse_text(s) {
            Some(m) => if m <= u32::MAX as u64 {
                Some(m as u32)
            } else {
                None
            },
            None => None,
        }
    }

    fn duplicate(&self) -> (r: u32) {
        *self
    }
}

/// The number written by `s` with an optional sign, where its magnitude fits
/// in a `u64`: the sign, and the magnitude.
fn signed_magnitude(s: &str) -> (r: Option<(bool, u64)>)
    ensures
        match r {
            Some((neg, m)) => signed_text_value(s@) == Some(if neg { -(m as int) } else { m as int }),
            None => signed_text_value(s@) is None || signed_text_value(s@)->0 > u64::MAX
                || signed_text_value(s@)->0 < -(u64::MAX as int),
        },
{
    let v = chars_of(s);
    if v.len() > 0 && v[0] == '-' {
        assert(v@.skip(1) =~= s@.drop_first());
        match digits_magnitude(&v, 1) {
            Some(m) => Some((true, m)),
            None => None,
        }
    } else {
        let from: usize = if v.len() > 0 && v[0] == '+' { 1 } else { 0 };
        assert(v@.skip(from as int) =~= (if s@.len() > 0 && s@[0] == '+' { s@.drop_first() } else { s@ }));
        match digits_magnitude(&v, from) {
            Some(m) => Some((false, m)),
            None => None,
        }
    }
}

impl FilterValue for i64 {
    open spec fn accepts_text(s: Seq<char>) -> bool {
        signed_text_value(s) is Some && i64::MIN <= signed_text_value(s)->0 <= i64::MAX
    }

    open spec fn is_value_of(s: Seq<char>, v: i64) -> bool {
        signed_text_value(s) == Some(v as int)
    }

    fn parse_text(s: &str) -> (r: Option<i64>) {
        match signed_magnitude(s) {
            Some((neg, m)) => if neg {
                if m < 9223372036854775808u64 {
                    Some(-(m as i64))
                } else if m == 9223372036854775808u64 {
                    Some(i64::MIN)
                } else {
                    None
                }
            } else if m <= i64::MAX as u64 {
                Some(m as i64)
            } else {
                None
            },
            None => None,
        }
    }

    fn duplicate(&self) -> (r: i64) {
        *self
    }
}

impl FilterValue for i32 {
    open spec fn accepts_text(s: Seq<char>) -> bool {
        signed_text_value(s) is Some && i32::MIN <= signed_text_value(s)->0 <= i32::MAX
    }

    open spec fn is_value_of(s: Seq<char>, v: i32) -> bool {
        signed_text_value(s) == Some(v as int)
    }

    fn parse_text(s: &str) -> (r: Option<i32>) {
        match signed_magnitude(s) {
            Some((neg, m)) => if neg {
                if m <= 2147483648u64 {
                    Some((-(m as i64)) as i32)
                } else {
                    None
                }
            } else if m <= i32::MAX as u64 {
                Some(m as i32)
            } else {
                None
            },
            None => None,
        }
    }

    fn duplicate(&self) -> (r: i32) {
        *self
    }
}

impl FilterValue for u16 {
    open spec fn accepts_text(s: Seq<char>) -> bool {
        unsigned_text_value(s) is Some && unsigned_text_value(s)->0 <= u16::MAX
    }

    open spec fn is_value_of(s: Seq<char>, v: u16) -> bool {
        unsigned_text_value(s) == Some(v as int)
    }

    fn parse_text(s: &str) -> (r: Option<u16>) {
        match u64::parse_text(s) {
            Some(m) => if m <= u16::MAX as u64 {
                Some(m as u16)
            } else {
                None
            },
            None => None,
        }
    }

    fn duplicate(&self) -> (r: u16) {
        *self
    }
}

impl FilterValue for u8 {
    open spec fn accepts_text(s: Seq<char>) -> bool {
        unsigned_text_value(s) is Some && unsigned_text_value(s)->0 <= u8::MAX
    }

    open spec fn is_value_of(s: Seq<char>, v: u8) -> bool {
        unsigned_text_value(s) == Some(v as int)
    }

    fn parse_text(s: &str) -> (r: Option<u8>) {
        match u64::parse_text(s) {
            Some(m) => if m <= u8::MAX as u64 {
                Some(m as u8)
            } else {
                None
            },
            None => None,
        }
    }

    fn duplicate(&self) -> (r: u8) {
        *self
    }
}

impl FilterValue for usize {
    open spec fn accepts_text(s: Seq<char>) -> bool {
        unsigned_text_value(s) is Some && unsigned_text_value(s)->0 <= usize::MAX
    }

    open spec fn is_value_of(s: Seq<char>, v: usize) -> bool {
        unsigned_text_value(s) == Some(v as int)
    }

    fn parse_text(s: &str) -> (r: Option<usize>) {
        match u64::parse_text(s) {
            Some(m) => if m <= usize::MAX as u64 {
                Some(m as usize)
            } else {
                None
            },
            None => None,
        }
    }

    fn duplicate(&self) -> (r: usize) {
        *self
    }
}

impl FilterValue for i16 {
    open spec fn accepts_text(s: Seq<char>) -> bool {
        signed_text_value(s) is Some && i16::MIN <= signed_text_value(s)->0 <= i16::MAX
    }

    open spec fn is_value_of(s: Seq<char>, v: i16) -> bool {
        signed_text_value(s) == Some(v as int)
    }

    fn parse_text(s: &str) -> (r: Option<i16>) {
        match i64::parse_text(s) {
            Some(m) => if i16::MIN as i64 <= m && m <= i16::MAX as i64 {
                Some(m as i16)
            } else {
                None
            },
            None => None,
        }
    }

    fn duplicate(&self) -> (r: i16) {
        *self
    }
}

impl FilterValue for i8 {
    open spec fn accepts_text(s: Seq<char>) -> bool {
        signed_text_value(s) is Some && i8::MIN <= signed_text_value(s)->0 <= i8::MAX
    }

    open spec fn is_value_of(s: Seq<char>, v: i8) -> bool {
        signed_text_value(s) == Some(v as int)
    }

    fn parse_text(s: &str) -> (r: Option<i8>) {
        match i64::parse_text(s) {
            Some(m) => if i8::MIN as i64 <= m && m <= i8::MAX as i64 {
                Some(m as i8)
            } else {
                None
            },
            None => None,
        }
    }

    fn duplicate(&self) -> (r: i8) {
        *self
    }
}

impl FilterValue for isize {
    open spec fn accepts_text(s: Seq<char>) -> bool {
        signed_text_value(s) is Some && isize::MIN <= signed_text_value(s)->0 <= isize::MAX
    }

    open spec fn is_value_of(s: Seq<char>, v: isize) -> bool {
        signed_text_value(s) == Some(v as int)
    }

    fn parse_text(s: &str) -> (r: Option<isize>) {
        match i64::parse_text(s) {
            Some(m) => if isize::MIN as i64 <= m && m <= isize::MAX as i64 {
                Some(m as isize)
            } else {
                None
            },
            None => None,
        }
    }

    fn duplicate(&self) -> (r: isize) {
        *self
    }
}

impl FilterValue for bool {
    open spec fn accepts_text(s: Seq<char>) -> bool {
        s == "true"@ || s == "false"@
    }

    open spec fn is_value_of(s: Seq<char>, v: bool) -> bool {
        v == (s == "true"@)
    }

    fn parse_text(s: &str) -> (r: Option<bool>) {
        if same_text(s, "true") {
            Some(true)
        } else if same_text(s, "false") {
            Some(false)
        } else {
            None
        }
    }

    fn duplicate(&self) -> (r: bool) {
        *self
    }
}

impl FilterValue for String {
    open spec fn accepts_text(s: Seq<char>) -> bool {
        true
    }

    open spec fn is_value_of(s: Seq<char>, v: String) -> bool {
        v@ == s
    }

    fn parse_text(s: &str) -> (r: Option<String>) {
        Some(s.to_owned())
    }

    fn duplicate(&self) -> (r: String) {
        self.clone()
    }
}

} // verus!
