use vstd::prelude::*;

use crate::text::{chars_of, text_between};

verus! {

/// ASCII letters, digits and `_`.
pub open spec fn is_word_char(c: char) -> bool {
    ('a' <= c <= 'z') || ('A' <= c <= 'Z') || ('0' <= c <= '9') || c == '_'
}

pub open spec fn is_lower_char(c: char) -> bool {
    'a' <= c <= 'z'
}

pub open spec fn is_digit_char(c: char) -> bool {
    '0' <= c <= '9'
}

/// The first position at or after `i` that holds a word character, or the end.
pub open spec fn skip_non_word(k: Seq<char>, i: nat) -> nat
    decreases k.len() - i,
{
    if i >= k.len() || is_word_char(k[i as int]) {
        i
    } else {
        skip_non_word(k, i + 1)
    }
}

/// The end of the run of word characters that starts at `i`.
pub open spec fn word_end(k: Seq<char>, i: nat) -> nat
    decreases k.len() - i,
{
    if i >= k.len() || !is_word_char(k[i as int]) {
        i
    } else {
        word_end(k, i + 1)
    }
}

/// The end of the run of lowercase letters that starts at `i`.
pub open spec fn lower_end(k: Seq<char>, i: nat) -> nat
    decreases k.len() - i,
{
    if i >= k.len() || !is_lower_char(k[i as int]) {
        i
    } else {
        lower_end(k, i + 1)
    }
}

/// The end of the run of digits that starts at `i`.
pub open spec fn digit_end(k: Seq<char>, i: nat) -> nat
    decreases k.len() - i,
{
    if i >= k.len() || !is_digit_char(k[i as int]) {
        i
    } else {
        digit_end(k, i + 1)
    }
}

/// Where the field name of key `k` starts: its first word character.
pub open spec fn name_start(k: Seq<char>) -> nat {
    skip_non_word(k, 0)
}

pub open spec fn name_end(k: Seq<char>) -> nat {
    word_end(k, name_start(k))
}

/// The inside of a bracket group that opens at `at` and holds a non-empty run
/// that ends at `run_end`, if `]` closes it there.
pub open spec fn bracket_span(k: Seq<char>, at: nat, run_end: nat) -> Option<(nat, nat)> {
    if at < k.len() && k[at as int] == '[' && run_end > at + 1 && run_end < k.len() && k[run_end as int] == ']' {
        Some((at + 1, run_end))
    } else {
        None
    }
}

/// Where the operator code of key `k` lies: `[` lowercase letters `]` right
/// after the field name.
pub open spec fn operator_span(k: Seq<char>) -> Option<(nat, nat)> {
    bracket_span(k, name_end(k), lower_end(k, name_end(k) + 1))
}

/// Where the bracketed part after the operator (or after the name) ends.
pub open spec fn after_operator(k: Seq<char>) -> nat {
    match operator_span(k) {
        Some((_, e)) => e + 1,
        None => name_end(k),
    }
}

/// Where the index of key `k` lies: `[` digits `]` after the operator code.
pub open spec fn index_span(k: Seq<char>) -> Option<(nat, nat)> {
    bracket_span(k, after_operator(k), digit_end(k, after_operator(k) + 1))
}

/// The field name of key `k`: its first run of word characters. A key with no
/// word character has none and is malformed.
pub open spec fn key_name(k: Seq<char>) -> Option<Seq<char>> {
    if name_start(k) < k.len() {
        Some(k.subrange(name_start(k) as int, name_end(k) as int))
    } else {
        None
    }
}

/// The operator code of key `k`, if it has one.
pub open spec fn key_operator(k: Seq<char>) -> Option<Seq<char>> {
    match operator_span(k) {
        Some((a, b)) => Some(k.subrange(a as int, b as int)),
        None => None,
    }
}

/// The index of key `k`, if it has one.
pub open spec fn key_index(k: Seq<char>) -> Option<Seq<char>> {
    match index_span(k) {
        Some((a, b)) => Some(k.subrange(a as int, b as int)),
        None => None,
    }
}

fn is_word(c: char) -> (r: bool)
    ensures
        r == is_word_char(c),
{
    ('a' <= c && c <= 'z') || ('A' <= c && c <= 'Z') || ('0' <= c && c <= '9') || c == '_'
}

fn skip_non_word_exec(k: &Vec<char>, from: usize) -> (r: usize)
    requires
        from <= k.len(),
    ensures
        r as nat == skip_non_word(k@, from as nat),
        r <= k.len(),
{
    let mut i = from;
    while i < k.len() && !is_word(k[i])
        invariant
            from <= i <= k.len(),
            skip_non_word(k@, from as nat) == skip_non_word(k@, i as nat),
        decreases k.len() - i,
    {
        i = i + 1;
    }
    i
}

fn word_end_exec(k: &Vec<char>, from: usize) -> (r: usize)
    requires
        from <= k.len(),
    ensures
        r as nat == word_end(k@, from as nat),
        from <= r <= k.len(),
{
    let mut i = from;
    while i < k.len() && is_word(k[i])
        invariant
            from <= i <= k.len(),
            word_end(k@, from as nat) == word_end(k@, i as nat),
        decreases k.len() - i,
    {
        i = i + 1;
    }
    i
}

fn lower_end_exec(k: &Vec<char>, from: usize) -> (r: usize)
    requires
        from <= k.len(),
    ensures
        r as nat == lower_end(k@, from as nat),
        from <= r <= k.len(),
{
    let mut i = from;
    while i < k.len() && 'a' <= k[i] && k[i] <= 'z'
        invariant
            from <= i <= k.len(),
            lower_end(k@, from as nat) == lower_end(k@, i as nat),
        decreases k.len() - i,
    {
        i = i + 1;
    }
    i
}

fn digit_end_exec(k: &Vec<char>, from: usize) -> (r: usize)
    requires
        from <= k.len(),
    ensures
        r as nat == digit_end(k@, from as nat),
        from <= r <= k.len(),
{
    let mut i = from;
    while i < k.len() && '0' <= k[i] && k[i] <= '9'
        invariant
            from <= i <= k.len(),
            digit_end(k@, from as nat) == digit_end(k@, i as nat),
        decreases k.len() - i,
    {
        i = i + 1;
    }
    i
}

/// The inside of the bracket group at `at` whose run ends at `run_end`.
fn bracket_span_exec(k: &Vec<char>, at: usize, run_end: usize) -> (r: Option<(usize, usize)>)
    requires
        run_end <= k.len(),
    ensures
        match r {
            Some((a, b)) => bracket_span(k@, at as nat, run_end as nat) == Some((a as nat, b as nat)),
            None => bracket_span(k@, at as nat, run_end as nat) is None,
        },
{
    if at < k.len() && k[at] == '[' && run_end > at + 1 && run_end < k.len() && k[run_end] == ']' {
        Some((at + 1, run_end))
    } else {
        None
    }
}

/// Where the parts of a query key lie in it.
pub struct KeySpans {
    pub name: (usize, usize),
    pub operator: Option<(usize, usize)>,
    pub index: Option<(usize, usize)>,
}

/// Whether `r` gives where the parts of key `k` lie.
pub open spec fn spans_of(k: Seq<char>, r: KeySpans) -> bool {
    &&& key_name(k) is Some
    &&& r.name.0 as nat == name_start(k)
    &&& r.name.1 as nat == name_end(k)
    &&& r.name.0 <= r.name.1 <= k.len()
    &&& match r.operator {
        Some((a, b)) => operator_span(k) == Some((a as nat, b as nat)) && a <= b <= k.len(),
        None => operator_span(k) is None,
    }
    &&& match r.index {
        Some((a, b)) => index_span(k) == Some((a as nat, b as nat)) && a <= b <= k.len(),
        None => index_span(k) is None,
    }
}

/// Splits a query key into where its field name, operator code and index lie.
pub fn match_key(k: &Vec<char>) -> (r: Option<KeySpans>)
    ensures
        match r {
            Some(s) => spans_of(k@, s),
            None => key_name(k@) is None,
        },
{
    let start = skip_non_word_exec(k, 0);
    if start >= k.len() {
        return None;
    }
    let end = word_end_exec(k, start);
    let op_run = if end < k.len() { lower_end_exec(k, end + 1) } else { end };
    let operator = bracket_span_exec(k, end, op_run);
    let after = match operator {
        Some((_, e)) => e + 1,
        None => end,
    };
    let idx_run = if after < k.len() { digit_end_exec(k, after + 1) } else { after };
    let index = bracket_span_exec(k, after, idx_run);
    Some(KeySpans { name: (start, end), operator, index })
}

/// The parts of a query key: its field name, and its operator code and index
/// where it has them.
pub struct KeyCaptures {
    pub name: String,
    pub operator: Option<String>,
    pub index: Option<String>,
}

/// Reads `key` by the grammar `name ( '[' op ']' )? ( '[' digits ']' )?`:
/// the name is the key's first run of ASCII word characters, the operator code
/// lowercase letters, the index decimal digits. `None` where the key holds no
/// word character.
pub fn query_regex(key: &str) -> (r: Option<KeyCaptures>)
    ensures
        match r {
            Some(c) => key_name(key@) == Some(c.name@) && match c.operator {
                Some(o) => key_operator(key@) == Some(o@),
                None => key_operator(key@) is None,
            } && match c.index {
                Some(i) => key_index(key@) == Some(i@),
                None => key_index(key@) is None,
            },
            None => key_name(key@) is None,
        },
{
    let k = chars_of(key);
    match match_key(&k) {
        None => None,
        Some(s) => {
            let name = text_between(key, s.name.0, s.name.1);
            let operator = match s.operator {
                Some((a, b)) => Some(text_between(key, a, b)),
                None => None,
            };
            let index = match s.index {
                Some((a, b)) => Some(text_between(key, a, b)),
                None => None,
            };
            Some(KeyCaptures { name, operator, index })
        },
    }
}

} // verus!
