//! The wire grammar of the coordinator's messages and configuration files.
//!
//! Every message is a small JSON object restricted to what the protocol
//! uses: string fields, unsigned integer fields, and one level of table
//! (a map from id to a list of ids, as the bulk dependency map is sent).
//! The grammar is this project's own wire format; parsing and encoding are
//! specified here and proved against those specifications.
//!
//! Strings carry no escape sequences: ids, action names and image file
//! names never contain a quote or a backslash, and a message holding one
//! is rejected rather than mis-framed.

use vstd::prelude::*;

verus! {

// ------------------------------------------------------------------
// Character classes and scans
// ------------------------------------------------------------------

pub open spec fn is_ws_char(c: char) -> bool {
    c == ' ' || c == '\t' || c == '\n' || c == '\r'
}

/// The numeric value of a decimal digit character, if it is one.
pub open spec fn spec_digit(c: char) -> Option<u64> {
    match c {
        '0' => Some(0u64),
        '1' => Some(1u64),
        '2' => Some(2u64),
        '3' => Some(3u64),
        '4' => Some(4u64),
        '5' => Some(5u64),
        '6' => Some(6u64),
        '7' => Some(7u64),
        '8' => Some(8u64),
        '9' => Some(9u64),
        _ => None,
    }
}

fn ws_char(c: char) -> (r: bool)
    ensures
        r == is_ws_char(c),
{
    c == ' ' || c == '\t' || c == '\n' || c == '\r'
}

pub(crate) fn digit_of(c: char) -> (r: Option<u64>)
    ensures
        r == spec_digit(c),
{
    match c {
        '0' => Some(0u64),
        '1' => Some(1u64),
        '2' => Some(2u64),
        '3' => Some(3u64),
        '4' => Some(4u64),
        '5' => Some(5u64),
        '6' => Some(6u64),
        '7' => Some(7u64),
        '8' => Some(8u64),
        '9' => Some(9u64),
        _ => None,
    }
}

/// The first index at or after `i` that holds no whitespace, or the end.
pub open spec fn spec_skip_ws(s: Seq<char>, i: int) -> int
    decreases s.len() - i,
{
    if i < 0 || i >= s.len() {
        s.len() as int
    } else if is_ws_char(s[i]) {
        spec_skip_ws(s, i + 1)
    } else {
        i
    }
}

pub proof fn lemma_skip_ws_props(s: Seq<char>, i: int)
    requires
        0 <= i <= s.len(),
    ensures
        i <= spec_skip_ws(s, i) <= s.len(),
        spec_skip_ws(s, i) < s.len() ==> !is_ws_char(s[spec_skip_ws(s, i)]),
    decreases s.len() - i,
{
    if i < s.len() && is_ws_char(s[i]) {
        lemma_skip_ws_props(s, i + 1);
    }
}

/// The first index at or after `i` that ends a string body: a quote or a
/// backslash, or the end of input.
pub open spec fn spec_str_body_end(s: Seq<char>, i: int) -> int
    decreases s.len() - i,
{
    if i < 0 || i >= s.len() {
        s.len() as int
    } else if s[i] == '"' || s[i] == '\\' {
        i
    } else {
        spec_str_body_end(s, i + 1)
    }
}

pub proof fn lemma_str_body_end_props(s: Seq<char>, i: int)
    requires
        0 <= i <= s.len(),
    ensures
        i <= spec_str_body_end(s, i) <= s.len(),
        spec_str_body_end(s, i) < s.len() ==> (s[spec_str_body_end(s, i)] == '"'
            || s[spec_str_body_end(s, i)] == '\\'),
    decreases s.len() - i,
{
    if i < s.len() && s[i] != '"' && s[i] != '\\' {
        lemma_str_body_end_props(s, i + 1);
    }
}

/// The first index at or after `i` that holds no decimal digit.
pub open spec fn spec_digit_end(s: Seq<char>, i: int) -> int
    decreases s.len() - i,
{
    if i < 0 || i >= s.len() {
        s.len() as int
    } else if spec_digit(s[i]) is Some {
        spec_digit_end(s, i + 1)
    } else {
        i
    }
}

pub proof fn lemma_digit_end_props(s: Seq<char>, i: int)
    requires
        0 <= i <= s.len(),
    ensures
        i <= spec_digit_end(s, i) <= s.len(),
    decreases s.len() - i,
{
    if i < s.len() && spec_digit(s[i]) is Some {
        lemma_digit_end_props(s, i + 1);
    }
}

fn skip_ws(s: &str, i: usize) -> (r: usize)
    requires
        i <= s@.len(),
    ensures
        r == spec_skip_ws(s@, i as int),
        i <= r <= s@.len(),
        r < s@.len() ==> !is_ws_char(s@[r as int]),
{
    let n: usize = s.unicode_len();
    let mut j: usize = i;
    while j < n
        invariant
            i <= j <= n,
            n == s@.len(),
            spec_skip_ws(s@, i as int) == spec_skip_ws(s@, j as int),
        decreases n - j,
    {
        if !ws_char(s.get_char(j)) {
            return j;
        }
        j = j + 1;
    }
    j
}

// ------------------------------------------------------------------
// Strings and numbers
// ------------------------------------------------------------------

/// A quoted string starting exactly at `i`: its characters and the index
/// just past the closing quote.  Escape sequences are not part of the
/// grammar, so a backslash fails the parse.
pub open spec fn spec_parse_string(s: Seq<char>, i: int) -> Option<(Seq<char>, int)> {
    if 0 <= i < s.len() && s[i] == '"' {
        let e = spec_str_body_end(s, i + 1);
        if e < s.len() && s[e] == '"' {
            Some((s.subrange(i + 1, e), e + 1))
        } else {
            None
        }
    } else {
        None
    }
}

pub proof fn lemma_parse_string_progress(s: Seq<char>, i: int)
    requires
        spec_parse_string(s, i) is Some,
    ensures
        i < spec_parse_string(s, i).unwrap().1 <= s.len(),
{
    lemma_str_body_end_props(s, i + 1);
}

fn parse_string_at(s: &str, i: usize) -> (r: Option<(String, usize)>)
    requires
        i <= s@.len(),
    ensures
        match r {
            Some((t, j)) => spec_parse_string(s@, i as int) == Some((t@, j as int)) && i < j
                <= s@.len(),
            None => spec_parse_string(s@, i as int) is None,
        },
{
    let n: usize = s.unicode_len();
    if i >= n || s.get_char(i) != '"' {
        return None;
    }
    let mut e: usize = i + 1;
    while e < n
        invariant
            i + 1 <= e <= n,
            i < n,
            s@[i as int] == '"',
            n == s@.len(),
            spec_str_body_end(s@, i + 1) == spec_str_body_end(s@, e as int),
        decreases n - e,
    {
        let c = s.get_char(e);
        if c == '"' {
            let body = String::from_str(s.substring_char(i + 1, e));
            return Some((body, e + 1));
        }
        if c == '\\' {
            return None;
        }
        e = e + 1;
    }
    None
}

/// The value of the decimal digits `s[i..e]`, as an unbounded integer.
pub open spec fn spec_digits_int(s: Seq<char>, i: int, e: int) -> int
    decreases e - i,
{
    if i >= e {
        0
    } else {
        spec_digits_int(s, i, e - 1) * 10 + spec_digit(s[e - 1]).unwrap() as int
    }
}

proof fn lemma_digits_int_bounds(s: Seq<char>, i: int, e: int)
    requires
        i <= e,
    ensures
        spec_digits_int(s, i, e) >= 0,
        forall|k: int|
            i <= k <= e ==> spec_digits_int(s, i, e) >= #[trigger] spec_digits_int(s, i, k),
    decreases e - i,
{
    if i < e {
        lemma_digits_int_bounds(s, i, e - 1);
        assert forall|k: int|
            i <= k <= e implies spec_digits_int(s, i, e) >= #[trigger] spec_digits_int(
            s,
            i,
            k,
        ) by {
            if k <= e - 1 {
                assert(spec_digits_int(s, i, e - 1) >= spec_digits_int(s, i, k));
                assert(spec_digits_int(s, i, e) >= spec_digits_int(s, i, e - 1));
            }
        }
    }
}

/// An unsigned decimal number starting exactly at `i`: its value and the
/// index just past its digits.  A value that does not fit in 64 bits
/// fails the parse.
pub open spec fn spec_parse_number(s: Seq<char>, i: int) -> Option<(u64, int)> {
    if 0 <= i <= s.len() {
        let e = spec_digit_end(s, i);
        if e == i {
            None
        } else if spec_digits_int(s, i, e) <= u64::MAX {
            Some((spec_digits_int(s, i, e) as u64, e))
        } else {
            None
        }
    } else {
        None
    }
}

pub proof fn lemma_parse_number_progress(s: Seq<char>, i: int)
    requires
        spec_parse_number(s, i) is Some,
    ensures
        i < spec_parse_number(s, i).unwrap().1 <= s.len(),
{
    lemma_digit_end_props(s, i);
}

fn parse_number_at(s: &str, i: usize) -> (r: Option<(u64, usize)>)
    requires
        i <= s@.len(),
    ensures
        match r {
            Some((v, j)) => spec_parse_number(s@, i as int) == Some((v, j as int)) && i < j
                <= s@.len(),
            None => spec_parse_number(s@, i as int) is None,
        },
{
    let n: usize = s.unicode_len();
    let mut e: usize = i;
    let mut val: u64 = 0;
    let mut overflowed: bool = false;
    while e < n
        invariant
            i <= e <= n,
            n == s@.len(),
            spec_digit_end(s@, i as int) == spec_digit_end(s@, e as int),
            forall|k: int| i <= k < e ==> spec_digit(s@[k]) is Some,
            !overflowed ==> val == spec_digits_int(s@, i as int, e as int),
            overflowed ==> spec_digits_int(s@, i as int, e as int) > u64::MAX,
        decreases n - e,
    {
        let c = s.get_char(e);
        match digit_of(c) {
            None => {
                if e == i {
                    return None;
                }
                if overflowed {
                    return None;
                }
                return Some((val, e));
            },
            Some(d) => {
                proof {
                    assert(spec_digits_int(s@, i as int, e + 1) == spec_digits_int(
                        s@,
                        i as int,
                        e as int,
                    ) * 10 + d);
                }
                if !overflowed {
                    if val > (u64::MAX - d) / 10 {
                        overflowed = true;
                        proof {
                            assert(spec_digits_int(s@, i as int, e as int) * 10 + d > u64::MAX)
                                by (nonlinear_arith)
                                requires
                                    spec_digits_int(s@, i as int, e as int) == val,
                                    val > (u64::MAX - d) / 10,
                                    0 <= d <= 9,
                            ;
                        }
                    } else {
                        val = val * 10 + d;
                    }
                } else {
                    proof {
                        assert(spec_digits_int(s@, i as int, e as int) * 10 + d > u64::MAX) by {
                            lemma_digits_int_bounds(s@, i as int, e as int);
                            assert(spec_digits_int(s@, i as int, e as int) > u64::MAX);
                            assert(spec_digits_int(s@, i as int, e as int) * 10
                                >= spec_digits_int(s@, i as int, e as int)) by (nonlinear_arith)
                                requires
                                    spec_digits_int(s@, i as int, e as int) >= 0,
                            ;
                        }
                    }
                }
                e = e + 1;
            },
        }
    }
    if e == i {
        return None;
    }
    if overflowed {
        return None;
    }
    Some((val, e))
}

// ------------------------------------------------------------------
// Composite values
// ------------------------------------------------------------------

/// One field value of a message object: a string, an unsigned integer, or
/// a table from id to a list of ids (the bulk dependency map).  This is
/// the mathematical form; [`FieldValue`] is its executable counterpart.
pub enum FieldValueV {
    Text(Seq<char>),
    Number(u64),
    Table(Seq<(Seq<char>, Seq<Seq<char>>)>),
}

/// One field value of a message object, as parsed.
pub enum FieldValue {
    Text(String),
    Number(u64),
    Table(Vec<(String, Vec<String>)>),
}

impl View for FieldValue {
    type V = FieldValueV;

    open spec fn view(&self) -> FieldValueV {
        match self {
            FieldValue::Text(t) => FieldValueV::Text(t@),
            FieldValue::Number(n) => FieldValueV::Number(*n),
            FieldValue::Table(t) => FieldValueV::Table(t.deep_view()),
        }
    }
}

impl DeepView for FieldValue {
    type V = FieldValueV;

    open spec fn deep_view(&self) -> FieldValueV {
        self.view()
    }
}

/// The elements of a string array, starting at a string at `i` (after the
/// opening bracket and any whitespace), up to and past the closing
/// bracket.
pub open spec fn spec_parse_sarr_elems(s: Seq<char>, i: int) -> Option<(Seq<Seq<char>>, int)>
    decreases s.len() - i,
    via spec_parse_sarr_elems_decreases
{
    match spec_parse_string(s, i) {
        None => None,
        Some((t, k)) => {
            let k2 = spec_skip_ws(s, k);
            if k2 < s.len() && s[k2] == ']' {
                Some((seq![t], k2 + 1))
            } else if k2 < s.len() && s[k2] == ',' {
                match spec_parse_sarr_elems(s, spec_skip_ws(s, k2 + 1)) {
                    None => None,
                    Some((rest, e)) => Some((seq![t] + rest, e)),
                }
            } else {
                None
            }
        },
    }
}

#[via_fn]
proof fn spec_parse_sarr_elems_decreases(s: Seq<char>, i: int) {
    if spec_parse_string(s, i) is Some {
        lemma_parse_string_progress(s, i);
        let k = spec_parse_string(s, i).unwrap().1;
        lemma_skip_ws_props(s, k);
        let k2 = spec_skip_ws(s, k);
        if k2 + 1 <= s.len() {
            lemma_skip_ws_props(s, k2 + 1);
        }
    }
}

pub proof fn lemma_parse_sarr_elems_progress(s: Seq<char>, i: int)
    requires
        spec_parse_sarr_elems(s, i) is Some,
    ensures
        i < spec_parse_sarr_elems(s, i).unwrap().1 <= s.len(),
    decreases s.len() - i,
{
    lemma_parse_string_progress(s, i);
    let k = spec_parse_string(s, i).unwrap().1;
    lemma_skip_ws_props(s, k);
    let k2 = spec_skip_ws(s, k);
    if k2 < s.len() && s[k2] == ']' {
    } else {
        lemma_skip_ws_props(s, k2 + 1);
        lemma_parse_sarr_elems_progress(s, spec_skip_ws(s, k2 + 1));
    }
}

/// A whole string array, starting at its opening bracket.
pub open spec fn spec_parse_sarr(s: Seq<char>, i: int) -> Option<(Seq<Seq<char>>, int)> {
    if 0 <= i < s.len() && s[i] == '[' {
        let j = spec_skip_ws(s, i + 1);
        if j < s.len() && s[j] == ']' {
            Some((Seq::empty(), j + 1))
        } else {
            spec_parse_sarr_elems(s, j)
        }
    } else {
        None
    }
}

pub proof fn lemma_parse_sarr_progress(s: Seq<char>, i: int)
    requires
        spec_parse_sarr(s, i) is Some,
    ensures
        i < spec_parse_sarr(s, i).unwrap().1 <= s.len(),
{
    lemma_skip_ws_props(s, i + 1);
    let j = spec_skip_ws(s, i + 1);
    if j < s.len() && s[j] == ']' {
    } else {
        lemma_parse_sarr_elems_progress(s, j);
    }
}

/// The entries of a table, starting at a key string at `i`, up to and past
/// the closing brace.
pub open spec fn spec_parse_table_entries(s: Seq<char>, i: int) -> Option<
    (Seq<(Seq<char>, Seq<Seq<char>>)>, int),
>
    decreases s.len() - i,
    via spec_parse_table_entries_decreases
{
    match spec_parse_string(s, i) {
        None => None,
        Some((key, k)) => {
            let c = spec_skip_ws(s, k);
            if c < s.len() && s[c] == ':' {
                let v = spec_skip_ws(s, c + 1);
                match spec_parse_sarr(s, v) {
                    None => None,
                    Some((vals, k2)) => {
                        let k3 = spec_skip_ws(s, k2);
                        if k3 < s.len() && s[k3] == '}' {
                            Some((seq![(key, vals)], k3 + 1))
                        } else if k3 < s.len() && s[k3] == ',' {
                            match spec_parse_table_entries(s, spec_skip_ws(s, k3 + 1)) {
                                None => None,
                                Some((rest, e)) => Some((seq![(key, vals)] + rest, e)),
                            }
                        } else {
                            None
                        }
                    },
                }
            } else {
                None
            }
        },
    }
}

#[via_fn]
proof fn spec_parse_table_entries_decreases(s: Seq<char>, i: int) {
    if spec_parse_string(s, i) is Some {
        lemma_parse_string_progress(s, i);
        let k = spec_parse_string(s, i).unwrap().1;
        lemma_skip_ws_props(s, k);
        let c = spec_skip_ws(s, k);
        if c + 1 <= s.len() {
            lemma_skip_ws_props(s, c + 1);
            let v = spec_skip_ws(s, c + 1);
            if spec_parse_sarr(s, v) is Some {
                lemma_parse_sarr_progress(s, v);
                let k2 = spec_parse_sarr(s, v).unwrap().1;
                lemma_skip_ws_props(s, k2);
                let k3 = spec_skip_ws(s, k2);
                if k3 + 1 <= s.len() {
                    lemma_skip_ws_props(s, k3 + 1);
                }
            }
        }
    }
}

pub proof fn lemma_parse_table_entries_progress(s: Seq<char>, i: int)
    requires
        spec_parse_table_entries(s, i) is Some,
    ensures
        i < spec_parse_table_entries(s, i).unwrap().1 <= s.len(),
    decreases s.len() - i,
{
    lemma_parse_string_progress(s, i);
    let k = spec_parse_string(s, i).unwrap().1;
    lemma_skip_ws_props(s, k);
    let c = spec_skip_ws(s, k);
    lemma_skip_ws_props(s, c + 1);
    let v = spec_skip_ws(s, c + 1);
    lemma_parse_sarr_progress(s, v);
    let k2 = spec_parse_sarr(s, v).unwrap().1;
    lemma_skip_ws_props(s, k2);
    let k3 = spec_skip_ws(s, k2);
    if k3 < s.len() && s[k3] == '}' {
    } else {
        lemma_skip_ws_props(s, k3 + 1);
        lemma_parse_table_entries_progress(s, spec_skip_ws(s, k3 + 1));
    }
}

/// A whole table, starting at its opening brace.
pub open spec fn spec_parse_table(s: Seq<char>, i: int) -> Option<
    (Seq<(Seq<char>, Seq<Seq<char>>)>, int),
> {
    if 0 <= i < s.len() && s[i] == '{' {
        let j = spec_skip_ws(s, i + 1);
        if j < s.len() && s[j] == '}' {
            Some((Seq::empty(), j + 1))
        } else {
            spec_parse_table_entries(s, j)
        }
    } else {
        None
    }
}

pub proof fn lemma_parse_table_progress(s: Seq<char>, i: int)
    requires
        spec_parse_table(s, i) is Some,
    ensures
        i < spec_parse_table(s, i).unwrap().1 <= s.len(),
{
    lemma_skip_ws_props(s, i + 1);
    let j = spec_skip_ws(s, i + 1);
    if j < s.len() && s[j] == '}' {
    } else {
        lemma_parse_table_entries_progress(s, j);
    }
}

/// One field value, starting at `i`: a string, a number, or a table.
pub open spec fn spec_parse_value(s: Seq<char>, i: int) -> Option<(FieldValueV, int)> {
    if 0 <= i < s.len() && s[i] == '"' {
        match spec_parse_string(s, i) {
            None => None,
            Some((t, j)) => Some((FieldValueV::Text(t), j)),
        }
    } else if 0 <= i < s.len() && s[i] == '{' {
        match spec_parse_table(s, i) {
            None => None,
            Some((t, j)) => Some((FieldValueV::Table(t), j)),
        }
    } else {
        match spec_parse_number(s, i) {
            None => None,
            Some((v, j)) => Some((FieldValueV::Number(v), j)),
        }
    }
}

pub proof fn lemma_parse_value_progress(s: Seq<char>, i: int)
    requires
        spec_parse_value(s, i) is Some,
    ensures
        i < spec_parse_value(s, i).unwrap().1 <= s.len(),
{
    if 0 <= i < s.len() && s[i] == '"' {
        lemma_parse_string_progress(s, i);
    } else if 0 <= i < s.len() && s[i] == '{' {
        lemma_parse_table_progress(s, i);
    } else {
        lemma_parse_number_progress(s, i);
    }
}

/// The members of a message object, starting at a key string at `i`, up to
/// and past the closing brace.
pub open spec fn spec_parse_members(s: Seq<char>, i: int) -> Option<
    (Seq<(Seq<char>, FieldValueV)>, int),
>
    decreases s.len() - i,
    via spec_parse_members_decreases
{
    match spec_parse_string(s, i) {
        None => None,
        Some((key, k)) => {
            let c = spec_skip_ws(s, k);
            if c < s.len() && s[c] == ':' {
                let v = spec_skip_ws(s, c + 1);
                match spec_parse_value(s, v) {
                    None => None,
                    Some((val, k2)) => {
                        let k3 = spec_skip_ws(s, k2);
                        if k3 < s.len() && s[k3] == '}' {
                            Some((seq![(key, val)], k3 + 1))
                        } else if k3 < s.len() && s[k3] == ',' {
                            match spec_parse_members(s, spec_skip_ws(s, k3 + 1)) {
                                None => None,
                                Some((rest, e)) => Some((seq![(key, val)] + rest, e)),
                            }
                        } else {
                            None
                        }
                    },
                }
            } else {
                None
            }
        },
    }
}

#[via_fn]
proof fn spec_parse_members_decreases(s: Seq<char>, i: int) {
    if spec_parse_string(s, i) is Some {
        lemma_parse_string_progress(s, i);
        let k = spec_parse_string(s, i).unwrap().1;
        lemma_skip_ws_props(s, k);
        let c = spec_skip_ws(s, k);
        if c + 1 <= s.len() {
            lemma_skip_ws_props(s, c + 1);
            let v = spec_skip_ws(s, c + 1);
            if spec_parse_value(s, v) is Some {
                lemma_parse_value_progress(s, v);
                let k2 = spec_parse_value(s, v).unwrap().1;
                lemma_skip_ws_props(s, k2);
                let k3 = spec_skip_ws(s, k2);
                if k3 + 1 <= s.len() {
                    lemma_skip_ws_props(s, k3 + 1);
                }
            }
        }
    }
}

/// A whole message object, starting at its opening brace.
pub open spec fn spec_parse_object(s: Seq<char>, i: int) -> Option<
    (Seq<(Seq<char>, FieldValueV)>, int),
> {
    if 0 <= i < s.len() && s[i] == '{' {
        let j = spec_skip_ws(s, i + 1);
        if j < s.len() && s[j] == '}' {
            Some((Seq::empty(), j + 1))
        } else {
            spec_parse_members(s, j)
        }
    } else {
        None
    }
}

/// A whole message: optional whitespace, one object, optional whitespace,
/// end of input.
pub open spec fn spec_parse_document(s: Seq<char>) -> Option<Seq<(Seq<char>, FieldValueV)>> {
    match spec_parse_object(s, spec_skip_ws(s, 0)) {
        None => None,
        Some((doc, j)) => {
            if spec_skip_ws(s, j) == s.len() {
                Some(doc)
            } else {
                None
            }
        },
    }
}

// ------------------------------------------------------------------
// Executable parsers
// ------------------------------------------------------------------

fn parse_sarr_elems(s: &str, i: usize) -> (r: Option<(Vec<String>, usize)>)
    requires
        i <= s@.len(),
    ensures
        match r {
            Some((v, j)) => spec_parse_sarr_elems(s@, i as int) == Some((v.deep_view(), j as int))
                && i < j <= s@.len(),
            None => spec_parse_sarr_elems(s@, i as int) is None,
        },
    decreases s@.len() - i,
{
    let (t, k) = match parse_string_at(s, i) {
        None => {
            return None;
        },
        Some(p) => p,
    };
    let k2 = skip_ws(s, k);
    let n: usize = s.unicode_len();
    if k2 < n && s.get_char(k2) == ']' {
        let mut v: Vec<String> = Vec::new();
        v.push(t);
        proof {
            assert(v.deep_view() =~= seq![spec_parse_string(s@, i as int).unwrap().0]);
        }
        return Some((v, k2 + 1));
    }
    if k2 < n && s.get_char(k2) == ',' {
        let next = skip_ws(s, k2 + 1);
        proof {
            lemma_parse_string_progress(s@, i as int);
        }
        match parse_sarr_elems(s, next) {
            None => None,
            Some((mut rest, e)) => {
                rest.insert(0, t);
                proof {
                    assert(rest.deep_view() =~= seq![spec_parse_string(s@, i as int).unwrap().0]
                        + spec_parse_sarr_elems(s@, next as int).unwrap().0);
                }
                Some((rest, e))
            },
        }
    } else {
        None
    }
}

fn parse_sarr(s: &str, i: usize) -> (r: Option<(Vec<String>, usize)>)
    requires
        i <= s@.len(),
    ensures
        match r {
            Some((v, j)) => spec_parse_sarr(s@, i as int) == Some((v.deep_view(), j as int)) && i
                < j <= s@.len(),
            None => spec_parse_sarr(s@, i as int) is None,
        },
{
    let n: usize = s.unicode_len();
    if i >= n || s.get_char(i) != '[' {
        return None;
    }
    let j = skip_ws(s, i + 1);
    if j < n && s.get_char(j) == ']' {
        let v: Vec<String> = Vec::new();
        proof {
            assert(v.deep_view() =~= Seq::<Seq<char>>::empty());
        }
        return Some((v, j + 1));
    }
    parse_sarr_elems(s, j)
}

fn parse_table_entries(s: &str, i: usize) -> (r: Option<(Vec<(String, Vec<String>)>, usize)>)
    requires
        i <= s@.len(),
    ensures
        match r {
            Some((v, j)) => spec_parse_table_entries(s@, i as int) == Some(
                (v.deep_view(), j as int),
            ) && i < j <= s@.len(),
            None => spec_parse_table_entries(s@, i as int) is None,
        },
    decreases s@.len() - i,
{
    let (key, k) = match parse_string_at(s, i) {
        None => {
            return None;
        },
        Some(p) => p,
    };
    let ghost key_v = spec_parse_string(s@, i as int).unwrap().0;
    let c = skip_ws(s, k);
    let n: usize = s.unicode_len();
    if !(c < n && s.get_char(c) == ':') {
        return None;
    }
    let v = skip_ws(s, c + 1);
    let (vals, k2) = match parse_sarr(s, v) {
        None => {
            return None;
        },
        Some(p) => p,
    };
    let ghost vals_v = spec_parse_sarr(s@, v as int).unwrap().0;
    let k3 = skip_ws(s, k2);
    if k3 < n && s.get_char(k3) == '}' {
        let mut out: Vec<(String, Vec<String>)> = Vec::new();
        out.push((key, vals));
        proof {
            assert(out.deep_view() =~= seq![(key_v, vals_v)]);
        }
        return Some((out, k3 + 1));
    }
    if k3 < n && s.get_char(k3) == ',' {
        let next = skip_ws(s, k3 + 1);
        proof {
            lemma_parse_string_progress(s@, i as int);
        }
        match parse_table_entries(s, next) {
            None => None,
            Some((mut rest, e)) => {
                rest.insert(0, (key, vals));
                proof {
                    assert(rest.deep_view() =~= seq![(key_v, vals_v)] + spec_parse_table_entries(
                        s@,
                        next as int,
                    ).unwrap().0);
                }
                Some((rest, e))
            },
        }
    } else {
        None
    }
}

fn parse_table(s: &str, i: usize) -> (r: Option<(Vec<(String, Vec<String>)>, usize)>)
    requires
        i <= s@.len(),
    ensures
        match r {
            Some((v, j)) => spec_parse_table(s@, i as int) == Some((v.deep_view(), j as int)) && i
                < j <= s@.len(),
            None => spec_parse_table(s@, i as int) is None,
        },
{
    let n: usize = s.unicode_len();
    if i >= n || s.get_char(i) != '{' {
        return None;
    }
    let j = skip_ws(s, i + 1);
    if j < n && s.get_char(j) == '}' {
        let v: Vec<(String, Vec<String>)> = Vec::new();
        proof {
            assert(v.deep_view() =~= Seq::<(Seq<char>, Seq<Seq<char>>)>::empty());
        }
        return Some((v, j + 1));
    }
    parse_table_entries(s, j)
}

fn parse_value(s: &str, i: usize) -> (r: Option<(FieldValue, usize)>)
    requires
        i <= s@.len(),
    ensures
        match r {
            Some((v, j)) => spec_parse_value(s@, i as int) == Some((v@, j as int)) && i < j
                <= s@.len(),
            None => spec_parse_value(s@, i as int) is None,
        },
{
    let n: usize = s.unicode_len();
    if i < n && s.get_char(i) == '"' {
        match parse_string_at(s, i) {
            None => None,
            Some((t, j)) => Some((FieldValue::Text(t), j)),
        }
    } else if i < n && s.get_char(i) == '{' {
        match parse_table(s, i) {
            None => None,
            Some((t, j)) => Some((FieldValue::Table(t), j)),
        }
    } else {
        match parse_number_at(s, i) {
            None => None,
            Some((v, j)) => Some((FieldValue::Number(v), j)),
        }
    }
}

fn parse_members(s: &str, i: usize) -> (r: Option<(Vec<(String, FieldValue)>, usize)>)
    requires
        i <= s@.len(),
    ensures
        match r {
            Some((v, j)) => spec_parse_members(s@, i as int) == Some((v.deep_view(), j as int))
                && i < j <= s@.len(),
            None => spec_parse_members(s@, i as int) is None,
        },
    decreases s@.len() - i,
{
    let (key, k) = match parse_string_at(s, i) {
        None => {
            return None;
        },
        Some(p) => p,
    };
    let ghost key_v = spec_parse_string(s@, i as int).unwrap().0;
    let c = skip_ws(s, k);
    let n: usize = s.unicode_len();
    if !(c < n && s.get_char(c) == ':') {
        return None;
    }
    let v = skip_ws(s, c + 1);
    let (val, k2) = match parse_value(s, v) {
        None => {
            return None;
        },
        Some(p) => p,
    };
    let ghost val_v = spec_parse_value(s@, v as int).unwrap().0;
    let k3 = skip_ws(s, k2);
    if k3 < n && s.get_char(k3) == '}' {
        let mut out: Vec<(String, FieldValue)> = Vec::new();
        out.push((key, val));
        proof {
            assert(out.deep_view() =~= seq![(key_v, val_v)]);
        }
        return Some((out, k3 + 1));
    }
    if k3 < n && s.get_char(k3) == ',' {
        let next = skip_ws(s, k3 + 1);
        proof {
            lemma_parse_string_progress(s@, i as int);
        }
        match parse_members(s, next) {
            None => None,
            Some((mut rest, e)) => {
                rest.insert(0, (key, val));
                proof {
                    assert(rest.deep_view() =~= seq![(key_v, val_v)] + spec_parse_members(
                        s@,
                        next as int,
                    ).unwrap().0);
                }
                Some((rest, e))
            },
        }
    } else {
        None
    }
}

fn parse_object(s: &str, i: usize) -> (r: Option<(Vec<(String, FieldValue)>, usize)>)
    requires
        i <= s@.len(),
    ensures
        match r {
            Some((v, j)) => spec_parse_object(s@, i as int) == Some((v.deep_view(), j as int))
                && i < j <= s@.len(),
            None => spec_parse_object(s@, i as int) is None,
        },
{
    let n: usize = s.unicode_len();
    if i >= n || s.get_char(i) != '{' {
        return None;
    }
    let j = skip_ws(s, i + 1);
    if j < n && s.get_char(j) == '}' {
        let v: Vec<(String, FieldValue)> = Vec::new();
        proof {
            assert(v.deep_view() =~= Seq::<(Seq<char>, FieldValueV)>::empty());
        }
        return Some((v, j + 1));
    }
    parse_members(s, j)
}

/// Parses one whole message: a single object with nothing but whitespace
/// around it.
pub fn parse_document(s: &str) -> (r: Option<Vec<(String, FieldValue)>>)
    ensures
        match r {
            Some(doc) => spec_parse_document(s@) == Some(doc.deep_view()),
            None => spec_parse_document(s@) is None,
        },
{
    let i = skip_ws(s, 0);
    match parse_object(s, i) {
        None => None,
        Some((doc, j)) => {
            let n: usize = s.unicode_len();
            let e = skip_ws(s, j);
            if e == n {
                Some(doc)
            } else {
                None
            }
        },
    }
}

// ------------------------------------------------------------------
// Encoders
// ------------------------------------------------------------------

/// Clean text can stand between quotes without escaping: it holds no
/// quote and no backslash.
pub open spec fn spec_clean(s: Seq<char>) -> bool {
    forall|i: int| 0 <= i < s.len() ==> s[i] != '"' && s[i] != '\\'
}

/// Can `s` stand between quotes on the wire?
pub fn text_is_clean(s: &str) -> (r: bool)
    ensures
        r == spec_clean(s@),
{
    let n: usize = s.unicode_len();
    let mut i: usize = 0;
    while i < n
        invariant
            i <= n,
            n == s@.len(),
            forall|k: int| 0 <= k < i ==> s@[k] != '"' && s@[k] != '\\',
        decreases n - i,
    {
        let c = s.get_char(i);
        if c == '"' || c == '\\' {
            return false;
        }
        i = i + 1;
    }
    true
}

/// The character of one decimal digit.
pub open spec fn spec_digit_char(d: int) -> char {
    if d == 0 {
        '0'
    } else if d == 1 {
        '1'
    } else if d == 2 {
        '2'
    } else if d == 3 {
        '3'
    } else if d == 4 {
        '4'
    } else if d == 5 {
        '5'
    } else if d == 6 {
        '6'
    } else if d == 7 {
        '7'
    } else if d == 8 {
        '8'
    } else {
        '9'
    }
}

/// The decimal digits of `v`, most significant first.
pub open spec fn spec_dec_digits(v: int) -> Seq<char>
    decreases v,
{
    if v < 10 {
        seq![spec_digit_char(v)]
    } else {
        spec_dec_digits(v / 10).push(spec_digit_char(v % 10))
    }
}

fn digit_str(d: u64) -> (r: &'static str)
    requires
        d < 10,
    ensures
        r@ == seq![spec_digit_char(d as int)],
{
    proof {
        reveal_strlit("0");
        reveal_strlit("1");
        reveal_strlit("2");
        reveal_strlit("3");
        reveal_strlit("4");
        reveal_strlit("5");
        reveal_strlit("6");
        reveal_strlit("7");
        reveal_strlit("8");
        reveal_strlit("9");
    }
    let r = match d {
        0 => "0",
        1 => "1",
        2 => "2",
        3 => "3",
        4 => "4",
        5 => "5",
        6 => "6",
        7 => "7",
        8 => "8",
        _ => "9",
    };
    proof {
        assert(r@ =~= seq![spec_digit_char(d as int)]);
    }
    r
}

/// Writes `v` in decimal.
pub fn u64_to_dec(v: u64) -> (r: String)
    ensures
        r@ == spec_dec_digits(v as int),
    decreases v,
{
    if v < 10 {
        String::from_str(digit_str(v))
    } else {
        let mut head = u64_to_dec(v / 10);
        head.append(digit_str(v % 10));
        head
    }
}

/// The exact header message a hook client sends:
/// `{"id":ID,"action":ACTION,"dependencies":DEPS}`.
pub open spec fn spec_encode_header(
    id: Seq<char>,
    action: Seq<char>,
    deps: Seq<char>,
) -> Seq<char> {
    "{\"id\":\""@ + id + "\",\"action\":\""@ + action + "\",\"dependencies\":\""@ + deps + "\"}"@
}

/// Encodes a session header, unless a field cannot stand between quotes.
pub fn encode_header(id: &str, action: &str, deps: &str) -> (r: Option<String>)
    ensures
        match r {
            Some(t) => spec_clean(id@) && spec_clean(action@) && spec_clean(deps@) && t@
                == spec_encode_header(id@, action@, deps@),
            None => !(spec_clean(id@) && spec_clean(action@) && spec_clean(deps@)),
        },
{
    if !text_is_clean(id) || !text_is_clean(action) || !text_is_clean(deps) {
        return None;
    }
    let mut out = String::new();
    out.append("{\"id\":\"");
    out.append(id);
    out.append("\",\"action\":\"");
    out.append(action);
    out.append("\",\"dependencies\":\"");
    out.append(deps);
    out.append("\"}");
    Some(out)
}

/// The exact image descriptor the streamer sends before an image's bytes:
/// `{"img_name":NAME,"img_size":SIZE}`.
pub open spec fn spec_encode_image_descriptor(name: Seq<char>, size: u64) -> Seq<char> {
    "{\"img_name\":\""@ + name + "\",\"img_size\":"@ + spec_dec_digits(size as int) + "}"@
}

/// Encodes one image descriptor, unless the name cannot stand between
/// quotes.
pub fn encode_image_descriptor(name: &str, size: u64) -> (r: Option<String>)
    ensures
        match r {
            Some(t) => spec_clean(name@) && t@ == spec_encode_image_descriptor(name@, size),
            None => !spec_clean(name@),
        },
{
    if !text_is_clean(name) {
        return None;
    }
    let mut out = String::new();
    out.append("{\"img_name\":\"");
    out.append(name);
    out.append("\",\"img_size\":");
    let digits = u64_to_dec(size);
    out.append(digits.as_str());
    out.append("}");
    Some(out)
}

/// The exact per-image-directory configuration written at dump time, read
/// back by restore-side hooks.
pub open spec fn spec_encode_checkpoint_config(id: Seq<char>, deps: Seq<char>) -> Seq<char> {
    "{\n   \"id\": \""@ + id + "\",\n   \"dependencies\": \""@ + deps + "\"\n}"@
}

/// Encodes the per-image-directory configuration file contents.
pub fn encode_checkpoint_config(id: &str, deps: &str) -> (r: Option<String>)
    ensures
        match r {
            Some(t) => spec_clean(id@) && spec_clean(deps@) && t@ == spec_encode_checkpoint_config(
                id@,
                deps@,
            ),
            None => !(spec_clean(id@) && spec_clean(deps@)),
        },
{
    if !text_is_clean(id) || !text_is_clean(deps) {
        return None;
    }
    let mut out = String::new();
    out.append("{\n   \"id\": \"");
    out.append(id);
    out.append("\",\n   \"dependencies\": \"");
    out.append(deps);
    out.append("\"\n}");
    Some(out)
}

// ------------------------------------------------------------------
// Round trip
// ------------------------------------------------------------------

/// A string body of clean characters ends exactly at the delimiter that
/// follows it.
pub proof fn lemma_str_body_end_clean(s: Seq<char>, i: int, j: int)
    requires
        0 <= i <= j <= s.len(),
        forall|k: int| i <= k < j ==> s[k] != '"' && s[k] != '\\',
        j == s.len() || s[j] == '"' || s[j] == '\\',
    ensures
        spec_str_body_end(s, i) == j,
    decreases j - i,
{
    if i < j {
        lemma_str_body_end_clean(s, i + 1, j);
    }
}

/// A quoted clean string parses to exactly its body.
pub proof fn lemma_parse_string_of_clean(s: Seq<char>, i: int, j: int)
    requires
        0 <= i < j < s.len(),
        s[i] == '"',
        s[j] == '"',
        forall|k: int| i < k < j ==> s[k] != '"' && s[k] != '\\',
    ensures
        spec_parse_string(s, i) == Some((s.subrange(i + 1, j), j + 1)),
{
    lemma_str_body_end_clean(s, i + 1, j);
}

/// Where each piece of an encoded header stands, character by character.
#[verifier::rlimit(80)]
#[verifier::spinoff_prover]
proof fn lemma_header_layout(id: Seq<char>, action: Seq<char>, deps: Seq<char>)
    ensures
        ({
            let s = spec_encode_header(id, action, deps);
            let q1 = 7 + id.len() as int;
            let q2 = q1 + 12 + action.len() as int;
            let q3 = q2 + 18 + deps.len() as int;
            &&& s.len() == q3 + 2
            &&& s[0] == '{'
            &&& s[1] == '"'
            &&& (forall|k: int| 1 < k < 4 ==> s[k] != '"' && s[k] != '\\')
            &&& s.subrange(2, 4) == "id"@
            &&& s[4] == '"'
            &&& s[5] == ':'
            &&& s[6] == '"'
            &&& (forall|k: int| 7 <= k < q1 ==> s[k] == id[k - 7])
            &&& s[q1] == '"'
            &&& s[q1 + 1] == ','
            &&& s[q1 + 2] == '"'
            &&& (forall|k: int| q1 + 2 < k < q1 + 9 ==> s[k] != '"' && s[k] != '\\')
            &&& s.subrange(q1 + 3, q1 + 9) == "action"@
            &&& s[q1 + 9] == '"'
            &&& s[q1 + 10] == ':'
            &&& s[q1 + 11] == '"'
            &&& (forall|k: int| q1 + 12 <= k < q2 ==> s[k] == action[k - q1 - 12])
            &&& s[q2] == '"'
            &&& s[q2 + 1] == ','
            &&& s[q2 + 2] == '"'
            &&& (forall|k: int| q2 + 2 < k < q2 + 15 ==> s[k] != '"' && s[k] != '\\')
            &&& s.subrange(q2 + 3, q2 + 15) == "dependencies"@
            &&& s[q2 + 15] == '"'
            &&& s[q2 + 16] == ':'
            &&& s[q2 + 17] == '"'
            &&& (forall|k: int| q2 + 18 <= k < q3 ==> s[k] == deps[k - q2 - 18])
            &&& s[q3] == '"'
            &&& s[q3 + 1] == '}'
        }),
{
    reveal_strlit("{\"id\":\"");
    reveal_strlit("\",\"action\":\"");
    reveal_strlit("\",\"dependencies\":\"");
    reveal_strlit("\"}");
    reveal_strlit("id");
    reveal_strlit("action");
    reveal_strlit("dependencies");
    let s = spec_encode_header(id, action, deps);
    let a = "{\"id\":\""@;
    let b = "\",\"action\":\""@;
    let c = "\",\"dependencies\":\""@;
    let d = "\"}"@;
    let q1 = 7 + id.len() as int;
    let q2 = q1 + 12 + action.len() as int;
    let q3 = q2 + 18 + deps.len() as int;
    assert(s == a + id + b + action + c + deps + d);
    assert forall|k: int| 0 <= k < 7 implies s[k] == a[k] by {}
    assert forall|k: int| 7 <= k < q1 implies s[k] == id[k - 7] by {}
    assert forall|k: int| q1 <= k < q1 + 12 implies s[k] == b[k - q1] by {}
    assert forall|k: int| q1 + 12 <= k < q2 implies s[k] == action[k - q1 - 12] by {}
    assert forall|k: int| q2 <= k < q2 + 18 implies s[k] == c[k - q2] by {}
    assert forall|k: int| q2 + 18 <= k < q3 implies s[k] == deps[k - q2 - 18] by {}
    assert forall|k: int| q3 <= k < q3 + 2 implies s[k] == d[k - q3] by {}
    assert(s.subrange(2, 4) =~= "id"@);
    assert(s.subrange(q1 + 3, q1 + 9) =~= "action"@);
    assert(s.subrange(q2 + 3, q2 + 15) =~= "dependencies"@);
}

/// One member of an object whose key and text value are clean quoted
/// strings with no whitespace around the punctuation: what one unfolding
/// of the member list gives.
#[verifier::rlimit(60)]
#[verifier::spinoff_prover]
proof fn lemma_member_step(s: Seq<char>, i: int, j: int, vq: int)
    requires
        0 <= i < j,
        j + 2 < vq,
        vq + 1 < s.len(),
        s[i] == '"',
        s[j] == '"',
        forall|k: int| i < k < j ==> s[k] != '"' && s[k] != '\\',
        s[j + 1] == ':',
        s[j + 2] == '"',
        s[vq] == '"',
        forall|k: int| j + 2 < k < vq ==> s[k] != '"' && s[k] != '\\',
        s[vq + 1] == ',' || s[vq + 1] == '}',
        s[vq + 1] == ',' ==> vq + 2 < s.len() && s[vq + 2] == '"',
    ensures
        ({
            let key = s.subrange(i + 1, j);
            let val = FieldValueV::Text(s.subrange(j + 3, vq));
            if s[vq + 1] == '}' {
                spec_parse_members(s, i) == Some((seq![(key, val)], vq + 2))
            } else {
                spec_parse_members(s, i) == match spec_parse_members(s, vq + 2) {
                    Some((rest, e)) => Some((seq![(key, val)] + rest, e)),
                    None => None::<(Seq<(Seq<char>, FieldValueV)>, int)>,
                }
            }
        }),
{
    lemma_parse_string_of_clean(s, i, j);
    assert(spec_skip_ws(s, j + 1) == j + 1);
    lemma_parse_string_of_clean(s, j + 2, vq);
    assert(spec_parse_value(s, j + 2) == Some(
        (FieldValueV::Text(s.subrange(j + 3, vq)), vq + 1),
    ));
    assert(spec_skip_ws(s, vq + 1) == vq + 1);
    if s[vq + 1] == ',' {
        assert(spec_skip_ws(s, vq + 2) == vq + 2);
    }
}

/// The third member of an encoded header parses to the dependencies
/// field and closes the object.
#[verifier::rlimit(90)]
#[verifier::spinoff_prover]
proof fn lemma_header_member3(id: Seq<char>, action: Seq<char>, deps: Seq<char>)
    requires
        spec_clean(deps),
    ensures
        ({
            let s = spec_encode_header(id, action, deps);
            let q2 = 19 + id.len() as int + action.len() as int;
            let q3 = q2 + 18 + deps.len() as int;
            spec_parse_members(s, q2 + 2) == Some(
                (seq![("dependencies"@, FieldValueV::Text(deps))], q3 + 2),
            )
        }),
{
    lemma_header_layout(id, action, deps);
    let s = spec_encode_header(id, action, deps);
    let q1 = 7 + id.len() as int;
    let q2 = q1 + 12 + action.len() as int;
    let q3 = q2 + 18 + deps.len() as int;
    assert forall|k: int| q2 + 17 < k < q3 implies s[k] != '"' && s[k] != '\\' by {
        assert(s[k] == deps[k - q2 - 18]);
    }
    lemma_member_step(s, q2 + 2, q2 + 15, q3);
    assert(s.subrange(q2 + 18, q3) =~= deps);
}

/// The second member of an encoded header parses to the action field,
/// followed by the dependencies member.
#[verifier::rlimit(90)]
#[verifier::spinoff_prover]
proof fn lemma_header_member2(id: Seq<char>, action: Seq<char>, deps: Seq<char>)
    requires
        spec_clean(action),
        spec_clean(deps),
    ensures
        ({
            let s = spec_encode_header(id, action, deps);
            let q1 = 7 + id.len() as int;
            let q3 = q1 + 30 + action.len() as int + deps.len() as int;
            spec_parse_members(s, q1 + 2) == Some(
                (
                    seq![("action"@, FieldValueV::Text(action))] + seq![
                        ("dependencies"@, FieldValueV::Text(deps)),
                    ],
                    q3 + 2,
                ),
            )
        }),
{
    lemma_header_layout(id, action, deps);
    lemma_header_member3(id, action, deps);
    let s = spec_encode_header(id, action, deps);
    let q1 = 7 + id.len() as int;
    let q2 = q1 + 12 + action.len() as int;
    assert forall|k: int| q1 + 11 < k < q2 implies s[k] != '"' && s[k] != '\\' by {
        assert(s[k] == action[k - q1 - 12]);
    }
    lemma_member_step(s, q1 + 2, q1 + 9, q2);
    assert(s.subrange(q1 + 12, q2) =~= action);
}

/// The whole member list of an encoded header parses to its three fields.
#[verifier::rlimit(90)]
#[verifier::spinoff_prover]
proof fn lemma_header_members(id: Seq<char>, action: Seq<char>, deps: Seq<char>)
    requires
        spec_clean(id),
        spec_clean(action),
        spec_clean(deps),
    ensures
        ({
            let s = spec_encode_header(id, action, deps);
            let q3 = 37 + id.len() as int + action.len() as int + deps.len() as int;
            spec_parse_members(s, 1) == Some(
                (
                    seq![
                        ("id"@, FieldValueV::Text(id)),
                        ("action"@, FieldValueV::Text(action)),
                        ("dependencies"@, FieldValueV::Text(deps)),
                    ],
                    q3 + 2,
                ),
            )
        }),
{
    lemma_header_layout(id, action, deps);
    lemma_header_member2(id, action, deps);
    let s = spec_encode_header(id, action, deps);
    let q1 = 7 + id.len() as int;
    assert forall|k: int| 6 < k < q1 implies s[k] != '"' && s[k] != '\\' by {
        assert(s[k] == id[k - 7]);
    }
    lemma_member_step(s, 1, 4, q1);
    assert(s.subrange(7, q1) =~= id);
    let m1 = seq![("id"@, FieldValueV::Text(id))];
    let m23 = seq![("action"@, FieldValueV::Text(action))] + seq![
        ("dependencies"@, FieldValueV::Text(deps)),
    ];
    assert(m1 + m23 =~= seq![
        ("id"@, FieldValueV::Text(id)),
        ("action"@, FieldValueV::Text(action)),
        ("dependencies"@, FieldValueV::Text(deps)),
    ]);
}

/// What an encoded header parses back to: exactly its three fields, in
/// order.  Encoding loses nothing.
#[verifier::rlimit(90)]
#[verifier::spinoff_prover]
pub proof fn lemma_header_round_trip(id: Seq<char>, action: Seq<char>, deps: Seq<char>)
    requires
        spec_clean(id),
        spec_clean(action),
        spec_clean(deps),
    ensures
        spec_parse_document(spec_encode_header(id, action, deps)) == Some(
            seq![
                ("id"@, FieldValueV::Text(id)),
                ("action"@, FieldValueV::Text(action)),
                ("dependencies"@, FieldValueV::Text(deps)),
            ],
        ),
{
    lemma_header_layout(id, action, deps);
    lemma_header_members(id, action, deps);
    let s = spec_encode_header(id, action, deps);
    let q3 = 37 + id.len() as int + action.len() as int + deps.len() as int;
    assert(spec_skip_ws(s, 0) == 0);
    assert(spec_skip_ws(s, 1) == 1);
    assert(s[1] != '}');
    assert(spec_parse_object(s, 0) == Some(
        (
            seq![
                ("id"@, FieldValueV::Text(id)),
                ("action"@, FieldValueV::Text(action)),
                ("dependencies"@, FieldValueV::Text(deps)),
            ],
            q3 + 2,
        ),
    ));
    assert(spec_skip_ws(s, q3 + 2) == s.len());
}

/// Every character written for a decimal number is a digit.
pub proof fn lemma_dec_digits_are_digits(v: int)
    requires
        v >= 0,
    ensures
        spec_dec_digits(v).len() >= 1,
        forall|k: int|
            0 <= k < spec_dec_digits(v).len() ==> spec_digit(
                #[trigger] spec_dec_digits(v)[k],
            ) is Some,
    decreases v,
{
    if v < 10 {
        assert(spec_digit(spec_digit_char(v)) is Some);
    } else {
        lemma_dec_digits_are_digits(v / 10);
        assert(spec_digit(spec_digit_char(v % 10)) is Some);
        assert(forall|k: int|
            0 <= k < spec_dec_digits(v / 10).len() ==> spec_dec_digits(v)[k]
                == spec_dec_digits(v / 10)[k]);
    }
}

/// The decimal digits written for `v`, read back as a number, give `v`.
pub proof fn lemma_dec_digits_value(s: Seq<char>, i: int, v: int)
    requires
        v >= 0,
        0 <= i,
        i + spec_dec_digits(v).len() <= s.len(),
        forall|k: int|
            0 <= k < spec_dec_digits(v).len() ==> s[i + k] == #[trigger] spec_dec_digits(v)[k],
    ensures
        spec_digits_int(s, i, i + spec_dec_digits(v).len()) == v,
    decreases v,
{
    let digits = spec_dec_digits(v);
    let l = digits.len() as int;
    if v < 10 {
        assert(spec_dec_digits(v)[0] == spec_digit_char(v));
        assert(s[i + 0] == spec_dec_digits(v)[0]);
        assert(spec_digit(spec_digit_char(v)) == Some(v as u64));
        assert(spec_digits_int(s, i, i + 1) == spec_digits_int(s, i, i) * 10 + v);
    } else {
        let head = spec_dec_digits(v / 10);
        assert(digits == head.push(spec_digit_char(v % 10)));
        assert forall|k: int| 0 <= k < head.len() implies s[i + k] == #[trigger] head[k] by {
            assert(s[i + k] == spec_dec_digits(v)[k]);
            assert(spec_dec_digits(v)[k] == head[k]);
        }
        lemma_dec_digits_value(s, i, v / 10);
        assert(s[i + l - 1] == spec_dec_digits(v)[l - 1]);
        assert(spec_dec_digits(v)[l - 1] == spec_digit_char(v % 10));
        assert(spec_digit(spec_digit_char(v % 10)) == Some((v % 10) as u64));
        assert(spec_digits_int(s, i, i + l) == spec_digits_int(s, i, i + l - 1) * 10 + v % 10);
    }
}

/// A run of digits ends exactly at the non-digit that follows it.
pub proof fn lemma_digit_end_clean(s: Seq<char>, i: int, j: int)
    requires
        0 <= i <= j <= s.len(),
        forall|k: int| i <= k < j ==> spec_digit(s[k]) is Some,
        j == s.len() || spec_digit(s[j]) is None,
    ensures
        spec_digit_end(s, i) == j,
    decreases j - i,
{
    if i < j {
        lemma_digit_end_clean(s, i + 1, j);
    }
}

/// What an encoded image descriptor parses back to: exactly its name and
/// its size.  The streaming receiver writes precisely the announced number
/// of bytes for precisely the announced file.
#[verifier::rlimit(100)]
#[verifier::spinoff_prover]
pub proof fn lemma_image_descriptor_round_trip(name: Seq<char>, size: u64)
    requires
        spec_clean(name),
    ensures
        spec_parse_document(spec_encode_image_descriptor(name, size)) == Some(
            seq![
                ("img_name"@, FieldValueV::Text(name)),
                ("img_size"@, FieldValueV::Number(size)),
            ],
        ),
{
    reveal_strlit("{\"img_name\":\"");
    reveal_strlit("\",\"img_size\":");
    reveal_strlit("}");
    reveal_strlit("img_name");
    reveal_strlit("img_size");
    let a = "{\"img_name\":\""@;
    let b = "\",\"img_size\":"@;
    let c = "}"@;
    let digits = spec_dec_digits(size as int);
    let s = spec_encode_image_descriptor(name, size);
    let n1 = name.len() as int;
    lemma_dec_digits_are_digits(size as int);
    let l = digits.len() as int;
    let q1 = 13 + n1;
    let q2 = q1 + 13;
    assert(a.len() == 13);
    assert(b.len() == 13);
    assert(c.len() == 1);
    assert(s == a + name + b + digits + c);
    assert(s.len() == q2 + l + 1);
    assert forall|k: int| 0 <= k < 13 implies s[k] == a[k] by {}
    assert forall|k: int| 13 <= k < q1 implies s[k] == name[k - 13] by {}
    assert forall|k: int| q1 <= k < q2 implies s[k] == b[k - q1] by {}
    assert forall|k: int| q2 <= k < q2 + l implies s[k] == digits[k - q2] by {}
    assert(s[q2 + l] == c[0]);
    // the document starts at the opening brace
    assert(spec_skip_ws(s, 0) == 0);
    // first member: "img_name"
    lemma_parse_string_of_clean(s, 1, 10);
    assert(s.subrange(2, 10) =~= "img_name"@);
    assert(spec_skip_ws(s, 11) == 11);
    assert(s[11] == ':');
    assert(spec_skip_ws(s, 12) == 12);
    lemma_parse_string_of_clean(s, 12, q1);
    assert(s.subrange(13, q1) =~= name);
    assert(spec_parse_value(s, 12) == Some((FieldValueV::Text(name), q1 + 1)));
    assert(spec_skip_ws(s, q1 + 1) == q1 + 1);
    assert(s[q1 + 1] == ',');
    assert(spec_skip_ws(s, q1 + 2) == q1 + 2);
    // second member: "img_size"
    lemma_parse_string_of_clean(s, q1 + 2, q1 + 11);
    assert(s.subrange(q1 + 3, q1 + 11) =~= "img_size"@);
    assert(spec_skip_ws(s, q1 + 12) == q1 + 12);
    assert(s[q1 + 12] == ':');
    assert(spec_skip_ws(s, q2) == q2);
    // the digits parse back to the size
    assert(forall|k: int| q2 <= k < q2 + l ==> spec_digit(s[k]) is Some);
    assert(spec_digit(s[q2 + l]) is None);
    lemma_digit_end_clean(s, q2, q2 + l);
    assert(forall|k: int|
        0 <= k < l ==> s[q2 + k] == #[trigger] spec_dec_digits(size as int)[k]);
    lemma_dec_digits_value(s, q2, size as int);
    assert(spec_parse_number(s, q2) == Some((size, q2 + l)));
    assert(s[q2] != '"' && s[q2] != '{');
    assert(spec_parse_value(s, q2) == Some((FieldValueV::Number(size), q2 + l)));
    assert(spec_skip_ws(s, q2 + l) == q2 + l);
    assert(s[q2 + l] == '}');
    // fold the members back together
    assert(spec_parse_members(s, q1 + 2) == Some(
        (seq![("img_size"@, FieldValueV::Number(size))], q2 + l + 1),
    ));
    assert(spec_parse_members(s, 1) == Some(
        (
            seq![("img_name"@, FieldValueV::Text(name))] + seq![
                ("img_size"@, FieldValueV::Number(size)),
            ],
            q2 + l + 1,
        ),
    ));
    assert(s[0] == '{');
    assert(spec_skip_ws(s, 1) == 1);
    assert(spec_parse_object(s, 0) == Some(
        (
            seq![("img_name"@, FieldValueV::Text(name))] + seq![
                ("img_size"@, FieldValueV::Number(size)),
            ],
            q2 + l + 1,
        ),
    ));
    assert(spec_skip_ws(s, q2 + l + 1) == s.len());
    assert(seq![("img_name"@, FieldValueV::Text(name))] + seq![
        ("img_size"@, FieldValueV::Number(size)),
    ] =~= seq![("img_name"@, FieldValueV::Text(name)), ("img_size"@, FieldValueV::Number(size))]);
}

/// The value of the first field named `name`, if any.
pub open spec fn spec_field(
    doc: Seq<(Seq<char>, FieldValueV)>,
    name: Seq<char>,
) -> Option<FieldValueV>
    decreases doc.len(),
{
    if doc.len() == 0 {
        None
    } else if doc[0].0 == name {
        Some(doc[0].1)
    } else {
        spec_field(doc.drop_first(), name)
    }
}

/// Looks up the first field named `name`.
pub fn get_field<'a>(doc: &'a Vec<(String, FieldValue)>, name: &str) -> (r: Option<
    &'a FieldValue,
>)
    ensures
        match r {
            Some(v) => spec_field(doc.deep_view(), name@) == Some(v@),
            None => spec_field(doc.deep_view(), name@) is None,
        },
{
    let ghost dv = doc.deep_view();
    let n: usize = doc.len();
    let mut i: usize = 0;
    proof {
        assert(dv.skip(0) =~= dv);
    }
    while i < n
        invariant
            i <= n,
            n == doc@.len(),
            dv == doc.deep_view(),
            spec_field(dv, name@) == spec_field(dv.skip(i as int), name@),
        decreases n - i,
    {
        proof {
            assert(dv.skip(i as int)[0] == dv[i as int]);
        }
        if crate::text::str_eq(doc[i].0.as_str(), name) {
            return Some(&doc[i].1);
        }
        proof {
            assert(dv.skip(i as int).drop_first() =~= dv.skip(i as int + 1));
        }
        i = i + 1;
    }
    proof {
        assert(dv.skip(n as int) =~= Seq::<(Seq<char>, FieldValueV)>::empty());
    }
    None
}

} // verus!

