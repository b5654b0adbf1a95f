//! The JSON codec: a parser from character sequences to [`JsonValue`] and a
//! pretty serializer back to text, each specified by spec functions over
//! `Seq<char>` and proved against them.
//!
//! The pretty format: scalars print on the current line; a non-empty array or
//! object opens its bracket on the current line, puts every child on its own
//! line indented one step further (object children preceded by the quoted key
//! and `: `), separates children with commas, and closes the bracket on a new
//! line at the parent indent. Empty containers print as `[]` or `{}`.

use vstd::prelude::*;

use crate::json::{
    deep_elems, deep_members, depth, depth_elems, depth_members, lemma_deep_elems,
    lemma_deep_elems_push, lemma_deep_members, lemma_deep_members_push, lemma_depth_elems_bound,
    lemma_depth_members_bound, JsonSpec, JsonValue,
};
use crate::text::{char_from_u32, chars_range, chars_to_string, str_to_chars};

verus! {

broadcast use vstd::std_specs::vec::group_vec_axioms;
// ---------------------------------------------------------------------------
// Characters
// ---------------------------------------------------------------------------
/// JSON insignificant whitespace.
pub open spec fn is_ws(c: char) -> bool {
    c == ' ' || c == '\n' || c == '\t' || c == '\r'
}

/// An ASCII decimal digit.
pub open spec fn is_digit(c: char) -> bool {
    48 <= c as u32 && c as u32 <= 57
}

/// An ASCII hexadecimal digit.
pub open spec fn is_hex_digit(c: char) -> bool {
    is_digit(c) || (97 <= c as u32 && c as u32 <= 102) || (65 <= c as u32 && c as u32 <= 70)
}

/// The value of a hexadecimal digit.
pub open spec fn hex_val(c: char) -> u32 {
    if is_digit(c) {
        (c as u32 - 48) as u32
    } else if 97 <= c as u32 && c as u32 <= 102 {
        (c as u32 - 87) as u32
    } else {
        (c as u32 - 55) as u32
    }
}

/// The lower-case hexadecimal digit for `x < 16`.
pub open spec fn hex_digit(x: u32) -> char {
    if x == 0 {
        '0'
    } else if x == 1 {
        '1'
    } else if x == 2 {
        '2'
    } else if x == 3 {
        '3'
    } else if x == 4 {
        '4'
    } else if x == 5 {
        '5'
    } else if x == 6 {
        '6'
    } else if x == 7 {
        '7'
    } else if x == 8 {
        '8'
    } else if x == 9 {
        '9'
    } else if x == 10 {
        'a'
    } else if x == 11 {
        'b'
    } else if x == 12 {
        'c'
    } else if x == 13 {
        'd'
    } else if x == 14 {
        'e'
    } else {
        'f'
    }
}

/// A Unicode scalar value: a valid `char` code point.
pub open spec fn is_scalar_value(u: u32) -> bool {
    u < 0xD800 || (0xE000 <= u && u <= 0x10FFFF)
}

/// The first index at or after `i` holding a non-whitespace character.
pub open spec fn skip_ws(s: Seq<char>, i: int) -> int
    decreases s.len() - i,
{
    if 0 <= i < s.len() && is_ws(s[i]) {
        skip_ws(s, i + 1)
    } else {
        i
    }
}

pub proof fn lemma_skip_ws_bounds(s: Seq<char>, i: int)
    requires
        0 <= i <= s.len(),
    ensures
        i <= skip_ws(s, i) <= s.len(),
    decreases s.len() - i,
{
    if i < s.len() && is_ws(s[i]) {
        lemma_skip_ws_bounds(s, i + 1);
    }
}

// ---------------------------------------------------------------------------
// Number scanning
// ---------------------------------------------------------------------------
/// The end of the run of digits starting at `i`.
pub open spec fn scan_digits(s: Seq<char>, i: int) -> int
    decreases s.len() - i,
{
    if 0 <= i < s.len() && is_digit(s[i]) {
        scan_digits(s, i + 1)
    } else {
        i
    }
}

pub proof fn lemma_scan_digits_bounds(s: Seq<char>, i: int)
    requires
        0 <= i <= s.len(),
    ensures
        i <= scan_digits(s, i) <= s.len(),
    decreases s.len() - i,
{
    if i < s.len() && is_digit(s[i]) {
        lemma_scan_digits_bounds(s, i + 1);
    }
}

/// The end of the optional fraction part starting at `k`, or `None` if a
/// bare `.` is not followed by a digit.
pub open spec fn scan_frac(s: Seq<char>, k: int) -> Option<int> {
    if 0 <= k < s.len() && s[k] == '.' {
        if k + 1 < s.len() && is_digit(s[k + 1]) {
            Some(scan_digits(s, k + 1))
        } else {
            None
        }
    } else {
        Some(k)
    }
}

/// The end of the optional exponent part starting at `k`, or `None` if a
/// bare `e`/`E` is not followed by digits.
pub open spec fn scan_exp(s: Seq<char>, k: int) -> Option<int> {
    if 0 <= k < s.len() && (s[k] == 'e' || s[k] == 'E') {
        let m = if k + 1 < s.len() && (s[k + 1] == '+' || s[k + 1] == '-') {
            k + 2
        } else {
            k + 1
        };
        if m < s.len() && is_digit(s[m]) {
            Some(scan_digits(s, m))
        } else {
            None
        }
    } else {
        Some(k)
    }
}

/// The end of the JSON number starting at `i`
/// (`-? (0 | [1-9][0-9]*) frac? exp?`), or `None` if no number starts there.
pub open spec fn scan_number(s: Seq<char>, i: int) -> Option<int> {
    let j = if 0 <= i < s.len() && s[i] == '-' {
        i + 1
    } else {
        i
    };
    if 0 <= j < s.len() && is_digit(s[j]) {
        let k = if s[j] == '0' {
            j + 1
        } else {
            scan_digits(s, j)
        };
        match scan_frac(s, k) {
            Some(k2) => scan_exp(s, k2),
            None => None,
        }
    } else {
        None
    }
}

pub proof fn lemma_scan_number_bounds(s: Seq<char>, i: int)
    requires
        0 <= i <= s.len(),
    ensures
        scan_number(s, i) matches Some(j) ==> i < j <= s.len(),
{
    let j = if i < s.len() && s[i] == '-' {
        i + 1
    } else {
        i
    };
    if 0 <= j < s.len() && is_digit(s[j]) {
        lemma_scan_digits_bounds(s, j + 1);
        let k = if s[j] == '0' {
            j + 1
        } else {
            scan_digits(s, j)
        };
        assert(j < k <= s.len());
        if 0 <= k < s.len() && s[k] == '.' {
            if k + 1 < s.len() && is_digit(s[k + 1]) {
                lemma_scan_digits_bounds(s, k + 1);
            }
        }
        match scan_frac(s, k) {
            Some(k2) => {
                assert(k <= k2 <= s.len());
                if 0 <= k2 < s.len() && (s[k2] == 'e' || s[k2] == 'E') {
                    let m = if k2 + 1 < s.len() && (s[k2 + 1] == '+' || s[k2 + 1] == '-') {
                        k2 + 2
                    } else {
                        k2 + 1
                    };
                    if m < s.len() && is_digit(s[m]) {
                        lemma_scan_digits_bounds(s, m);
                    }
                }
            },
            None => {},
        }
    }
}

/// A well-formed number literal: non-empty, and the number grammar consumes
/// exactly the whole literal.
pub open spec fn wf_number(lit: Seq<char>) -> bool {
    lit.len() > 0 && scan_number(lit, 0) == Some(lit.len() as int)
}

// ---------------------------------------------------------------------------
// Parsing
// ---------------------------------------------------------------------------
/// String-body parsing, from just after the opening quote: returns the
/// decoded characters and the index just past the closing quote.
pub open spec fn parse_string_body(s: Seq<char>, i: int, acc: Seq<char>) -> Option<
    (Seq<char>, int),
>
    decreases s.len() - i,
{
    if !(0 <= i < s.len()) {
        None
    } else {
        let c = s[i];
        if c == '"' {
            Some((acc, i + 1))
        } else if c == '\\' {
            if !(i + 1 < s.len()) {
                None
            } else {
                let e = s[i + 1];
                if e == '"' {
                    parse_string_body(s, i + 2, acc.push('"'))
                } else if e == '\\' {
                    parse_string_body(s, i + 2, acc.push('\\'))
                } else if e == '/' {
                    parse_string_body(s, i + 2, acc.push('/'))
                } else if e == 'n' {
                    parse_string_body(s, i + 2, acc.push('\n'))
                } else if e == 't' {
                    parse_string_body(s, i + 2, acc.push('\t'))
                } else if e == 'r' {
                    parse_string_body(s, i + 2, acc.push('\r'))
                } else if e == 'b' {
                    parse_string_body(s, i + 2, acc.push('\u{8}'))
                } else if e == 'f' {
                    parse_string_body(s, i + 2, acc.push('\u{c}'))
                } else if e == 'u' {
                    if i + 6 <= s.len() && is_hex_digit(s[i + 2]) && is_hex_digit(s[i + 3])
                        && is_hex_digit(s[i + 4]) && is_hex_digit(s[i + 5]) {
                        let u = (((hex_val(s[i + 2]) * 4096) + (hex_val(s[i + 3]) * 256) + (hex_val(
                            s[i + 4],
                        ) * 16) + hex_val(s[i + 5])) as u32);
                        if is_scalar_value(u) {
                            parse_string_body(s, i + 6, acc.push(u as char))
                        } else {
                            None
                        }
                    } else {
                        None
                    }
                } else {
                    None
                }
            }
        } else if (c as u32) < 0x20 {
            None
        } else {
            parse_string_body(s, i + 1, acc.push(c))
        }
    }
}

pub proof fn lemma_parse_string_body_bounds(s: Seq<char>, i: int, acc: Seq<char>)
    requires
        0 <= i,
    ensures
        parse_string_body(s, i, acc) matches Some((t, j)) ==> i < j <= s.len(),
    decreases s.len() - i,
{
    if 0 <= i < s.len() {
        let c = s[i];
        if c == '\\' && i + 1 < s.len() {
            lemma_parse_string_body_bounds(s, i + 2, acc.push(' '));
            let e = s[i + 1];
            if e == '"' {
                lemma_parse_string_body_bounds(s, i + 2, acc.push('"'));
            } else if e == '\\' {
                lemma_parse_string_body_bounds(s, i + 2, acc.push('\\'));
            } else if e == '/' {
                lemma_parse_string_body_bounds(s, i + 2, acc.push('/'));
            } else if e == 'n' {
                lemma_parse_string_body_bounds(s, i + 2, acc.push('\n'));
            } else if e == 't' {
                lemma_parse_string_body_bounds(s, i + 2, acc.push('\t'));
            } else if e == 'r' {
                lemma_parse_string_body_bounds(s, i + 2, acc.push('\r'));
            } else if e == 'b' {
                lemma_parse_string_body_bounds(s, i + 2, acc.push('\u{8}'));
            } else if e == 'f' {
                lemma_parse_string_body_bounds(s, i + 2, acc.push('\u{c}'));
            } else if e == 'u' {
                if i + 6 <= s.len() && is_hex_digit(s[i + 2]) && is_hex_digit(s[i + 3])
                    && is_hex_digit(s[i + 4]) && is_hex_digit(s[i + 5]) {
                    let u = (((hex_val(s[i + 2]) * 4096) + (hex_val(s[i + 3]) * 256) + (hex_val(
                        s[i + 4],
                    ) * 16) + hex_val(s[i + 5])) as u32);
                    if is_scalar_value(u) {
                        lemma_parse_string_body_bounds(s, i + 6, acc.push(u as char));
                    }
                }
            }
        } else if c != '"' && !((c as u32) < 0x20) {
            lemma_parse_string_body_bounds(s, i + 1, acc.push(c));
        }
    }
}

/// Parse the JSON value starting at `i`, returning it with the index just
/// past its last character.
pub open spec fn parse_value(s: Seq<char>, i: int) -> Option<(JsonSpec, int)>
    decreases s.len() - i, 0nat,
{
    if !(0 <= i < s.len()) {
        None
    } else {
        let c = s[i];
        if c == 'n' {
            if i + 4 <= s.len() && s[i + 1] == 'u' && s[i + 2] == 'l' && s[i + 3] == 'l' {
                Some((JsonSpec::Null, i + 4))
            } else {
                None
            }
        } else if c == 't' {
            if i + 4 <= s.len() && s[i + 1] == 'r' && s[i + 2] == 'u' && s[i + 3] == 'e' {
                Some((JsonSpec::Bool(true), i + 4))
            } else {
                None
            }
        } else if c == 'f' {
            if i + 5 <= s.len() && s[i + 1] == 'a' && s[i + 2] == 'l' && s[i + 3] == 's' && s[i + 4]
                == 'e' {
                Some((JsonSpec::Bool(false), i + 5))
            } else {
                None
            }
        } else if c == '"' {
            match parse_string_body(s, i + 1, Seq::empty()) {
                Some((t, j)) => Some((JsonSpec::Str(t), j)),
                None => None,
            }
        } else if c == '-' || is_digit(c) {
            match scan_number(s, i) {
                Some(j) => if i < j <= s.len() {
                    Some((JsonSpec::Num(s.subrange(i, j)), j))
                } else {
                    None
                },
                None => None,
            }
        } else if c == '[' {
            let j = skip_ws(s, i + 1);
            if i + 1 <= j <= s.len() {
                if j < s.len() && s[j] == ']' {
                    Some((JsonSpec::Array(Seq::empty()), j + 1))
                } else {
                    match parse_elems(s, j, Seq::empty()) {
                        Some((es, k)) => Some((JsonSpec::Array(es), k)),
                        None => None,
                    }
                }
            } else {
                None
            }
        } else if c == '{' {
            let j = skip_ws(s, i + 1);
            if i + 1 <= j <= s.len() {
                if j < s.len() && s[j] == '}' {
                    Some((JsonSpec::Object(Seq::empty()), j + 1))
                } else {
                    match parse_members(s, j, Seq::empty()) {
                        Some((ms, k)) => Some((JsonSpec::Object(ms), k)),
                        None => None,
                    }
                }
            } else {
                None
            }
        } else {
            None
        }
    }
}

/// Parse the remaining elements of a non-empty array, `i` standing on the
/// first character of the next element.
pub open spec fn parse_elems(s: Seq<char>, i: int, acc: Seq<JsonSpec>) -> Option<
    (Seq<JsonSpec>, int),
>
    decreases s.len() - i, 1nat,
{
    match parse_value(s, i) {
        None => None,
        Some((v, j)) => {
            if !(i < j <= s.len()) {
                None
            } else {
                let k = skip_ws(s, j);
                if !(j <= k <= s.len()) {
                    None
                } else if k < s.len() && s[k] == ',' {
                    let m = skip_ws(s, k + 1);
                    if k + 1 <= m <= s.len() {
                        parse_elems(s, m, acc.push(v))
                    } else {
                        None
                    }
                } else if k < s.len() && s[k] == ']' {
                    Some((acc.push(v), k + 1))
                } else {
                    None
                }
            }
        },
    }
}

/// Parse the remaining members of a non-empty object, `i` standing on the
/// opening quote of the next key.
pub open spec fn parse_members(s: Seq<char>, i: int, acc: Seq<(Seq<char>, JsonSpec)>) -> Option<
    (Seq<(Seq<char>, JsonSpec)>, int),
>
    decreases s.len() - i, 1nat,
{
    if !(0 <= i < s.len() && s[i] == '"') {
        None
    } else {
        match parse_string_body(s, i + 1, Seq::empty()) {
            None => None,
            Some((key, j)) => {
                if !(i < j <= s.len()) {
                    None
                } else {
                    let c = skip_ws(s, j);
                    if !(j <= c <= s.len()) {
                        None
                    } else if !(c < s.len() && s[c] == ':') {
                        None
                    } else {
                        let w = skip_ws(s, c + 1);
                        if !(c + 1 <= w <= s.len()) {
                            None
                        } else {
                            match parse_value(s, w) {
                                None => None,
                                Some((v, j2)) => {
                                    if !(w < j2 <= s.len()) {
                                        None
                                    } else {
                                        let k = skip_ws(s, j2);
                                        if !(j2 <= k <= s.len()) {
                                            None
                                        } else if k < s.len() && s[k] == ',' {
                                            let m = skip_ws(s, k + 1);
                                            if k + 1 <= m <= s.len() {
                                                parse_members(s, m, acc.push((key, v)))
                                            } else {
                                                None
                                            }
                                        } else if k < s.len() && s[k] == '}' {
                                            Some((acc.push((key, v)), k + 1))
                                        } else {
                                            None
                                        }
                                    }
                                },
                            }
                        }
                    }
                }
            },
        }
    }
}

/// Parse a whole text: one JSON value, possibly surrounded by whitespace,
/// reaching exactly the end of the text.
pub open spec fn parse_text(s: Seq<char>) -> Option<JsonSpec> {
    let i = skip_ws(s, 0);
    if 0 <= i <= s.len() {
        match parse_value(s, i) {
            Some((v, j)) => if 0 <= j <= s.len() && skip_ws(s, j) == s.len() {
                Some(v)
            } else {
                None
            },
            None => None,
        }
    } else {
        None
    }
}

// ---------------------------------------------------------------------------
// Serializing
// ---------------------------------------------------------------------------
/// `n` spaces.
pub open spec fn spaces(n: nat) -> Seq<char> {
    Seq::new(n, |i: int| ' ')
}

/// How one character appears inside a serialized JSON string: quote,
/// backslash and control characters are escaped, all others stand as is.
pub open spec fn esc_char(c: char) -> Seq<char> {
    if c == '"' {
        seq!['\\', '"']
    } else if c == '\\' {
        seq!['\\', '\\']
    } else if c == '\n' {
        seq!['\\', 'n']
    } else if c == '\r' {
        seq!['\\', 'r']
    } else if c == '\t' {
        seq!['\\', 't']
    } else if (c as u32) < 0x20 {
        seq!['\\', 'u', '0', '0', hex_digit((c as u32) / 16), hex_digit((c as u32) % 16)]
    } else {
        seq![c]
    }
}

/// The escaped body of a serialized JSON string.
pub open spec fn escape(t: Seq<char>) -> Seq<char>
    decreases t.len(),
{
    if t.len() == 0 {
        Seq::empty()
    } else {
        esc_char(t[0]) + escape(t.drop_first())
    }
}

/// A serialized JSON string: the escaped body in quotes.
pub open spec fn ser_string(t: Seq<char>) -> Seq<char> {
    seq!['"'] + escape(t) + seq!['"']
}

/// The pretty-printed text of `v` when it starts on a line indented by
/// `ind` spaces, with `step` further spaces per nesting level.
pub open spec fn ser_value(v: JsonSpec, ind: nat, step: nat) -> Seq<char>
    decreases v, 0nat,
{
    match v {
        JsonSpec::Null => seq!['n', 'u', 'l', 'l'],
        JsonSpec::Bool(b) => if b {
            seq!['t', 'r', 'u', 'e']
        } else {
            seq!['f', 'a', 'l', 's', 'e']
        },
        JsonSpec::Num(l) => l,
        JsonSpec::Str(t) => ser_string(t),
        JsonSpec::Array(es) => if es.len() == 0 {
            seq!['[', ']']
        } else {
            seq!['['] + ser_elems(es, 0, ind, step) + seq!['\n'] + spaces(ind) + seq![']']
        },
        JsonSpec::Object(ms) => if ms.len() == 0 {
            seq!['{', '}']
        } else {
            seq!['{'] + ser_members(ms, 0, ind, step) + seq!['\n'] + spaces(ind) + seq!['}']
        },
    }
}

/// The serialized elements `es[i..]`: each on its own line one step deeper,
/// separated by commas.
pub open spec fn ser_elems(es: Seq<JsonSpec>, i: int, ind: nat, step: nat) -> Seq<char>
    decreases es, es.len() - i + 1,
{
    if !(0 <= i < es.len()) {
        Seq::empty()
    } else {
        seq!['\n'] + spaces((ind + step) as nat) + ser_value(es[i], (ind + step) as nat, step) + (
        if i + 1 < es.len() {
            seq![','] + ser_elems(es, i + 1, ind, step)
        } else {
            Seq::empty()
        })
    }
}

/// The serialized members `ms[i..]`: each `"key": value` on its own line one
/// step deeper, separated by commas.
pub open spec fn ser_members(ms: Seq<(Seq<char>, JsonSpec)>, i: int, ind: nat, step: nat) -> Seq<
    char,
>
    decreases ms, ms.len() - i + 1,
{
    if !(0 <= i < ms.len()) {
        Seq::empty()
    } else {
        seq!['\n'] + spaces((ind + step) as nat) + ser_string(ms[i].0) + seq![':', ' '] + ser_value(
            ms[i].1,
            (ind + step) as nat,
            step,
        ) + (if i + 1 < ms.len() {
            seq![','] + ser_members(ms, i + 1, ind, step)
        } else {
            Seq::empty()
        })
    }
}

/// Validity of a value: every number literal in it matches the JSON number
/// grammar. (The model cannot hold non-finite numbers at all.)
pub open spec fn wf(v: JsonSpec) -> bool
    decreases v, 0nat,
{
    match v {
        JsonSpec::Num(l) => wf_number(l),
        JsonSpec::Array(es) => wf_elems(es, 0),
        JsonSpec::Object(ms) => wf_members(ms, 0),
        _ => true,
    }
}

pub open spec fn wf_elems(es: Seq<JsonSpec>, i: int) -> bool
    decreases es, es.len() - i + 1,
{
    if !(0 <= i < es.len()) {
        true
    } else {
        wf(es[i]) && wf_elems(es, i + 1)
    }
}

pub open spec fn wf_members(ms: Seq<(Seq<char>, JsonSpec)>, i: int) -> bool
    decreases ms, ms.len() - i + 1,
{
    if !(0 <= i < ms.len()) {
        true
    } else {
        wf(ms[i].1) && wf_members(ms, i + 1)
    }
}

// ---------------------------------------------------------------------------
// Progress and depth of the parser
// ---------------------------------------------------------------------------
/// A parsed value ends strictly after it starts, and its nesting depth is
/// bounded by half the characters it spans.
pub proof fn lemma_parse_value_props(s: Seq<char>, i: int)
    requires
        0 <= i <= s.len(),
    ensures
        parse_value(s, i) matches Some((v, j)) ==> i < j <= s.len() && 2 * depth(v) <= j - i,
    decreases s.len() - i, 0nat,
{
    if i < s.len() {
        let c = s[i];
        if c == '"' {
            lemma_parse_string_body_bounds(s, i + 1, Seq::empty());
        } else if c == '-' || is_digit(c) {
            lemma_scan_number_bounds(s, i);
        } else if c == '[' {
            lemma_skip_ws_bounds(s, i + 1);
            let j = skip_ws(s, i + 1);
            if j < s.len() && s[j] == ']' {
            } else {
                lemma_parse_elems_props(s, j, Seq::empty());
                match parse_elems(s, j, Seq::<JsonSpec>::empty()) {
                    Some((es, k)) => {
                        assert(2 * depth_elems(es, 0) <= k - 1 - j);
                        assert(2 * depth(JsonSpec::Array(es)) == 2 + 2 * depth_elems(es, 0));
                    },
                    None => {},
                }
            }
        } else if c == '{' {
            lemma_skip_ws_bounds(s, i + 1);
            let j = skip_ws(s, i + 1);
            if j < s.len() && s[j] == '}' {
            } else {
                lemma_parse_members_props(s, j, Seq::empty());
                match parse_members(s, j, Seq::<(Seq<char>, JsonSpec)>::empty()) {
                    Some((ms, k)) => {
                        assert(2 * depth_members(ms, 0) <= k - 1 - j);
                        assert(2 * depth(JsonSpec::Object(ms)) == 2 + 2 * depth_members(ms, 0));
                    },
                    None => {},
                }
            }
        }
    }
}

/// Progress and depth for the element list: the result extends the
/// accumulator, and the new elements' depth is bounded by the span.
pub proof fn lemma_parse_elems_props(s: Seq<char>, i: int, acc: Seq<JsonSpec>)
    requires
        0 <= i <= s.len(),
    ensures
        parse_elems(s, i, acc) matches Some((es, k)) ==> i < k <= s.len() && acc.len() < es.len()
            && es.subrange(0, acc.len() as int) == acc && 2 * depth_elems(es, acc.len() as int) <= k
            - 1 - i,
    decreases s.len() - i, 1nat,
{
    lemma_parse_value_props(s, i);
    match parse_value(s, i) {
        None => {},
        Some((v, j)) => {
            let k = skip_ws(s, j);
            lemma_skip_ws_bounds(s, j);
            if k < s.len() && s[k] == ',' {
                let m = skip_ws(s, k + 1);
                lemma_skip_ws_bounds(s, k + 1);
                lemma_parse_elems_props(s, m, acc.push(v));
                match parse_elems(s, m, acc.push(v)) {
                    Some((es, kf)) => {
                        let n = acc.len() as int;
                        assert(es.subrange(0, n + 1) == acc.push(v));
                        assert(es.subrange(0, n) =~= acc) by {
                            assert(forall|x: int|
                                0 <= x < n ==> es.subrange(0, n + 1)[x] == acc.push(v)[x]);
                        }
                        assert(es[n] == es.subrange(0, n + 1)[n]);
                        assert(es[n] == v);
                        assert(2 * depth_elems(es, n + 1) <= kf - 1 - m);
                        assert(depth_elems(es, n) == if depth(es[n]) >= depth_elems(es, n + 1) {
                            depth(es[n])
                        } else {
                            depth_elems(es, n + 1)
                        });
                        assert(2 * depth(v) <= j - i);
                    },
                    None => {},
                }
            } else if k < s.len() && s[k] == ']' {
                let n = acc.len() as int;
                let es = acc.push(v);
                assert(es.subrange(0, n) =~= acc);
                assert(es[n] == v);
                assert(depth_elems(es, n + 1) == 0);
                assert(depth_elems(es, n) == if depth(es[n]) >= depth_elems(es, n + 1) {
                    depth(es[n])
                } else {
                    depth_elems(es, n + 1)
                });
                assert(2 * depth(v) <= j - i);
            }
        },
    }
}

/// Progress and depth for the member list.
pub proof fn lemma_parse_members_props(s: Seq<char>, i: int, acc: Seq<(Seq<char>, JsonSpec)>)
    requires
        0 <= i <= s.len(),
    ensures
        parse_members(s, i, acc) matches Some((ms, k)) ==> i < k <= s.len() && acc.len() < ms.len()
            && ms.subrange(0, acc.len() as int) == acc && 2 * depth_members(
            ms,
            acc.len() as int,
        ) <= k - 1 - i,
    decreases s.len() - i, 1nat,
{
    if 0 <= i < s.len() && s[i] == '"' {
        lemma_parse_string_body_bounds(s, i + 1, Seq::empty());
        match parse_string_body(s, i + 1, Seq::<char>::empty()) {
            None => {},
            Some((key, j)) => {
                let c = skip_ws(s, j);
                lemma_skip_ws_bounds(s, j);
                if j <= c <= s.len() && c < s.len() && s[c] == ':' {
                    let w = skip_ws(s, c + 1);
                    lemma_skip_ws_bounds(s, c + 1);
                    lemma_parse_value_props(s, w);
                    match parse_value(s, w) {
                        None => {},
                        Some((v, j2)) => {
                            let k = skip_ws(s, j2);
                            lemma_skip_ws_bounds(s, j2);
                            if k < s.len() && s[k] == ',' {
                                let m = skip_ws(s, k + 1);
                                lemma_skip_ws_bounds(s, k + 1);
                                lemma_parse_members_props(s, m, acc.push((key, v)));
                                match parse_members(s, m, acc.push((key, v))) {
                                    Some((ms, kf)) => {
                                        let n = acc.len() as int;
                                        assert(ms.subrange(0, n + 1) == acc.push((key, v)));
                                        assert(ms.subrange(0, n) =~= acc) by {
                                            assert(forall|x: int|
                                                0 <= x < n ==> ms.subrange(0, n + 1)[x] == acc.push(
                                                    (key, v),
                                                )[x]);
                                        }
                                        assert(ms[n] == ms.subrange(0, n + 1)[n]);
                                        assert(ms[n] == (key, v));
                                        assert(2 * depth_members(ms, n + 1) <= kf - 1 - m);
                                        assert(depth_members(ms, n) == if depth(ms[n].1)
                                            >= depth_members(ms, n + 1) {
                                            depth(ms[n].1)
                                        } else {
                                            depth_members(ms, n + 1)
                                        });
                                        assert(2 * depth(v) <= j2 - w);
                                    },
                                    None => {},
                                }
                            } else if k < s.len() && s[k] == '}' {
                                let n = acc.len() as int;
                                let ms = acc.push((key, v));
                                assert(ms.subrange(0, n) =~= acc);
                                assert(ms[n] == (key, v));
                                assert(depth_members(ms, n + 1) == 0);
                                assert(depth_members(ms, n) == if depth(ms[n].1) >= depth_members(
                                    ms,
                                    n + 1,
                                ) {
                                    depth(ms[n].1)
                                } else {
                                    depth_members(ms, n + 1)
                                });
                                assert(2 * depth(v) <= j2 - w);
                            }
                        },
                    }
                }
            },
        }
    }
}

/// A value parsed from a whole text nests at most half as deep as the text
/// is long.
pub proof fn lemma_parse_text_depth(s: Seq<char>)
    ensures
        parse_text(s) matches Some(v) ==> 2 * depth(v) <= s.len(),
{
    lemma_skip_ws_bounds(s, 0);
    let i = skip_ws(s, 0);
    lemma_parse_value_props(s, i);
}

// ---------------------------------------------------------------------------
// The executable parser
// ---------------------------------------------------------------------------
fn is_ws_exec(c: char) -> (r: bool)
    ensures
        r == is_ws(c),
{
    c == ' ' || c == '\n' || c == '\t' || c == '\r'
}

fn is_digit_exec(c: char) -> (r: bool)
    ensures
        r == is_digit(c),
{
    let u = c as u32;
    48 <= u && u <= 57
}

fn is_hex_digit_exec(c: char) -> (r: bool)
    ensures
        r == is_hex_digit(c),
{
    let u = c as u32;
    (48 <= u && u <= 57) || (97 <= u && u <= 102) || (65 <= u && u <= 70)
}

fn hex_val_exec(c: char) -> (r: u32)
    requires
        is_hex_digit(c),
    ensures
        r == hex_val(c),
        r < 16,
{
    let u = c as u32;
    if 48 <= u && u <= 57 {
        u - 48
    } else if 97 <= u && u <= 102 {
        u - 87
    } else {
        u - 55
    }
}

fn skip_ws_exec(s: &Vec<char>, i: usize) -> (r: usize)
    requires
        i <= s@.len(),
    ensures
        r == skip_ws(s@, i as int),
        i <= r <= s@.len(),
{
    let mut cur = i;
    while cur < s.len() && is_ws_exec(s[cur])
        invariant
            i <= cur <= s@.len(),
            skip_ws(s@, i as int) == skip_ws(s@, cur as int),
        decreases s@.len() - cur,
    {
        cur = cur + 1;
    }
    cur
}

fn scan_digits_exec(s: &Vec<char>, i: usize) -> (r: usize)
    requires
        i <= s@.len(),
    ensures
        r == scan_digits(s@, i as int),
        i <= r <= s@.len(),
{
    let mut cur = i;
    while cur < s.len() && is_digit_exec(s[cur])
        invariant
            i <= cur <= s@.len(),
            scan_digits(s@, i as int) == scan_digits(s@, cur as int),
        decreases s@.len() - cur,
    {
        cur = cur + 1;
    }
    cur
}

fn scan_number_exec(s: &Vec<char>, i: usize) -> (r: Option<usize>)
    requires
        i <= s@.len(),
    ensures
        r matches Some(j) ==> scan_number(s@, i as int) == Some(j as int) && i < j <= s@.len(),
        r is None ==> scan_number(s@, i as int) is None,
{
    let j = if i < s.len() && s[i] == '-' {
        i + 1
    } else {
        i
    };
    if !(j < s.len() && is_digit_exec(s[j])) {
        return None;
    }
    let k = if s[j] == '0' {
        j + 1
    } else {
        scan_digits_exec(s, j)
    };
    proof {
        lemma_scan_digits_bounds(s@, j + 1);
    }
    let k2 = if k < s.len() && s[k] == '.' {
        if k + 1 < s.len() && is_digit_exec(s[k + 1]) {
            scan_digits_exec(s, k + 1)
        } else {
            return None;
        }
    } else {
        k
    };
    proof {
        assert(scan_frac(s@, k as int) == Some(k2 as int));
    }
    if k2 < s.len() && (s[k2] == 'e' || s[k2] == 'E') {
        let m = if k2 + 1 < s.len() && (s[k2 + 1] == '+' || s[k2 + 1] == '-') {
            k2 + 2
        } else {
            k2 + 1
        };
        if m < s.len() && is_digit_exec(s[m]) {
            let e = scan_digits_exec(s, m);
            Some(e)
        } else {
            None
        }
    } else {
        Some(k2)
    }
}

fn parse_string_body_exec(s: &Vec<char>, start: usize) -> (r: Option<(Vec<char>, usize)>)
    requires
        start <= s@.len(),
    ensures
        r matches Some(p) ==> parse_string_body(s@, start as int, Seq::empty()) == Some(
            (p.0@, p.1 as int),
        ) && start < p.1 <= s@.len(),
        r is None ==> parse_string_body(s@, start as int, Seq::empty()) is None,
{
    let mut acc: Vec<char> = Vec::new();
    let mut cur = start;
    proof {
        assert(acc@ =~= Seq::<char>::empty());
    }
    loop
        invariant
            start <= cur <= s@.len(),
            parse_string_body(s@, start as int, Seq::empty()) == parse_string_body(
                s@,
                cur as int,
                acc@,
            ),
        decreases s@.len() - cur,
    {
        if cur >= s.len() {
            return None;
        }
        let c = s[cur];
        if c == '"' {
            let end = cur + 1;
            return Some((acc, end));
        } else if c == '\\' {
            if s.len() - cur < 2 {
                return None;
            }
            let e = s[cur + 1];
            if e == '"' {
                acc.push('"');
            } else if e == '\\' {
                acc.push('\\');
            } else if e == '/' {
                acc.push('/');
            } else if e == 'n' {
                acc.push('\n');
            } else if e == 't' {
                acc.push('\t');
            } else if e == 'r' {
                acc.push('\r');
            } else if e == 'b' {
                acc.push('\u{8}');
            } else if e == 'f' {
                acc.push('\u{c}');
            } else if e == 'u' {
                if s.len() - cur < 6 {
                    return None;
                }
                if !(is_hex_digit_exec(s[cur + 2]) && is_hex_digit_exec(s[cur + 3])
                    && is_hex_digit_exec(s[cur + 4]) && is_hex_digit_exec(s[cur + 5])) {
                    return None;
                }
                let u: u32 = hex_val_exec(s[cur + 2]) * 4096 + hex_val_exec(s[cur + 3]) * 256
                    + hex_val_exec(s[cur + 4]) * 16 + hex_val_exec(s[cur + 5]);
                if !(u < 0xD800 || (0xE000 <= u && u <= 0x10FFFF)) {
                    return None;
                }
                match char_from_u32(u) {
                    Some(c2) => {
                        proof {
                            vstd::utf8::char_u32_cast(c2, u);
                        }
                        acc.push(c2);
                        cur = cur + 6;
                    },
                    None => {
                        return None;
                    },
                }
                continue ;
            } else {
                return None;
            }
            cur = cur + 2;
        } else if (c as u32) < 0x20 {
            return None;
        } else {
            acc.push(c);
            cur = cur + 1;
        }
    }
}

/// Parse the JSON value starting at `i`; `Some` carries the value and the
/// index just past it, matching [`parse_value`] exactly.
fn parse_value_exec(s: &Vec<char>, i: usize) -> (r: Option<(JsonValue, usize)>)
    requires
        i <= s@.len(),
    ensures
        r matches Some(p) ==> parse_value(s@, i as int) == Some((p.0.deep(), p.1 as int)) && i < p.1
            <= s@.len(),
        r is None ==> parse_value(s@, i as int) is None,
    decreases s@.len() - i,
{
    if i >= s.len() {
        return None;
    }
    let c = s[i];
    if c == 'n' {
        if s.len() - i >= 4 && s[i + 1] == 'u' && s[i + 2] == 'l' && s[i + 3] == 'l' {
            Some((JsonValue::Null, i + 4))
        } else {
            None
        }
    } else if c == 't' {
        if s.len() - i >= 4 && s[i + 1] == 'r' && s[i + 2] == 'u' && s[i + 3] == 'e' {
            Some((JsonValue::Bool(true), i + 4))
        } else {
            None
        }
    } else if c == 'f' {
        if s.len() - i >= 5 && s[i + 1] == 'a' && s[i + 2] == 'l' && s[i + 3] == 's' && s[i + 4]
            == 'e' {
            Some((JsonValue::Bool(false), i + 5))
        } else {
            None
        }
    } else if c == '"' {
        match parse_string_body_exec(s, i + 1) {
            Some((t, j)) => Some((JsonValue::Str(t), j)),
            None => None,
        }
    } else if c == '-' || is_digit_exec(c) {
        match scan_number_exec(s, i) {
            Some(j) => {
                let lit = chars_range(s, i, j);
                Some((JsonValue::Num(lit), j))
            },
            None => None,
        }
    } else if c == '[' {
        let j0 = skip_ws_exec(s, i + 1);
        if j0 < s.len() && s[j0] == ']' {
            let empty: Vec<JsonValue> = Vec::new();
            proof {
                assert(deep_elems(empty@, 0) =~= Seq::<JsonSpec>::empty());
            }
            return Some((JsonValue::Array(empty), j0 + 1));
        }
        let mut acc: Vec<JsonValue> = Vec::new();
        let mut cur = j0;
        proof {
            assert(deep_elems(acc@, 0) =~= Seq::<JsonSpec>::empty());
        }
        loop
            invariant
                i < s@.len(),
                s@[i as int] == '[',
                i + 1 <= j0 <= s@.len(),
                j0 == skip_ws(s@, i + 1),
                !(j0 < s@.len() && s@[j0 as int] == ']'),
                i < cur <= s@.len(),
                parse_elems(s@, j0 as int, Seq::empty()) == parse_elems(
                    s@,
                    cur as int,
                    deep_elems(acc@, 0),
                ),
            decreases s@.len() - cur,
        {
            let ghost acc0 = deep_elems(acc@, 0);
            match parse_value_exec(s, cur) {
                None => {
                    return None;
                },
                Some((v, j2)) => {
                    let k = skip_ws_exec(s, j2);
                    if k < s.len() && s[k] == ',' {
                        let m = skip_ws_exec(s, k + 1);
                        proof {
                            lemma_deep_elems_push(acc@, v);
                        }
                        acc.push(v);
                        cur = m;
                    } else if k < s.len() && s[k] == ']' {
                        proof {
                            lemma_deep_elems_push(acc@, v);
                        }
                        acc.push(v);
                        proof {
                            assert(parse_elems(s@, cur as int, acc0) == Some(
                                (deep_elems(acc@, 0), k + 1 as int),
                            ));
                        }
                        return Some((JsonValue::Array(acc), k + 1));
                    } else {
                        return None;
                    }
                },
            }
        }
    } else if c == '{' {
        let j0 = skip_ws_exec(s, i + 1);
        if j0 < s.len() && s[j0] == '}' {
            let empty: Vec<(Vec<char>, JsonValue)> = Vec::new();
            proof {
                assert(deep_members(empty@, 0) =~= Seq::<(Seq<char>, JsonSpec)>::empty());
            }
            return Some((JsonValue::Object(empty), j0 + 1));
        }
        let mut acc: Vec<(Vec<char>, JsonValue)> = Vec::new();
        let mut cur = j0;
        proof {
            assert(deep_members(acc@, 0) =~= Seq::<(Seq<char>, JsonSpec)>::empty());
        }
        loop
            invariant
                i < s@.len(),
                s@[i as int] == '{',
                i + 1 <= j0 <= s@.len(),
                j0 == skip_ws(s@, i + 1),
                !(j0 < s@.len() && s@[j0 as int] == '}'),
                i < cur <= s@.len(),
                parse_members(s@, j0 as int, Seq::empty()) == parse_members(
                    s@,
                    cur as int,
                    deep_members(acc@, 0),
                ),
            decreases s@.len() - cur,
        {
            let ghost acc0 = deep_members(acc@, 0);
            if !(cur < s.len() && s[cur] == '"') {
                return None;
            }
            match parse_string_body_exec(s, cur + 1) {
                None => {
                    return None;
                },
                Some((key, j)) => {
                    let cl = skip_ws_exec(s, j);
                    if !(cl < s.len() && s[cl] == ':') {
                        return None;
                    }
                    let w = skip_ws_exec(s, cl + 1);
                    match parse_value_exec(s, w) {
                        None => {
                            return None;
                        },
                        Some((v, j2)) => {
                            let k = skip_ws_exec(s, j2);
                            if k < s.len() && s[k] == ',' {
                                let m = skip_ws_exec(s, k + 1);
                                proof {
                                    lemma_deep_members_push(acc@, key, v);
                                }
                                acc.push((key, v));
                                cur = m;
                            } else if k < s.len() && s[k] == '}' {
                                proof {
                                    lemma_deep_members_push(acc@, key, v);
                                }
                                acc.push((key, v));
                                proof {
                                    assert(parse_members(s@, cur as int, acc0) == Some(
                                        (deep_members(acc@, 0), k + 1 as int),
                                    ));
                                }
                                return Some((JsonValue::Object(acc), k + 1));
                            } else {
                                return None;
                            }
                        },
                    }
                },
            }
        }
    } else {
        None
    }
}

/// Parse a whole text as one JSON value, allowing surrounding whitespace.
/// Succeeds exactly when [`parse_text`] does, and returns exactly its value.
pub fn parse_json(s: &Vec<char>) -> (r: Option<JsonValue>)
    ensures
        r matches Some(v) ==> parse_text(s@) == Some(v.deep()) && 2 * depth(v.deep()) <= s@.len(),
        r is None ==> parse_text(s@) is None,
{
    let i = skip_ws_exec(s, 0);
    match parse_value_exec(s, i) {
        None => None,
        Some((v, j)) => {
            let e = skip_ws_exec(s, j);
            if e == s.len() {
                proof {
                    lemma_parse_text_depth(s@);
                }
                Some(v)
            } else {
                None
            }
        },
    }
}

// ---------------------------------------------------------------------------
// The executable serializer
// ---------------------------------------------------------------------------
fn spaces_into(out: &mut Vec<char>, n: usize)
    ensures
        final(out)@ == old(out)@ + spaces(n as nat),
{
    let mut i: usize = 0;
    proof {
        assert(out@ =~= old(out)@ + spaces(0nat));
    }
    while i < n
        invariant
            i <= n,
            out@ == old(out)@ + spaces(i as nat),
        decreases n - i,
    {
        out.push(' ');
        proof {
            assert(old(out)@ + spaces((i + 1) as nat) =~= (old(out)@ + spaces(i as nat)).push(' '));
        }
        i = i + 1;
    }
}

fn hex_digit_exec(x: u32) -> (r: char)
    requires
        x < 16,
    ensures
        r == hex_digit(x),
{
    if x == 0 {
        '0'
    } else if x == 1 {
        '1'
    } else if x == 2 {
        '2'
    } else if x == 3 {
        '3'
    } else if x == 4 {
        '4'
    } else if x == 5 {
        '5'
    } else if x == 6 {
        '6'
    } else if x == 7 {
        '7'
    } else if x == 8 {
        '8'
    } else if x == 9 {
        '9'
    } else if x == 10 {
        'a'
    } else if x == 11 {
        'b'
    } else if x == 12 {
        'c'
    } else if x == 13 {
        'd'
    } else if x == 14 {
        'e'
    } else {
        'f'
    }
}

fn escape_into(out: &mut Vec<char>, t: &Vec<char>)
    ensures
        final(out)@ == old(out)@ + escape(t@),
{
    let mut i: usize = 0;
    proof {
        assert(t@.subrange(0, t@.len() as int) =~= t@);
    }
    while i < t.len()
        invariant
            i <= t@.len(),
            out@ + escape(t@.subrange(i as int, t@.len() as int)) == old(out)@ + escape(t@),
        decreases t@.len() - i,
    {
        let ghost rem = t@.subrange(i as int, t@.len() as int);
        let ghost rem2 = t@.subrange(i + 1 as int, t@.len() as int);
        let ghost out_prev = out@;
        proof {
            assert(rem.len() > 0);
            assert(rem[0] == t@[i as int]);
            assert(rem.drop_first() =~= rem2);
            assert(escape(rem) == esc_char(t@[i as int]) + escape(rem2));
        }
        let c = t[i];
        let u = c as u32;
        if c == '"' {
            out.push('\\');
            out.push('"');
        } else if c == '\\' {
            out.push('\\');
            out.push('\\');
        } else if c == '\n' {
            out.push('\\');
            out.push('n');
        } else if c == '\r' {
            out.push('\\');
            out.push('r');
        } else if c == '\t' {
            out.push('\\');
            out.push('t');
        } else if u < 0x20 {
            out.push('\\');
            out.push('u');
            out.push('0');
            out.push('0');
            out.push(hex_digit_exec(u / 16));
            out.push(hex_digit_exec(u % 16));
        } else {
            out.push(c);
        }
        proof {
            assert(out@ =~= out_prev + esc_char(t@[i as int]));
            assert(out@ + escape(rem2) =~= out_prev + escape(rem));
        }
        i = i + 1;
    }
    proof {
        assert(t@.subrange(t@.len() as int, t@.len() as int) =~= Seq::<char>::empty());
        assert(out@ + escape(Seq::<char>::empty()) =~= out@);
    }
}

/// Append the pretty-printed text of `v`, as a value starting on a line
/// already indented by `ind` spaces, to `out`.
#[verifier::loop_isolation(false)]
#[verifier::rlimit(100)]
fn ser_into(v: &JsonValue, ind: usize, step: usize, out: &mut Vec<char>)
    requires
        ind + depth(v.deep()) * step <= usize::MAX,
    ensures
        final(out)@ == old(out)@ + ser_value(v.deep(), ind as nat, step as nat),
    decreases v,
{
    match v {
        JsonValue::Null => {
            out.push('n');
            out.push('u');
            out.push('l');
            out.push('l');
            proof {
                assert(out@ =~= old(out)@ + ser_value(v.deep(), ind as nat, step as nat));
            }
        },
        JsonValue::Bool(b) => {
            if *b {
                out.push('t');
                out.push('r');
                out.push('u');
                out.push('e');
            } else {
                out.push('f');
                out.push('a');
                out.push('l');
                out.push('s');
                out.push('e');
            }
            proof {
                assert(out@ =~= old(out)@ + ser_value(v.deep(), ind as nat, step as nat));
            }
        },
        JsonValue::Num(l) => {
            crate::text::append_chars(out, l);
        },
        JsonValue::Str(t) => {
            out.push('"');
            escape_into(out, t);
            out.push('"');
            proof {
                assert(out@ =~= old(out)@ + ser_string(t@));
            }
        },
        JsonValue::Array(elems) => {
            let ghost es = deep_elems(elems@, 0);
            proof {
                lemma_deep_elems(elems@, 0);
            }
            out.push('[');
            if elems.len() == 0 {
                out.push(']');
                proof {
                    assert(es =~= Seq::<JsonSpec>::empty());
                    assert(out@ =~= old(out)@ + ser_value(v.deep(), ind as nat, step as nat));
                }
            } else {
                proof {
                    assert(depth(v.deep()) == 1 + depth_elems(es, 0));
                    assert((1 + depth_elems(es, 0)) * step == step + depth_elems(es, 0) * step)
                        by (nonlinear_arith);
                }
                let ind2 = ind + step;
                let mut idx: usize = 0;
                proof {
                    assert(out@ + ser_elems(es, 0, ind as nat, step as nat) =~= old(out)@ + seq![
                        '[',
                    ] + ser_elems(es, 0, ind as nat, step as nat));
                }
                while idx < elems.len()
                    invariant
                        0 < elems@.len(),
                        idx <= elems@.len(),
                        es == deep_elems(elems@, 0),
                        es.len() == elems@.len(),
                        forall|k: int| 0 <= k < elems@.len() ==> es[k] == #[trigger] elems@[k].deep(),
                        ind + step == ind2,
                        ind2 + depth_elems(es, 0) * step <= usize::MAX,
                        out@ + ser_elems(es, idx as int, ind as nat, step as nat) == old(out)@
                            + seq!['['] + ser_elems(es, 0, ind as nat, step as nat),
                    decreases elems@.len() - idx,
                {
                    let ghost out_prev = out@;
                    out.push('\n');
                    spaces_into(out, ind2);
                    proof {
                        lemma_depth_elems_bound(es, 0, idx as int);
                        assert(depth(es[idx as int]) * step <= depth_elems(es, 0) * step)
                            by (nonlinear_arith)
                            requires
                                depth(es[idx as int]) <= depth_elems(es, 0),
                        ;
                        assert(es[idx as int] == elems@[idx as int].deep());
                        assert(decreases_to!(*v => *elems));
                        assert(decreases_to!(*elems => elems@[idx as int]));
                    }
                    ser_into(&elems[idx], ind2, step, out);
                    if idx + 1 < elems.len() {
                        out.push(',');
                    }
                    proof {
                        assert(out@ + ser_elems(es, idx + 1, ind as nat, step as nat) =~= out_prev
                            + ser_elems(es, idx as int, ind as nat, step as nat));
                    }
                    idx = idx + 1;
                }
                let ghost out_mid = out@;
                out.push('\n');
                spaces_into(out, ind);
                out.push(']');
                proof {
                    assert(ser_elems(es, elems@.len() as int, ind as nat, step as nat)
                        =~= Seq::<char>::empty());
                    assert(out_mid =~= old(out)@ + seq!['['] + ser_elems(
                        es,
                        0,
                        ind as nat,
                        step as nat,
                    ));
                    assert(out@ =~= old(out)@ + ser_value(v.deep(), ind as nat, step as nat));
                }
            }
        },
        JsonValue::Object(members) => {
            let ghost ms = deep_members(members@, 0);
            proof {
                lemma_deep_members(members@, 0);
            }
            out.push('{');
            if members.len() == 0 {
                out.push('}');
                proof {
                    assert(ms =~= Seq::<(Seq<char>, JsonSpec)>::empty());
                    assert(out@ =~= old(out)@ + ser_value(v.deep(), ind as nat, step as nat));
                }
            } else {
                proof {
                    assert(depth(v.deep()) == 1 + depth_members(ms, 0));
                    assert((1 + depth_members(ms, 0)) * step == step + depth_members(ms, 0) * step)
                        by (nonlinear_arith);
                }
                let ind2 = ind + step;
                let mut idx: usize = 0;
                proof {
                    assert(out@ + ser_members(ms, 0, ind as nat, step as nat) =~= old(out)@ + seq![
                        '{',
                    ] + ser_members(ms, 0, ind as nat, step as nat));
                }
                while idx < members.len()
                    invariant
                        0 < members@.len(),
                        idx <= members@.len(),
                        ms == deep_members(members@, 0),
                        ms.len() == members@.len(),
                        forall|k: int|
                            0 <= k < members@.len() ==> ms[k] == (
                            #[trigger] members@[k].0@,
                            members@[k].1.deep(),
                            ),
                        ind + step == ind2,
                        ind2 + depth_members(ms, 0) * step <= usize::MAX,
                        out@ + ser_members(ms, idx as int, ind as nat, step as nat) == old(out)@
                            + seq!['{'] + ser_members(ms, 0, ind as nat, step as nat),
                    decreases members@.len() - idx,
                {
                    let ghost out_prev = out@;
                    out.push('\n');
                    spaces_into(out, ind2);
                    let m = &members[idx];
                    out.push('"');
                    escape_into(out, &m.0);
                    out.push('"');
                    out.push(':');
                    out.push(' ');
                    proof {
                        lemma_depth_members_bound(ms, 0, idx as int);
                        assert(depth(ms[idx as int].1) * step <= depth_members(ms, 0) * step)
                            by (nonlinear_arith)
                            requires
                                depth(ms[idx as int].1) <= depth_members(ms, 0),
                        ;
                        assert(ms[idx as int] == (members@[idx as int].0@, members@[
                            idx as int].1.deep()));
                        assert(decreases_to!(*v => *members));
                        assert(decreases_to!(*members => members@[idx as int]));
                        assert(decreases_to!(members@[idx as int] => members@[idx as int].1));
                    }
                    ser_into(&m.1, ind2, step, out);
                    if idx + 1 < members.len() {
                        out.push(',');
                    }
                    proof {
                        assert(out@ + ser_members(ms, idx + 1, ind as nat, step as nat)
                            =~= out_prev + ser_members(ms, idx as int, ind as nat, step as nat));
                    }
                    idx = idx + 1;
                }
                let ghost out_mid = out@;
                out.push('\n');
                spaces_into(out, ind);
                out.push('}');
                proof {
                    assert(ser_members(ms, members@.len() as int, ind as nat, step as nat)
                        =~= Seq::<char>::empty());
                    assert(out_mid =~= old(out)@ + seq!['{'] + ser_members(
                        ms,
                        0,
                        ind as nat,
                        step as nat,
                    ));
                    assert(out@ =~= old(out)@ + ser_value(v.deep(), ind as nat, step as nat));
                }
            }
        },
    }
}

/// The pretty-printed text of `v` with the given indent step.
pub fn serialize_pretty(v: &JsonValue, step: usize) -> (r: Vec<char>)
    requires
        depth(v.deep()) * step <= usize::MAX,
    ensures
        r@ == ser_value(v.deep(), 0, step as nat),
{
    let mut out: Vec<char> = Vec::new();
    ser_into(v, 0, step, &mut out);
    proof {
        assert(out@ =~= ser_value(v.deep(), 0, step as nat));
    }
    out
}

/// Parse `json` and, when it is a single valid JSON value, hand back its
/// pretty-printed form with a two-space indent step; `None` otherwise.
pub fn pretty_json(json: &String) -> (r: Option<String>)
    ensures
        r matches Some(p) ==> parse_text(json@) matches Some(v) && p@ == ser_value(v, 0, 2),
        r is None ==> parse_text(json@) is None,
{
    let chars = str_to_chars(json.as_str());
    match parse_json(&chars) {
        Some(v) => {
            proof {
                assert(depth(v.deep()) * 2 <= chars@.len());
            }
            let out = serialize_pretty(&v, 2);
            Some(chars_to_string(&out))
        },
        None => None,
    }
}

} // verus!
