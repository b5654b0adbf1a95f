//! The codec round-trip law: parsing the pretty-printed text of a valid
//! value gives back exactly that value.

use vstd::prelude::*;

use crate::codec::{
    esc_char, escape, hex_digit, hex_val, is_digit, is_hex_digit, is_scalar_value, is_ws,
    lemma_scan_digits_bounds, parse_elems, parse_members, parse_string_body, parse_text,
    parse_value, scan_digits, scan_exp, scan_frac, scan_number, ser_elems, ser_members, ser_string,
    ser_value, skip_ws, spaces, wf, wf_elems, wf_members, wf_number,
};
use crate::json::JsonSpec;

verus! {

/// A character that could extend a number literal.
pub open spec fn num_cont(c: char) -> bool {
    is_digit(c) || c == '.' || c == 'e' || c == 'E' || c == '+' || c == '-'
}

/// A character that can start a JSON value.
pub open spec fn value_start(c: char) -> bool {
    c == 'n' || c == 't' || c == 'f' || c == '"' || c == '-' || is_digit(c) || c == '[' || c == '{'
}

/// `pat` occurs in `s` at offset `off`.
pub open spec fn embeds(s: Seq<char>, off: int, pat: Seq<char>) -> bool {
    0 <= off && off + pat.len() <= s.len() && s.subrange(off, off + pat.len()) == pat
}

proof fn lemma_embeds_char(s: Seq<char>, off: int, pat: Seq<char>, k: int)
    requires
        embeds(s, off, pat),
        0 <= k < pat.len(),
    ensures
        s[off + k] == pat[k],
{
    assert(s.subrange(off, off + pat.len())[k] == pat[k]);
}

proof fn lemma_embeds_split(s: Seq<char>, off: int, a: Seq<char>, b: Seq<char>)
    requires
        embeds(s, off, a + b),
    ensures
        embeds(s, off, a),
        embeds(s, off + a.len(), b),
{
    assert forall|k: int| 0 <= k < a.len() implies s.subrange(off, off + a.len())[k] == a[k] by {
        lemma_embeds_char(s, off, a + b, k);
        assert((a + b)[k] == a[k]);
    }
    assert(s.subrange(off, off + a.len()) =~= a);
    assert forall|k: int|
        0 <= k < b.len() implies s.subrange(off + a.len(), off + a.len() + b.len())[k] == b[k] by {
        lemma_embeds_char(s, off, a + b, a.len() + k);
        assert((a + b)[a.len() + k] == b[k]);
    }
    assert(s.subrange(off + a.len(), off + a.len() + b.len()) =~= b);
}

/// `skip_ws` runs from `a` exactly to `b` when everything between is
/// whitespace and `b` is the end or holds something else.
proof fn lemma_skip_ws_to(s: Seq<char>, a: int, b: int)
    requires
        0 <= a <= b <= s.len(),
        forall|k: int| a <= k < b ==> is_ws(#[trigger] s[k]),
        b == s.len() || !is_ws(s[b]),
    ensures
        skip_ws(s, a) == b,
    decreases b - a,
{
    if a < b {
        lemma_skip_ws_to(s, a + 1, b);
    }
}

/// Scanning digits in `s` mirrors scanning them in an embedded literal.
proof fn lemma_scan_digits_embed(lit: Seq<char>, s: Seq<char>, off: int, i: int)
    requires
        embeds(s, off, lit),
        0 <= i <= lit.len(),
        off + lit.len() == s.len() || !is_digit(s[off + lit.len()]),
    ensures
        scan_digits(s, off + i) == off + scan_digits(lit, i),
    decreases lit.len() - i,
{
    lemma_scan_digits_bounds(lit, i);
    if i < lit.len() {
        lemma_embeds_char(s, off, lit, i);
        if is_digit(lit[i]) {
            lemma_scan_digits_embed(lit, s, off, i + 1);
        }
    }
}

/// Scanning an embedded well-formed number literal consumes exactly the
/// literal, provided the next character cannot extend a number.
proof fn lemma_scan_number_embed(lit: Seq<char>, s: Seq<char>, off: int)
    requires
        embeds(s, off, lit),
        wf_number(lit),
        off + lit.len() == s.len() || !num_cont(s[off + lit.len()]),
    ensures
        scan_number(s, off) == Some(off + lit.len()),
{
    let end = off + lit.len();
    let ll = lit.len() as int;
    lemma_embeds_char(s, off, lit, 0);
    let jl = if lit[0] == '-' {
        1int
    } else {
        0int
    };
    // the sign position matches
    assert(scan_number(lit, 0) == Some(ll));
    let j = off + jl;
    // a digit must follow the sign, or the literal would not scan
    assert(0 <= jl < ll && is_digit(lit[jl]));
    lemma_embeds_char(s, off, lit, jl);
    let kl = if lit[jl] == '0' {
        jl + 1
    } else {
        scan_digits(lit, jl)
    };
    lemma_scan_digits_bounds(lit, jl + 1);
    if lit[jl] != '0' {
        lemma_scan_digits_embed(lit, s, off, jl);
    }
    assert(jl < kl <= ll);
    let k = off + kl;
    assert((if s[j] == '0' {
        j + 1
    } else {
        scan_digits(s, j)
    }) == k);
    // the fraction part matches
    assert(scan_frac(lit, kl) is Some);
    let k2l = scan_frac(lit, kl)->0;
    if kl < ll && lit[kl] == '.' {
        lemma_embeds_char(s, off, lit, kl);
        assert(kl + 1 < ll && is_digit(lit[kl + 1]));
        lemma_embeds_char(s, off, lit, kl + 1);
        lemma_scan_digits_embed(lit, s, off, kl + 1);
        lemma_scan_digits_bounds(lit, kl + 1);
        assert(scan_frac(s, k) == Some(off + k2l));
    } else {
        if kl < ll {
            lemma_embeds_char(s, off, lit, kl);
            assert(s[k] == lit[kl] && lit[kl] != '.');
        } else {
            assert(k == end);
        }
        assert(scan_frac(s, k) == Some(off + k2l));
    }
    assert(kl <= k2l <= ll);
    let k2 = off + k2l;
    // the exponent part matches
    assert(scan_exp(lit, k2l) == Some(ll));
    if k2l < ll && (lit[k2l] == 'e' || lit[k2l] == 'E') {
        lemma_embeds_char(s, off, lit, k2l);
        let ml = if k2l + 1 < ll && (lit[k2l + 1] == '+' || lit[k2l + 1] == '-') {
            k2l + 2
        } else {
            k2l + 1
        };
        if k2l + 1 < ll {
            lemma_embeds_char(s, off, lit, k2l + 1);
        }
        let m = off + ml;
        if k2l + 1 == ll {
            assert(scan_exp(lit, k2l) is None);
        }
        assert(ml < ll && is_digit(lit[ml]));
        lemma_embeds_char(s, off, lit, ml);
        assert((if k2 + 1 < s.len() && (s[k2 + 1] == '+' || s[k2 + 1] == '-') {
            k2 + 2
        } else {
            k2 + 1
        }) == m);
        lemma_scan_digits_embed(lit, s, off, ml);
        lemma_scan_digits_bounds(lit, ml);
        assert(scan_digits(lit, ml) == ll);
        assert(scan_exp(s, k2) == Some(end));
    } else {
        if k2l < ll {
            lemma_embeds_char(s, off, lit, k2l);
            assert(scan_exp(s, k2) == Some(end));
        } else {
            assert(k2 == end);
            assert(scan_exp(s, k2) == Some(end));
        }
    }
}

/// Parsing an embedded escaped string body followed by its closing quote
/// decodes exactly the original characters.
proof fn lemma_escape_parse(t: Seq<char>, s: Seq<char>, off: int, acc: Seq<char>)
    requires
        embeds(s, off, escape(t) + seq!['"']),
    ensures
        parse_string_body(s, off, acc) == Some((acc + t, off + escape(t).len() + 1)),
    decreases t.len(),
{
    if t.len() == 0 {
        assert(escape(t) + seq!['"'] =~= seq!['"']);
        lemma_embeds_char(s, off, seq!['"'], 0);
        assert(acc + t =~= acc);
    } else {
        let c = t[0];
        let tr = t.drop_first();
        let esc = esc_char(c);
        assert(escape(t) == esc + escape(tr));
        assert(escape(t) + seq!['"'] =~= esc + (escape(tr) + seq!['"']));
        lemma_embeds_split(s, off, esc, escape(tr) + seq!['"']);
        let off2 = off + esc.len();
        let cu = c as u32;
        if c == '"' || c == '\\' || c == '\n' || c == '\r' || c == '\t' {
            lemma_embeds_char(s, off, esc, 0);
            lemma_embeds_char(s, off, esc, 1);
            lemma_escape_parse(tr, s, off2, acc.push(c));
            assert(acc.push(c) + tr =~= acc + t);
        } else if cu < 0x20 {
            lemma_embeds_char(s, off, esc, 0);
            lemma_embeds_char(s, off, esc, 1);
            lemma_embeds_char(s, off, esc, 2);
            lemma_embeds_char(s, off, esc, 3);
            lemma_embeds_char(s, off, esc, 4);
            lemma_embeds_char(s, off, esc, 5);
            assert(is_hex_digit(hex_digit(cu / 16)));
            assert(is_hex_digit(hex_digit(cu % 16)));
            assert(hex_val(hex_digit(cu / 16)) == cu / 16);
            assert(hex_val(hex_digit(cu % 16)) == cu % 16);
            assert(hex_val('0') == 0);
            let u = ((hex_val('0') * 4096) + (hex_val('0') * 256) + (hex_val(
                hex_digit(cu / 16),
            ) * 16) + hex_val(hex_digit(cu % 16))) as u32;
            assert(u == cu);
            assert(is_scalar_value(u));
            vstd::utf8::char_u32_cast(c, cu);
            assert(u as char == c);
            lemma_escape_parse(tr, s, off2, acc.push(c));
            assert(acc.push(c) + tr =~= acc + t);
        } else {
            assert(esc =~= seq![c]);
            lemma_embeds_char(s, off, esc, 0);
            lemma_escape_parse(tr, s, off2, acc.push(c));
            assert(acc.push(c) + tr =~= acc + t);
        }
    }
}

/// The serialized text of a valid value is non-empty and starts with a
/// character that can start a value (never whitespace or a closer).
proof fn lemma_ser_first(v: JsonSpec, ind: nat, step: nat)
    requires
        wf(v),
    ensures
        ser_value(v, ind, step).len() >= 1,
        value_start(ser_value(v, ind, step)[0]),
{
    match v {
        JsonSpec::Num(l) => {
            assert(0 < l.len());
            if l[0] != '-' {
                assert(is_digit(l[0]));
            }
        },
        JsonSpec::Str(t) => {
            assert(ser_string(t)[0] == '"');
        },
        JsonSpec::Array(es) => {
            if es.len() == 0 {
            } else {
                assert(ser_value(v, ind, step)[0] == '[');
            }
        },
        JsonSpec::Object(ms) => {
            if ms.len() == 0 {
            } else {
                assert(ser_value(v, ind, step)[0] == '{');
            }
        },
        _ => {},
    }
}

/// A value-start character is not whitespace and not a separator.
proof fn lemma_value_start_facts(c: char)
    requires
        value_start(c),
    ensures
        !is_ws(c),
        c != ']',
        c != '}',
        c != ',',
        c != ':',
{
}

/// What follows element `i`'s serialized value inside a serialized array:
/// the remaining elements, then the closing line.
pub open spec fn elems_rest(es: Seq<JsonSpec>, i: int, ind: nat, step: nat) -> Seq<char> {
    (if i + 1 < es.len() {
        seq![','] + ser_elems(es, i + 1, ind, step)
    } else {
        Seq::empty()
    }) + seq!['\n'] + spaces(ind) + seq![']']
}

/// What follows member `i`'s serialized value inside a serialized object.
pub open spec fn members_rest(ms: Seq<(Seq<char>, JsonSpec)>, i: int, ind: nat, step: nat) -> Seq<
    char,
> {
    (if i + 1 < ms.len() {
        seq![','] + ser_members(ms, i + 1, ind, step)
    } else {
        Seq::empty()
    }) + seq!['\n'] + spaces(ind) + seq!['}']
}

/// Parsing starts exactly at an embedded serialized value and consumes
/// exactly it, yielding the value itself.
#[verifier::rlimit(100)]
proof fn lemma_parse_ser(v: JsonSpec, ind: nat, step: nat, s: Seq<char>, off: int)
    requires
        wf(v),
        embeds(s, off, ser_value(v, ind, step)),
        off + ser_value(v, ind, step).len() == s.len() || !num_cont(
            s[off + ser_value(v, ind, step).len()],
        ),
    ensures
        parse_value(s, off) == Some((v, off + ser_value(v, ind, step).len())),
    decreases v, 0nat,
{
    let ser = ser_value(v, ind, step);
    match v {
        JsonSpec::Null => {
            lemma_embeds_char(s, off, ser, 0);
            lemma_embeds_char(s, off, ser, 1);
            lemma_embeds_char(s, off, ser, 2);
            lemma_embeds_char(s, off, ser, 3);
        },
        JsonSpec::Bool(b) => {
            lemma_embeds_char(s, off, ser, 0);
            lemma_embeds_char(s, off, ser, 1);
            lemma_embeds_char(s, off, ser, 2);
            lemma_embeds_char(s, off, ser, 3);
            if !b {
                lemma_embeds_char(s, off, ser, 4);
            }
        },
        JsonSpec::Num(l) => {
            lemma_scan_number_embed(l, s, off);
            lemma_embeds_char(s, off, l, 0);
            assert(is_digit(l[0]) || l[0] == '-');
        },
        JsonSpec::Str(t) => {
            assert(ser =~= seq!['"'] + (escape(t) + seq!['"']));
            lemma_embeds_split(s, off, seq!['"'], escape(t) + seq!['"']);
            lemma_embeds_char(s, off, seq!['"'], 0);
            lemma_escape_parse(t, s, off + 1, Seq::empty());
            assert(Seq::<char>::empty() + t =~= t);
        },
        JsonSpec::Array(es) => {
            if es.len() == 0 {
                lemma_embeds_char(s, off, ser, 0);
                lemma_embeds_char(s, off, ser, 1);
                lemma_skip_ws_to(s, off + 1, off + 1);
                assert(es =~= Seq::<JsonSpec>::empty());
            } else {
                let body = ser_elems(es, 0, ind, step);
                let close = seq!['\n'] + spaces(ind) + seq![']'];
                assert(ser =~= seq!['['] + (body + close));
                lemma_embeds_split(s, off, seq!['['], body + close);
                lemma_embeds_char(s, off, seq!['['], 0);
                let wspat = seq!['\n'] + spaces((ind + step) as nat);
                let serv0 = ser_value(es[0], (ind + step) as nat, step);
                let tail0 = if 1 < es.len() {
                    seq![','] + ser_elems(es, 1, ind, step)
                } else {
                    Seq::<char>::empty()
                };
                assert(body == seq!['\n'] + spaces((ind + step) as nat) + serv0 + tail0);
                assert(body + close =~= wspat + (serv0 + (tail0 + close)));
                lemma_embeds_split(s, off + 1, wspat, serv0 + (tail0 + close));
                let p0 = off + 2 + ind + step;
                assert(wf_elems(es, 0));
                assert(wf(es[0]));
                lemma_ser_first(es[0], (ind + step) as nat, step);
                lemma_embeds_split(s, p0, serv0, tail0 + close);
                lemma_embeds_char(s, p0, serv0, 0);
                lemma_value_start_facts(serv0[0]);
                assert forall|x: int| off + 1 <= x < p0 implies is_ws(#[trigger] s[x]) by {
                    lemma_embeds_char(s, off + 1, wspat, x - (off + 1));
                    if x > off + 1 {
                        assert(wspat[x - (off + 1)] == ' ');
                    }
                }
                lemma_skip_ws_to(s, off + 1, p0);
                assert(tail0 + close =~= elems_rest(es, 0, ind, step));
                assert(embeds(s, p0, serv0 + elems_rest(es, 0, ind, step)));
                lemma_parse_ser_elems(es, 0, ind, step, s, p0, Seq::empty());
                assert(Seq::<JsonSpec>::empty() + es.subrange(0, es.len() as int) =~= es);
            }
        },
        JsonSpec::Object(ms) => {
            if ms.len() == 0 {
                lemma_embeds_char(s, off, ser, 0);
                lemma_embeds_char(s, off, ser, 1);
                lemma_skip_ws_to(s, off + 1, off + 1);
                assert(ms =~= Seq::<(Seq<char>, JsonSpec)>::empty());
            } else {
                let body = ser_members(ms, 0, ind, step);
                let close = seq!['\n'] + spaces(ind) + seq!['}'];
                assert(ser =~= seq!['{'] + (body + close));
                lemma_embeds_split(s, off, seq!['{'], body + close);
                lemma_embeds_char(s, off, seq!['{'], 0);
                let wspat = seq!['\n'] + spaces((ind + step) as nat);
                let kq0 = ser_string(ms[0].0);
                let serv0 = ser_value(ms[0].1, (ind + step) as nat, step);
                let tail0 = if 1 < ms.len() {
                    seq![','] + ser_members(ms, 1, ind, step)
                } else {
                    Seq::<char>::empty()
                };
                assert(body == seq!['\n'] + spaces((ind + step) as nat) + kq0 + seq![':', ' ']
                    + serv0 + tail0);
                let mempat = kq0 + seq![':', ' '] + serv0 + members_rest(ms, 0, ind, step);
                assert(tail0 + close =~= members_rest(ms, 0, ind, step));
                assert(body + close =~= wspat + mempat);
                lemma_embeds_split(s, off + 1, wspat, mempat);
                let p0 = off + 2 + ind + step;
                assert forall|x: int| off + 1 <= x < p0 implies is_ws(#[trigger] s[x]) by {
                    lemma_embeds_char(s, off + 1, wspat, x - (off + 1));
                    if x > off + 1 {
                        assert(wspat[x - (off + 1)] == ' ');
                    }
                }
                assert(mempat[0] == '"') by {
                    assert(kq0[0] == '"');
                }
                lemma_embeds_char(s, p0, mempat, 0);
                lemma_skip_ws_to(s, off + 1, p0);
                assert(wf_members(ms, 0));
                lemma_parse_ser_members(ms, 0, ind, step, s, p0, Seq::empty());
                assert(Seq::<(Seq<char>, JsonSpec)>::empty() + ms.subrange(0, ms.len() as int)
                    =~= ms);
            }
        },
    }
}

/// Parsing the remaining elements of an embedded serialized array collects
/// exactly the remaining values and stops just past the closing bracket.
#[verifier::rlimit(100)]
proof fn lemma_parse_ser_elems(
    es: Seq<JsonSpec>,
    i: int,
    ind: nat,
    step: nat,
    s: Seq<char>,
    p: int,
    acc: Seq<JsonSpec>,
)
    requires
        0 <= i < es.len(),
        wf_elems(es, i),
        embeds(s, p, ser_value(es[i], (ind + step) as nat, step) + elems_rest(es, i, ind, step)),
    ensures
        parse_elems(s, p, acc) == Some(
            (
                acc + es.subrange(i, es.len() as int),
                p + ser_value(es[i], (ind + step) as nat, step).len() + elems_rest(
                    es,
                    i,
                    ind,
                    step,
                ).len(),
            ),
        ),
    decreases es, es.len() - i,
{
    let serv = ser_value(es[i], (ind + step) as nat, step);
    let rest = elems_rest(es, i, ind, step);
    lemma_embeds_split(s, p, serv, rest);
    let q = p + serv.len();
    assert(wf(es[i]));
    lemma_ser_first(es[i], (ind + step) as nat, step);
    if i + 1 < es.len() {
        assert(rest[0] == ',');
    } else {
        assert(rest =~= seq!['\n'] + spaces(ind) + seq![']']);
        assert(rest[0] == '\n');
    }
    lemma_embeds_char(s, q, rest, 0);
    assert(!num_cont(s[q]));
    lemma_parse_ser(es[i], (ind + step) as nat, step, s, p);
    if i + 1 < es.len() {
        let selems2 = ser_elems(es, i + 1, ind, step);
        let close = seq!['\n'] + spaces(ind) + seq![']'];
        assert(rest =~= seq![','] + (selems2 + close));
        lemma_embeds_split(s, q, seq![','], selems2 + close);
        lemma_skip_ws_to(s, q, q);
        let wspat = seq!['\n'] + spaces((ind + step) as nat);
        let serv2 = ser_value(es[i + 1], (ind + step) as nat, step);
        let tail2 = if i + 2 < es.len() {
            seq![','] + ser_elems(es, i + 2, ind, step)
        } else {
            Seq::<char>::empty()
        };
        assert(selems2 == seq!['\n'] + spaces((ind + step) as nat) + serv2 + tail2);
        assert(selems2 + close =~= wspat + (serv2 + (tail2 + close)));
        lemma_embeds_split(s, q + 1, wspat, serv2 + (tail2 + close));
        let m = q + 2 + ind + step;
        assert(wf_elems(es, i + 1));
        assert(wf(es[i + 1]));
        lemma_ser_first(es[i + 1], (ind + step) as nat, step);
        lemma_embeds_split(s, m, serv2, tail2 + close);
        lemma_embeds_char(s, m, serv2, 0);
        lemma_value_start_facts(serv2[0]);
        assert forall|x: int| q + 1 <= x < m implies is_ws(#[trigger] s[x]) by {
            lemma_embeds_char(s, q + 1, wspat, x - (q + 1));
            if x > q + 1 {
                assert(wspat[x - (q + 1)] == ' ');
            }
        }
        lemma_skip_ws_to(s, q + 1, m);
        assert(tail2 + close =~= elems_rest(es, i + 1, ind, step));
        assert(embeds(s, m, serv2 + elems_rest(es, i + 1, ind, step)));
        lemma_parse_ser_elems(es, i + 1, ind, step, s, m, acc.push(es[i]));
        assert(acc + es.subrange(i, es.len() as int) =~= acc.push(es[i]) + es.subrange(
            i + 1,
            es.len() as int,
        ));
    } else {
        let e = q + 1 + ind;
        assert forall|x: int| q <= x < e implies is_ws(#[trigger] s[x]) by {
            lemma_embeds_char(s, q, rest, x - q);
            if x > q {
                assert(rest[x - q] == ' ');
            }
        }
        assert(rest[1 + ind as int] == ']');
        lemma_embeds_char(s, q, rest, 1 + ind as int);
        lemma_skip_ws_to(s, q, e);
        assert(es.subrange(i, es.len() as int) =~= seq![es[i]]);
        assert(acc + es.subrange(i, es.len() as int) =~= acc.push(es[i]));
    }
}

/// Parsing the remaining members of an embedded serialized object collects
/// exactly the remaining key/value pairs and stops just past the closing
/// bracket.
#[verifier::rlimit(100)]
proof fn lemma_parse_ser_members(
    ms: Seq<(Seq<char>, JsonSpec)>,
    i: int,
    ind: nat,
    step: nat,
    s: Seq<char>,
    p: int,
    acc: Seq<(Seq<char>, JsonSpec)>,
)
    requires
        0 <= i < ms.len(),
        wf_members(ms, i),
        embeds(
            s,
            p,
            ser_string(ms[i].0) + seq![':', ' '] + ser_value(ms[i].1, (ind + step) as nat, step)
                + members_rest(ms, i, ind, step),
        ),
    ensures
        parse_members(s, p, acc) == Some(
            (
                acc + ms.subrange(i, ms.len() as int),
                p + ser_string(ms[i].0).len() + 2 + ser_value(
                    ms[i].1,
                    (ind + step) as nat,
                    step,
                ).len() + members_rest(ms, i, ind, step).len(),
            ),
        ),
    decreases ms, ms.len() - i,
{
    let key = ms[i].0;
    let kq = ser_string(key);
    let serv = ser_value(ms[i].1, (ind + step) as nat, step);
    let rest = members_rest(ms, i, ind, step);
    let pat = kq + seq![':', ' '] + serv + rest;
    assert(pat =~= seq!['"'] + ((escape(key) + seq!['"']) + (seq![':', ' '] + (serv + rest))));
    lemma_embeds_split(s, p, seq!['"'], (escape(key) + seq!['"']) + (seq![':', ' '] + (serv
        + rest)));
    lemma_embeds_char(s, p, seq!['"'], 0);
    lemma_embeds_split(s, p + 1, escape(key) + seq!['"'], seq![':', ' '] + (serv + rest));
    lemma_escape_parse(key, s, p + 1, Seq::empty());
    assert(Seq::<char>::empty() + key =~= key);
    let jq = p + 1 + escape(key).len() + 1;
    assert(jq == p + kq.len());
    lemma_embeds_split(s, jq, seq![':', ' '], serv + rest);
    lemma_embeds_char(s, jq, seq![':', ' '], 0);
    lemma_embeds_char(s, jq, seq![':', ' '], 1);
    lemma_skip_ws_to(s, jq, jq);
    let w = jq + 2;
    assert(wf(ms[i].1));
    lemma_ser_first(ms[i].1, (ind + step) as nat, step);
    lemma_embeds_split(s, w, serv, rest);
    lemma_embeds_char(s, w, serv, 0);
    lemma_value_start_facts(serv[0]);
    lemma_skip_ws_to(s, jq + 1, w);
    let q = w + serv.len();
    if i + 1 < ms.len() {
        assert(rest[0] == ',');
    } else {
        assert(rest =~= seq!['\n'] + spaces(ind) + seq!['}']);
        assert(rest[0] == '\n');
    }
    lemma_embeds_char(s, q, rest, 0);
    assert(!num_cont(s[q]));
    lemma_parse_ser(ms[i].1, (ind + step) as nat, step, s, w);
    if i + 1 < ms.len() {
        let smem2 = ser_members(ms, i + 1, ind, step);
        let close = seq!['\n'] + spaces(ind) + seq!['}'];
        assert(rest =~= seq![','] + (smem2 + close));
        lemma_embeds_split(s, q, seq![','], smem2 + close);
        lemma_skip_ws_to(s, q, q);
        let wspat = seq!['\n'] + spaces((ind + step) as nat);
        let kq2 = ser_string(ms[i + 1].0);
        let serv2 = ser_value(ms[i + 1].1, (ind + step) as nat, step);
        let tail2 = if i + 2 < ms.len() {
            seq![','] + ser_members(ms, i + 2, ind, step)
        } else {
            Seq::<char>::empty()
        };
        assert(smem2 == seq!['\n'] + spaces((ind + step) as nat) + kq2 + seq![':', ' '] + serv2
            + tail2);
        let mempat2 = kq2 + seq![':', ' '] + serv2 + members_rest(ms, i + 1, ind, step);
        assert(tail2 + close =~= members_rest(ms, i + 1, ind, step));
        assert(smem2 + close =~= wspat + mempat2);
        lemma_embeds_split(s, q + 1, wspat, mempat2);
        let m = q + 2 + ind + step;
        assert forall|x: int| q + 1 <= x < m implies is_ws(#[trigger] s[x]) by {
            lemma_embeds_char(s, q + 1, wspat, x - (q + 1));
            if x > q + 1 {
                assert(wspat[x - (q + 1)] == ' ');
            }
        }
        assert(mempat2[0] == '"') by {
            assert(kq2[0] == '"');
        }
        lemma_embeds_char(s, m, mempat2, 0);
        lemma_skip_ws_to(s, q + 1, m);
        assert(wf_members(ms, i + 1));
        lemma_parse_ser_members(ms, i + 1, ind, step, s, m, acc.push((key, ms[i].1)));
        assert(ms[i] == (key, ms[i].1));
        assert(acc + ms.subrange(i, ms.len() as int) =~= acc.push(ms[i]) + ms.subrange(
            i + 1,
            ms.len() as int,
        ));
    } else {
        let e = q + 1 + ind;
        assert forall|x: int| q <= x < e implies is_ws(#[trigger] s[x]) by {
            lemma_embeds_char(s, q, rest, x - q);
            if x > q {
                assert(rest[x - q] == ' ');
            }
        }
        assert(rest[1 + ind as int] == '}');
        lemma_embeds_char(s, q, rest, 1 + ind as int);
        lemma_skip_ws_to(s, q, e);
        assert(ms[i] == (key, ms[i].1));
        assert(ms.subrange(i, ms.len() as int) =~= seq![ms[i]]);
        assert(acc + ms.subrange(i, ms.len() as int) =~= acc.push(ms[i]));
    }
}

/// Round trip: parsing the pretty-printed text of any valid value — one
/// whose number literals match the JSON number grammar — yields exactly
/// that value, for every indent step.
pub proof fn lemma_parse_serialize_round_trip(v: JsonSpec, step: nat)
    requires
        wf(v),
    ensures
        parse_text(ser_value(v, 0, step)) == Some(v),
{
    let s = ser_value(v, 0, step);
    lemma_ser_first(v, 0, step);
    lemma_value_start_facts(s[0]);
    lemma_skip_ws_to(s, 0, 0);
    assert(s.subrange(0, s.len() as int) =~= s);
    assert(embeds(s, 0, s));
    lemma_parse_ser(v, 0, step, s, 0);
    lemma_skip_ws_to(s, s.len() as int, s.len() as int);
}

} // verus!
