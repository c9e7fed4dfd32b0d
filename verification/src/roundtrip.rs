//! Decoding inverts encoding: parsing the wire text of a well-formed
//! value yields that value back, for JSON values and for the request
//! and response envelopes.

use vstd::prelude::*;

use crate::decode::digit_val;
use crate::decode::hex_val;
use crate::decode::is_digit;
use crate::decode::is_hex;
use crate::decode::is_ws;
use crate::decode::lemma_char_eq_code;
use crate::decode::parse_arr;
use crate::decode::parse_arr_tail;
use crate::decode::parse_digits;
use crate::decode::parse_json;
use crate::decode::parse_member;
use crate::decode::parse_member_val;
use crate::decode::parse_obj;
use crate::decode::parse_obj_tail;
use crate::decode::parse_str_chars;
use crate::decode::parse_value;
use crate::decode::unescaped;
use crate::decode::ws_to_end;
use crate::errors::ErrView;
use crate::errors::wf_err;
use crate::id::IdView;
use crate::id::id_from_json;
use crate::id::id_jsonval;
use crate::json::JsonView;
use crate::json::arr_prefix;
use crate::json::dec_digits;
use crate::json::digit_char;
use crate::json::esc_char;
use crate::json::esc_prefix;
use crate::json::esc_str;
use crate::json::hex_char;
use crate::json::json_chars;
use crate::json::lemma_wf_members;
use crate::json::member_chars;
use crate::json::obj_prefix;
use crate::json::wf_json;
use crate::json::wf_list;
use crate::json::wf_members;
use crate::members::find_val;
use crate::request::ReqView;
use crate::request::req_chars;
use crate::request::req_from_json;
use crate::request::req_jsonval;
use crate::request::req_members;
use crate::request::req_parse;
use crate::request::wf_req;
use crate::response::RespView;
use crate::response::err_from_json;
use crate::response::err_jsonval;
use crate::response::err_members;
use crate::response::int_jsonval;
use crate::response::resp_chars;
use crate::response::resp_from_json;
use crate::response::resp_jsonval;
use crate::response::resp_members;
use crate::response::resp_parse;
use crate::response::wf_resp;

verus! {

/// Ten to the `k`.
pub open spec fn pow10(k: int) -> int
    decreases k,
{
    if k <= 0 {
        1
    } else {
        10 * pow10(k - 1)
    }
}

/// Printing a digit and reading it back is the identity, and what is
/// printed is a digit character.
proof fn lemma_digit_char_val(d: int)
    requires
        0 <= d < 10,
    ensures
        is_digit(digit_char(d)),
        digit_val(digit_char(d)) == d,
{
}

/// The digits of a non-negative integer: at least one character, all of
/// them digit characters, the first not `0` unless the number is zero.
proof fn lemma_dec_digits_shape(n: int)
    requires
        n >= 0,
    ensures
        dec_digits(n).len() >= 1,
        forall|i: int| 0 <= i < dec_digits(n).len() ==> is_digit(#[trigger] dec_digits(n)[i]),
        n >= 1 ==> dec_digits(n)[0] != '0',
    decreases n,
{
    if n < 10 {
        lemma_digit_char_val(n);
    } else {
        lemma_dec_digits_shape(n / 10);
        lemma_digit_char_val(n % 10);
        assert forall|i: int| 0 <= i < dec_digits(n).len() implies is_digit(
            #[trigger] dec_digits(n)[i],
        ) by {
            if i < dec_digits(n / 10).len() {
                assert(dec_digits(n)[i] == dec_digits(n / 10)[i]);
            } else {
                assert(dec_digits(n)[i] == digit_char(n % 10));
            }
        }
        assert(dec_digits(n)[0] == dec_digits(n / 10)[0]);
    }
}

/// Reading the printed digits of `n` folds them onto the accumulator:
/// the region is consumed whole, and the value is the accumulator
/// shifted past it plus `n`.
proof fn lemma_parse_digits_region(s: Seq<char>, pos: int, acc: int, n: int)
    requires
        0 <= pos,
        0 <= acc,
        0 <= n,
        pos + dec_digits(n).len() <= s.len(),
        s.subrange(pos, pos + dec_digits(n).len() as int) == dec_digits(n),
    ensures
        parse_digits(s, pos, acc) == parse_digits(
            s,
            pos + dec_digits(n).len() as int,
            acc * pow10(dec_digits(n).len() as int) + n,
        ),
        acc * pow10(dec_digits(n).len() as int) + n >= 0,
    decreases n,
{
    let k = dec_digits(n).len() as int;
    if n < 10 {
        assert(s[pos] == dec_digits(n)[0]);
        lemma_digit_char_val(n);
        assert(parse_digits(s, pos, acc) == parse_digits(s, pos + 1, acc * 10 + n));
        assert(pow10(0) == 1);
        assert(pow10(1) == 10);
    } else {
        let d1 = dec_digits(n / 10);
        let k1 = d1.len() as int;
        assert(s.subrange(pos, pos + k1) =~= d1) by {
            assert forall|i: int| 0 <= i < k1 implies s.subrange(pos, pos + k1)[i] == d1[i] by {
                assert(s.subrange(pos, pos + k) [i] == dec_digits(n)[i]);
                assert(dec_digits(n)[i] == d1[i]);
            }
        }
        lemma_parse_digits_region(s, pos, acc, n / 10);
        let acc1 = acc * pow10(k1) + n / 10;
        assert(s[pos + k1] == dec_digits(n)[k1 - 1 + 1]);
        assert(s[pos + k1] == digit_char(n % 10));
        lemma_digit_char_val(n % 10);
        assert(parse_digits(s, pos + k1, acc1) == parse_digits(
            s,
            pos + k1 + 1,
            acc1 * 10 + n % 10,
        ));
        assert(acc1 * 10 + n % 10 == acc * pow10(k) + n) by {
            assert(pow10(k) == pow10(k1) * 10) by {
                assert(k == k1 + 1);
            }
            assert((acc * pow10(k1) + n / 10) * 10 == acc * (pow10(k1) * 10) + (n / 10) * 10)
                by (nonlinear_arith);
            assert((n / 10) * 10 + n % 10 == n);
        }
        lemma_pow10_pos(k);
        assert(acc * pow10(k) + n >= 0) by {
            assert(acc * pow10(k) >= 0) by (nonlinear_arith)
                requires
                    acc >= 0,
                    pow10(k) >= 1,
            ;
        }
    }
}

/// `pow10` is positive.
proof fn lemma_pow10_pos(k: int)
    ensures
        pow10(k) >= 1,
    decreases k,
{
    if k > 0 {
        lemma_pow10_pos(k - 1);
    }
}

/// Reading the printed digits of `n`, from a zero accumulator, with no
/// digit following the region, yields exactly `n`.
proof fn lemma_parse_digits_of(s: Seq<char>, pos: int, n: int)
    requires
        0 <= pos,
        0 <= n,
        pos + dec_digits(n).len() <= s.len(),
        s.subrange(pos, pos + dec_digits(n).len() as int) == dec_digits(n),
        pos + dec_digits(n).len() == s.len() || !is_digit(s[pos + dec_digits(n).len() as int]),
    ensures
        parse_digits(s, pos, 0) == (n, pos + dec_digits(n).len() as int),
{
    lemma_parse_digits_region(s, pos, 0, n);
    let after = pos + dec_digits(n).len() as int;
    assert(0 * pow10(dec_digits(n).len() as int) == 0) by (nonlinear_arith);
    assert(parse_digits(s, after, n) == (n, after));
}


/// `esc_prefix` taken apart at the front.
proof fn lemma_esc_prefix_head(t: Seq<char>, n: int)
    requires
        1 <= n <= t.len(),
    ensures
        esc_prefix(t, n) == esc_char(t[0]) + esc_prefix(t.drop_first(), n - 1),
    decreases n,
{
    if n == 1 {
        assert(esc_prefix(t, 1) == esc_prefix(t, 0) + esc_char(t[0]));
        assert(esc_prefix(t, 1) =~= esc_char(t[0]) + esc_prefix(t.drop_first(), 0));
    } else {
        lemma_esc_prefix_head(t, n - 1);
        assert(t.drop_first()[n - 2] == t[n - 1]);
        assert(esc_prefix(t, n) == esc_prefix(t, n - 1) + esc_char(t[n - 1]));
        assert(esc_prefix(t.drop_first(), n - 1) == esc_prefix(t.drop_first(), n - 2)
            + esc_char(t.drop_first()[n - 2]));
        assert(esc_prefix(t, n) =~= esc_char(t[0]) + esc_prefix(t.drop_first(), n - 1));
    }
}

/// The whole escaped body, taken apart at the front.
proof fn lemma_esc_str_head(t: Seq<char>)
    requires
        t.len() >= 1,
    ensures
        esc_str(t) == esc_char(t[0]) + esc_str(t.drop_first()),
{
    lemma_esc_prefix_head(t, t.len() as int);
}

/// Printing a hexadecimal digit and reading it back is the identity.
proof fn lemma_hex_char_val(d: int)
    requires
        0 <= d < 16,
    ensures
        is_hex(hex_char(d)),
        hex_val(hex_char(d)) == d,
{
}

/// Reading a string body from just after the opening quote, where the
/// text is the escaped body followed by the closing quote, yields the
/// body back.
proof fn lemma_parse_str_of(s: Seq<char>, pos: int, t: Seq<char>)
    requires
        0 <= pos,
        pos + esc_str(t).len() + 1 <= s.len(),
        s.subrange(pos, pos + esc_str(t).len() as int) == esc_str(t),
        s[pos + esc_str(t).len() as int] == '"',
    ensures
        parse_str_chars(s, pos) == Some((t, pos + esc_str(t).len() + 1)),
    decreases t.len(),
{
    let e = esc_str(t);
    if t.len() == 0 {
        assert(e.len() == 0);
        assert(s[pos] == '"');
    } else {
        let c = t[0];
        let ec = esc_char(c);
        lemma_esc_str_head(t);
        let t1 = t.drop_first();
        let e1 = esc_str(t1);
        assert(e == ec + e1);
        let pos1 = pos + ec.len() as int;
        assert forall|i: int| 0 <= i < ec.len() implies s[pos + i] == ec[i] by {
            assert(s.subrange(pos, pos + e.len() as int)[i] == e[i]);
        }
        assert(s.subrange(pos1, pos1 + e1.len() as int) =~= e1) by {
            assert forall|i: int| 0 <= i < e1.len() implies s.subrange(
                pos1,
                pos1 + e1.len() as int,
            )[i] == e1[i] by {
                assert(s.subrange(pos, pos + e.len() as int)[ec.len() + i] == e[ec.len() + i]);
                assert(e[ec.len() + i] == e1[i]);
            }
        }
        lemma_parse_str_of(s, pos1, t1);
        let fin = pos + e.len() + 1;
        if c == '"' || c == '\\' || c == '\u{8}' || c == '\t' || c == '\n' || c == '\u{c}' || c
            == '\r' {
            assert(s[pos] == '\\');
            assert(unescaped(s[pos + 1]) == Some(c));
            assert(parse_str_chars(s, pos) == Some((seq![c] + t1, fin)));
            assert(seq![c] + t1 =~= t);
        } else if (c as u32) < 0x20 {
            let cu = c as u32 as int;
            assert(ec == seq![
                '\\',
                'u',
                '0',
                '0',
                hex_char(cu / 16),
                hex_char(cu % 16),
            ]);
            assert(s[pos] == '\\');
            assert(s[pos + 1] == 'u');
            assert(s[pos + 2] == '0');
            assert(s[pos + 3] == '0');
            assert(s[pos + 4] == hex_char(cu / 16));
            assert(s[pos + 5] == hex_char(cu % 16));
            lemma_hex_char_val(cu / 16);
            lemma_hex_char_val(cu % 16);
            assert(is_hex('0') && hex_val('0') == 0) by {
                lemma_hex_char_val(0);
            }
            let code = hex_val(s[pos + 2]) * 0x1000 + hex_val(s[pos + 3]) * 0x100 + hex_val(
                s[pos + 4],
            ) * 0x10 + hex_val(s[pos + 5]);
            assert(code == (cu / 16) * 16 + cu % 16) by {
                assert(hex_val(s[pos + 2]) == 0);
                assert(hex_val(s[pos + 3]) == 0);
            }
            assert(code == cu);
            assert(((code as u8) as char) == c) by {
                assert(code < 0x20);
                assert((code as u8) as u32 == c as u32);
                lemma_char_eq_code((code as u8) as char, c);
            }
            assert(parse_str_chars(s, pos) == Some((seq![c] + t1, fin)));
            assert(seq![c] + t1 =~= t);
        } else {
            assert(ec == seq![c]);
            assert(s[pos + 0] == ec[0]);
            assert(s[pos] == c);
            assert(c != '"' && c != '\\');
            assert(!((c as u32) < 0x20));
            assert(parse_str_chars(s, pos) == Some((seq![c] + t1, fin)));
            assert(seq![c] + t1 =~= t);
        }
    }
}



/// All characters of a region, one by one.
proof fn lemma_region_chars(s: Seq<char>, pos: int, a: Seq<char>)
    requires
        0 <= pos,
        pos + a.len() <= s.len(),
        s.subrange(pos, pos + a.len() as int) == a,
    ensures
        forall|i: int| 0 <= i < a.len() ==> s[pos + i] == a[i],
{
    assert forall|i: int| 0 <= i < a.len() implies s[pos + i] == a[i] by {
        assert(s.subrange(pos, pos + a.len() as int)[i] == a[i]);
    }
}

/// A sub-region of a region is a region.
proof fn lemma_sub_region(s: Seq<char>, pos: int, a: Seq<char>, off: int, b: Seq<char>)
    requires
        0 <= pos,
        pos + a.len() <= s.len(),
        s.subrange(pos, pos + a.len() as int) == a,
        0 <= off,
        off + b.len() <= a.len(),
        a.subrange(off, off + b.len() as int) == b,
    ensures
        s.subrange(pos + off, pos + off + b.len() as int) == b,
{
    assert(s.subrange(pos + off, pos + off + b.len() as int) =~= b) by {
        assert forall|i: int| 0 <= i < b.len() implies s.subrange(
            pos + off,
            pos + off + b.len() as int,
        )[i] == b[i] by {
            assert(s.subrange(pos, pos + a.len() as int)[off + i] == a[off + i]);
            assert(a.subrange(off, off + b.len() as int)[i] == b[i]);
        }
    }
}

/// `arr_prefix` taken apart at the front.
proof fn lemma_arr_prefix_head(es: Seq<JsonView>, n: int)
    requires
        2 <= n <= es.len(),
    ensures
        arr_prefix(es, n) == json_chars(es[0]) + seq![','] + arr_prefix(es.drop_first(), n - 1),
    decreases n,
{
    let d = es.drop_first();
    if n == 2 {
        assert(arr_prefix(es, 2) == arr_prefix(es, 1) + seq![','] + json_chars(es[1]));
        assert(d[0] == es[1]);
        assert(arr_prefix(d, 1) == json_chars(d[0]));
        assert(arr_prefix(es, 2) =~= json_chars(es[0]) + seq![','] + arr_prefix(d, 1));
    } else {
        lemma_arr_prefix_head(es, n - 1);
        assert(d[n - 2] == es[n - 1]);
        assert(arr_prefix(es, n) == arr_prefix(es, n - 1) + seq![','] + json_chars(es[n - 1]));
        assert(arr_prefix(d, n - 1) == arr_prefix(d, n - 2) + seq![','] + json_chars(d[n - 2]));
        assert(arr_prefix(es, n) =~= json_chars(es[0]) + seq![','] + arr_prefix(d, n - 1));
    }
}

/// `obj_prefix` taken apart at the front.
proof fn lemma_obj_prefix_head(ms: Seq<(Seq<char>, JsonView)>, n: int)
    requires
        2 <= n <= ms.len(),
    ensures
        obj_prefix(ms, n) == member_chars(ms[0]) + seq![','] + obj_prefix(ms.drop_first(), n - 1),
    decreases n,
{
    let d = ms.drop_first();
    if n == 2 {
        assert(obj_prefix(ms, 2) == obj_prefix(ms, 1) + seq![','] + member_chars(ms[1]));
        assert(d[0] == ms[1]);
        assert(obj_prefix(d, 1) == member_chars(d[0]));
        assert(obj_prefix(ms, 2) =~= member_chars(ms[0]) + seq![','] + obj_prefix(d, 1));
    } else {
        lemma_obj_prefix_head(ms, n - 1);
        assert(d[n - 2] == ms[n - 1]);
        assert(obj_prefix(ms, n) == obj_prefix(ms, n - 1) + seq![','] + member_chars(ms[n - 1]));
        assert(obj_prefix(d, n - 1) == obj_prefix(d, n - 2) + seq![','] + member_chars(d[n - 2]));
        assert(obj_prefix(ms, n) =~= member_chars(ms[0]) + seq![','] + obj_prefix(d, n - 1));
    }
}

/// What is left of an array's text after its first element: for each
/// further element a comma and its text, then the closing bracket.
spec fn arr_rest_chars(es: Seq<JsonView>) -> Seq<char>
    decreases es,
{
    if es.len() == 0 {
        seq![']']
    } else {
        seq![','] + json_chars(es[0]) + arr_rest_chars(es.drop_first())
    }
}

/// What is left of an object's text after its first member.
spec fn obj_rest_chars(ms: Seq<(Seq<char>, JsonView)>) -> Seq<char>
    decreases ms,
{
    if ms.len() == 0 {
        seq!['}']
    } else {
        seq![','] + member_chars(ms[0]) + obj_rest_chars(ms.drop_first())
    }
}

/// The rest-text is the comma-joined prefix text plus the bracket.
proof fn lemma_arr_rest_chars(es: Seq<JsonView>)
    ensures
        es.len() == 0 ==> arr_rest_chars(es) == seq![']'],
        es.len() >= 1 ==> arr_rest_chars(es) == seq![','] + arr_prefix(es, es.len() as int)
            + seq![']'],
    decreases es,
{
    if es.len() >= 1 {
        let d = es.drop_first();
        lemma_arr_rest_chars(d);
        if d.len() == 0 {
            assert(arr_rest_chars(es) =~= seq![','] + arr_prefix(es, es.len() as int)
                + seq![']']);
        } else {
            lemma_arr_prefix_head(es, es.len() as int);
            assert(arr_rest_chars(es) =~= seq![','] + arr_prefix(es, es.len() as int)
                + seq![']']);
        }
    }
}

/// The rest-text is the comma-joined prefix text plus the brace.
proof fn lemma_obj_rest_chars(ms: Seq<(Seq<char>, JsonView)>)
    ensures
        ms.len() == 0 ==> obj_rest_chars(ms) == seq!['}'],
        ms.len() >= 1 ==> obj_rest_chars(ms) == seq![','] + obj_prefix(ms, ms.len() as int)
            + seq!['}'],
    decreases ms,
{
    if ms.len() >= 1 {
        let d = ms.drop_first();
        lemma_obj_rest_chars(d);
        if d.len() == 0 {
            assert(obj_rest_chars(ms) =~= seq![','] + obj_prefix(ms, ms.len() as int)
                + seq!['}']);
        } else {
            lemma_obj_prefix_head(ms, ms.len() as int);
            assert(obj_rest_chars(ms) =~= seq![','] + obj_prefix(ms, ms.len() as int)
                + seq!['}']);
        }
    }
}

/// The text of a value is never empty, and its first character is no
/// whitespace, closer, comma or colon.
proof fn lemma_json_first(v: JsonView)
    requires
        wf_json(v),
    ensures
        json_chars(v).len() >= 1,
        !is_ws(json_chars(v)[0]),
        json_chars(v)[0] != ']',
        json_chars(v)[0] != '}',
        json_chars(v)[0] != ',',
        json_chars(v)[0] != ':',
{
    match v {
        JsonView::UInt(n) => {
            lemma_dec_digits_shape(n as int);
            assert(json_chars(v)[0] == dec_digits(n as int)[0]);
        },
        JsonView::Int(i) => {
            assert(json_chars(v)[0] == '-');
        },
        JsonView::Text(t) => {
            assert(json_chars(v)[0] == '"');
        },
        JsonView::Array(es) => {
            assert(json_chars(v)[0] == '[');
        },
        JsonView::Object(ms) => {
            assert(json_chars(v)[0] == '{');
        },
        _ => {},
    }
}


/// The text of an array after its opening bracket.
spec fn arr_body_chars(es: Seq<JsonView>) -> Seq<char> {
    arr_prefix(es, es.len() as int) + seq![']']
}

/// The text of an object after its opening brace.
spec fn obj_body_chars(ms: Seq<(Seq<char>, JsonView)>) -> Seq<char> {
    obj_prefix(ms, ms.len() as int) + seq!['}']
}

/// Reading one value out of its own text yields it back, ending just
/// past it, provided no digit follows the region (a digit would extend
/// a trailing number).
pub proof fn lemma_parse_value_of(s: Seq<char>, pos: int, v: JsonView)
    requires
        wf_json(v),
        0 <= pos,
        pos + json_chars(v).len() <= s.len(),
        s.subrange(pos, pos + json_chars(v).len() as int) == json_chars(v),
        pos + json_chars(v).len() == s.len() || !is_digit(s[pos + json_chars(v).len() as int]),
    ensures
        parse_value(s, pos) == Some((v, pos + json_chars(v).len() as int)),
    decreases v,
{
    let a = json_chars(v);
    let fin = pos + a.len() as int;
    lemma_json_first(v);
    lemma_region_chars(s, pos, a);
    assert(s[pos + 0] == a[0]);
    match v {
        JsonView::Null => {
            assert(s.subrange(pos, pos + 4) == seq!['n', 'u', 'l', 'l']);
        },
        JsonView::Bool(b) => {
            if b {
                assert(s.subrange(pos, pos + 4) == seq!['t', 'r', 'u', 'e']);
            } else {
                assert(s.subrange(pos, pos + 5) == seq!['f', 'a', 'l', 's', 'e']);
            }
        },
        JsonView::UInt(n) => {
            lemma_dec_digits_shape(n as int);
            if n == 0 {
                assert(a == dec_digits(0));
                assert(a[0] == digit_char(0));
                assert(s[pos] == '0');
            } else {
                assert(is_digit(s[pos]));
                assert(s[pos] != '0');
                lemma_parse_digits_of(s, pos, n as int);
            }
        },
        JsonView::Int(i) => {
            let m = -(i as int);
            assert(a == seq!['-'] + dec_digits(m));
            lemma_dec_digits_shape(m);
            assert(s[pos] == '-');
            assert(a.subrange(1, 1 + dec_digits(m).len() as int) =~= dec_digits(m));
            lemma_sub_region(s, pos, a, 1, dec_digits(m));
            assert(s[pos + 1] == a[1]);
            assert(a[1] == dec_digits(m)[0]);
            assert(is_digit(s[pos + 1]));
            assert(s[pos + 1] != '0');
            lemma_parse_digits_of(s, pos + 1, m);
            assert(m <= 0x8000000000000000);
            assert((-m) as i64 == i);
        },
        JsonView::Text(t) => {
            let e = esc_str(t);
            assert(a == seq!['"'] + e + seq!['"']);
            assert(s[pos] == '"');
            assert(a.subrange(1, 1 + e.len() as int) =~= e);
            lemma_sub_region(s, pos, a, 1, e);
            assert(s[pos + 1 + e.len() as int] == a[1 + e.len() as int]);
            assert(a[1 + e.len() as int] == '"');
            lemma_parse_str_of(s, pos + 1, t);
        },
        JsonView::Array(es) => {
            assert(s[pos] == '[');
            let body = arr_body_chars(es);
            assert(a == seq!['['] + body) by {
                assert(a =~= seq!['['] + body);
            }
            assert(a.subrange(1, 1 + body.len() as int) =~= body);
            lemma_sub_region(s, pos, a, 1, body);
            assert(decreases_to!(v => v->Array_0));
            lemma_parse_arr_of(s, pos + 1, es);
        },
        JsonView::Object(ms) => {
            assert(s[pos] == '{');
            let body = obj_body_chars(ms);
            assert(a == seq!['{'] + body) by {
                assert(a =~= seq!['{'] + body);
            }
            assert(a.subrange(1, 1 + body.len() as int) =~= body);
            lemma_sub_region(s, pos, a, 1, body);
            assert(decreases_to!(v => v->Object_0));
            lemma_parse_obj_of(s, pos + 1, ms);
        },
    }
}

/// Reading an array's elements from just after the bracket yields them
/// back, ending just past the closing bracket.
proof fn lemma_parse_arr_of(s: Seq<char>, pos: int, es: Seq<JsonView>)
    requires
        wf_list(es),
        0 <= pos,
        pos + arr_body_chars(es).len() <= s.len(),
        s.subrange(pos, pos + arr_body_chars(es).len() as int) == arr_body_chars(es),
    ensures
        parse_arr(s, pos) == Some((es, pos + arr_body_chars(es).len() as int)),
    decreases es,
{
    let a = arr_body_chars(es);
    lemma_region_chars(s, pos, a);
    if es.len() == 0 {
        assert(a =~= seq![']']);
        assert(s[pos + 0] == a[0]);
        assert(s[pos] == ']');
    } else {
        let h = es[0];
        let d = es.drop_first();
        let jc = json_chars(h);
        let rest = arr_rest_chars(d);
        assert(wf_json(h) && wf_list(d));
        lemma_arr_rest_chars(d);
        assert(a == jc + rest) by {
            if es.len() == 1 {
                assert(a =~= jc + rest);
            } else {
                lemma_arr_prefix_head(es, es.len() as int);
                assert(a =~= jc + rest);
            }
        }
        lemma_json_first(h);
        assert(s[pos + 0] == a[0]);
        assert(a[0] == jc[0]);
        assert(a.subrange(0, jc.len() as int) =~= jc);
        lemma_sub_region(s, pos, a, 0, jc);
        let j = pos + jc.len() as int;
        assert(s[pos + jc.len() as int] == a[jc.len() as int]);
        assert(a[jc.len() as int] == rest[0]);
        assert(rest[0] == ',' || rest[0] == ']');
        assert(decreases_to!(es => es[0]));
        lemma_parse_value_of(s, pos, h);
        assert(a.subrange(jc.len() as int, a.len() as int) =~= rest);
        lemma_sub_region(s, pos, a, jc.len() as int, rest);
        lemma_parse_arr_tail_of(s, j, d);
        assert(seq![h] + d =~= es);
    }
}

/// Reading what follows one array element — the closing bracket, or a
/// comma and the remaining elements — yields those elements.
proof fn lemma_parse_arr_tail_of(s: Seq<char>, pos: int, es: Seq<JsonView>)
    requires
        wf_list(es),
        0 <= pos,
        pos + arr_rest_chars(es).len() <= s.len(),
        s.subrange(pos, pos + arr_rest_chars(es).len() as int) == arr_rest_chars(es),
    ensures
        parse_arr_tail(s, pos) == Some((es, pos + arr_rest_chars(es).len() as int)),
    decreases es,
{
    let a = arr_rest_chars(es);
    lemma_region_chars(s, pos, a);
    if es.len() == 0 {
        assert(s[pos + 0] == a[0]);
        assert(s[pos] == ']');
    } else {
        let h = es[0];
        let d = es.drop_first();
        let jc = json_chars(h);
        let rest = arr_rest_chars(d);
        assert(wf_json(h) && wf_list(d));
        assert(a == seq![','] + jc + rest);
        assert(s[pos + 0] == a[0]);
        assert(s[pos] == ',');
        lemma_json_first(h);
        assert(a.subrange(1, 1 + jc.len() as int) =~= jc);
        lemma_sub_region(s, pos, a, 1, jc);
        let j = pos + 1 + jc.len() as int;
        assert(s[pos + (1 + jc.len() as int)] == a[1 + jc.len() as int]);
        assert(a[1 + jc.len() as int] == rest[0]);
        assert(rest[0] == ',' || rest[0] == ']');
        assert(decreases_to!(es => es[0]));
        lemma_parse_value_of(s, pos + 1, h);
        assert(a.subrange(1 + jc.len() as int, a.len() as int) =~= rest);
        lemma_sub_region(s, pos, a, 1 + jc.len() as int, rest);
        lemma_parse_arr_tail_of(s, j, d);
        assert(seq![h] + d =~= es);
    }
}

/// Reading one member out of its own text yields it back.
proof fn lemma_parse_member_of(s: Seq<char>, pos: int, m: (Seq<char>, JsonView))
    requires
        wf_json(m.1),
        0 <= pos,
        pos + member_chars(m).len() <= s.len(),
        s.subrange(pos, pos + member_chars(m).len() as int) == member_chars(m),
        pos + member_chars(m).len() == s.len() || !is_digit(
            s[pos + member_chars(m).len() as int],
        ),
    ensures
        parse_member(s, pos) == Some((m, pos + member_chars(m).len() as int)),
    decreases m,
{
    let a = member_chars(m);
    let e = esc_str(m.0);
    let jc = json_chars(m.1);
    lemma_region_chars(s, pos, a);
    assert(a == seq!['"'] + e + seq!['"', ':'] + jc);
    assert(s[pos + 0] == a[0]);
    assert(s[pos] == '"');
    assert(a.subrange(1, 1 + e.len() as int) =~= e);
    lemma_sub_region(s, pos, a, 1, e);
    assert(s[pos + (1 + e.len() as int)] == a[1 + e.len() as int]);
    assert(a[1 + e.len() as int] == '"');
    lemma_parse_str_of(s, pos + 1, m.0);
    let j = pos + e.len() as int + 2;
    assert(s[pos + (2 + e.len() as int)] == a[2 + e.len() as int]);
    assert(a[2 + e.len() as int] == ':');
    assert(s[j] == ':');
    assert(a.subrange(3 + e.len() as int, a.len() as int) =~= jc);
    lemma_sub_region(s, pos, a, 3 + e.len() as int, jc);
    assert(decreases_to!(m => m.1));
    lemma_parse_value_of(s, j + 1, m.1);
    assert(parse_member_val(s, j) == Some((m.1, pos + a.len() as int)));
}

/// Reading an object's members from just after the brace yields them
/// back, ending just past the closing brace.
proof fn lemma_parse_obj_of(s: Seq<char>, pos: int, ms: Seq<(Seq<char>, JsonView)>)
    requires
        wf_members(ms),
        0 <= pos,
        pos + obj_body_chars(ms).len() <= s.len(),
        s.subrange(pos, pos + obj_body_chars(ms).len() as int) == obj_body_chars(ms),
    ensures
        parse_obj(s, pos) == Some((ms, pos + obj_body_chars(ms).len() as int)),
    decreases ms,
{
    let a = obj_body_chars(ms);
    lemma_region_chars(s, pos, a);
    if ms.len() == 0 {
        assert(a =~= seq!['}']);
        assert(s[pos + 0] == a[0]);
        assert(s[pos] == '}');
    } else {
        let h = ms[0];
        let d = ms.drop_first();
        let mc = member_chars(h);
        let rest = obj_rest_chars(d);
        assert(wf_json(h.1) && wf_members(d));
        lemma_obj_rest_chars(d);
        assert(a == mc + rest) by {
            if ms.len() == 1 {
                assert(a =~= mc + rest);
            } else {
                lemma_obj_prefix_head(ms, ms.len() as int);
                assert(a =~= mc + rest);
            }
        }
        assert(s[pos + 0] == a[0]);
        assert(a[0] == mc[0]);
        assert(mc[0] == '"');
        assert(a.subrange(0, mc.len() as int) =~= mc);
        lemma_sub_region(s, pos, a, 0, mc);
        let j = pos + mc.len() as int;
        assert(s[pos + mc.len() as int] == a[mc.len() as int]);
        assert(a[mc.len() as int] == rest[0]);
        assert(rest[0] == ',' || rest[0] == '}');
        assert(decreases_to!(ms => ms[0]));
        lemma_parse_member_of(s, pos, h);
        assert(a.subrange(mc.len() as int, a.len() as int) =~= rest);
        lemma_sub_region(s, pos, a, mc.len() as int, rest);
        lemma_parse_obj_tail_of(s, j, d);
        assert(seq![h] + d =~= ms);
    }
}

/// Reading what follows one object member — the closing brace, or a
/// comma and the remaining members — yields those members.
proof fn lemma_parse_obj_tail_of(s: Seq<char>, pos: int, ms: Seq<(Seq<char>, JsonView)>)
    requires
        wf_members(ms),
        0 <= pos,
        pos + obj_rest_chars(ms).len() <= s.len(),
        s.subrange(pos, pos + obj_rest_chars(ms).len() as int) == obj_rest_chars(ms),
    ensures
        parse_obj_tail(s, pos) == Some((ms, pos + obj_rest_chars(ms).len() as int)),
    decreases ms,
{
    let a = obj_rest_chars(ms);
    lemma_region_chars(s, pos, a);
    if ms.len() == 0 {
        assert(s[pos + 0] == a[0]);
        assert(s[pos] == '}');
    } else {
        let h = ms[0];
        let d = ms.drop_first();
        let mc = member_chars(h);
        let rest = obj_rest_chars(d);
        assert(wf_json(h.1) && wf_members(d));
        assert(a == seq![','] + mc + rest);
        assert(s[pos + 0] == a[0]);
        assert(s[pos] == ',');
        assert(mc[0] == '"');
        assert(a.subrange(1, 1 + mc.len() as int) =~= mc);
        lemma_sub_region(s, pos, a, 1, mc);
        let j = pos + 1 + mc.len() as int;
        assert(s[pos + (1 + mc.len() as int)] == a[1 + mc.len() as int]);
        assert(a[1 + mc.len() as int] == rest[0]);
        assert(rest[0] == ',' || rest[0] == '}');
        assert(decreases_to!(ms => ms[0]));
        lemma_parse_member_of(s, pos + 1, h);
        assert(a.subrange(1 + mc.len() as int, a.len() as int) =~= rest);
        lemma_sub_region(s, pos, a, 1 + mc.len() as int, rest);
        lemma_parse_obj_tail_of(s, j, d);
        assert(seq![h] + d =~= ms);
    }
}

/// Decoding inverts encoding: parsing the wire text of a well-formed
/// value yields exactly that value.
pub proof fn lemma_json_round_trip(v: JsonView)
    requires
        wf_json(v),
    ensures
        parse_json(json_chars(v)) == Some(v),
{
    let s = json_chars(v);
    assert(s.subrange(0, s.len() as int) =~= s);
    lemma_parse_value_of(s, 0, v);
    assert(ws_to_end(s, s.len() as int));
}

/// Encoding is injective on well-formed values: two values with the
/// same wire text are the same value.
pub proof fn lemma_encoding_injective(a: JsonView, b: JsonView)
    requires
        wf_json(a),
        wf_json(b),
        json_chars(a) == json_chars(b),
    ensures
        a == b,
{
    lemma_json_round_trip(a);
    lemma_json_round_trip(b);
}


/// The four request member keys, pairwise distinct.
proof fn lemma_req_keys()
    ensures
        "jsonrpc"@.len() == 7,
        "method"@.len() == 6,
        "params"@.len() == 6,
        "id"@.len() == 2,
        "jsonrpc"@ != "method"@,
        "jsonrpc"@ != "params"@,
        "jsonrpc"@ != "id"@,
        "method"@ != "params"@,
        "method"@ != "id"@,
        "params"@ != "id"@,
{
    reveal_strlit("jsonrpc");
    reveal_strlit("method");
    reveal_strlit("params");
    reveal_strlit("id");
    assert("method"@[0] == 'm');
    assert("params"@[0] == 'p');
}

/// Encoding a request and decoding the text yields the request back,
/// field for field.  Params of `null` are left out: on the wire, and
/// so after the round trip, they are the same as absent params.
pub proof fn lemma_request_round_trip(r: ReqView)
    requires
        wf_req(r),
        match r.params {
            Some(p) => p != JsonView::Null,
            None => true,
        },
    ensures
        req_parse(req_chars(r)) == Some(r),
{
    let ms = req_members(r);
    lemma_req_keys();
    lemma_wf_members(ms);
    assert forall|i: int| 0 <= i < ms.len() implies wf_json(#[trigger] ms[i].1) by {
        if i == 0 || i == 1 {
        } else if i == 2 {
            match r.params {
                Some(p) => {
                    assert(ms[2].1 == p);
                },
                None => {
                    assert(ms[2].1 == JsonView::Null);
                },
            }
        } else {
            let iv = r.id->0;
            assert(ms[3].1 == id_jsonval(iv));
            match iv {
                IdView::StringVal(t) => {},
                IdView::IntegerVal(n) => {},
            }
        }
    }
    assert(wf_json(req_jsonval(r)));
    lemma_json_round_trip(req_jsonval(r));
    let d1 = ms.drop_first();
    let d2 = d1.drop_first();
    let d3 = d2.drop_first();
    assert(ms[0].0 == "jsonrpc"@);
    assert(d1[0] == ms[1]);
    assert(d2[0] == ms[2]);
    assert(find_val(ms, "jsonrpc"@) == Some(JsonView::Text(r.jsonrpc)));
    assert(find_val(ms, "method"@) == find_val(d1, "method"@));
    assert(find_val(d1, "method"@) == Some(JsonView::Text(r.method)));
    assert(find_val(ms, "params"@) == find_val(d1, "params"@));
    assert(find_val(d1, "params"@) == find_val(d2, "params"@));
    assert(find_val(d2, "params"@) == Some(ms[2].1));
    assert(find_val(ms, "id"@) == find_val(d1, "id"@));
    assert(find_val(d1, "id"@) == find_val(d2, "id"@));
    assert(find_val(d2, "id"@) == find_val(d3, "id"@));
    match r.id {
        Some(i) => {
            assert(d3[0] == ms[3]);
            assert(ms[3].0 == "id"@);
            assert(find_val(d3, "id"@) == Some(id_jsonval(i)));
            match i {
                IdView::StringVal(t) => {
                    assert(id_from_json(id_jsonval(i)) == Some(Some(i)));
                },
                IdView::IntegerVal(n) => {
                    assert(id_from_json(id_jsonval(i)) == Some(Some(i)));
                },
            }
        },
        None => {
            assert(d3.len() == 0);
            assert(find_val(d3, "id"@) is None);
        },
    }
    assert(req_from_json(req_jsonval(r)) == Some(r));
}

/// The error object member keys, pairwise distinct.
proof fn lemma_err_keys()
    ensures
        "code"@.len() == 4,
        "message"@.len() == 7,
        "data"@.len() == 4,
        "code"@ != "message"@,
        "code"@ != "data"@,
        "message"@ != "data"@,
{
    reveal_strlit("code");
    reveal_strlit("message");
    reveal_strlit("data");
    assert("code"@[0] == 'c');
    assert("data"@[0] == 'd');
}

/// Encoding an error object and reading the value back yields the
/// object, and the encoded object is well-formed.
proof fn lemma_err_round_trip(e: ErrView)
    requires
        wf_err(e),
        match e.data {
            Some(d) => d != JsonView::Null,
            None => true,
        },
    ensures
        err_from_json(err_jsonval(e)) == Some(e),
        wf_json(err_jsonval(e)),
{
    let ms = err_members(e);
    lemma_err_keys();
    lemma_wf_members(ms);
    assert forall|i: int| 0 <= i < ms.len() implies wf_json(#[trigger] ms[i].1) by {
        if i == 0 {
            if e.code < 0 {
                assert(ms[0].1 == JsonView::Int(e.code as i64));
                assert((e.code as i64) < 0);
            } else {
                assert(ms[0].1 == JsonView::UInt(e.code as u64));
            }
        } else if i == 1 {
        } else {
            assert(ms[2].1 == e.data->0);
        }
    }
    assert(wf_json(err_jsonval(e)));
    let d1 = ms.drop_first();
    let d2 = d1.drop_first();
    assert(ms[0].0 == "code"@);
    assert(d1[0] == ms[1]);
    assert(find_val(ms, "code"@) == Some(int_jsonval(e.code)));
    assert(find_val(ms, "message"@) == find_val(d1, "message"@));
    assert(find_val(d1, "message"@) == Some(JsonView::Text(e.message)));
    assert(find_val(ms, "data"@) == find_val(d1, "data"@));
    assert(find_val(d1, "data"@) == find_val(d2, "data"@));
    match e.data {
        Some(d) => {
            assert(d2[0] == ms[2]);
            assert(ms[2].0 == "data"@);
            assert(find_val(d2, "data"@) == Some(d));
        },
        None => {
            assert(d2.len() == 0);
            assert(find_val(d2, "data"@) is None);
        },
    }
    if e.code < 0 {
        assert(int_jsonval(e.code) == JsonView::Int(e.code as i64));
        assert((e.code as i64) as int == e.code);
    } else {
        assert(int_jsonval(e.code) == JsonView::UInt(e.code as u64));
        assert((e.code as u64) as int == e.code);
        assert(e.code as u64 <= i64::MAX);
    }
    assert(err_from_json(err_jsonval(e)) == Some(e));
}

/// The response member keys, pairwise distinct.
proof fn lemma_resp_keys()
    ensures
        "jsonrpc"@.len() == 7,
        "result"@.len() == 6,
        "error"@.len() == 5,
        "id"@.len() == 2,
        "jsonrpc"@ != "result"@,
        "jsonrpc"@ != "error"@,
        "jsonrpc"@ != "id"@,
        "result"@ != "error"@,
        "result"@ != "id"@,
        "error"@ != "id"@,
{
    reveal_strlit("jsonrpc");
    reveal_strlit("result");
    reveal_strlit("error");
    reveal_strlit("id");
}

/// Encoding a response and decoding the text yields the response back,
/// field for field.  A `null` result, or `null` error data, is left
/// out: on the wire each is the same as absent.
pub proof fn lemma_response_round_trip(r: RespView)
    requires
        wf_resp(r),
        match r.result {
            Some(v) => v != JsonView::Null,
            None => true,
        },
        match r.error {
            Some(e) => match e.data {
                Some(d) => d != JsonView::Null,
                None => true,
            },
            None => true,
        },
    ensures
        resp_parse(resp_chars(r)) == Some(r),
{
    let ms = resp_members(r);
    lemma_resp_keys();
    if r.error is Some {
        lemma_err_round_trip(r.error->0);
    }
    lemma_wf_members(ms);
    let idm = (
        "id"@,
        match r.id {
            Some(i) => id_jsonval(i),
            None => JsonView::Null,
        },
    );
    assert forall|i: int| 0 <= i < ms.len() implies wf_json(#[trigger] ms[i].1) by {
        assert(ms[ms.len() - 1] == idm);
        match r.id {
            Some(iv) => {
                match iv {
                    IdView::StringVal(t) => {},
                    IdView::IntegerVal(n) => {},
                }
            },
            None => {},
        }
        match (r.result, r.error) {
            (Some(v), Some(e)) => {
                assert(ms[1].1 == v);
                assert(ms[2].1 == err_jsonval(e));
            },
            (Some(v), None) => {
                assert(ms[1].1 == v);
            },
            (None, Some(e)) => {
                assert(ms[1].1 == err_jsonval(e));
            },
            (None, None) => {},
        }
    }
    assert(wf_json(resp_jsonval(r)));
    lemma_json_round_trip(resp_jsonval(r));
    let d1 = ms.drop_first();
    let d2 = d1.drop_first();
    let d3 = d2.drop_first();
    assert(ms[0].0 == "jsonrpc"@);
    assert(find_val(ms, "jsonrpc"@) == Some(JsonView::Text(r.jsonrpc)));
    assert(d1[0] == ms[1]);
    match (r.result, r.error) {
        (Some(v), Some(e)) => {
            assert(d2[0] == ms[2]);
            assert(d3[0] == ms[3]);
            assert(ms[1] == ("result"@, v));
            assert(ms[2] == ("error"@, err_jsonval(e)));
            assert(ms[3] == idm);
            assert(find_val(ms, "result"@) == find_val(d1, "result"@));
            assert(find_val(d1, "result"@) == Some(v));
            assert(find_val(ms, "error"@) == find_val(d1, "error"@));
            assert(find_val(d1, "error"@) == find_val(d2, "error"@));
            assert(find_val(d2, "error"@) == Some(err_jsonval(e)));
            assert(find_val(ms, "id"@) == find_val(d1, "id"@));
            assert(find_val(d1, "id"@) == find_val(d2, "id"@));
            assert(find_val(d2, "id"@) == find_val(d3, "id"@));
            assert(find_val(d3, "id"@) == Some(idm.1));
        },
        (Some(v), None) => {
            assert(d2[0] == ms[2]);
            assert(ms[1] == ("result"@, v));
            assert(ms[2] == idm);
            assert(find_val(ms, "result"@) == find_val(d1, "result"@));
            assert(find_val(d1, "result"@) == Some(v));
            assert(find_val(ms, "error"@) == find_val(d1, "error"@));
            assert(find_val(d1, "error"@) == find_val(d2, "error"@));
            assert(d2.len() == 1);
            assert(d2[0] == ms[2]);
            assert(find_val(d2, "error"@) == find_val(d3, "error"@));
            assert(d3.len() == 0);
            assert(find_val(d3, "error"@) is None);
            assert(find_val(ms, "id"@) == find_val(d1, "id"@));
            assert(find_val(d1, "id"@) == find_val(d2, "id"@));
            assert(find_val(d2, "id"@) == Some(idm.1));
        },
        (None, Some(e)) => {
            assert(d2[0] == ms[2]);
            assert(ms[1] == ("error"@, err_jsonval(e)));
            assert(ms[2] == idm);
            assert(find_val(ms, "result"@) == find_val(d1, "result"@));
            assert(find_val(d1, "result"@) == find_val(d2, "result"@));
            assert(d2.len() == 1);
            assert(d2[0] == ms[2]);
            assert(find_val(d2, "result"@) == find_val(d3, "result"@));
            assert(d3.len() == 0);
            assert(find_val(d3, "result"@) is None);
            assert(find_val(ms, "error"@) == find_val(d1, "error"@));
            assert(find_val(d1, "error"@) == Some(err_jsonval(e)));
            assert(find_val(ms, "id"@) == find_val(d1, "id"@));
            assert(find_val(d1, "id"@) == find_val(d2, "id"@));
            assert(find_val(d2, "id"@) == Some(idm.1));
        },
        (None, None) => {
            assert(ms[1] == idm);
            assert(find_val(ms, "result"@) == find_val(d1, "result"@));
            assert(d1.len() == 1);
            assert(d1[0] == ms[1]);
            assert(find_val(d1, "result"@) == find_val(d2, "result"@));
            assert(d2.len() == 0);
            assert(find_val(d2, "result"@) is None);
            assert(find_val(ms, "error"@) == find_val(d1, "error"@));
            assert(find_val(d1, "error"@) == find_val(d2, "error"@));
            assert(find_val(d2, "error"@) is None);
            assert(find_val(ms, "id"@) == find_val(d1, "id"@));
            assert(find_val(d1, "id"@) == Some(idm.1));
        },
    }
    match r.id {
        Some(i) => {
            match i {
                IdView::StringVal(t) => {
                    assert(id_from_json(id_jsonval(i)) == Some(Some(i)));
                },
                IdView::IntegerVal(n) => {
                    assert(id_from_json(id_jsonval(i)) == Some(Some(i)));
                },
            }
        },
        None => {
            assert(id_from_json(JsonView::Null) == Some(None::<IdView>));
        },
    }
    assert(resp_from_json(resp_jsonval(r)) == Some(r));
}

} // verus!
