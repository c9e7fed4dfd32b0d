//! The executable JSON encoder, proved to produce exactly `json_chars`.

use vstd::prelude::*;

use crate::json::JsonValue;
use crate::json::JsonView;
use crate::json::arr_prefix;
use crate::json::arr_views;
use crate::json::dec_digits;
use crate::json::digit_char;
use crate::json::esc_char;
use crate::json::esc_prefix;
use crate::json::esc_str;
use crate::json::hex_char;
use crate::json::json_chars;
use crate::json::json_view;
use crate::json::lemma_arr_views;
use crate::json::lemma_obj_views;
use crate::json::lemma_wf_list;
use crate::json::lemma_wf_members;
use crate::json::member_chars;
use crate::json::obj_prefix;
use crate::json::obj_views;
use crate::json::wf_json;

verus! {

fn digit_of(d: u64) -> (c: char)
    requires
        d < 10,
    ensures
        c == digit_char(d as int),
{
    match d {
        0 => '0',
        1 => '1',
        2 => '2',
        3 => '3',
        4 => '4',
        5 => '5',
        6 => '6',
        7 => '7',
        8 => '8',
        _ => '9',
    }
}

fn hex_of(d: u64) -> (c: char)
    requires
        d < 16,
    ensures
        c == hex_char(d as int),
{
    if d < 10 {
        digit_of(d)
    } else {
        match d {
            10 => 'a',
            11 => 'b',
            12 => 'c',
            13 => 'd',
            14 => 'e',
            _ => 'f',
        }
    }
}

/// Appends the decimal digits of `n`.
fn push_u64(n: u64, out: &mut Vec<char>)
    ensures
        final(out)@ == old(out)@ + dec_digits(n as int),
    decreases n,
{
    if n < 10 {
        out.push(digit_of(n));
        proof {
            assert(final(out)@ =~= old(out)@ + dec_digits(n as int));
        }
    } else {
        push_u64(n / 10, out);
        out.push(digit_of(n % 10));
        proof {
            assert(final(out)@ =~= old(out)@ + dec_digits(n as int));
        }
    }
}

/// Appends the wire form of one character of a string body.
fn push_escaped(c: char, out: &mut Vec<char>)
    ensures
        final(out)@ == old(out)@ + esc_char(c),
{
    if c == '"' {
        out.push('\\');
        out.push('"');
    } else if c == '\\' {
        out.push('\\');
        out.push('\\');
    } else if c == '\u{8}' {
        out.push('\\');
        out.push('b');
    } else if c == '\t' {
        out.push('\\');
        out.push('t');
    } else if c == '\n' {
        out.push('\\');
        out.push('n');
    } else if c == '\u{c}' {
        out.push('\\');
        out.push('f');
    } else if c == '\r' {
        out.push('\\');
        out.push('r');
    } else if (c as u32) < 0x20 {
        out.push('\\');
        out.push('u');
        out.push('0');
        out.push('0');
        out.push(hex_of((c as u32 / 16) as u64));
        out.push(hex_of((c as u32 % 16) as u64));
    } else {
        out.push(c);
    }
    proof {
        assert(final(out)@ =~= old(out)@ + esc_char(c));
    }
}

/// Appends the escaped body of a string, quotes not included.
fn push_str_body(s: &str, out: &mut Vec<char>)
    ensures
        final(out)@ == old(out)@ + esc_str(s@),
{
    let n = s.unicode_len();
    let mut i: usize = 0;
    while i < n
        invariant
            n == s@.len(),
            i <= n,
            out@ == old(out)@ + esc_prefix(s@, i as int),
        decreases n - i,
    {
        let c = s.get_char(i);
        push_escaped(c, out);
        proof {
            assert(out@ =~= old(out)@ + esc_prefix(s@, i + 1));
        }
        i = i + 1;
    }
}

/// Appends the wire text of a JSON value.
fn push_json(v: &JsonValue, out: &mut Vec<char>)
    requires
        wf_json(v@),
    ensures
        final(out)@ == old(out)@ + json_chars(v@),
    decreases *v,
{
    match v {
        JsonValue::Null => {
            out.push('n');
            out.push('u');
            out.push('l');
            out.push('l');
            proof {
                assert(final(out)@ =~= old(out)@ + json_chars(v@));
            }
        },
        JsonValue::Bool(b) => {
            if *b {
                out.push('t');
                out.push('r');
                out.push('u');
                out.push('e');
            } else {
                out.push('f');
                out.push('a');
                out.push('l');
                out.push('s');
                out.push('e');
            }
            proof {
                assert(final(out)@ =~= old(out)@ + json_chars(v@));
            }
        },
        JsonValue::UInt(n) => {
            push_u64(*n, out);
        },
        JsonValue::Int(i) => {
            out.push('-');
            let m: u64 = if *i == i64::MIN {
                9223372036854775808u64
            } else {
                (-*i) as u64
            };
            push_u64(m, out);
            proof {
                assert(final(out)@ =~= old(out)@ + json_chars(v@));
            }
        },
        JsonValue::Text(t) => {
            out.push('"');
            push_str_body(t.as_str(), out);
            out.push('"');
            proof {
                assert(final(out)@ =~= old(out)@ + json_chars(v@));
            }
        },
        JsonValue::Array(es) => {
            proof {
                lemma_arr_views(es@, es@.len() as int);
            }
            out.push('[');
            let ghost vs = arr_views(es@, es@.len() as int);
            let mut i: usize = 0;
            while i < es.len()
                invariant
                    wf_json(v@),
                    v@ == JsonView::Array(vs),
                    vs.len() == es@.len(),
                    forall|k: int| 0 <= k < es@.len() ==> vs[k] == json_view(#[trigger] es@[k]),
                    i <= es.len(),
                    *v == JsonValue::Array(*es),
                    out@ == old(out)@ + seq!['['] + arr_prefix(vs, i as int),
                decreases es.len() - i,
            {
                if i > 0 {
                    out.push(',');
                }
                proof {
                    lemma_wf_list(vs);
                    assert(wf_json(vs[i as int]));
                    assert(decreases_to!(*v => es@[i as int]));
                }
                push_json(&es[i], out);
                proof {
                    assert(out@ =~= old(out)@ + seq!['['] + arr_prefix(vs, i + 1));
                }
                i = i + 1;
            }
            out.push(']');
            proof {
                assert(final(out)@ =~= old(out)@ + json_chars(v@));
            }
        },
        JsonValue::Object(ms) => {
            proof {
                lemma_obj_views(ms@, ms@.len() as int);
            }
            out.push('{');
            let ghost vs = obj_views(ms@, ms@.len() as int);
            let mut i: usize = 0;
            while i < ms.len()
                invariant
                    wf_json(v@),
                    v@ == JsonView::Object(vs),
                    vs.len() == ms@.len(),
                    forall|k: int| 0 <= k < ms@.len() ==> vs[k]
                        == (#[trigger] ms@[k].0@, json_view(ms@[k].1)),
                    i <= ms.len(),
                    *v == JsonValue::Object(*ms),
                    out@ == old(out)@ + seq!['{'] + obj_prefix(vs, i as int),
                decreases ms.len() - i,
            {
                if i > 0 {
                    out.push(',');
                }
                out.push('"');
                push_str_body(ms[i].0.as_str(), out);
                out.push('"');
                out.push(':');
                proof {
                    lemma_wf_members(vs);
                    assert(wf_json(vs[i as int].1));
                    assert(decreases_to!(*v => ms@[i as int].1));
                }
                push_json(&ms[i].1, out);
                proof {
                    assert(member_chars(vs[i as int])
                        =~= seq!['"'] + esc_str(ms@[i as int].0@) + seq!['"', ':']
                            + json_chars(json_view(ms@[i as int].1)));
                    assert(out@ =~= old(out)@ + seq!['{'] + obj_prefix(vs, i + 1));
                }
                i = i + 1;
            }
            out.push('}');
            proof {
                assert(final(out)@ =~= old(out)@ + json_chars(v@));
            }
        },
    }
}

/// The wire text of a JSON value, as a character sequence.
pub fn json_to_chars(v: &JsonValue) -> (out: Vec<char>)
    requires
        wf_json(v@),
    ensures
        out@ == json_chars(v@),
{
    let mut out: Vec<char> = Vec::new();
    push_json(v, &mut out);
    proof {
        assert(out@ =~= json_chars(v@));
    }
    out
}

} // verus!
