//! The JSON parser: a recursive-descent specification of decoding, and an
//! executable parser proved to follow it exactly.
//!
//! The grammar read here is the crate's wire format: `null`, `true`,
//! `false`, integral numbers, strings (with the short escapes and the
//! `\u` escapes, surrogate pairs included), arrays and objects, with
//! whitespace between tokens.  Fractional numbers, exponents and
//! unpaired surrogate escapes are not part of the format and are
//! rejected.

use vstd::prelude::*;

use crate::json::JsonValue;
use crate::json::JsonView;
use crate::json::arr_views;
use crate::json::lemma_arr_views_cons;
use crate::json::lemma_obj_views_cons;
use crate::json::lemma_wf_list_cons;
use crate::json::lemma_wf_members_cons;
use crate::json::obj_views;
use crate::json::wf_json;
use crate::json::wf_list;
use crate::json::wf_members;
use crate::text::string_from_chars;

verus! {

/// JSON insignificant whitespace.
pub open spec fn is_ws(c: char) -> bool {
    c == ' ' || c == '\t' || c == '\n' || c == '\r'
}

/// A decimal digit.
pub open spec fn is_digit(c: char) -> bool {
    0x30 <= (c as u32) && (c as u32) <= 0x39
}

/// The value of a decimal digit.
pub open spec fn digit_val(c: char) -> int {
    (c as u32) as int - 0x30
}

/// A hexadecimal digit (lower or upper case).
pub open spec fn is_hex(c: char) -> bool {
    is_digit(c) || (0x61 <= (c as u32) && (c as u32) <= 0x66) || (0x41 <= (c as u32) && (c as u32)
        <= 0x46)
}

/// The value of a hexadecimal digit.
pub open spec fn hex_val(c: char) -> int {
    if is_digit(c) {
        digit_val(c)
    } else if 0x61 <= (c as u32) && (c as u32) <= 0x66 {
        (c as u32) as int - 0x61 + 10
    } else {
        (c as u32) as int - 0x41 + 10
    }
}

/// Reads a run of digits left to right, folding them onto `acc`; stops at
/// the first character that is not a digit.  Returns the folded value and
/// the position after the run.
pub open spec fn parse_digits(s: Seq<char>, pos: int, acc: int) -> (int, int)
    decreases s.len() - pos,
{
    if pos < 0 || pos >= s.len() || !is_digit(s[pos]) {
        (acc, pos)
    } else {
        parse_digits(s, pos + 1, acc * 10 + digit_val(s[pos]))
    }
}

/// The character a short escape stands for, if the escape is legal.
pub open spec fn unescaped(e: char) -> Option<char> {
    if e == '"' {
        Some('"')
    } else if e == '\\' {
        Some('\\')
    } else if e == '/' {
        Some('/')
    } else if e == 'b' {
        Some('\u{8}')
    } else if e == 'f' {
        Some('\u{c}')
    } else if e == 'n' {
        Some('\n')
    } else if e == 'r' {
        Some('\r')
    } else if e == 't' {
        Some('\t')
    } else {
        None
    }
}

/// Reads the body of a string, starting just after the opening quote;
/// returns the decoded characters and the position after the closing
/// quote.
pub open spec fn parse_str_chars(s: Seq<char>, pos: int) -> Option<(Seq<char>, int)>
    decreases s.len() - pos,
{
    if pos < 0 || pos >= s.len() {
        None
    } else if s[pos] == '"' {
        Some((Seq::empty(), pos + 1))
    } else if s[pos] == '\\' {
        if pos + 2 <= s.len() && s[pos + 1] == 'u' {
            if pos + 6 <= s.len() && is_hex(s[pos + 2]) && is_hex(s[pos + 3]) && is_hex(
                s[pos + 4],
            ) && is_hex(s[pos + 5]) {
                let code = hex_val(s[pos + 2]) * 0x1000 + hex_val(s[pos + 3]) * 0x100 + hex_val(
                    s[pos + 4],
                ) * 0x10 + hex_val(s[pos + 5]);
                if 0xD800 <= code < 0xDC00 {
                    // a high surrogate: its paired low surrogate must follow
                    if pos + 12 <= s.len() && s[pos + 6] == '\\' && s[pos + 7] == 'u' && is_hex(
                        s[pos + 8],
                    ) && is_hex(s[pos + 9]) && is_hex(s[pos + 10]) && is_hex(s[pos + 11]) {
                        let low = hex_val(s[pos + 8]) * 0x1000 + hex_val(s[pos + 9]) * 0x100
                            + hex_val(s[pos + 10]) * 0x10 + hex_val(s[pos + 11]);
                        if 0xDC00 <= low < 0xE000 {
                            let scalar = 0x10000 + (code - 0xD800) * 0x400 + (low - 0xDC00);
                            match parse_str_chars(s, pos + 12) {
                                Some((t, j)) => Some((seq![scalar as char] + t, j)),
                                None => None,
                            }
                        } else {
                            None
                        }
                    } else {
                        None
                    }
                } else if 0xDC00 <= code < 0xE000 {
                    // an unpaired low surrogate
                    None
                } else {
                    match parse_str_chars(s, pos + 6) {
                        Some((t, j)) => Some((seq![code as char] + t, j)),
                        None => None,
                    }
                }
            } else {
                None
            }
        } else if pos + 2 <= s.len() {
            match unescaped(s[pos + 1]) {
                Some(c) => match parse_str_chars(s, pos + 2) {
                    Some((t, j)) => Some((seq![c] + t, j)),
                    None => None,
                },
                None => None,
            }
        } else {
            None
        }
    } else if (s[pos] as u32) < 0x20 {
        None
    } else {
        match parse_str_chars(s, pos + 1) {
            Some((t, j)) => Some((seq![s[pos]] + t, j)),
            None => None,
        }
    }
}

/// Reads one JSON value, skipping leading whitespace.
pub open spec fn parse_value(s: Seq<char>, pos: int) -> Option<(JsonView, int)>
    decreases s.len() - pos, 0int,
{
    if pos < 0 || pos >= s.len() {
        None
    } else if is_ws(s[pos]) {
        parse_value(s, pos + 1)
    } else if s[pos] == 'n' {
        if pos + 4 <= s.len() && s.subrange(pos, pos + 4) == seq!['n', 'u', 'l', 'l'] {
            Some((JsonView::Null, pos + 4))
        } else {
            None
        }
    } else if s[pos] == 't' {
        if pos + 4 <= s.len() && s.subrange(pos, pos + 4) == seq!['t', 'r', 'u', 'e'] {
            Some((JsonView::Bool(true), pos + 4))
        } else {
            None
        }
    } else if s[pos] == 'f' {
        if pos + 5 <= s.len() && s.subrange(pos, pos + 5) == seq!['f', 'a', 'l', 's', 'e'] {
            Some((JsonView::Bool(false), pos + 5))
        } else {
            None
        }
    } else if s[pos] == '"' {
        match parse_str_chars(s, pos + 1) {
            Some((t, j)) => Some((JsonView::Text(t), j)),
            None => None,
        }
    } else if s[pos] == '-' {
        if pos + 1 < s.len() && is_digit(s[pos + 1]) {
            if s[pos + 1] == '0' {
                Some((JsonView::UInt(0), pos + 2))
            } else {
                let (v, j) = parse_digits(s, pos + 1, 0);
                if v <= 0x8000000000000000 {
                    Some((JsonView::Int((-v) as i64), j))
                } else {
                    None
                }
            }
        } else {
            None
        }
    } else if s[pos] == '0' {
        Some((JsonView::UInt(0), pos + 1))
    } else if is_digit(s[pos]) {
        let (v, j) = parse_digits(s, pos, 0);
        if v <= u64::MAX {
            Some((JsonView::UInt(v as u64), j))
        } else {
            None
        }
    } else if s[pos] == '[' {
        match parse_arr(s, pos + 1) {
            Some((es, j)) => Some((JsonView::Array(es), j)),
            None => None,
        }
    } else if s[pos] == '{' {
        match parse_obj(s, pos + 1) {
            Some((ms, j)) => Some((JsonView::Object(ms), j)),
            None => None,
        }
    } else {
        None
    }
}

/// Reads the elements of an array, starting just after the bracket.
pub open spec fn parse_arr(s: Seq<char>, pos: int) -> Option<(Seq<JsonView>, int)>
    decreases s.len() - pos, 1int,
{
    if pos < 0 || pos >= s.len() {
        None
    } else if is_ws(s[pos]) {
        parse_arr(s, pos + 1)
    } else if s[pos] == ']' {
        Some((Seq::empty(), pos + 1))
    } else {
        match parse_value(s, pos) {
            Some((v, j)) => if pos < j && j <= s.len() {
                match parse_arr_tail(s, j) {
                    Some((es, k)) => Some((seq![v] + es, k)),
                    None => None,
                }
            } else {
                None
            },
            None => None,
        }
    }
}

/// After one array element: either the closing bracket or a comma and
/// the elements that follow.
pub open spec fn parse_arr_tail(s: Seq<char>, pos: int) -> Option<(Seq<JsonView>, int)>
    decreases s.len() - pos, 1int,
{
    if pos < 0 || pos >= s.len() {
        None
    } else if is_ws(s[pos]) {
        parse_arr_tail(s, pos + 1)
    } else if s[pos] == ']' {
        Some((Seq::empty(), pos + 1))
    } else if s[pos] == ',' {
        match parse_value(s, pos + 1) {
            Some((v, j)) => if pos + 1 < j && j <= s.len() {
                match parse_arr_tail(s, j) {
                    Some((es, k)) => Some((seq![v] + es, k)),
                    None => None,
                }
            } else {
                None
            },
            None => None,
        }
    } else {
        None
    }
}

/// Reads one object member: quoted key, colon, value.
pub open spec fn parse_member(s: Seq<char>, pos: int) -> Option<((Seq<char>, JsonView), int)>
    decreases s.len() - pos, 1int,
{
    if pos < 0 || pos >= s.len() {
        None
    } else if is_ws(s[pos]) {
        parse_member(s, pos + 1)
    } else if s[pos] == '"' {
        match parse_str_chars(s, pos + 1) {
            Some((key, j)) => if pos + 1 < j && j <= s.len() {
                match parse_member_val(s, j) {
                    Some((v, k)) => Some(((key, v), k)),
                    None => None,
                }
            } else {
                None
            },
            None => None,
        }
    } else {
        None
    }
}

/// After a member's key: the colon and the value.
pub open spec fn parse_member_val(s: Seq<char>, pos: int) -> Option<(JsonView, int)>
    decreases s.len() - pos, 1int,
{
    if pos < 0 || pos >= s.len() {
        None
    } else if is_ws(s[pos]) {
        parse_member_val(s, pos + 1)
    } else if s[pos] == ':' {
        parse_value(s, pos + 1)
    } else {
        None
    }
}

/// Reads the members of an object, starting just after the brace.
pub open spec fn parse_obj(s: Seq<char>, pos: int) -> Option<(Seq<(Seq<char>, JsonView)>, int)>
    decreases s.len() - pos, 2int,
{
    if pos < 0 || pos >= s.len() {
        None
    } else if is_ws(s[pos]) {
        parse_obj(s, pos + 1)
    } else if s[pos] == '}' {
        Some((Seq::empty(), pos + 1))
    } else {
        match parse_member(s, pos) {
            Some((m, k)) => if pos < k && k <= s.len() {
                match parse_obj_tail(s, k) {
                    Some((ms, e)) => Some((seq![m] + ms, e)),
                    None => None,
                }
            } else {
                None
            },
            None => None,
        }
    }
}

/// After one object member: either the closing brace or a comma and the
/// members that follow.
pub open spec fn parse_obj_tail(s: Seq<char>, pos: int) -> Option<(Seq<(Seq<char>, JsonView)>, int)>
    decreases s.len() - pos, 2int,
{
    if pos < 0 || pos >= s.len() {
        None
    } else if is_ws(s[pos]) {
        parse_obj_tail(s, pos + 1)
    } else if s[pos] == '}' {
        Some((Seq::empty(), pos + 1))
    } else if s[pos] == ',' {
        match parse_member(s, pos + 1) {
            Some((m, k)) => if pos + 1 < k && k <= s.len() {
                match parse_obj_tail(s, k) {
                    Some((ms, e)) => Some((seq![m] + ms, e)),
                    None => None,
                }
            } else {
                None
            },
            None => None,
        }
    } else {
        None
    }
}


/// `parse_digits` folds every further digit onto a value no smaller than
/// the accumulator it starts from, and never walks backwards.
pub proof fn lemma_digits_min(s: Seq<char>, pos: int, acc: int)
    requires
        acc >= 0,
    ensures
        parse_digits(s, pos, acc).0 >= acc,
        parse_digits(s, pos, acc).1 >= pos,
        pos <= s.len() ==> parse_digits(s, pos, acc).1 <= s.len(),
    decreases s.len() - pos,
{
    if 0 <= pos && pos < s.len() && is_digit(s[pos]) {
        lemma_digits_min(s, pos + 1, acc * 10 + digit_val(s[pos]));
    }
}

/// Reads a digit run; hands back its value and end, or nothing when the
/// value does not fit in sixty-four bits.
fn p_digits(s: &Vec<char>, pos: usize) -> (r: Option<(u64, usize)>)
    requires
        pos <= s@.len(),
    ensures
        match r {
            Some((v, j)) => parse_digits(s@, pos as int, 0) == (v as int, j as int) && pos <= j
                <= s@.len(),
            None => parse_digits(s@, pos as int, 0).0 > u64::MAX,
        },
{
    let mut i: usize = pos;
    let mut acc: u64 = 0;
    loop
        invariant
            pos <= i <= s@.len(),
            parse_digits(s@, pos as int, 0) == parse_digits(s@, i as int, acc as int),
        decreases s@.len() - i,
    {
        if i >= s.len() {
            return Some((acc, i));
        }
        let u = s[i] as u32;
        if u < 0x30 || u > 0x39 {
            return Some((acc, i));
        }
        let d: u64 = (u - 0x30) as u64;
        if acc < 1844674407370955161 || (acc == 1844674407370955161 && d <= 5) {
            acc = acc * 10 + d;
            i = i + 1;
        } else {
            proof {
                lemma_digits_min(s@, i + 1, acc * 10 + digit_val(s@[i as int]));
            }
            return None;
        }
    }
}

/// Reads a string body from just after the opening quote.
fn p_str_chars(s: &Vec<char>, pos: usize) -> (r: Option<(Vec<char>, usize)>)
    requires
        pos <= s@.len(),
    ensures
        match r {
            Some((t, j)) => parse_str_chars(s@, pos as int) == Some((t@, j as int)) && pos < j
                <= s@.len(),
            None => parse_str_chars(s@, pos as int) is None,
        },
{
    let mut i: usize = pos;
    let mut acc: Vec<char> = Vec::new();
    loop
        invariant
            pos <= i <= s@.len(),
            parse_str_chars(s@, pos as int) == (match parse_str_chars(s@, i as int) {
                Some((t, j)) => Some((acc@ + t, j)),
                None => None,
            }),
        decreases s@.len() - i,
    {
        if i >= s.len() {
            return None;
        }
        let c = s[i];
        if c == '"' {
            proof {
                assert(acc@ + Seq::<char>::empty() =~= acc@);
            }
            return Some((acc, i + 1));
        } else if c == '\\' {
            if s.len() - i < 2 {
                return None;
            }
            let e = s[i + 1];
            if e == 'u' {
                if s.len() - i < 6 {
                    return None;
                }
                let h0 = hexv(s[i + 2]);
                let h1 = hexv(s[i + 3]);
                let h2 = hexv(s[i + 4]);
                let h3 = hexv(s[i + 5]);
                match (h0, h1, h2, h3) {
                    (Some(a), Some(b), Some(cc), Some(d)) => {
                        let code: u32 = a * 0x1000 + b * 0x100 + cc * 0x10 + d;
                        if 0xD800 <= code && code < 0xDC00 {
                            if s.len() - i < 12 {
                                return None;
                            }
                            if !(s[i + 6] == '\\' && s[i + 7] == 'u') {
                                return None;
                            }
                            let g0 = hexv(s[i + 8]);
                            let g1 = hexv(s[i + 9]);
                            let g2 = hexv(s[i + 10]);
                            let g3 = hexv(s[i + 11]);
                            match (g0, g1, g2, g3) {
                                (Some(a2), Some(b2), Some(c2), Some(d2)) => {
                                    let low: u32 = a2 * 0x1000 + b2 * 0x100 + c2 * 0x10 + d2;
                                    if 0xDC00 <= low && low < 0xE000 {
                                        let scalar: u32 = 0x10000 + (code - 0xD800) * 0x400 + (
                                        low - 0xDC00);
                                        match char::from_u32(scalar) {
                                            Some(ch) => {
                                                proof {
                                                    lemma_char_eq_code(
                                                        ch,
                                                        (scalar as int) as char,
                                                    );
                                                    let rest = parse_str_chars(s@, i + 12);
                                                    if let Some((t, j)) = rest {
                                                        assert(acc@ + (seq![ch] + t)
                                                            =~= acc@.push(ch) + t);
                                                    }
                                                }
                                                acc.push(ch);
                                                i = i + 12;
                                            },
                                            None => {
                                                proof {
                                                    assert(false);
                                                }
                                                return None;
                                            },
                                        }
                                    } else {
                                        return None;
                                    }
                                },
                                _ => {
                                    return None;
                                },
                            }
                        } else if 0xDC00 <= code && code < 0xE000 {
                            return None;
                        } else {
                            match char::from_u32(code) {
                                Some(ch) => {
                                    proof {
                                        lemma_char_eq_code(ch, (code as int) as char);
                                        let rest = parse_str_chars(s@, i + 6);
                                        if let Some((t, j)) = rest {
                                            assert(acc@ + (seq![ch] + t) =~= acc@.push(ch) + t);
                                        }
                                    }
                                    acc.push(ch);
                                    i = i + 6;
                                },
                                None => {
                                    proof {
                                        assert(false);
                                    }
                                    return None;
                                },
                            }
                        }
                    },
                    _ => {
                        return None;
                    },
                }
            } else {
                let ch = match e {
                    '"' => '"',
                    '\\' => '\\',
                    '/' => '/',
                    'b' => '\u{8}',
                    'f' => '\u{c}',
                    'n' => '\n',
                    'r' => '\r',
                    't' => '\t',
                    _ => {
                        return None;
                    },
                };
                proof {
                    let rest = parse_str_chars(s@, i + 2);
                    if let Some((t, j)) = rest {
                        assert(acc@ + (seq![ch] + t) =~= acc@.push(ch) + t);
                    }
                }
                acc.push(ch);
                i = i + 2;
            }
        } else if (c as u32) < 0x20 {
            return None;
        } else {
            proof {
                let rest = parse_str_chars(s@, i + 1);
                if let Some((t, j)) = rest {
                    assert(acc@ + (seq![c] + t) =~= acc@.push(c) + t);
                }
            }
            acc.push(c);
            i = i + 1;
        }
    }
}

/// Two characters are the same exactly when their codes are.
pub proof fn lemma_char_eq_code(a: char, b: char)
    ensures
        (a == b) <==> (a as u32 == b as u32),
{
}

/// The value of one hexadecimal digit character, if it is one.
fn hexv(c: char) -> (r: Option<u32>)
    ensures
        match r {
            Some(v) => is_hex(c) && v as int == hex_val(c) && v < 16,
            None => !is_hex(c),
        },
{
    let u = c as u32;
    if 0x30 <= u && u <= 0x39 {
        Some(u - 0x30)
    } else if 0x61 <= u && u <= 0x66 {
        Some(u - 0x61 + 10)
    } else if 0x41 <= u && u <= 0x46 {
        Some(u - 0x41 + 10)
    } else {
        None
    }
}

/// Reads one JSON value, skipping leading whitespace.
pub fn p_value(s: &Vec<char>, pos: usize) -> (r: Option<(JsonValue, usize)>)
    requires
        pos <= s@.len(),
    ensures
        match r {
            Some((v, j)) => parse_value(s@, pos as int) == Some((v@, j as int)) && wf_json(v@)
                && pos < j <= s@.len(),
            None => parse_value(s@, pos as int) is None,
        },
    decreases s@.len() - pos, 0int,
{
    if pos >= s.len() {
        return None;
    }
    let c = s[pos];
    if c == ' ' || c == '\t' || c == '\n' || c == '\r' {
        return p_value(s, pos + 1);
    }
    if c == 'n' {
        if s.len() - pos >= 4 && s[pos + 1] == 'u' && s[pos + 2] == 'l' && s[pos + 3] == 'l' {
            proof {
                assert(s@.subrange(pos as int, pos + 4) =~= seq!['n', 'u', 'l', 'l']);
            }
            return Some((JsonValue::Null, pos + 4));
        } else {
            proof {
                if pos + 4 <= s@.len() {
                    assert(s@.subrange(pos as int, pos + 4)[1] == s@[pos + 1]);
                    assert(s@.subrange(pos as int, pos + 4)[2] == s@[pos + 2]);
                    assert(s@.subrange(pos as int, pos + 4)[3] == s@[pos + 3]);
                }
            }
            return None;
        }
    }
    if c == 't' {
        if s.len() - pos >= 4 && s[pos + 1] == 'r' && s[pos + 2] == 'u' && s[pos + 3] == 'e' {
            proof {
                assert(s@.subrange(pos as int, pos + 4) =~= seq!['t', 'r', 'u', 'e']);
            }
            return Some((JsonValue::Bool(true), pos + 4));
        } else {
            proof {
                if pos + 4 <= s@.len() {
                    assert(s@.subrange(pos as int, pos + 4)[1] == s@[pos + 1]);
                    assert(s@.subrange(pos as int, pos + 4)[2] == s@[pos + 2]);
                    assert(s@.subrange(pos as int, pos + 4)[3] == s@[pos + 3]);
                }
            }
            return None;
        }
    }
    if c == 'f' {
        if s.len() - pos >= 5 && s[pos + 1] == 'a' && s[pos + 2] == 'l' && s[pos + 3] == 's' && s[
            pos + 4] == 'e' {
            proof {
                assert(s@.subrange(pos as int, pos + 5) =~= seq!['f', 'a', 'l', 's', 'e']);
            }
            return Some((JsonValue::Bool(false), pos + 5));
        } else {
            proof {
                if pos + 5 <= s@.len() {
                    assert(s@.subrange(pos as int, pos + 5)[1] == s@[pos + 1]);
                    assert(s@.subrange(pos as int, pos + 5)[2] == s@[pos + 2]);
                    assert(s@.subrange(pos as int, pos + 5)[3] == s@[pos + 3]);
                    assert(s@.subrange(pos as int, pos + 5)[4] == s@[pos + 4]);
                }
            }
            return None;
        }
    }
    if c == '"' {
        match p_str_chars(s, pos + 1) {
            Some((t, j)) => {
                let st = string_from_chars(t);
                return Some((JsonValue::Text(st), j));
            },
            None => {
                return None;
            },
        }
    }
    if c == '-' {
        if s.len() - pos >= 2 {
            let dc = s[pos + 1];
            let d = dc as u32;
            if 0x30 <= d && d <= 0x39 {
                if dc == '0' {
                    return Some((JsonValue::UInt(0), pos + 2));
                }
                match p_digits(s, pos + 1) {
                    Some((v, j)) => {
                        proof {
                            lemma_char_eq_code(s@[pos + 1], '0');
                            assert(digit_val(s@[pos + 1]) >= 1);
                            lemma_digits_min(
                                s@,
                                pos + 2,
                                digit_val(s@[pos + 1]),
                            );
                        }
                        if v <= 9223372036854775808u64 {
                            let iv: i64 = if v == 9223372036854775808u64 {
                                i64::MIN
                            } else {
                                -(v as i64)
                            };
                            return Some((JsonValue::Int(iv), j));
                        } else {
                            return None;
                        }
                    },
                    None => {
                        return None;
                    },
                }
            } else {
                return None;
            }
        } else {
            return None;
        }
    }
    if c == '0' {
        return Some((JsonValue::UInt(0), pos + 1));
    }
    let cu = c as u32;
    if 0x30 <= cu && cu <= 0x39 {
        match p_digits(s, pos) {
            Some((v, j)) => {
                proof {
                    lemma_digits_min(s@, pos + 1, digit_val(s@[pos as int]));
                }
                return Some((JsonValue::UInt(v), j));
            },
            None => {
                return None;
            },
        }
    }
    if c == '[' {
        match p_arr(s, pos + 1) {
            Some((es, j)) => {
                return Some((JsonValue::Array(es), j));
            },
            None => {
                return None;
            },
        }
    }
    if c == '{' {
        match p_obj(s, pos + 1) {
            Some((ms, j)) => {
                return Some((JsonValue::Object(ms), j));
            },
            None => {
                return None;
            },
        }
    }
    None
}

/// Reads the elements of an array, starting just after the bracket.
fn p_arr(s: &Vec<char>, pos: usize) -> (r: Option<(Vec<JsonValue>, usize)>)
    requires
        pos <= s@.len(),
    ensures
        match r {
            Some((es, j)) => parse_arr(s@, pos as int) == Some(
                (arr_views(es@, es@.len() as int), j as int),
            ) && wf_list(arr_views(es@, es@.len() as int)) && pos < j <= s@.len(),
            None => parse_arr(s@, pos as int) is None,
        },
    decreases s@.len() - pos, 1int,
{
    if pos >= s.len() {
        return None;
    }
    let c = s[pos];
    if c == ' ' || c == '\t' || c == '\n' || c == '\r' {
        return p_arr(s, pos + 1);
    }
    if c == ']' {
        let es: Vec<JsonValue> = Vec::new();
        proof {
            assert(arr_views(es@, 0) =~= Seq::<JsonView>::empty());
        }
        return Some((es, pos + 1));
    }
    match p_value(s, pos) {
        Some((v, j)) => match p_arr_tail(s, j) {
            Some((mut es, k)) => {
                proof {
                    lemma_arr_views_cons(v, es@);
                    lemma_wf_list_cons(v@, arr_views(es@, es@.len() as int));
                }
                es.insert(0, v);
                Some((es, k))
            },
            None => None,
        },
        None => None,
    }
}

/// After one array element: the closing bracket, or a comma and the rest.
fn p_arr_tail(s: &Vec<char>, pos: usize) -> (r: Option<(Vec<JsonValue>, usize)>)
    requires
        pos <= s@.len(),
    ensures
        match r {
            Some((es, j)) => parse_arr_tail(s@, pos as int) == Some(
                (arr_views(es@, es@.len() as int), j as int),
            ) && wf_list(arr_views(es@, es@.len() as int)) && pos < j <= s@.len(),
            None => parse_arr_tail(s@, pos as int) is None,
        },
    decreases s@.len() - pos, 1int,
{
    if pos >= s.len() {
        return None;
    }
    let c = s[pos];
    if c == ' ' || c == '\t' || c == '\n' || c == '\r' {
        return p_arr_tail(s, pos + 1);
    }
    if c == ']' {
        let es: Vec<JsonValue> = Vec::new();
        proof {
            assert(arr_views(es@, 0) =~= Seq::<JsonView>::empty());
        }
        return Some((es, pos + 1));
    }
    if c == ',' {
        match p_value(s, pos + 1) {
            Some((v, j)) => match p_arr_tail(s, j) {
                Some((mut es, k)) => {
                    proof {
                        lemma_arr_views_cons(v, es@);
                        lemma_wf_list_cons(v@, arr_views(es@, es@.len() as int));
                    }
                    es.insert(0, v);
                    Some((es, k))
                },
                None => None,
            },
            None => None,
        }
    } else {
        None
    }
}

/// Reads one object member: quoted key, colon, value.
fn p_member(s: &Vec<char>, pos: usize) -> (r: Option<((String, JsonValue), usize)>)
    requires
        pos <= s@.len(),
    ensures
        match r {
            Some((m, j)) => parse_member(s@, pos as int) == Some(((m.0@, m.1@), j as int))
                && wf_json(m.1@) && pos < j <= s@.len(),
            None => parse_member(s@, pos as int) is None,
        },
    decreases s@.len() - pos, 1int,
{
    if pos >= s.len() {
        return None;
    }
    let c = s[pos];
    if c == ' ' || c == '\t' || c == '\n' || c == '\r' {
        return p_member(s, pos + 1);
    }
    if c == '"' {
        match p_str_chars(s, pos + 1) {
            Some((t, j)) => match p_member_val(s, j) {
                Some((v, k)) => {
                    let key = string_from_chars(t);
                    Some(((key, v), k))
                },
                None => None,
            },
            None => None,
        }
    } else {
        None
    }
}

/// After a member's key: the colon and the value.
fn p_member_val(s: &Vec<char>, pos: usize) -> (r: Option<(JsonValue, usize)>)
    requires
        pos <= s@.len(),
    ensures
        match r {
            Some((v, j)) => parse_member_val(s@, pos as int) == Some((v@, j as int)) && wf_json(
                v@,
            ) && pos < j <= s@.len(),
            None => parse_member_val(s@, pos as int) is None,
        },
    decreases s@.len() - pos, 1int,
{
    if pos >= s.len() {
        return None;
    }
    let c = s[pos];
    if c == ' ' || c == '\t' || c == '\n' || c == '\r' {
        return p_member_val(s, pos + 1);
    }
    if c == ':' {
        p_value(s, pos + 1)
    } else {
        None
    }
}

/// Reads the members of an object, starting just after the brace.
fn p_obj(s: &Vec<char>, pos: usize) -> (r: Option<(Vec<(String, JsonValue)>, usize)>)
    requires
        pos <= s@.len(),
    ensures
        match r {
            Some((ms, j)) => parse_obj(s@, pos as int) == Some(
                (obj_views(ms@, ms@.len() as int), j as int),
            ) && wf_members(obj_views(ms@, ms@.len() as int)) && pos < j <= s@.len(),
            None => parse_obj(s@, pos as int) is None,
        },
    decreases s@.len() - pos, 2int,
{
    if pos >= s.len() {
        return None;
    }
    let c = s[pos];
    if c == ' ' || c == '\t' || c == '\n' || c == '\r' {
        return p_obj(s, pos + 1);
    }
    if c == '}' {
        let ms: Vec<(String, JsonValue)> = Vec::new();
        proof {
            assert(obj_views(ms@, 0) =~= Seq::<(Seq<char>, JsonView)>::empty());
        }
        return Some((ms, pos + 1));
    }
    match p_member(s, pos) {
        Some((m, k)) => match p_obj_tail(s, k) {
            Some((mut ms, e)) => {
                proof {
                    lemma_obj_views_cons(m, ms@);
                    lemma_wf_members_cons((m.0@, m.1@), obj_views(ms@, ms@.len() as int));
                }
                ms.insert(0, m);
                Some((ms, e))
            },
            None => None,
        },
        None => None,
    }
}

/// After one object member: the closing brace, or a comma and the rest.
fn p_obj_tail(s: &Vec<char>, pos: usize) -> (r: Option<(Vec<(String, JsonValue)>, usize)>)
    requires
        pos <= s@.len(),
    ensures
        match r {
            Some((ms, j)) => parse_obj_tail(s@, pos as int) == Some(
                (obj_views(ms@, ms@.len() as int), j as int),
            ) && wf_members(obj_views(ms@, ms@.len() as int)) && pos < j <= s@.len(),
            None => parse_obj_tail(s@, pos as int) is None,
        },
    decreases s@.len() - pos, 2int,
{
    if pos >= s.len() {
        return None;
    }
    let c = s[pos];
    if c == ' ' || c == '\t' || c == '\n' || c == '\r' {
        return p_obj_tail(s, pos + 1);
    }
    if c == '}' {
        let ms: Vec<(String, JsonValue)> = Vec::new();
        proof {
            assert(obj_views(ms@, 0) =~= Seq::<(Seq<char>, JsonView)>::empty());
        }
        return Some((ms, pos + 1));
    }
    if c == ',' {
        match p_member(s, pos + 1) {
            Some((m, k)) => match p_obj_tail(s, k) {
                Some((mut ms, e)) => {
                    proof {
                        lemma_obj_views_cons(m, ms@);
                        lemma_wf_members_cons((m.0@, m.1@), obj_views(ms@, ms@.len() as int));
                    }
                    ms.insert(0, m);
                    Some((ms, e))
                },
                None => None,
            },
            None => None,
        }
    } else {
        None
    }
}

/// Decodes a whole text: one value with only whitespace after it.
pub fn json_from_chars(s: &Vec<char>) -> (r: Option<JsonValue>)
    ensures
        match r {
            Some(v) => parse_json(s@) == Some(v@) && wf_json(v@),
            None => parse_json(s@) is None,
        },
{
    match p_value(s, 0) {
        Some((v, j)) => {
            let mut i: usize = j;
            while i < s.len()
                invariant
                    j <= i <= s@.len(),
                    parse_value(s@, 0) == Some((v@, j as int)),
                    wf_json(v@),
                    ws_to_end(s@, j as int) == ws_to_end(s@, i as int),
                decreases s@.len() - i,
            {
                let c = s[i];
                if c == ' ' || c == '\t' || c == '\n' || c == '\r' {
                    i = i + 1;
                } else {
                    proof {
                        assert(!is_ws(s@[i as int]));
                        assert(!ws_to_end(s@, i as int));
                        assert(!ws_to_end(s@, j as int));
                        assert(parse_json(s@) is None);
                    }
                    return None;
                }
            }
            Some(v)
        },
        None => None,
    }
}

/// Only whitespace from `pos` to the end of the text.
pub open spec fn ws_to_end(s: Seq<char>, pos: int) -> bool
    decreases s.len() - pos,
{
    if pos < 0 {
        false
    } else if pos >= s.len() {
        true
    } else {
        is_ws(s[pos]) && ws_to_end(s, pos + 1)
    }
}

/// Decoding a whole text: one value, with nothing but whitespace after it.
pub open spec fn parse_json(s: Seq<char>) -> Option<JsonView> {
    match parse_value(s, 0) {
        Some((v, j)) => if ws_to_end(s, j) {
            Some(v)
        } else {
            None
        },
        None => None,
    }
}

} // verus!
