//! The JSON value model and its wire text.
//!
//! `JsonValue` is the executable document type; `JsonView` is its
//! mathematical shadow, over which every contract in the crate speaks.
//! `json_chars` gives the exact character sequence that encoding a value
//! produces; the executable encoder is proved against it.
//!
//! Numbers are modelled as integers only: an id is never fractional and
//! the error taxonomy is integral, so the wire format of this crate reads
//! and writes integral numbers alone.

use vstd::prelude::*;

verus! {

/// The mathematical model of a JSON document.
///
/// `Int` carries the strictly negative integers; every non-negative
/// integer is an `UInt`, so a well-formed value has one model per number.
pub enum JsonView {
    Null,
    Bool(bool),
    UInt(u64),
    Int(i64),
    Text(Seq<char>),
    Array(Seq<JsonView>),
    Object(Seq<(Seq<char>, JsonView)>),
}

/// Well-formed models: negative numbers sit in `Int`, everything nested
/// is well-formed too.  Encoding is injective on well-formed values.
pub open spec fn wf_json(v: JsonView) -> bool
    decreases v,
{
    match v {
        JsonView::Null => true,
        JsonView::Bool(_) => true,
        JsonView::UInt(_) => true,
        JsonView::Int(i) => i < 0,
        JsonView::Text(_) => true,
        JsonView::Array(es) => wf_list(es),
        JsonView::Object(ms) => wf_members(ms),
    }
}

/// Every element of the sequence is well-formed.
pub open spec fn wf_list(es: Seq<JsonView>) -> bool
    decreases es,
{
    es.len() == 0 || (wf_json(es[0]) && wf_list(es.drop_first()))
}

/// Every member value of the sequence is well-formed.
pub open spec fn wf_members(ms: Seq<(Seq<char>, JsonView)>) -> bool
    decreases ms,
{
    ms.len() == 0 || (wf_json(ms[0].1) && wf_members(ms.drop_first()))
}

/// `wf_list` said element by element.
pub proof fn lemma_wf_list(es: Seq<JsonView>)
    ensures
        wf_list(es) <==> (forall|i: int| 0 <= i < es.len() ==> wf_json(#[trigger] es[i])),
    decreases es,
{
    if es.len() > 0 {
        lemma_wf_list(es.drop_first());
        if wf_list(es) {
            assert forall|i: int| 0 <= i < es.len() implies wf_json(#[trigger] es[i]) by {
                if i > 0 {
                    assert(es[i] == es.drop_first()[i - 1]);
                }
            }
        }
        if forall|i: int| 0 <= i < es.len() ==> wf_json(#[trigger] es[i]) {
            assert forall|i: int| 0 <= i < es.drop_first().len()
                implies wf_json(#[trigger] es.drop_first()[i]) by {
                assert(es.drop_first()[i] == es[i + 1]);
            }
        }
    }
}

/// `wf_members` said member by member.
pub proof fn lemma_wf_members(ms: Seq<(Seq<char>, JsonView)>)
    ensures
        wf_members(ms) <==> (forall|i: int| 0 <= i < ms.len() ==> wf_json(#[trigger] ms[i].1)),
    decreases ms,
{
    if ms.len() > 0 {
        lemma_wf_members(ms.drop_first());
        if wf_members(ms) {
            assert forall|i: int| 0 <= i < ms.len() implies wf_json(#[trigger] ms[i].1) by {
                if i > 0 {
                    assert(ms[i] == ms.drop_first()[i - 1]);
                }
            }
        }
        if forall|i: int| 0 <= i < ms.len() ==> wf_json(#[trigger] ms[i].1) {
            assert forall|i: int| 0 <= i < ms.drop_first().len()
                implies wf_json(#[trigger] ms.drop_first()[i].1) by {
                assert(ms.drop_first()[i] == ms[i + 1]);
            }
        }
    }
}

/// The character a single decimal digit prints as.
pub open spec fn digit_char(d: int) -> char {
    if d == 0 {
        '0'
    } else if d == 1 {
        '1'
    } else if d == 2 {
        '2'
    } else if d == 3 {
        '3'
    } else if d == 4 {
        '4'
    } else if d == 5 {
        '5'
    } else if d == 6 {
        '6'
    } else if d == 7 {
        '7'
    } else if d == 8 {
        '8'
    } else {
        '9'
    }
}

/// Decimal digits of a non-negative integer, most significant first.
pub open spec fn dec_digits(n: int) -> Seq<char>
    decreases n,
{
    if n < 10 {
        seq![digit_char(n)]
    } else {
        dec_digits(n / 10) + seq![digit_char(n % 10)]
    }
}

/// The character a single hexadecimal digit prints as (lower case).
pub open spec fn hex_char(d: int) -> char {
    if d < 10 {
        digit_char(d)
    } else if d == 10 {
        'a'
    } else if d == 11 {
        'b'
    } else if d == 12 {
        'c'
    } else if d == 13 {
        'd'
    } else if d == 14 {
        'e'
    } else {
        'f'
    }
}

/// How one character of a JSON string is written on the wire: the quote
/// and the backslash get a backslash, the named control characters get
/// their short escapes, any other control character is written `\u00xx`,
/// and everything else stands as itself.
pub open spec fn esc_char(c: char) -> Seq<char> {
    if c == '"' {
        seq!['\\', '"']
    } else if c == '\\' {
        seq!['\\', '\\']
    } else if c == '\u{8}' {
        seq!['\\', 'b']
    } else if c == '\t' {
        seq!['\\', 't']
    } else if c == '\n' {
        seq!['\\', 'n']
    } else if c == '\u{c}' {
        seq!['\\', 'f']
    } else if c == '\r' {
        seq!['\\', 'r']
    } else if (c as u32) < 0x20 {
        seq!['\\', 'u', '0', '0', hex_char(c as u32 as int / 16), hex_char(c as u32 as int % 16)]
    } else {
        seq![c]
    }
}

/// The wire text of the first `n` characters of a string body.
pub open spec fn esc_prefix(t: Seq<char>, n: int) -> Seq<char>
    decreases n,
{
    if n <= 0 {
        Seq::empty()
    } else {
        esc_prefix(t, n - 1) + esc_char(t[n - 1])
    }
}

/// The wire text of a whole string body, quotes not included.
pub open spec fn esc_str(t: Seq<char>) -> Seq<char> {
    esc_prefix(t, t.len() as int)
}

/// The wire text of the first `n` elements of an array, commas between
/// them, brackets not included.
pub open spec fn arr_prefix(es: Seq<JsonView>, n: int) -> Seq<char>
    decreases es, n,
{
    if n <= 0 || n > es.len() {
        Seq::empty()
    } else if n == 1 {
        json_chars(es[0])
    } else {
        arr_prefix(es, n - 1) + seq![','] + json_chars(es[n - 1])
    }
}

/// The wire text of the first `n` members of an object, commas between
/// them, braces not included.
pub open spec fn obj_prefix(ms: Seq<(Seq<char>, JsonView)>, n: int) -> Seq<char>
    decreases ms, n,
{
    if n <= 0 || n > ms.len() {
        Seq::empty()
    } else if n == 1 {
        member_chars(ms[0])
    } else {
        obj_prefix(ms, n - 1) + seq![','] + member_chars(ms[n - 1])
    }
}

/// The wire text of one object member: quoted key, colon, value.
pub open spec fn member_chars(m: (Seq<char>, JsonView)) -> Seq<char>
    decreases m, 1int,
{
    seq!['"'] + esc_str(m.0) + seq!['"', ':'] + json_chars(m.1)
}

/// The exact character sequence a JSON value encodes to.
pub open spec fn json_chars(v: JsonView) -> Seq<char>
    decreases v, 2int,
{
    match v {
        JsonView::Null => seq!['n', 'u', 'l', 'l'],
        JsonView::Bool(b) => if b {
            seq!['t', 'r', 'u', 'e']
        } else {
            seq!['f', 'a', 'l', 's', 'e']
        },
        JsonView::UInt(n) => dec_digits(n as int),
        JsonView::Int(i) => seq!['-'] + dec_digits(-(i as int)),
        JsonView::Text(t) => seq!['"'] + esc_str(t) + seq!['"'],
        JsonView::Array(es) => seq!['['] + arr_prefix(es, es.len() as int) + seq![']'],
        JsonView::Object(ms) => seq!['{'] + obj_prefix(ms, ms.len() as int) + seq!['}'],
    }
}

/// The executable JSON document type.  Object members keep their written
/// order; the model of a value is its `JsonView`, reached with `@`.
#[derive(Debug, PartialEq)]
pub enum JsonValue {
    Null,
    Bool(bool),
    UInt(u64),
    Int(i64),
    Text(String),
    Array(Vec<JsonValue>),
    Object(Vec<(String, JsonValue)>),
}

/// The model of the first `n` elements of an array.
pub open spec fn arr_views(es: Seq<JsonValue>, n: int) -> Seq<JsonView>
    decreases es, n,
{
    if n <= 0 || n > es.len() {
        Seq::empty()
    } else {
        arr_views(es, n - 1).push(json_view(es[n - 1]))
    }
}

/// The model of the first `n` members of an object.
pub open spec fn obj_views(ms: Seq<(String, JsonValue)>, n: int) -> Seq<(Seq<char>, JsonView)>
    decreases ms, n,
{
    if n <= 0 || n > ms.len() {
        Seq::empty()
    } else {
        obj_views(ms, n - 1).push((ms[n - 1].0@, json_view(ms[n - 1].1)))
    }
}

/// The model of an executable JSON value.
pub open spec fn json_view(v: JsonValue) -> JsonView
    decreases v, 1int,
{
    match v {
        JsonValue::Null => JsonView::Null,
        JsonValue::Bool(b) => JsonView::Bool(b),
        JsonValue::UInt(n) => JsonView::UInt(n),
        JsonValue::Int(i) => JsonView::Int(i),
        JsonValue::Text(t) => JsonView::Text(t@),
        JsonValue::Array(es) => JsonView::Array(arr_views(es@, es@.len() as int)),
        JsonValue::Object(ms) => JsonView::Object(obj_views(ms@, ms@.len() as int)),
    }
}

impl View for JsonValue {
    type V = JsonView;

    open spec fn view(&self) -> JsonView {
        json_view(*self)
    }
}

pub proof fn lemma_arr_views(es: Seq<JsonValue>, n: int)
    requires
        0 <= n <= es.len(),
    ensures
        arr_views(es, n).len() == n,
        forall|i: int| 0 <= i < n ==> arr_views(es, n)[i] == json_view(#[trigger] es[i]),
    decreases n,
{
    if n > 0 {
        lemma_arr_views(es, n - 1);
    }
}

pub proof fn lemma_obj_views(ms: Seq<(String, JsonValue)>, n: int)
    requires
        0 <= n <= ms.len(),
    ensures
        obj_views(ms, n).len() == n,
        forall|i: int| 0 <= i < n ==> obj_views(ms, n)[i]
            == (#[trigger] ms[i].0@, json_view(ms[i].1)),
    decreases n,
{
    if n > 0 {
        lemma_obj_views(ms, n - 1);
    }
}


/// Prepending an element prepends its model.
pub proof fn lemma_arr_views_cons(v: JsonValue, t: Seq<JsonValue>)
    ensures
        arr_views(t.insert(0, v), t.len() as int + 1) == seq![json_view(v)] + arr_views(
            t,
            t.len() as int,
        ),
{
    let nt = t.insert(0, v);
    t.insert_ensures(0, v);
    lemma_arr_views(nt, nt.len() as int);
    lemma_arr_views(t, t.len() as int);
    assert forall|k: int| 0 <= k < nt.len() implies arr_views(nt, nt.len() as int)[k] == (
    seq![json_view(v)] + arr_views(t, t.len() as int))[k] by {
        if k > 0 {
            assert(t.insert(0, v)[(k - 1) + 1] == t[k - 1]);
        }
    }
    assert(arr_views(nt, nt.len() as int) =~= seq![json_view(v)] + arr_views(t, t.len() as int));
}

/// Prepending a member prepends its model.
pub proof fn lemma_obj_views_cons(m: (String, JsonValue), t: Seq<(String, JsonValue)>)
    ensures
        obj_views(t.insert(0, m), t.len() as int + 1) == seq![(m.0@, json_view(m.1))] + obj_views(
            t,
            t.len() as int,
        ),
{
    let nt = t.insert(0, m);
    t.insert_ensures(0, m);
    lemma_obj_views(nt, nt.len() as int);
    lemma_obj_views(t, t.len() as int);
    assert forall|k: int| 0 <= k < nt.len() implies obj_views(nt, nt.len() as int)[k] == (
    seq![(m.0@, json_view(m.1))] + obj_views(t, t.len() as int))[k] by {
        if k == 0 {
            assert(nt[0] == m);
            assert(nt[0].0@ == m.0@);
        } else {
            assert(t.insert(0, m)[(k - 1) + 1] == t[k - 1]);
            assert(nt[k].0@ == t[k - 1].0@);
        }
    }
    assert(obj_views(nt, nt.len() as int) =~= seq![(m.0@, json_view(m.1))] + obj_views(
        t,
        t.len() as int,
    ));
}

/// Well-formedness of a list, one element peeled off.
pub proof fn lemma_wf_list_cons(x: JsonView, xs: Seq<JsonView>)
    ensures
        wf_list(seq![x] + xs) == (wf_json(x) && wf_list(xs)),
{
    let s = seq![x] + xs;
    assert(s[0] == x);
    assert(s.drop_first() =~= xs);
}

/// Well-formedness of a member list, one member peeled off.
pub proof fn lemma_wf_members_cons(m: (Seq<char>, JsonView), ms: Seq<(Seq<char>, JsonView)>)
    ensures
        wf_members(seq![m] + ms) == (wf_json(m.1) && wf_members(ms)),
{
    let s = seq![m] + ms;
    assert(s[0] == m);
    assert(s.drop_first() =~= ms);
}


impl JsonValue {
    /// A structurally equal copy of the value.
    pub fn duplicate(&self) -> (r: JsonValue)
        ensures
            r@ == self@,
        decreases *self,
    {
        match self {
            JsonValue::Null => JsonValue::Null,
            JsonValue::Bool(b) => JsonValue::Bool(*b),
            JsonValue::UInt(n) => JsonValue::UInt(*n),
            JsonValue::Int(i) => JsonValue::Int(*i),
            JsonValue::Text(t) => JsonValue::Text(t.clone()),
            JsonValue::Array(es) => {
                let mut out: Vec<JsonValue> = Vec::new();
                let mut i: usize = 0;
                while i < es.len()
                    invariant
                        i <= es.len(),
                        *self == JsonValue::Array(*es),
                        out@.len() == i,
                        forall|k: int| 0 <= k < i ==> json_view(#[trigger] out@[k]) == json_view(
                            es@[k],
                        ),
                    decreases es.len() - i,
                {
                    proof {
                        assert(decreases_to!(*self => self->Array_0));
                        assert(self->Array_0 == *es);
                        assert(decreases_to!(*es => es@));
                        assert(decreases_to!(es@ => es@[i as int]));
                        assert(decreases_to!(*self => es@[i as int]));
                    }
                    let d = es[i].duplicate();
                    out.push(d);
                    i = i + 1;
                }
                proof {
                    lemma_arr_views(out@, out@.len() as int);
                    lemma_arr_views(es@, es@.len() as int);
                    assert forall|k: int| 0 <= k < out@.len() implies arr_views(
                        out@,
                        out@.len() as int,
                    )[k] == arr_views(es@, es@.len() as int)[k] by {
                        assert(json_view(out@[k]) == json_view(es@[k]));
                    }
                    assert(arr_views(out@, out@.len() as int) =~= arr_views(
                        es@,
                        es@.len() as int,
                    ));
                }
                JsonValue::Array(out)
            },
            JsonValue::Object(ms) => {
                let mut out: Vec<(String, JsonValue)> = Vec::new();
                let mut i: usize = 0;
                while i < ms.len()
                    invariant
                        i <= ms.len(),
                        *self == JsonValue::Object(*ms),
                        out@.len() == i,
                        forall|k: int| 0 <= k < i ==> (#[trigger] out@[k]).0@ == ms@[k].0@
                            && json_view(out@[k].1) == json_view(ms@[k].1),
                    decreases ms.len() - i,
                {
                    proof {
                        assert(decreases_to!(*self => self->Object_0));
                        assert(self->Object_0 == *ms);
                        assert(decreases_to!(*ms => ms@));
                        assert(decreases_to!(ms@ => ms@[i as int]));
                        assert(decreases_to!(ms@[i as int] => ms@[i as int].1));
                        assert(decreases_to!(*self => ms@[i as int].1));
                    }
                    let key = ms[i].0.clone();
                    let d = ms[i].1.duplicate();
                    out.push((key, d));
                    i = i + 1;
                }
                proof {
                    lemma_obj_views(out@, out@.len() as int);
                    lemma_obj_views(ms@, ms@.len() as int);
                    assert forall|k: int| 0 <= k < out@.len() implies obj_views(
                        out@,
                        out@.len() as int,
                    )[k] == obj_views(ms@, ms@.len() as int)[k] by {
                        assert((#[trigger] out@[k]).0@ == ms@[k].0@);
                        assert(json_view(out@[k].1) == json_view(ms@[k].1));
                    }
                    assert(obj_views(out@, out@.len() as int) =~= obj_views(
                        ms@,
                        ms@.len() as int,
                    ));
                }
                JsonValue::Object(out)
            },
        }
    }
}


impl JsonValue {
    /// Whether the value is well-formed: every negative number sits in
    /// `Int` and nothing nested breaks the rule.
    pub fn well_formed(&self) -> (b: bool)
        ensures
            b == wf_json(self@),
        decreases *self,
    {
        match self {
            JsonValue::Null => true,
            JsonValue::Bool(_) => true,
            JsonValue::UInt(_) => true,
            JsonValue::Int(i) => *i < 0,
            JsonValue::Text(_) => true,
            JsonValue::Array(es) => {
                let ghost vs = arr_views(es@, es@.len() as int);
                proof {
                    lemma_arr_views(es@, es@.len() as int);
                }
                let mut i: usize = 0;
                let mut ok = true;
                while i < es.len()
                    invariant
                        i <= es.len(),
                        *self == JsonValue::Array(*es),
                        vs == arr_views(es@, es@.len() as int),
                        vs.len() == es@.len(),
                        forall|k: int| 0 <= k < es@.len() ==> vs[k] == json_view(
                            #[trigger] es@[k],
                        ),
                        ok == (forall|k: int| 0 <= k < i ==> wf_json(#[trigger] vs[k])),
                    decreases es.len() - i,
                {
                    proof {
                        assert(decreases_to!(*self => self->Array_0));
                        assert(decreases_to!(*es => es@));
                        assert(decreases_to!(es@ => es@[i as int]));
                    }
                    let w = es[i].well_formed();
                    proof {
                        assert(w == wf_json(vs[i as int]));
                        if ok && w {
                            assert forall|k: int| 0 <= k < i + 1 implies wf_json(
                                #[trigger] vs[k],
                            ) by {
                                if k < i {
                                    assert(wf_json(vs[k]));
                                }
                            }
                        }
                    }
                    ok = ok && w;
                    i = i + 1;
                }
                proof {
                    lemma_wf_list(vs);
                }
                ok
            },
            JsonValue::Object(ms) => {
                let ghost vs = obj_views(ms@, ms@.len() as int);
                proof {
                    lemma_obj_views(ms@, ms@.len() as int);
                }
                let mut i: usize = 0;
                let mut ok = true;
                while i < ms.len()
                    invariant
                        i <= ms.len(),
                        *self == JsonValue::Object(*ms),
                        vs == obj_views(ms@, ms@.len() as int),
                        vs.len() == ms@.len(),
                        forall|k: int| 0 <= k < ms@.len() ==> vs[k] == (
                        #[trigger] ms@[k].0@,
                        json_view(ms@[k].1),
                        ),
                        ok == (forall|k: int| 0 <= k < i ==> wf_json(#[trigger] vs[k].1)),
                    decreases ms.len() - i,
                {
                    proof {
                        assert(decreases_to!(*self => self->Object_0));
                        assert(decreases_to!(*ms => ms@));
                        assert(decreases_to!(ms@ => ms@[i as int]));
                        assert(decreases_to!(ms@[i as int] => ms@[i as int].1));
                    }
                    let w = ms[i].1.well_formed();
                    proof {
                        assert(vs[i as int] == (ms@[i as int].0@, json_view(ms@[i as int].1)));
                        assert(w == wf_json(vs[i as int].1));
                        if ok && w {
                            assert forall|k: int| 0 <= k < i + 1 implies wf_json(
                                #[trigger] vs[k].1,
                            ) by {
                                if k < i {
                                    assert(wf_json(vs[k].1));
                                }
                            }
                        }
                    }
                    ok = ok && w;
                    i = i + 1;
                }
                proof {
                    lemma_wf_members(vs);
                }
                ok
            },
        }
    }
}

} // verus!
