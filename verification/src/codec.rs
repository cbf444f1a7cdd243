//! The executable JSON decoder and encoder, verified against the
//! specification-level grammar in [`crate::json`].

use vstd::prelude::*;

use crate::json::JVal;
use crate::json::JsonVal;
use crate::json::digit_val;
use crate::json::enc_char;
use crate::json::enc_elems;
use crate::json::enc_int;
use crate::json::enc_members;
use crate::json::enc_nat;
use crate::json::enc_str_body;
use crate::json::enc_string;
use crate::json::esc_char;
use crate::json::hex_char;
use crate::json::hex_val;
use crate::json::is_digit;
use crate::json::is_scalar_val;
use crate::json::is_ws;
use crate::json::jobj_get;
use crate::json::jfield_opt_str;
use crate::json::jfield_req_str;
use crate::json::jfield_req_i64;
use crate::json::jfield_req_i32;
use crate::text::chars_eq;
use crate::json::skip_ws;
use crate::json::spec_parse_arr_rest;
use crate::json::spec_parse_digits;
use crate::json::spec_parse_elems;
use crate::json::spec_parse_int;
use crate::json::spec_parse_json;
use crate::json::spec_parse_member;
use crate::json::spec_parse_members;
use crate::json::spec_parse_obj_rest;
use crate::json::spec_parse_string;
use crate::json::spec_parse_value;
use crate::json::spec_encode;

verus! {

broadcast use vstd::std_specs::vec::axiom_vec_index_decreases;

/// The views of the nodes of a decoded vector, in order.
pub open spec fn views(items: Seq<JsonVal>) -> Seq<JVal> {
    Seq::new(
        items.len(),
        |k: int|
            if 0 <= k < items.len() {
                items[k].view()
            } else {
                JVal::Null
            },
    )
}

/// The views of the members of a decoded object, in order.
pub open spec fn member_views(ms: Seq<(Vec<char>, JsonVal)>) -> Seq<(Seq<char>, JVal)> {
    Seq::new(
        ms.len(),
        |k: int|
            if 0 <= k < ms.len() {
                (ms[k].0@, ms[k].1.view())
            } else {
                (Seq::empty(), JVal::Null)
            },
    )
}

/// An array node's view is the array of its elements' views.
pub proof fn lemma_arr_view(items: Vec<JsonVal>)
    ensures
        JsonVal::Arr(items).view() == JVal::Arr(views(items@)),
{
    assert(JsonVal::Arr(items).view()->Arr_0 =~= views(items@));
}

/// An object node's view is the object of its members' views.
pub proof fn lemma_obj_view(ms: Vec<(Vec<char>, JsonVal)>)
    ensures
        JsonVal::Obj(ms).view() == JVal::Obj(member_views(ms@)),
{
    assert(JsonVal::Obj(ms).view()->Obj_0 =~= member_views(ms@));
}

/// Executable test matching [`is_ws`].
fn is_ws_exec(c: char) -> (r: bool)
    ensures
        r == is_ws(c),
{
    c == ' ' || c == '\t' || c == '\n' || c == '\r'
}

/// Executable test matching [`is_digit`].
fn is_digit_exec(c: char) -> (r: bool)
    ensures
        r == is_digit(c),
{
    let v = c as u32;
    48 <= v && v <= 57
}

/// Executable form of [`hex_val`].
fn hex_val_exec(c: char) -> (r: i32)
    ensures
        r as int == hex_val(c),
{
    let v = c as u32;
    if 48 <= v && v <= 57 {
        (v - 48) as i32
    } else if 97 <= v && v <= 102 {
        (v - 87) as i32
    } else if 65 <= v && v <= 70 {
        (v - 55) as i32
    } else {
        -1
    }
}

/// Relies on `char::from_u32`: it returns `Some` exactly for Unicode scalar
/// values, yielding the character with that value.
#[verifier::external_body]
fn char_from_u32(v: u32) -> (r: Option<char>)
    ensures
        r == if is_scalar_val(v as int) {
            Some((v as char))
        } else {
            None::<char>
        },
{
    char::from_u32(v)
}

/// The first position at or after `i` holding something other than
/// whitespace.
fn skip_ws_exec(s: &Vec<char>, i: usize) -> (r: usize)
    requires
        i <= s@.len(),
    ensures
        r as int == skip_ws(s@, i as int),
        i <= r <= s@.len(),
        r < s@.len() ==> !is_ws(s@[r as int]),
{
    let mut j = i;
    while j < s.len() && is_ws_exec(s[j])
        invariant
            i <= j <= s@.len(),
            skip_ws(s@, i as int) == skip_ws(s@, j as int),
        decreases s@.len() - j,
    {
        j += 1;
    }
    j
}

/// Decodes a string body, starting just after the opening quote; returns the
/// characters and the position just past the closing quote.
fn parse_string_exec(s: &Vec<char>, i: usize) -> (r: Option<(Vec<char>, usize)>)
    requires
        i <= s@.len(),
    ensures
        match spec_parse_string(s@, i as int) {
            Some((t, k)) => {
                &&& r matches Some(p)
                &&& p.0@ == t
                &&& p.1 as int == k
                &&& i < p.1 <= s@.len()
            },
            None => r is None,
        },
{
    let mut out: Vec<char> = Vec::new();
    let mut cur = i;
    proof {
        if spec_parse_string(s@, i as int) is Some {
            let (t, k) = spec_parse_string(s@, i as int).unwrap();
            assert(Seq::<char>::empty() + t =~= t);
        }
    }
    loop
        invariant
            i <= cur <= s@.len(),
            match spec_parse_string(s@, cur as int) {
                Some((t, k)) => spec_parse_string(s@, i as int) == Some((out@ + t, k)),
                None => spec_parse_string(s@, i as int) is None,
            },
        decreases s@.len() - cur,
    {
        if cur >= s.len() {
            return None;
        }
        let c = s[cur];
        if c == '"' {
            proof {
                assert(out@ + Seq::<char>::empty() =~= out@);
            }
            return Some((out, cur + 1));
        } else if c == '\\' {
            if cur + 1 < s.len() && s[cur + 1] == 'u' {
                if s.len() - cur >= 6 {
                    let h1 = hex_val_exec(s[cur + 2]);
                    let h2 = hex_val_exec(s[cur + 3]);
                    let h3 = hex_val_exec(s[cur + 4]);
                    let h4 = hex_val_exec(s[cur + 5]);
                    if h1 >= 0 && h2 >= 0 && h3 >= 0 && h4 >= 0 {
                        let v: u32 = (h1 as u32) * 4096 + (h2 as u32) * 256 + (h3 as u32) * 16 + (
                        h4 as u32);
                        match char_from_u32(v) {
                            Some(d) => {
                                let ghost pre = out@;
                                out.push(d);
                                cur = cur + 6;
                                proof {
                                    if spec_parse_string(s@, cur as int) is Some {
                                        let (t2, k2) = spec_parse_string(s@, cur as int).unwrap();
                                        assert(pre + (seq![d] + t2) =~= out@ + t2);
                                    }
                                }
                            }
                            None => {
                                return None;
                            }
                        }
                    } else {
                        return None;
                    }
                } else {
                    return None;
                }
            } else if cur + 1 < s.len() {
                let e = s[cur + 1];
                let d_opt = if e == '"' {
                    Some('"')
                } else if e == '\\' {
                    Some('\\')
                } else if e == '/' {
                    Some('/')
                } else if e == 'n' {
                    Some('\n')
                } else if e == 't' {
                    Some('\t')
                } else if e == 'r' {
                    Some('\r')
                } else if e == 'b' {
                    Some('\u{8}')
                } else if e == 'f' {
                    Some('\u{c}')
                } else {
                    None
                };
                proof {
                    assert(d_opt == esc_char(e));
                }
                match d_opt {
                    Some(d) => {
                        let ghost pre = out@;
                        out.push(d);
                        cur = cur + 2;
                        proof {
                            if spec_parse_string(s@, cur as int) is Some {
                                let (t2, k2) = spec_parse_string(s@, cur as int).unwrap();
                                assert(pre + (seq![d] + t2) =~= out@ + t2);
                            }
                        }
                    }
                    None => {
                        return None;
                    }
                }
            } else {
                return None;
            }
        } else if (c as u32) < 32 {
            return None;
        } else {
            let ghost pre = out@;
            out.push(c);
            cur = cur + 1;
            proof {
                if spec_parse_string(s@, cur as int) is Some {
                    let (t2, k2) = spec_parse_string(s@, cur as int).unwrap();
                    assert(pre + (seq![c] + t2) =~= out@ + t2);
                }
            }
        }
    }
}

/// Decodes an integer starting at `i` (a minus sign or a digit).
fn parse_int_exec(s: &Vec<char>, i: usize) -> (r: Option<(i64, usize)>)
    requires
        i < s@.len(),
        s@[i as int] == '-' || is_digit(s@[i as int]),
    ensures
        match spec_parse_int(s@, i as int) {
            Some((jv, k)) => {
                &&& r matches Some(p)
                &&& JVal::Int(p.0 as int) == jv
                &&& p.1 as int == k
                &&& i < p.1 <= s@.len()
            },
            None => r is None,
        },
{
    let n = s.len();
    let neg = s[i] == '-';
    let j: usize = if neg {
        i + 1
    } else {
        i
    };
    if j >= s.len() || !is_digit_exec(s[j]) {
        return None;
    }
    let big: u64 = 9223372036854775808u64;  // 2^63, the magnitude of i64::MIN
    let mut mag: u64 = 0;
    let mut over = false;
    let ghost mut acc: int = 0int;
    let mut cur = j;
    while cur < s.len() && is_digit_exec(s[cur])
        invariant
            j <= cur <= s@.len(),
            big == 9223372036854775808,
            spec_parse_digits(s@, j as int, 0) == spec_parse_digits(s@, cur as int, acc),
            !over ==> mag == acc && acc <= big,
            over ==> acc > big,
            acc >= 0,
        decreases s@.len() - cur,
    {
        let c = s[cur];
        let d: u64 = ((c as u32) - 48) as u64;
        let ghost acc0 = acc;
        proof {
            acc = acc0 * 10 + digit_val(c);
        }
        if over || mag > (big - d) / 10 {
            proof {
                if over {
                    assert(acc > big) by (nonlinear_arith)
                        requires
                            acc == acc0 * 10 + d,
                            acc0 > big,
                            d >= 0,
                            big >= 0,
                    ;
                } else {
                    assert(acc > big) by (nonlinear_arith)
                        requires
                            acc == acc0 * 10 + d,
                            acc0 == mag,
                            mag > (big - d) / 10,
                            0 <= d < 10,
                            mag >= 0,
                            big == 9223372036854775808,
                    ;
                }
            }
            over = true;
        } else {
            proof {
                assert(mag * 10 + d <= big) by (nonlinear_arith)
                    requires
                        mag <= (big - d) / 10,
                        0 <= d < 10,
                        mag >= 0,
                        big == 9223372036854775808,
                ;
            }
            mag = mag * 10 + d;
        }
        cur += 1;
    }
    if cur < s.len() && (s[cur] == '.' || s[cur] == 'e' || s[cur] == 'E') {
        return None;
    }
    if over {
        return None;
    }
    if neg {
        if mag == big {
            Some((i64::MIN, cur))
        } else {
            Some((-(mag as i64), cur))
        }
    } else {
        if mag >= big {
            return None;
        }
        Some((mag as i64, cur))
    }
}

/// Decodes one value starting at non-whitespace position `i`.
pub fn parse_value_exec(s: &Vec<char>, i: usize) -> (r: Option<(JsonVal, usize)>)
    requires
        i <= s@.len(),
    ensures
        match spec_parse_value(s@, i as int) {
            Some((jv, k)) => {
                &&& r matches Some(p)
                &&& p.0.view() == jv
                &&& p.1 as int == k
                &&& i < p.1 <= s@.len()
            },
            None => r is None,
        },
    decreases s@.len() - i, 0int,
{
    if i >= s.len() {
        return None;
    }
    let c = s[i];
    if c == 'n' {
        if s.len() - i >= 4 && s[i + 1] == 'u' && s[i + 2] == 'l' && s[i + 3] == 'l' {
            Some((JsonVal::Null, i + 4))
        } else {
            None
        }
    } else if c == 't' {
        if s.len() - i >= 4 && s[i + 1] == 'r' && s[i + 2] == 'u' && s[i + 3] == 'e' {
            Some((JsonVal::Bool(true), i + 4))
        } else {
            None
        }
    } else if c == 'f' {
        if s.len() - i >= 5 && s[i + 1] == 'a' && s[i + 2] == 'l' && s[i + 3] == 's' && s[i + 4]
            == 'e' {
            Some((JsonVal::Bool(false), i + 5))
        } else {
            None
        }
    } else if c == '"' {
        match parse_string_exec(s, i + 1) {
            Some(p) => Some((JsonVal::Str(p.0), p.1)),
            None => None,
        }
    } else if c == '[' {
        match parse_elems_exec(s, i + 1) {
            Some(p) => {
                proof {
                    lemma_arr_view(p.0);
                }
                Some((JsonVal::Arr(p.0), p.1))
            }
            None => None,
        }
    } else if c == '{' {
        match parse_members_exec(s, i + 1) {
            Some(p) => {
                proof {
                    lemma_obj_view(p.0);
                }
                Some((JsonVal::Obj(p.0), p.1))
            }
            None => None,
        }
    } else if c == '-' || is_digit_exec(c) {
        match parse_int_exec(s, i) {
            Some(p) => Some((JsonVal::Int(p.0), p.1)),
            None => None,
        }
    } else {
        None
    }
}

/// Decodes the inside of an array, starting just after `[`.
fn parse_elems_exec(s: &Vec<char>, i: usize) -> (r: Option<(Vec<JsonVal>, usize)>)
    requires
        i <= s@.len(),
    ensures
        match spec_parse_elems(s@, i as int) {
            Some((items, k)) => {
                &&& r matches Some(p)
                &&& views(p.0@) == items
                &&& p.1 as int == k
                &&& i < p.1 <= s@.len()
            },
            None => r is None,
        },
    decreases s@.len() - i, 1int,
{
    let j = skip_ws_exec(s, i);
    if j >= s.len() {
        return None;
    }
    if s[j] == ']' {
        let empty: Vec<JsonVal> = Vec::new();
        proof {
            assert(views(empty@) =~= Seq::<JVal>::empty());
        }
        return Some((empty, j + 1));
    }
    match parse_value_exec(s, j) {
        None => None,
        Some(p0) => {
            let ghost v0 = p0.0.view();
            let mut acc: Vec<JsonVal> = Vec::new();
            acc.push(p0.0);
            let mut cur = p0.1;
            proof {
                assert(views(acc@) =~= seq![v0]);
            }
            loop
                invariant
                    i < cur <= s@.len(),
                    spec_parse_elems(s@, i as int) == spec_parse_arr_rest(
                        s@,
                        cur as int,
                        views(acc@),
                    ),
                decreases s@.len() - cur,
            {
                let j2 = skip_ws_exec(s, cur);
                if j2 >= s.len() {
                    return None;
                }
                if s[j2] == ']' {
                    return Some((acc, j2 + 1));
                }
                if s[j2] != ',' {
                    return None;
                }
                let j3 = skip_ws_exec(s, j2 + 1);
                match parse_value_exec(s, j3) {
                    None => {
                        return None;
                    }
                    Some(p) => {
                        let ghost accv = views(acc@);
                        let ghost pv = p.0.view();
                        acc.push(p.0);
                        cur = p.1;
                        proof {
                            assert(views(acc@) =~= accv.push(pv));
                        }
                    }
                }
            }
        }
    }
}

/// Decodes one `"key": value` member, starting at the key's opening quote.
fn parse_member_exec(s: &Vec<char>, i: usize) -> (r: Option<((Vec<char>, JsonVal), usize)>)
    requires
        i <= s@.len(),
    ensures
        match spec_parse_member(s@, i as int) {
            Some((m, k)) => {
                &&& r matches Some(p)
                &&& p.0.0@ == m.0
                &&& p.0.1.view() == m.1
                &&& p.1 as int == k
                &&& i < p.1 <= s@.len()
            },
            None => r is None,
        },
    decreases s@.len() - i, 1int,
{
    if i >= s.len() || s[i] != '"' {
        return None;
    }
    match parse_string_exec(s, i + 1) {
        None => None,
        Some(kp) => {
            let j = skip_ws_exec(s, kp.1);
            if j >= s.len() || s[j] != ':' {
                return None;
            }
            let j2 = skip_ws_exec(s, j + 1);
            match parse_value_exec(s, j2) {
                None => None,
                Some(vp) => Some(((kp.0, vp.0), vp.1)),
            }
        }
    }
}

/// Decodes the inside of an object, starting just after `{`.
fn parse_members_exec(s: &Vec<char>, i: usize) -> (r: Option<(Vec<(Vec<char>, JsonVal)>, usize)>)
    requires
        i <= s@.len(),
    ensures
        match spec_parse_members(s@, i as int) {
            Some((ms, k)) => {
                &&& r matches Some(p)
                &&& member_views(p.0@) == ms
                &&& p.1 as int == k
                &&& i < p.1 <= s@.len()
            },
            None => r is None,
        },
    decreases s@.len() - i, 2int,
{
    let j = skip_ws_exec(s, i);
    if j >= s.len() {
        return None;
    }
    if s[j] == '}' {
        let empty: Vec<(Vec<char>, JsonVal)> = Vec::new();
        proof {
            assert(member_views(empty@) =~= Seq::<(Seq<char>, JVal)>::empty());
        }
        return Some((empty, j + 1));
    }
    match parse_member_exec(s, j) {
        None => None,
        Some(p0) => {
            let ghost m0 = (p0.0.0@, p0.0.1.view());
            let mut acc: Vec<(Vec<char>, JsonVal)> = Vec::new();
            acc.push(p0.0);
            let mut cur = p0.1;
            proof {
                assert(member_views(acc@) =~= seq![m0]);
            }
            loop
                invariant
                    i < cur <= s@.len(),
                    spec_parse_members(s@, i as int) == spec_parse_obj_rest(
                        s@,
                        cur as int,
                        member_views(acc@),
                    ),
                decreases s@.len() - cur,
            {
                let j2 = skip_ws_exec(s, cur);
                if j2 >= s.len() {
                    return None;
                }
                if s[j2] == '}' {
                    return Some((acc, j2 + 1));
                }
                if s[j2] != ',' {
                    return None;
                }
                let j3 = skip_ws_exec(s, j2 + 1);
                match parse_member_exec(s, j3) {
                    None => {
                        return None;
                    }
                    Some(p) => {
                        let ghost accv = member_views(acc@);
                        let ghost mv = (p.0.0@, p.0.1.view());
                        acc.push(p.0);
                        cur = p.1;
                        proof {
                            assert(member_views(acc@) =~= accv.push(mv));
                        }
                    }
                }
            }
        }
    }
}

/// Decodes a complete document: one value, surrounded by nothing but
/// whitespace.
pub fn parse_json(s: &str) -> (r: Option<JsonVal>)
    ensures
        match spec_parse_json(s@) {
            Some(jv) => r matches Some(v) && v.view() == jv,
            None => r is None,
        },
{
    let chars = crate::text::str_chars(s);
    let i = skip_ws_exec(&chars, 0);
    match parse_value_exec(&chars, i) {
        None => None,
        Some(p) => {
            let j = skip_ws_exec(&chars, p.1);
            if j == chars.len() {
                Some(p.0)
            } else {
                None
            }
        }
    }
}

// ---------------------------------------------------------------------------
// Reading decoded objects
// ---------------------------------------------------------------------------

/// The member under `key`, the last occurrence winning.
pub fn obj_get<'a>(ms: &'a Vec<(Vec<char>, JsonVal)>, key: &Vec<char>) -> (r: Option<&'a JsonVal>)
    ensures
        match jobj_get(member_views(ms@), key@) {
            None => r is None,
            Some(jv) => r matches Some(x) && x.view() == jv,
        },
{
    let mut found: Option<&'a JsonVal> = None;
    let mut i: usize = 0;
    proof {
        assert(member_views(ms@).take(0) =~= Seq::<(Seq<char>, JVal)>::empty());
    }
    while i < ms.len()
        invariant
            i <= ms@.len(),
            match jobj_get(member_views(ms@).take(i as int), key@) {
                None => found is None,
                Some(jv) => found matches Some(x) && x.view() == jv,
            },
        decreases ms@.len() - i,
    {
        if chars_eq(&ms[i].0, key) {
            found = Some(&ms[i].1);
        }
        i += 1;
        proof {
            let mv = member_views(ms@);
            assert(mv.take(i as int).drop_last() =~= mv.take(i as int - 1));
            assert(mv.take(i as int).last() == mv[i as int - 1]);
        }
    }
    proof {
        assert(member_views(ms@).take(ms@.len() as int) =~= member_views(ms@));
    }
    found
}

/// An optional string field, per [`jfield_opt_str`].
pub fn get_opt_str(ms: &Vec<(Vec<char>, JsonVal)>, key: &Vec<char>) -> (r: Option<Option<String>>)
    ensures
        match jfield_opt_str(member_views(ms@), key@) {
            None => r is None,
            Some(None) => r matches Some(o) && o is None,
            Some(Some(t)) => r matches Some(o) && o matches Some(st) && st@ == t,
        },
{
    match obj_get(ms, key) {
        None => Some(None),
        Some(v) => match v {
            JsonVal::Null => Some(None),
            JsonVal::Str(cs) => Some(Some(crate::text::chars_to_string(cs))),
            _ => None,
        },
    }
}

/// A required string field, per [`jfield_req_str`].
pub fn get_req_str(ms: &Vec<(Vec<char>, JsonVal)>, key: &Vec<char>) -> (r: Option<String>)
    ensures
        match jfield_req_str(member_views(ms@), key@) {
            None => r is None,
            Some(t) => r matches Some(st) && st@ == t,
        },
{
    match obj_get(ms, key) {
        Some(v) => match v {
            JsonVal::Str(cs) => Some(crate::text::chars_to_string(cs)),
            _ => None,
        },
        None => None,
    }
}

/// A required `i64` field, per [`jfield_req_i64`].
pub fn get_req_i64(ms: &Vec<(Vec<char>, JsonVal)>, key: &Vec<char>) -> (r: Option<i64>)
    ensures
        match jfield_req_i64(member_views(ms@), key@) {
            None => r is None,
            Some(v) => r matches Some(x) && x as int == v,
        },
{
    match obj_get(ms, key) {
        Some(v) => match v {
            JsonVal::Int(x) => Some(*x),
            _ => None,
        },
        None => None,
    }
}

/// A required `i32` field, per [`jfield_req_i32`].
pub fn get_req_i32(ms: &Vec<(Vec<char>, JsonVal)>, key: &Vec<char>) -> (r: Option<i32>)
    ensures
        match jfield_req_i32(member_views(ms@), key@) {
            None => r is None,
            Some(v) => r matches Some(x) && x as int == v,
        },
{
    match obj_get(ms, key) {
        Some(v) => match v {
            JsonVal::Int(x) => {
                if *x >= -2147483648i64 && *x <= 2147483647i64 {
                    Some(*x as i32)
                } else {
                    None
                }
            }
            _ => None,
        },
        None => None,
    }
}

// ---------------------------------------------------------------------------
// The executable encoder
// ---------------------------------------------------------------------------

/// `u` read back to front.
pub open spec fn rev_chars(u: Seq<char>) -> Seq<char> {
    Seq::new(u.len(), |q: int| u[u.len() - 1 - q])
}

/// The digit character for `d` in `0..16`, as the encoder writes it.
fn hex_char_exec(d: u32) -> (c: char)
    requires
        d < 16,
    ensures
        c == hex_char(d as int),
{
    if d < 10 {
        ((48 + d) as u8) as char
    } else {
        ((87 + d) as u8) as char
    }
}

/// Appends the decimal form of `v`.
fn write_int(v: i64, out: &mut Vec<char>)
    ensures
        final(out)@ == old(out)@ + enc_int(v as int),
{
    let big: u64 = 9223372036854775808u64;
    let mag: u64 = if v == i64::MIN {
        big
    } else if v < 0 {
        (-v) as u64
    } else {
        v as u64
    };
    if v < 0 {
        out.push('-');
    }
    let ghost base = out@;
    let mut digits: Vec<char> = Vec::new();
    let mut m: u64 = mag;
    while m >= 10
        invariant
            enc_nat(mag as int) == enc_nat(m as int) + rev_chars(digits@),
        decreases m,
    {
        let d: u32 = (m % 10) as u32;
        let ghost pre = digits@;
        digits.push(hex_char_exec(d));
        m = m / 10;
        proof {
            assert(rev_chars(digits@) =~= seq![hex_char(d as int)] + rev_chars(pre));
            assert(enc_nat(m as int).push(hex_char(d as int)) + rev_chars(pre) =~= enc_nat(
                m as int,
            ) + (seq![hex_char(d as int)] + rev_chars(pre)));
        }
    }
    let ghost pre = digits@;
    digits.push(hex_char_exec(m as u32));
    proof {
        assert(rev_chars(digits@) =~= seq![hex_char(m as int)] + rev_chars(pre));
        assert(enc_nat(m as int) + rev_chars(pre) =~= seq![hex_char(m as int)] + rev_chars(pre));
        assert(enc_nat(mag as int) == rev_chars(digits@));
    }
    let n = digits.len();
    let mut t: usize = 0;
    while t < n
        invariant
            t <= n,
            n == digits@.len(),
            out@ == base + rev_chars(digits@).subrange(0, t as int),
        decreases n - t,
    {
        out.push(digits[n - 1 - t]);
        t += 1;
        proof {
            assert(out@ =~= base + rev_chars(digits@).subrange(0, t as int));
        }
    }
    proof {
        assert(rev_chars(digits@).subrange(0, n as int) =~= rev_chars(digits@));
        if v < 0 {
            assert(out@ =~= old(out)@ + enc_int(v as int));
        } else {
            assert(out@ =~= old(out)@ + enc_int(v as int));
        }
    }
}

/// Appends one encoded string, quotes included.
fn write_string(t: &Vec<char>, out: &mut Vec<char>)
    ensures
        final(out)@ == old(out)@ + enc_string(t@),
{
    let ghost whole = old(out)@ + enc_string(t@);
    out.push('"');
    let n = t.len();
    let mut k: usize = 0;
    proof {
        assert(t@.subrange(0, n as int) =~= t@);
        assert(out@ + enc_str_body(t@.subrange(0, n as int)) + seq!['"'] =~= whole);
    }
    while k < n
        invariant
            k <= n,
            n == t@.len(),
            out@ + enc_str_body(t@.subrange(k as int, n as int)) + seq!['"'] == whole,
        decreases n - k,
    {
        let c = t[k];
        let ghost pre = out@;
        let ghost rest = t@.subrange(k as int, n as int);
        proof {
            assert(rest[0] == t@[k as int]);
            assert(rest.drop_first() =~= t@.subrange(k as int + 1, n as int));
        }
        if c == '"' {
            out.push('\\');
            out.push('"');
        } else if c == '\\' {
            out.push('\\');
            out.push('\\');
        } else if c == '\n' {
            out.push('\\');
            out.push('n');
        } else if c == '\t' {
            out.push('\\');
            out.push('t');
        } else if c == '\r' {
            out.push('\\');
            out.push('r');
        } else if c == '\u{8}' {
            out.push('\\');
            out.push('b');
        } else if c == '\u{c}' {
            out.push('\\');
            out.push('f');
        } else if (c as u32) < 32 {
            out.push('\\');
            out.push('u');
            out.push('0');
            out.push('0');
            out.push(hex_char_exec((c as u32) / 16));
            out.push(hex_char_exec((c as u32) % 16));
        } else {
            out.push(c);
        }
        k += 1;
        proof {
            assert(out@ =~= pre + enc_char(c));
            assert(pre + (enc_char(c) + enc_str_body(t@.subrange(k as int, n as int))) =~= out@
                + enc_str_body(t@.subrange(k as int, n as int)));
        }
    }
    proof {
        assert(enc_str_body(t@.subrange(n as int, n as int)) =~= Seq::<char>::empty());
        assert(out@ + Seq::<char>::empty() =~= out@);
    }
    out.push('"');
    proof {
        assert(out@ =~= whole);
    }
}

/// Appends the compact text of one value.
fn write_value(v: &JsonVal, out: &mut Vec<char>)
    ensures
        final(out)@ == old(out)@ + spec_encode(v.view()),
    decreases v,
{
    match v {
        JsonVal::Null => {
            out.push('n');
            out.push('u');
            out.push('l');
            out.push('l');
            proof {
                assert(out@ =~= old(out)@ + spec_encode(v.view()));
            }
        }
        JsonVal::Bool(b) => {
            if *b {
                out.push('t');
                out.push('r');
                out.push('u');
                out.push('e');
            } else {
                out.push('f');
                out.push('a');
                out.push('l');
                out.push('s');
                out.push('e');
            }
            proof {
                assert(out@ =~= old(out)@ + spec_encode(v.view()));
            }
        }
        JsonVal::Int(i) => {
            write_int(*i, out);
        }
        JsonVal::Str(s) => {
            write_string(s, out);
        }
        JsonVal::Arr(items) => {
            let ghost vs = views(items@);
            proof {
                assert(v.view()->Arr_0 =~= vs);
            }
            let ghost whole = old(out)@ + spec_encode(v.view());
            out.push('[');
            let n = items.len();
            proof {
                assert(out@ + enc_elems(vs, 0) + seq![']'] =~= whole);
            }
            let mut k: usize = 0;
            while k < n
                invariant
                    *v is Arr && v->Arr_0 == *items,
                    k <= n,
                    n == items@.len(),
                    vs == views(items@),
                    out@ + enc_elems(vs, k as int) + seq![']'] == whole,
                decreases n - k,
            {
                let ghost pre = out@;
                proof {
                    assert(*items == v->Arr_0);
                    assert(decreases_to!(*v => v->Arr_0));
                    assert(decreases_to!(*items => items@[k as int]));
                }
                write_value(&items[k], out);
                if k + 1 < n {
                    out.push(',');
                    proof {
                        assert(out@ =~= pre + (spec_encode(vs[k as int]) + seq![',']));
                        assert(pre + (spec_encode(vs[k as int]) + seq![','] + enc_elems(
                            vs,
                            k as int + 1,
                        )) =~= out@ + enc_elems(vs, k as int + 1));
                        assert(spec_encode(vs[k as int]) + seq![','] + enc_elems(vs, k as int + 1)
                            =~= enc_elems(vs, k as int));
                    }
                } else {
                    proof {
                        assert(enc_elems(vs, k as int) =~= spec_encode(vs[k as int]) + enc_elems(
                            vs,
                            k as int + 1,
                        ));
                        assert(pre + (spec_encode(vs[k as int]) + enc_elems(vs, k as int + 1)) =~=
                        out@ + enc_elems(vs, k as int + 1));
                    }
                }
                k += 1;
            }
            out.push(']');
            proof {
                assert(enc_elems(vs, n as int) =~= Seq::<char>::empty());
                assert(out@ =~= whole);
            }
        }
        JsonVal::Obj(ms) => {
            let ghost vs = member_views(ms@);
            proof {
                assert(v.view()->Obj_0 =~= vs);
            }
            let ghost whole = old(out)@ + spec_encode(v.view());
            out.push('{');
            let n = ms.len();
            proof {
                assert(out@ + enc_members(vs, 0) + seq!['}'] =~= whole);
            }
            let mut k: usize = 0;
            while k < n
                invariant
                    *v is Obj && v->Obj_0 == *ms,
                    k <= n,
                    n == ms@.len(),
                    vs == member_views(ms@),
                    out@ + enc_members(vs, k as int) + seq!['}'] == whole,
                decreases n - k,
            {
                let ghost pre = out@;
                proof {
                    assert(*ms == v->Obj_0);
                    assert(decreases_to!(*v => v->Obj_0));
                    assert(decreases_to!(*ms => ms@[k as int]));
                    assert(decreases_to!(ms@[k as int] => ms@[k as int].1));
                }
                write_string(&ms[k].0, out);
                out.push(':');
                write_value(&ms[k].1, out);
                let ghost one = enc_string(vs[k as int].0) + seq![':'] + spec_encode(
                    vs[k as int].1,
                );
                proof {
                    assert(out@ =~= pre + one);
                }
                if k + 1 < n {
                    out.push(',');
                    proof {
                        assert(out@ =~= pre + (one + seq![',']));
                        assert(pre + (one + seq![','] + enc_members(vs, k as int + 1)) =~= out@
                            + enc_members(vs, k as int + 1));
                        assert(one + seq![','] + enc_members(vs, k as int + 1) =~= enc_members(
                            vs,
                            k as int,
                        ));
                    }
                } else {
                    proof {
                        assert(enc_members(vs, k as int) =~= one + enc_members(vs, k as int + 1));
                        assert(pre + (one + enc_members(vs, k as int + 1)) =~= out@ + enc_members(
                            vs,
                            k as int + 1,
                        ));
                    }
                }
                k += 1;
            }
            out.push('}');
            proof {
                assert(enc_members(vs, n as int) =~= Seq::<char>::empty());
                assert(out@ =~= whole);
            }
        }
    }
}

/// The decimal form of an integer as a string.
pub fn int_to_string(v: i64) -> (r: String)
    ensures
        r@ == enc_int(v as int),
{
    let mut out: Vec<char> = Vec::new();
    write_int(v, &mut out);
    proof {
        assert(Seq::<char>::empty() + enc_int(v as int) =~= enc_int(v as int));
    }
    crate::text::chars_to_string(&out)
}

/// Encodes a value as compact JSON text.
pub fn encode_json(v: &JsonVal) -> (r: String)
    ensures
        r@ == spec_encode(v.view()),
{
    let mut out: Vec<char> = Vec::new();
    write_value(v, &mut out);
    crate::text::chars_to_string(&out)
}

} // verus!
