//! A small JSON value model with a verified decoder and encoder.
//!
//! The upstream API answers every request with a JSON body; the resource
//! decoders in this crate read those bodies through this module.  The grammar
//! covered is the part of JSON those bodies use: `null`, booleans, integers
//! (no fractions or exponents), strings with the standard escapes, arrays and
//! objects.  A body outside this grammar fails to decode, which the fetch
//! pipeline treats as a logged, dropped result.

use vstd::prelude::*;

verus! {

/// The mathematical model of a JSON value.
pub enum JVal {
    Null,
    Bool(bool),
    Int(int),
    Str(Seq<char>),
    Arr(Seq<JVal>),
    Obj(Seq<(Seq<char>, JVal)>),
}

/// A JSON value as the decoder materializes it.
pub enum JsonVal {
    Null,
    Bool(bool),
    Int(i64),
    Str(Vec<char>),
    Arr(Vec<JsonVal>),
    Obj(Vec<(Vec<char>, JsonVal)>),
}

impl JsonVal {
    /// The mathematical value this node stands for.  The bounds tests in
    /// the closures keep each recursive step visibly inside the vector.
    pub open spec fn view(&self) -> JVal
        decreases self,
    {
        match self {
            JsonVal::Null => JVal::Null,
            JsonVal::Bool(b) => JVal::Bool(*b),
            JsonVal::Int(i) => JVal::Int(*i as int),
            JsonVal::Str(s) => JVal::Str(s@),
            JsonVal::Arr(items) => JVal::Arr(
                Seq::new(
                    items@.len(),
                    |k: int|
                        if 0 <= k < items@.len() {
                            items@[k].view()
                        } else {
                            JVal::Null
                        },
                ),
            ),
            JsonVal::Obj(members) => JVal::Obj(
                Seq::new(
                    members@.len(),
                    |k: int|
                        if 0 <= k < members@.len() {
                            (members@[k].0@, members@[k].1.view())
                        } else {
                            (Seq::empty(), JVal::Null)
                        },
                ),
            ),
        }
    }
}

/// Every integer in the value fits in an `i64`.  This holds of everything the
/// decoder produces and is what the encoder needs to run.
pub open spec fn jval_wf(j: JVal) -> bool
    decreases j,
{
    match j {
        JVal::Null => true,
        JVal::Bool(_) => true,
        JVal::Int(i) => i64::MIN <= i <= i64::MAX,
        JVal::Str(_) => true,
        JVal::Arr(items) => forall|k: int|
            0 <= k < items.len() ==> jval_wf(#[trigger] items[k]),
        JVal::Obj(members) => forall|k: int|
            0 <= k < members.len() ==> jval_wf(#[trigger] members[k].1),
    }
}

// ---------------------------------------------------------------------------
// Character classes
// ---------------------------------------------------------------------------

/// JSON inter-token whitespace.
pub open spec fn is_ws(c: char) -> bool {
    c == ' ' || c == '\t' || c == '\n' || c == '\r'
}

/// A decimal digit.
pub open spec fn is_digit(c: char) -> bool {
    48 <= (c as u32) <= 57
}

/// The value of a decimal digit.
pub open spec fn digit_val(c: char) -> int {
    (c as u32) - 48
}

/// The value of a hexadecimal digit, or -1 for any other character.
pub open spec fn hex_val(c: char) -> int {
    if 48 <= (c as u32) <= 57 {
        (c as u32) - 48
    } else if 97 <= (c as u32) <= 102 {
        (c as u32) - 87
    } else if 65 <= (c as u32) <= 70 {
        (c as u32) - 55
    } else {
        -1
    }
}

/// The character a short escape (`\n`, `\"`, ...) stands for.
pub open spec fn esc_char(c: char) -> Option<char> {
    if c == '"' {
        Some('"')
    } else if c == '\\' {
        Some('\\')
    } else if c == '/' {
        Some('/')
    } else if c == 'n' {
        Some('\n')
    } else if c == 't' {
        Some('\t')
    } else if c == 'r' {
        Some('\r')
    } else if c == 'b' {
        Some('\u{8}')
    } else if c == 'f' {
        Some('\u{c}')
    } else {
        None
    }
}

/// A Unicode scalar value: what a `char` can hold, and what a `\uXXXX`
/// escape must name to be accepted.
pub open spec fn is_scalar_val(v: int) -> bool {
    (0 <= v < 0xD800) || (0xE000 <= v <= 0x10FFFF)
}

// ---------------------------------------------------------------------------
// The reference decoder, at the specification level
// ---------------------------------------------------------------------------
//
// Each function takes the character sequence and a position and yields the
// decoded piece together with the position just past it, or `None` when the
// input does not match the grammar.  The guards on positions
// (`if !(i < k <= s.len())`) only restate facts that hold of every result;
// they are spelled out so each function visibly recurses at a strictly later
// position.

/// The first position at or after `i` that does not hold whitespace.
pub open spec fn skip_ws(s: Seq<char>, i: int) -> int
    decreases s.len() - i,
{
    if 0 <= i < s.len() && is_ws(s[i]) {
        skip_ws(s, i + 1)
    } else {
        i
    }
}

/// Reads digits left to right, extending the already-read value `acc`.
pub open spec fn spec_parse_digits(s: Seq<char>, i: int, acc: int) -> (int, int)
    decreases s.len() - i,
{
    if 0 <= i < s.len() && is_digit(s[i]) {
        spec_parse_digits(s, i + 1, acc * 10 + digit_val(s[i]))
    } else {
        (acc, i)
    }
}

/// An integer: an optional minus sign and digits, rejected when it does not
/// fit in an `i64` or continues as a fraction or exponent.
pub open spec fn spec_parse_int(s: Seq<char>, i: int) -> Option<(JVal, int)> {
    let neg = 0 <= i < s.len() && s[i] == '-';
    let j = if neg {
        i + 1
    } else {
        i
    };
    if 0 <= j < s.len() && is_digit(s[j]) {
        let (mag, k) = spec_parse_digits(s, j, 0);
        let v = if neg {
            -mag
        } else {
            mag
        };
        if i64::MIN <= v <= i64::MAX && !(k < s.len() && (s[k] == '.' || s[k] == 'e' || s[k]
            == 'E')) {
            Some((JVal::Int(v), k))
        } else {
            None
        }
    } else {
        None
    }
}

/// A string body, starting just after the opening quote and ending just past
/// the closing quote.
pub open spec fn spec_parse_string(s: Seq<char>, i: int) -> Option<(Seq<char>, int)>
    decreases s.len() - i, 0int,
{
    if !(0 <= i < s.len()) {
        None
    } else if s[i] == '"' {
        Some((Seq::empty(), i + 1))
    } else if s[i] == '\\' {
        if i + 1 < s.len() && s[i + 1] == 'u' {
            if i + 6 <= s.len() && hex_val(s[i + 2]) >= 0 && hex_val(s[i + 3]) >= 0 && hex_val(
                s[i + 4],
            ) >= 0 && hex_val(s[i + 5]) >= 0 {
                let v = hex_val(s[i + 2]) * 4096 + hex_val(s[i + 3]) * 256 + hex_val(s[i + 4]) * 16
                    + hex_val(s[i + 5]);
                if is_scalar_val(v) {
                    match spec_parse_string(s, i + 6) {
                        Some((t, k)) => Some((seq![((v as u32) as char)] + t, k)),
                        None => None,
                    }
                } else {
                    None
                }
            } else {
                None
            }
        } else if i + 1 < s.len() {
            match esc_char(s[i + 1]) {
                Some(d) => match spec_parse_string(s, i + 2) {
                    Some((t, k)) => Some((seq![d] + t, k)),
                    None => None,
                },
                None => None,
            }
        } else {
            None
        }
    } else if (s[i] as u32) < 32 {
        None
    } else {
        match spec_parse_string(s, i + 1) {
            Some((t, k)) => Some((seq![s[i]] + t, k)),
            None => None,
        }
    }
}

/// A complete value, starting at a non-whitespace position.
pub open spec fn spec_parse_value(s: Seq<char>, i: int) -> Option<(JVal, int)>
    decreases s.len() - i, 0int,
{
    if !(0 <= i < s.len()) {
        None
    } else if s[i] == 'n' {
        if i + 4 <= s.len() && s[i + 1] == 'u' && s[i + 2] == 'l' && s[i + 3] == 'l' {
            Some((JVal::Null, i + 4))
        } else {
            None
        }
    } else if s[i] == 't' {
        if i + 4 <= s.len() && s[i + 1] == 'r' && s[i + 2] == 'u' && s[i + 3] == 'e' {
            Some((JVal::Bool(true), i + 4))
        } else {
            None
        }
    } else if s[i] == 'f' {
        if i + 5 <= s.len() && s[i + 1] == 'a' && s[i + 2] == 'l' && s[i + 3] == 's' && s[i + 4]
            == 'e' {
            Some((JVal::Bool(false), i + 5))
        } else {
            None
        }
    } else if s[i] == '"' {
        match spec_parse_string(s, i + 1) {
            Some((t, k)) => Some((JVal::Str(t), k)),
            None => None,
        }
    } else if s[i] == '[' {
        match spec_parse_elems(s, i + 1) {
            Some((items, k)) => Some((JVal::Arr(items), k)),
            None => None,
        }
    } else if s[i] == '{' {
        match spec_parse_members(s, i + 1) {
            Some((ms, k)) => Some((JVal::Obj(ms), k)),
            None => None,
        }
    } else if s[i] == '-' || is_digit(s[i]) {
        spec_parse_int(s, i)
    } else {
        None
    }
}

/// The inside of an array, starting just after `[`.
pub open spec fn spec_parse_elems(s: Seq<char>, i: int) -> Option<(Seq<JVal>, int)>
    decreases s.len() - i, 1int,
{
    if !(0 <= i <= s.len()) {
        None
    } else {
        let j = skip_ws(s, i);
        if !(i <= j < s.len()) {
            None
        } else if s[j] == ']' {
            Some((Seq::empty(), j + 1))
        } else {
            match spec_parse_value(s, j) {
                Some((v, k)) => if j < k <= s.len() {
                    spec_parse_arr_rest(s, k, seq![v])
                } else {
                    None
                },
                None => None,
            }
        }
    }
}

/// The elements after the first, each preceded by a comma, up to `]`.
pub open spec fn spec_parse_arr_rest(s: Seq<char>, i: int, acc: Seq<JVal>) -> Option<
    (Seq<JVal>, int),
>
    decreases s.len() - i, 2int,
{
    if !(0 <= i <= s.len()) {
        None
    } else {
        let j = skip_ws(s, i);
        if !(i <= j < s.len()) {
            None
        } else if s[j] == ']' {
            Some((acc, j + 1))
        } else if s[j] == ',' {
            let j2 = skip_ws(s, j + 1);
            if !(j < j2 <= s.len()) {
                None
            } else {
                match spec_parse_value(s, j2) {
                    Some((v, k)) => if j2 < k <= s.len() {
                        spec_parse_arr_rest(s, k, acc.push(v))
                    } else {
                        None
                    },
                    None => None,
                }
            }
        } else {
            None
        }
    }
}

/// One `"key": value` pair, starting at the opening quote of the key.
pub open spec fn spec_parse_member(s: Seq<char>, i: int) -> Option<((Seq<char>, JVal), int)>
    decreases s.len() - i, 1int,
{
    if !(0 <= i < s.len() && s[i] == '"') {
        None
    } else {
        match spec_parse_string(s, i + 1) {
            Some((key, k1)) => {
                if !(i < k1 <= s.len()) {
                    None
                } else {
                    let j = skip_ws(s, k1);
                    if !(k1 <= j < s.len() && s[j] == ':') {
                        None
                    } else {
                        let j2 = skip_ws(s, j + 1);
                        if !(j < j2 <= s.len()) {
                            None
                        } else {
                            match spec_parse_value(s, j2) {
                                Some((v, k)) => Some(((key, v), k)),
                                None => None,
                            }
                        }
                    }
                }
            }
            None => None,
        }
    }
}

/// The inside of an object, starting just after `{`.
pub open spec fn spec_parse_members(s: Seq<char>, i: int) -> Option<(Seq<(Seq<char>, JVal)>, int)>
    decreases s.len() - i, 2int,
{
    if !(0 <= i <= s.len()) {
        None
    } else {
        let j = skip_ws(s, i);
        if !(i <= j < s.len()) {
            None
        } else if s[j] == '}' {
            Some((Seq::empty(), j + 1))
        } else {
            match spec_parse_member(s, j) {
                Some((m, k)) => if j < k <= s.len() {
                    spec_parse_obj_rest(s, k, seq![m])
                } else {
                    None
                },
                None => None,
            }
        }
    }
}

/// The members after the first, each preceded by a comma, up to `}`.
pub open spec fn spec_parse_obj_rest(s: Seq<char>, i: int, acc: Seq<(Seq<char>, JVal)>) -> Option<
    (Seq<(Seq<char>, JVal)>, int),
>
    decreases s.len() - i, 3int,
{
    if !(0 <= i <= s.len()) {
        None
    } else {
        let j = skip_ws(s, i);
        if !(i <= j < s.len()) {
            None
        } else if s[j] == '}' {
            Some((acc, j + 1))
        } else if s[j] == ',' {
            let j2 = skip_ws(s, j + 1);
            if !(j < j2 <= s.len()) {
                None
            } else {
                match spec_parse_member(s, j2) {
                    Some((m, k)) => if j2 < k <= s.len() {
                        spec_parse_obj_rest(s, k, acc.push(m))
                    } else {
                        None
                    },
                    None => None,
                }
            }
        } else {
            None
        }
    }
}

/// A whole document: one value, possibly surrounded by whitespace, and
/// nothing after it.
pub open spec fn spec_parse_json(s: Seq<char>) -> Option<JVal> {
    let i = skip_ws(s, 0);
    match spec_parse_value(s, i) {
        Some((v, k)) => if skip_ws(s, k) == s.len() {
            Some(v)
        } else {
            None
        },
        None => None,
    }
}

// ---------------------------------------------------------------------------
// Reading object members
// ---------------------------------------------------------------------------

/// The value under `key`, the last occurrence winning as in the decoders the
/// upstream bodies were written for.
pub open spec fn jobj_get(ms: Seq<(Seq<char>, JVal)>, key: Seq<char>) -> Option<JVal>
    decreases ms.len(),
{
    if ms.len() == 0 {
        None
    } else if ms.last().0 == key {
        Some(ms.last().1)
    } else {
        jobj_get(ms.drop_last(), key)
    }
}

/// An optional string field: absent or `null` is `None`, a string is its
/// characters, anything else a decode error (the outer `None`).
pub open spec fn jfield_opt_str(ms: Seq<(Seq<char>, JVal)>, key: Seq<char>) -> Option<
    Option<Seq<char>>,
> {
    match jobj_get(ms, key) {
        None => Some(None),
        Some(JVal::Null) => Some(None),
        Some(JVal::Str(t)) => Some(Some(t)),
        Some(_) => None,
    }
}

/// A required string field: a decode error when absent or not a string.
pub open spec fn jfield_req_str(ms: Seq<(Seq<char>, JVal)>, key: Seq<char>) -> Option<Seq<char>> {
    match jobj_get(ms, key) {
        Some(JVal::Str(t)) => Some(t),
        _ => None,
    }
}

/// A required integer field that must fit in an `i64`.
pub open spec fn jfield_req_i64(ms: Seq<(Seq<char>, JVal)>, key: Seq<char>) -> Option<int> {
    match jobj_get(ms, key) {
        Some(JVal::Int(v)) => if i64::MIN <= v <= i64::MAX {
            Some(v)
        } else {
            None
        },
        _ => None,
    }
}

/// A required integer field that must fit in an `i32`.
pub open spec fn jfield_req_i32(ms: Seq<(Seq<char>, JVal)>, key: Seq<char>) -> Option<int> {
    match jobj_get(ms, key) {
        Some(JVal::Int(v)) => if i32::MIN <= v <= i32::MAX {
            Some(v)
        } else {
            None
        },
        _ => None,
    }
}

// ---------------------------------------------------------------------------
// The reference encoder, at the specification level
// ---------------------------------------------------------------------------

/// The digit character for `d` in `0..16`.
pub open spec fn hex_char(d: int) -> char {
    if d < 10 {
        ((48 + d) as u32) as char
    } else {
        ((87 + d) as u32) as char
    }
}

/// The decimal digits of `n >= 0`, most significant first.
pub open spec fn enc_nat(n: int) -> Seq<char>
    decreases n,
{
    if n < 10 {
        seq![hex_char(if n < 0 { 0 } else { n })]
    } else {
        enc_nat(n / 10).push(hex_char(n % 10))
    }
}

/// The decimal form of `v`, with a leading minus sign when negative.
pub open spec fn enc_int(v: int) -> Seq<char> {
    if v < 0 {
        seq!['-'] + enc_nat(-v)
    } else {
        enc_nat(v)
    }
}

/// How one character appears inside an encoded string.
pub open spec fn enc_char(c: char) -> Seq<char> {
    if c == '"' {
        seq!['\\', '"']
    } else if c == '\\' {
        seq!['\\', '\\']
    } else if c == '\n' {
        seq!['\\', 'n']
    } else if c == '\t' {
        seq!['\\', 't']
    } else if c == '\r' {
        seq!['\\', 'r']
    } else if c == '\u{8}' {
        seq!['\\', 'b']
    } else if c == '\u{c}' {
        seq!['\\', 'f']
    } else if (c as u32) < 32 {
        seq!['\\', 'u', '0', '0', hex_char((c as u32) as int / 16), hex_char((c as u32) as int % 16)]
    } else {
        seq![c]
    }
}

/// The body of an encoded string.
pub open spec fn enc_str_body(t: Seq<char>) -> Seq<char>
    decreases t.len(),
{
    if t.len() == 0 {
        Seq::empty()
    } else {
        enc_char(t[0]) + enc_str_body(t.drop_first())
    }
}

/// A full encoded string, quotes included.
pub open spec fn enc_string(t: Seq<char>) -> Seq<char> {
    seq!['"'] + enc_str_body(t) + seq!['"']
}

/// The compact (whitespace-free) text for a value.
pub open spec fn spec_encode(j: JVal) -> Seq<char>
    decreases j, 0int,
{
    match j {
        JVal::Null => seq!['n', 'u', 'l', 'l'],
        JVal::Bool(b) => if b {
            seq!['t', 'r', 'u', 'e']
        } else {
            seq!['f', 'a', 'l', 's', 'e']
        },
        JVal::Int(v) => enc_int(v),
        JVal::Str(t) => enc_string(t),
        JVal::Arr(items) => seq!['['] + enc_elems(items, 0) + seq![']'],
        JVal::Obj(ms) => seq!['{'] + enc_members(ms, 0) + seq!['}'],
    }
}

/// The elements of an array from index `k` on, comma separated.
pub open spec fn enc_elems(items: Seq<JVal>, k: int) -> Seq<char>
    decreases items, items.len() - k,
{
    if !(0 <= k < items.len()) {
        Seq::empty()
    } else if k == items.len() - 1 {
        spec_encode(items[k])
    } else {
        spec_encode(items[k]) + seq![','] + enc_elems(items, k + 1)
    }
}

/// The members of an object from index `k` on, comma separated.
pub open spec fn enc_members(ms: Seq<(Seq<char>, JVal)>, k: int) -> Seq<char>
    decreases ms, ms.len() - k,
{
    if !(0 <= k < ms.len()) {
        Seq::empty()
    } else if k == ms.len() - 1 {
        enc_string(ms[k].0) + seq![':'] + spec_encode(ms[k].1)
    } else {
        enc_string(ms[k].0) + seq![':'] + spec_encode(ms[k].1) + seq![','] + enc_members(ms, k + 1)
    }
}

} // verus!
