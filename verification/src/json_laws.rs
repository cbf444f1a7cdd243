//! Decoding inverts encoding: feeding the encoder's output back through the
//! decoder yields the encoded value again.  This is the law behind the
//! round-trip guarantee of the resource codecs.

use vstd::prelude::*;

use crate::json::JVal;
use crate::json::digit_val;
use crate::json::enc_char;
use crate::json::enc_elems;
use crate::json::enc_int;
use crate::json::enc_members;
use crate::json::enc_nat;
use crate::json::enc_str_body;
use crate::json::enc_string;
use crate::json::esc_char;
use crate::json::hex_char;
use crate::json::hex_val;
use crate::json::is_digit;
use crate::json::is_scalar_val;
use crate::json::is_ws;
use crate::json::jval_wf;
use crate::json::skip_ws;
use crate::json::spec_encode;
use crate::json::spec_parse_arr_rest;
use crate::json::spec_parse_digits;
use crate::json::spec_parse_elems;
use crate::json::spec_parse_int;
use crate::json::spec_parse_json;
use crate::json::spec_parse_member;
use crate::json::spec_parse_members;
use crate::json::spec_parse_obj_rest;
use crate::json::spec_parse_string;
use crate::json::spec_parse_value;

verus! {

/// Ten to the `k`.
spec fn pow10(k: nat) -> int
    decreases k,
{
    if k == 0 {
        1
    } else {
        10 * pow10((k - 1) as nat)
    }
}

/// A position where a decoded number may legitimately stop: the end of the
/// input, or a character that neither extends the digits nor turns the number
/// into a fraction or exponent.
spec fn num_boundary(s: Seq<char>, p: int) -> bool {
    p == s.len() || !(is_digit(s[p]) || s[p] == '.' || s[p] == 'e' || s[p] == 'E')
}

/// The decimal digits of a number are digits, and there is at least one.
proof fn lemma_enc_nat_digits(n: int)
    requires
        0 <= n,
    ensures
        enc_nat(n).len() >= 1,
        forall|q: int| 0 <= q < enc_nat(n).len() ==> is_digit(#[trigger] enc_nat(n)[q]),
    decreases n,
{
    if n < 10 {
        assert(enc_nat(n) =~= seq![hex_char(n)]);
        assert(is_digit(hex_char(n)));
    } else {
        lemma_enc_nat_digits(n / 10);
        assert(is_digit(hex_char(n % 10)));
        assert(forall|q: int|
            0 <= q < enc_nat(n / 10).len() ==> #[trigger] enc_nat(n)[q] == enc_nat(n / 10)[q]);
    }
}

/// Reading the digits of `enc_nat(n)` extends an already-read value `acc`
/// exactly as appending `n`'s digits should.
proof fn lemma_parse_digits_enc(s: Seq<char>, i: int, n: int, acc: int)
    requires
        0 <= n,
        0 <= i,
        i + enc_nat(n).len() <= s.len(),
        s.subrange(i, i + enc_nat(n).len() as int) == enc_nat(n),
    ensures
        spec_parse_digits(s, i, acc) == spec_parse_digits(
            s,
            i + enc_nat(n).len(),
            acc * pow10(enc_nat(n).len()) + n,
        ),
    decreases n,
{
    lemma_enc_nat_digits(n);
    let m = enc_nat(n).len() as int;
    if n < 10 {
        assert(s[i] == enc_nat(n)[0]);
        assert(s[i] == hex_char(n));
        assert(is_digit(s[i]) && digit_val(s[i]) == n);
        assert(pow10(0) == 1);
        assert(pow10(1) == 10);
        assert(acc * pow10(1) + n == acc * 10 + n) by (nonlinear_arith)
            requires
                pow10(1) == 10,
        ;
    } else {
        let m1 = enc_nat(n / 10).len() as int;
        lemma_enc_nat_digits(n / 10);
        assert(s.subrange(i, i + m1) =~= enc_nat(n / 10)) by {
            assert(forall|q: int|
                0 <= q < m1 ==> enc_nat(n)[q] == #[trigger] enc_nat(n / 10)[q]);
            assert(forall|q: int|
                0 <= q < m1 ==> s.subrange(i, i + m) =~= enc_nat(n) && #[trigger] s[i + q]
                    == enc_nat(n)[q]);
        }
        lemma_parse_digits_enc(s, i, n / 10, acc);
        let a1 = acc * pow10(m1 as nat) + n / 10;
        assert(s[i + m1] == enc_nat(n)[m1]);
        assert(s[i + m1] == hex_char(n % 10));
        assert(is_digit(s[i + m1]) && digit_val(s[i + m1]) == n % 10);
        assert(spec_parse_digits(s, i + m1, a1) == spec_parse_digits(s, i + m, a1 * 10 + n % 10));
        assert(a1 * 10 + n % 10 == acc * pow10(m as nat) + n) by (nonlinear_arith)
            requires
                a1 == acc * pow10(m1 as nat) + n / 10,
                pow10(m as nat) == 10 * pow10(m1 as nat),
                n == 10 * (n / 10) + n % 10,
        ;
    }
}

/// A number, encoded and followed by a boundary, decodes to itself.
proof fn lemma_parse_int_enc(s: Seq<char>, i: int, v: int)
    requires
        i64::MIN <= v <= i64::MAX,
        0 <= i,
        i + enc_int(v).len() <= s.len(),
        s.subrange(i, i + enc_int(v).len() as int) == enc_int(v),
        num_boundary(s, i + enc_int(v).len()),
    ensures
        spec_parse_int(s, i) == Some((JVal::Int(v), i + enc_int(v).len())),
{
    let m = enc_int(v).len() as int;
    let end = i + m;
    if v < 0 {
        let n = -v;
        lemma_enc_nat_digits(n);
        let m1 = enc_nat(n).len() as int;
        assert(s[i] == enc_int(v)[0]);
        assert(s[i] == '-');
        assert forall|q: int| 0 <= q < m1 implies s.subrange(i + 1, i + 1 + m1)[q] == enc_nat(
            n,
        )[q] by {
            assert(s[i + 1 + q] == s.subrange(i, i + m)[q + 1]);
            assert(enc_int(v)[q + 1] == enc_nat(n)[q]);
        }
        assert(s.subrange(i + 1, i + 1 + m1) =~= enc_nat(n));
        lemma_parse_digits_enc(s, i + 1, n, 0);
        assert(s[i + 1] == enc_nat(n)[0]);
        assert(is_digit(s[i + 1]));
        assert(0 * pow10(m1 as nat) + n == n) by (nonlinear_arith);
        assert(spec_parse_digits(s, end, n) == (n, end));
    } else {
        let n = v;
        lemma_enc_nat_digits(n);
        assert(s.subrange(i, i + m) == enc_nat(n));
        lemma_parse_digits_enc(s, i, n, 0);
        assert(s[i] == enc_nat(n)[0]);
        assert(is_digit(s[i]));
        assert(s[i] != '-');
        assert(0 * pow10(m as nat) + n == n) by (nonlinear_arith);
        assert(spec_parse_digits(s, end, n) == (n, end));
    }
}

/// A hexadecimal digit character reads back as its value.
proof fn lemma_hex_roundtrip(d: int)
    requires
        0 <= d < 16,
    ensures
        hex_val(hex_char(d)) == d,
{
}

/// An encoded value is never empty and never starts with whitespace.
proof fn lemma_enc_head(j: JVal)
    requires
        jval_wf(j),
    ensures
        spec_encode(j).len() >= 1,
        !is_ws(spec_encode(j)[0]),
{
    match j {
        JVal::Int(v) => {
            if v < 0 {
            } else {
                lemma_enc_nat_digits(v);
                assert(is_digit(spec_encode(j)[0]));
            }
        }
        _ => {}
    }
}

/// A string body, encoded and closed with a quote, decodes to the original
/// characters.
proof fn lemma_parse_string_enc(s: Seq<char>, i: int, t: Seq<char>)
    requires
        0 <= i,
        i + enc_str_body(t).len() + 1 <= s.len(),
        s.subrange(i, i + enc_str_body(t).len() + 1) == enc_str_body(t) + seq!['"'],
    ensures
        spec_parse_string(s, i) == Some((t, i + enc_str_body(t).len() + 1)),
    decreases t.len(),
{
    let body = enc_str_body(t);
    let m = body.len() as int;
    if t.len() == 0 {
        assert(s[i] == (body + seq!['"'])[0]);
        assert(s[i] == '"');
        assert(t =~= Seq::<char>::empty());
    } else {
        let c = t[0];
        let e = enc_char(c);
        let w = e.len() as int;
        let t1 = t.drop_first();
        let body1 = enc_str_body(t1);
        assert(body == e + body1);
        assert(forall|q: int| 0 <= q < m + 1 ==> s[i + q] == #[trigger] (body + seq!['"'])[q]) by {
            assert(forall|q: int|
                0 <= q < m + 1 ==> s.subrange(i, i + m + 1)[q] == #[trigger] s[i + q]);
        }
        assert forall|q: int| 0 <= q < body1.len() + 1 implies s.subrange(
            i + w,
            i + w + body1.len() + 1,
        )[q] == (body1 + seq!['"'])[q] by {
            assert(s[i + w + q] == (body + seq!['"'])[w + q]);
        }
        assert(s.subrange(i + w, i + w + body1.len() + 1) =~= body1 + seq!['"']);
        lemma_parse_string_enc(s, i + w, t1);
        assert(seq![c] + t1 =~= t);
        assert(w >= 1);
        assert(s[i + 0] == (body + seq!['"'])[0]);
        assert(s[i] == e[0]);
        if c == '"' || c == '\\' || c == '\n' || c == '\t' || c == '\r' || c == '\u{8}' || c
            == '\u{c}' {
            assert(w == 2);
            assert(s[i + 1] == (body + seq!['"'])[1]);
            assert(s[i + 1] == e[1]);
            assert(s[i] == '\\');
            assert(esc_char(e[1]) == Some(c));
            assert(e[1] != 'u');
        } else if (c as u32) < 32 {
            let cv = (c as u32) as int;
            assert(w == 6);
            assert forall|q: int| 0 <= q < 6 implies s[i + q] == e[q] by {
                assert(s[i + q] == (body + seq!['"'])[q]);
                assert((body + seq!['"'])[q] == body[q]);
                assert(body[q] == e[q]);
            }
            assert(s[i + 1] == e[1]);
            assert(s[i + 2] == e[2]);
            assert(s[i + 3] == e[3]);
            assert(s[i + 4] == e[4]);
            assert(s[i + 5] == e[5]);
            assert(s[i] == '\\');
            assert(s[i + 1] == 'u');
            assert(s[i + 2] == '0' && s[i + 3] == '0');
            assert(s[i + 4] == hex_char(cv / 16));
            assert(s[i + 5] == hex_char(cv % 16));
            lemma_hex_roundtrip(cv / 16);
            lemma_hex_roundtrip(cv % 16);
            assert(hex_val(s[i + 2]) == 0 && hex_val(s[i + 3]) == 0);
            let v = hex_val(s[i + 2]) * 4096 + hex_val(s[i + 3]) * 256 + hex_val(s[i + 4]) * 16
                + hex_val(s[i + 5]);
            assert(v == cv);
            assert(is_scalar_val(v));
            vstd::utf8::char_u32_cast(c, c as u32);
            assert(((v as u32) as char) == c);
        } else {
            assert(s[i] == c);
            assert(s[i] != '"' && s[i] != '\\' && !((s[i] as u32) < 32));
        }
    }
}

/// What follows the first element inside an encoded array: for each further
/// element a comma and its text, then the closing bracket.
spec fn enc_arr_tail(items: Seq<JVal>, k: int) -> Seq<char>
    decreases items, items.len() - k,
{
    if !(0 <= k < items.len()) {
        seq![']']
    } else {
        seq![','] + spec_encode(items[k]) + enc_arr_tail(items, k + 1)
    }
}

/// What follows the first member inside an encoded object.
spec fn enc_obj_tail(ms: Seq<(Seq<char>, JVal)>, k: int) -> Seq<char>
    decreases ms, ms.len() - k,
{
    if !(0 <= k < ms.len()) {
        seq!['}']
    } else {
        seq![','] + enc_string(ms[k].0) + seq![':'] + spec_encode(ms[k].1) + enc_obj_tail(
            ms,
            k + 1,
        )
    }
}

/// The body-plus-bracket of an array splits as first element then tail.
proof fn lemma_elems_tail(items: Seq<JVal>, k: int)
    requires
        0 <= k < items.len(),
    ensures
        enc_elems(items, k) + seq![']'] == spec_encode(items[k]) + enc_arr_tail(items, k + 1),
    decreases items.len() - k,
{
    if k == items.len() - 1 {
        assert(enc_elems(items, k) + seq![']'] =~= spec_encode(items[k]) + enc_arr_tail(
            items,
            k + 1,
        ));
    } else {
        lemma_elems_tail(items, k + 1);
        assert(enc_arr_tail(items, k + 1) =~= seq![','] + (enc_elems(items, k + 1) + seq![']']));
        assert(enc_elems(items, k) + seq![']'] =~= spec_encode(items[k]) + (seq![','] + (enc_elems(
            items,
            k + 1,
        ) + seq![']'])));
    }
}

/// The body-plus-brace of an object splits as first member then tail.
proof fn lemma_members_tail(ms: Seq<(Seq<char>, JVal)>, k: int)
    requires
        0 <= k < ms.len(),
    ensures
        enc_members(ms, k) + seq!['}'] == enc_string(ms[k].0) + seq![':'] + spec_encode(ms[k].1)
            + enc_obj_tail(ms, k + 1),
    decreases ms.len() - k,
{
    if k == ms.len() - 1 {
        assert(enc_members(ms, k) + seq!['}'] =~= enc_string(ms[k].0) + seq![':'] + spec_encode(
            ms[k].1,
        ) + enc_obj_tail(ms, k + 1));
    } else {
        lemma_members_tail(ms, k + 1);
        assert(enc_obj_tail(ms, k + 1) =~= seq![','] + (enc_members(ms, k + 1) + seq!['}']));
        assert(enc_members(ms, k) + seq!['}'] =~= enc_string(ms[k].0) + seq![':'] + spec_encode(
            ms[k].1,
        ) + (seq![','] + (enc_members(ms, k + 1) + seq!['}'])));
    }
}

/// A matched subrange gives the characters of `w` position by position.
proof fn lemma_sub_index(s: Seq<char>, p: int, w: Seq<char>)
    requires
        0 <= p,
        p + w.len() <= s.len(),
        s.subrange(p, p + w.len() as int) == w,
    ensures
        forall|q: int| 0 <= q < w.len() ==> s[p + q] == #[trigger] w[q],
{
    assert(forall|q: int|
        0 <= q < w.len() ==> s.subrange(p, p + w.len() as int)[q] == #[trigger] s[p + q]);
}

/// A subrange of a matched subrange matches the corresponding part of `w`.
proof fn lemma_sub_chunk(s: Seq<char>, p: int, w: Seq<char>, a: int, b: int)
    requires
        0 <= p,
        p + w.len() <= s.len(),
        s.subrange(p, p + w.len() as int) == w,
        0 <= a <= b <= w.len(),
    ensures
        s.subrange(p + a, p + b) == w.subrange(a, b),
{
    lemma_sub_index(s, p, w);
    assert forall|q: int| 0 <= q < b - a implies s.subrange(p + a, p + b)[q] == w.subrange(
        a,
        b,
    )[q] by {
        assert(s[p + a + q] == w[a + q]);
    }
    assert(s.subrange(p + a, p + b) =~= w.subrange(a, b));
}

/// A value, encoded and followed by a number boundary, decodes to itself.
#[verifier::rlimit(60)]
proof fn lemma_parse_encode(s: Seq<char>, i: int, j: JVal)
    requires
        jval_wf(j),
        0 <= i,
        i + spec_encode(j).len() <= s.len(),
        s.subrange(i, i + spec_encode(j).len() as int) == spec_encode(j),
        num_boundary(s, i + spec_encode(j).len()),
    ensures
        spec_parse_value(s, i) == Some((j, i + spec_encode(j).len())),
    decreases j, 0int,
{
    let enc = spec_encode(j);
    let m = enc.len() as int;
    let end = i + m;
    lemma_sub_index(s, i, enc);
    match j {
        JVal::Null => {
            assert(s[i + 0] == 'n' && s[i + 1] == 'u' && s[i + 2] == 'l' && s[i + 3] == 'l');
        }
        JVal::Bool(b) => {
            if b {
                assert(s[i + 0] == 't' && s[i + 1] == 'r' && s[i + 2] == 'u' && s[i + 3] == 'e');
            } else {
                assert(s[i + 0] == 'f' && s[i + 1] == 'a' && s[i + 2] == 'l' && s[i + 3] == 's'
                    && s[i + 4] == 'e');
            }
        }
        JVal::Int(v) => {
            lemma_parse_int_enc(s, i, v);
            assert(s[i + 0] == enc_int(v)[0]);
            if v < 0 {
                assert(s[i] == '-');
            } else {
                lemma_enc_nat_digits(v);
                assert(is_digit(s[i]));
            }
        }
        JVal::Str(t) => {
            let body = enc_str_body(t);
            assert(enc == seq!['"'] + body + seq!['"']);
            assert(s[i + 0] == enc[0]);
            assert(s[i + 0] == '"');
            lemma_sub_chunk(s, i, enc, 1, m);
            assert(enc.subrange(1, m) =~= body + seq!['"']);
            lemma_parse_string_enc(s, i + 1, t);
        }
        JVal::Arr(items) => {
            let el = enc_elems(items, 0);
            assert(enc == seq!['['] + el + seq![']']);
            assert(s[i + 0] == enc[0]);
            assert(s[i + 0] == '[');
            if items.len() == 0 {
                assert(el =~= Seq::<char>::empty());
                assert(s[i + 1] == enc[1]);
                assert(s[i + 1] == ']');
                assert(!is_ws(']'));
                assert(skip_ws(s, i + 1) == i + 1);
                assert(spec_parse_elems(s, i + 1) == Some((Seq::<JVal>::empty(), i + 2)));
                assert(items =~= Seq::<JVal>::empty());
            } else {
                let e0 = spec_encode(items[0]);
                let t1 = enc_arr_tail(items, 1);
                lemma_elems_tail(items, 0);
                assert(jval_wf(items[0]));
                lemma_enc_head(items[0]);
                lemma_sub_chunk(s, i, enc, 1, m);
                assert(enc.subrange(1, m) =~= el + seq![']']);
                // the text after the bracket is the first element then the tail
                assert(s.subrange(i + 1, i + 1 + (e0 + t1).len() as int) == e0 + t1);
                lemma_sub_index(s, i + 1, e0 + t1);
                lemma_sub_chunk(s, i + 1, e0 + t1, 0, e0.len() as int);
                assert((e0 + t1).subrange(0, e0.len() as int) =~= e0);
                assert(s[i + 1 + 0] == (e0 + t1)[0]);
                assert(!is_ws(s[i + 1]));
                assert(skip_ws(s, i + 1) == i + 1);
                let q0 = i + 1 + e0.len() as int;
                assert(t1.len() >= 1);
                assert(s[i + 1 + e0.len() as int] == (e0 + t1)[e0.len() as int]);
                assert(s[q0] == t1[0]);
                assert(t1[0] == ',' || t1[0] == ']');
                assert(num_boundary(s, q0));
                lemma_parse_encode(s, i + 1, items[0]);
                assert(spec_parse_value(s, i + 1) == Some((items[0], q0)));
                lemma_sub_chunk(s, i + 1, e0 + t1, e0.len() as int, (e0 + t1).len() as int);
                assert((e0 + t1).subrange(e0.len() as int, (e0 + t1).len() as int) =~= t1);
                lemma_parse_arr_tail(s, q0, items, 1, seq![items[0]]);
                assert(seq![items[0]] + items.skip(1) =~= items);
                assert(q0 + t1.len() == end);
                assert(spec_parse_elems(s, i + 1) == Some((items, end)));
            }
        }
        JVal::Obj(ms) => {
            let el = enc_members(ms, 0);
            assert(enc == seq!['{'] + el + seq!['}']);
            assert(s[i + 0] == enc[0]);
            assert(s[i + 0] == '{');
            if ms.len() == 0 {
                assert(el =~= Seq::<char>::empty());
                assert(s[i + 1] == enc[1]);
                assert(s[i + 1] == '}');
                assert(!is_ws('}'));
                assert(skip_ws(s, i + 1) == i + 1);
                assert(spec_parse_members(s, i + 1) == Some(
                    (Seq::<(Seq<char>, JVal)>::empty(), i + 2),
                ));
                assert(ms =~= Seq::<(Seq<char>, JVal)>::empty());
            } else {
                let e0 = enc_string(ms[0].0) + seq![':'] + spec_encode(ms[0].1);
                let t1 = enc_obj_tail(ms, 1);
                lemma_members_tail(ms, 0);
                assert(jval_wf(ms[0].1));
                lemma_sub_chunk(s, i, enc, 1, m);
                assert(enc.subrange(1, m) =~= el + seq!['}']);
                assert(s.subrange(i + 1, i + 1 + (e0 + t1).len() as int) == e0 + t1);
                lemma_sub_index(s, i + 1, e0 + t1);
                lemma_sub_chunk(s, i + 1, e0 + t1, 0, e0.len() as int);
                assert((e0 + t1).subrange(0, e0.len() as int) =~= e0);
                assert(s[i + 1 + 0] == (e0 + t1)[0]);
                assert(s[i + 1] == '"');
                assert(!is_ws(s[i + 1]));
                assert(skip_ws(s, i + 1) == i + 1);
                let q0 = i + 1 + e0.len() as int;
                assert(t1.len() >= 1);
                assert(s[i + 1 + e0.len() as int] == (e0 + t1)[e0.len() as int]);
                assert(s[q0] == t1[0]);
                assert(t1[0] == ',' || t1[0] == '}');
                assert(num_boundary(s, q0));
                lemma_parse_member_enc(s, i + 1, ms[0].0, ms[0].1);
                assert(spec_parse_member(s, i + 1) == Some((ms[0], q0)));
                lemma_sub_chunk(s, i + 1, e0 + t1, e0.len() as int, (e0 + t1).len() as int);
                assert((e0 + t1).subrange(e0.len() as int, (e0 + t1).len() as int) =~= t1);
                lemma_parse_obj_tail(s, q0, ms, 1, seq![ms[0]]);
                assert(seq![ms[0]] + ms.skip(1) =~= ms);
                assert(q0 + t1.len() == end);
                assert(spec_parse_members(s, i + 1) == Some((ms, end)));
            }
        }
    }
}

/// A `"key": value` pair, encoded and followed by a number boundary, decodes
/// to itself.
proof fn lemma_parse_member_enc(s: Seq<char>, p: int, key: Seq<char>, val: JVal)
    requires
        jval_wf(val),
        0 <= p,
        p + (enc_string(key) + seq![':'] + spec_encode(val)).len() <= s.len(),
        s.subrange(p, p + (enc_string(key) + seq![':'] + spec_encode(val)).len() as int)
            == enc_string(key) + seq![':'] + spec_encode(val),
        num_boundary(s, p + (enc_string(key) + seq![':'] + spec_encode(val)).len()),
    ensures
        spec_parse_member(s, p) == Some(
            ((key, val), p + (enc_string(key) + seq![':'] + spec_encode(val)).len()),
        ),
    decreases val, 1int,
{
    let w = enc_string(key) + seq![':'] + spec_encode(val);
    let ks = enc_string(key);
    let kl = ks.len() as int;
    let ev = spec_encode(val);
    lemma_sub_index(s, p, w);
    assert(s[p + 0] == w[0]);
    assert(w[0] == '"');
    let body = enc_str_body(key);
    lemma_sub_chunk(s, p, w, 1, kl);
    assert(w.subrange(1, kl) =~= body + seq!['"']);
    lemma_parse_string_enc(s, p + 1, key);
    assert(spec_parse_string(s, p + 1) == Some((key, p + kl)));
    assert(s[p + kl] == w[kl]);
    assert(w[kl] == ':');
    assert(!is_ws(':'));
    assert(skip_ws(s, p + kl) == p + kl);
    lemma_enc_head(val);
    assert(s[p + kl + 1] == w[kl + 1]);
    assert(w[kl + 1] == ev[0]);
    assert(!is_ws(s[p + kl + 1]));
    assert(skip_ws(s, p + kl + 1) == p + kl + 1);
    lemma_sub_chunk(s, p, w, kl + 1, w.len() as int);
    assert(w.subrange(kl + 1, w.len() as int) =~= ev);
    lemma_parse_encode(s, p + kl + 1, val);
    assert(spec_parse_value(s, p + kl + 1) == Some((val, p + w.len())));
}

/// The comma-separated elements after the first, then the bracket, decode to
/// the remaining elements.
proof fn lemma_parse_arr_tail(s: Seq<char>, p: int, items: Seq<JVal>, k: int, acc: Seq<JVal>)
    requires
        jval_wf(JVal::Arr(items)),
        1 <= k <= items.len(),
        0 <= p,
        p + enc_arr_tail(items, k).len() <= s.len(),
        s.subrange(p, p + enc_arr_tail(items, k).len() as int) == enc_arr_tail(items, k),
    ensures
        spec_parse_arr_rest(s, p, acc) == Some(
            (acc + items.skip(k), p + enc_arr_tail(items, k).len()),
        ),
    decreases items, items.len() - k,
{
    let tl = enc_arr_tail(items, k);
    lemma_sub_index(s, p, tl);
    if k == items.len() {
        assert(s[p + 0] == tl[0]);
        assert(s[p] == ']');
        assert(!is_ws(']'));
        assert(skip_ws(s, p) == p);
        assert(acc + items.skip(k) =~= acc);
    } else {
        let e0 = spec_encode(items[k]);
        let t1 = enc_arr_tail(items, k + 1);
        assert(tl == seq![','] + e0 + t1);
        assert(s[p + 0] == tl[0]);
        assert(s[p] == ',');
        assert(!is_ws(','));
        assert(skip_ws(s, p) == p);
        assert(jval_wf(items[k])) by {
            let x = JVal::Arr(items);
            assert(x->Arr_0 == items);
            assert(x->Arr_0[k] == items[k]);
        }
        lemma_enc_head(items[k]);
        assert(s[p + 1] == tl[1]);
        assert(tl[1] == e0[0]);
        assert(!is_ws(s[p + 1]));
        assert(skip_ws(s, p + 1) == p + 1);
        lemma_sub_chunk(s, p, tl, 1, 1 + e0.len() as int);
        assert(tl.subrange(1, 1 + e0.len() as int) =~= e0);
        let q0 = p + 1 + e0.len() as int;
        assert(t1.len() >= 1);
        assert(s[p + 1 + e0.len() as int] == tl[1 + e0.len() as int]);
        assert(tl[1 + e0.len() as int] == t1[0]);
        assert(t1[0] == ',' || t1[0] == ']');
        assert(num_boundary(s, q0));
        lemma_parse_encode(s, p + 1, items[k]);
        assert(spec_parse_value(s, p + 1) == Some((items[k], q0)));
        lemma_sub_chunk(s, p, tl, 1 + e0.len() as int, tl.len() as int);
        assert(tl.subrange(1 + e0.len() as int, tl.len() as int) =~= t1);
        lemma_parse_arr_tail(s, q0, items, k + 1, acc.push(items[k]));
        assert(acc.push(items[k]) + items.skip(k + 1) =~= acc + items.skip(k));
    }
}

/// The comma-separated members after the first, then the brace, decode to the
/// remaining members.
proof fn lemma_parse_obj_tail(
    s: Seq<char>,
    p: int,
    ms: Seq<(Seq<char>, JVal)>,
    k: int,
    acc: Seq<(Seq<char>, JVal)>,
)
    requires
        jval_wf(JVal::Obj(ms)),
        1 <= k <= ms.len(),
        0 <= p,
        p + enc_obj_tail(ms, k).len() <= s.len(),
        s.subrange(p, p + enc_obj_tail(ms, k).len() as int) == enc_obj_tail(ms, k),
    ensures
        spec_parse_obj_rest(s, p, acc) == Some((acc + ms.skip(k), p + enc_obj_tail(ms, k).len())),
    decreases ms, ms.len() - k,
{
    let tl = enc_obj_tail(ms, k);
    lemma_sub_index(s, p, tl);
    if k == ms.len() {
        assert(s[p + 0] == tl[0]);
        assert(s[p] == '}');
        assert(!is_ws('}'));
        assert(skip_ws(s, p) == p);
        assert(acc + ms.skip(k) =~= acc);
    } else {
        let e0 = enc_string(ms[k].0) + seq![':'] + spec_encode(ms[k].1);
        let t1 = enc_obj_tail(ms, k + 1);
        assert(tl =~= seq![','] + e0 + t1);
        assert(s[p + 0] == tl[0]);
        assert(s[p] == ',');
        assert(!is_ws(','));
        assert(skip_ws(s, p) == p);
        assert(jval_wf(ms[k].1)) by {
            let x = JVal::Obj(ms);
            assert(x->Obj_0 == ms);
            assert(x->Obj_0[k] == ms[k]);
        }
        assert(s[p + 1] == tl[1]);
        assert(tl[1] == e0[0]);
        assert(e0[0] == '"');
        assert(!is_ws(s[p + 1]));
        assert(skip_ws(s, p + 1) == p + 1);
        lemma_sub_chunk(s, p, tl, 1, 1 + e0.len() as int);
        assert(tl.subrange(1, 1 + e0.len() as int) =~= e0);
        let q0 = p + 1 + e0.len() as int;
        assert(t1.len() >= 1);
        assert(s[p + 1 + e0.len() as int] == tl[1 + e0.len() as int]);
        assert(tl[1 + e0.len() as int] == t1[0]);
        assert(t1[0] == ',' || t1[0] == '}');
        assert(num_boundary(s, q0));
        lemma_parse_member_enc(s, p + 1, ms[k].0, ms[k].1);
        assert(spec_parse_member(s, p + 1) == Some((ms[k], q0)));
        lemma_sub_chunk(s, p, tl, 1 + e0.len() as int, tl.len() as int);
        assert(tl.subrange(1 + e0.len() as int, tl.len() as int) =~= t1);
        lemma_parse_obj_tail(s, q0, ms, k + 1, acc.push(ms[k]));
        assert(acc.push(ms[k]) + ms.skip(k + 1) =~= acc + ms.skip(k));
    }
}

/// Round trip: decoding the encoded text of any well-formed value yields that
/// value again.
pub proof fn lemma_decode_encode(j: JVal)
    requires
        jval_wf(j),
    ensures
        spec_parse_json(spec_encode(j)) == Some(j),
{
    let s = spec_encode(j);
    lemma_enc_head(j);
    assert(skip_ws(s, 0) == 0);
    assert(s.subrange(0, s.len() as int) =~= s);
    assert(num_boundary(s, s.len() as int));
    lemma_parse_encode(s, 0, j);
}

} // verus!
