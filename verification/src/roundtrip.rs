//! The round trip: parsing what the serializer wrote gives the document
//! back, for every valid document.

use vstd::prelude::*;

use crate::json::{valid_v, JsonV};
use crate::parse::{
    digits_len, esc_char, hex4, hex4_ok, hex_val, is_digit, is_ws, parse_doc_s, parse_elems_s,
    parse_exp_s, parse_members_s, parse_number_s, parse_string_s, parse_value_s, seq_digits_from,
    skip_ws, utf8_enc, ws_len,
};
use crate::ser::{
    dec_digits, esc_byte, esc_bytes, lemma_dec_digits_len, ser_elems, ser_members, ser_num,
    ser_str, ser_val, zero_digits,
};

verus! {

/// Every byte of a digit string is a digit.
proof fn lemma_dec_digits_are_digits(n: nat)
    ensures
        forall|q: int| 0 <= q < dec_digits(n).len() ==> is_digit(#[trigger] dec_digits(n)[q]),
    decreases n,
{
    if n >= 10 {
        lemma_dec_digits_are_digits(n / 10);
        assert forall|q: int|
            0 <= q < dec_digits(n).len() implies is_digit(#[trigger] dec_digits(n)[q]) by {
            if q < dec_digits(n / 10).len() {
                assert(dec_digits(n)[q] == dec_digits(n / 10)[q]);
            }
        }
    }
}

/// A run of digits with a non-digit (or the end) after it has exactly
/// that length.
proof fn lemma_digits_len_exact(s: Seq<u8>, i: int, n: int)
    requires
        0 <= i,
        0 <= n,
        i + n <= s.len(),
        forall|q: int| i <= q < i + n ==> is_digit(#[trigger] s[q]),
        i + n == s.len() || !is_digit(s[i + n]),
    ensures
        digits_len(s, i) == n,
    decreases n,
{
    if n > 0 {
        assert(is_digit(s[i]));
        lemma_digits_len_exact(s, i + 1, n - 1);
    } else {
        if i < s.len() {
            assert(!is_digit(s[i]));
        }
    }
}

/// Folding the digit string of `m` from zero gives `m` back.
proof fn lemma_fold_dec_digits(m: u64)
    ensures
        seq_digits_from(dec_digits(m as nat), 0u64) == Some(m),
    decreases m,
{
    if m < 10 {
        let ds = dec_digits(m as nat);
        assert(ds == seq![(48 + m as nat) as u8]);
        assert(ds[0] == 48 + m);
        assert(ds.subrange(1, 1) =~= Seq::<u8>::empty());
        assert(seq_digits_from(ds, 0u64) == seq_digits_from(Seq::<u8>::empty(), m));
    } else {
        lemma_fold_dec_digits(m / 10);
        let a = dec_digits((m / 10) as nat);
        let b = seq![(48 + (m as nat) % 10) as u8];
        assert(dec_digits(m as nat) == a + b);
        crate::parse::lemma_fold_digits_split(a, b, 0u64);
        vstd::arithmetic::div_mod::lemma_fundamental_div_mod(m as int, 10);
        assert(b[0] == 48 + m % 10);
        assert(b.subrange(1, 1) =~= Seq::<u8>::empty());
        assert(seq_digits_from(b, m / 10) == seq_digits_from(Seq::<u8>::empty(), m));
    }
}

/// Leading zero digits do not change a fold that starts from zero.
proof fn lemma_fold_zeros(p: nat, rest: Seq<u8>)
    ensures
        seq_digits_from(zero_digits(p) + rest, 0u64) == seq_digits_from(rest, 0u64),
    decreases p,
{
    if p > 0 {
        let whole = zero_digits(p) + rest;
        assert(whole[0] == 48);
        assert(whole.subrange(1, whole.len() as int) =~= zero_digits((p - 1) as nat) + rest);
        lemma_fold_zeros((p - 1) as nat, rest);
    } else {
        assert(zero_digits(0) + rest =~= rest);
    }
}

/// Parsing a serialized number standing at `i`, with no digit, dot or
/// exponent letter straight after it, gives the number back.
#[verifier::rlimit(100)]
proof fn lemma_rt_num(s: Seq<u8>, i: int, neg: bool, m: u64, scale: u32)
    requires
        neg ==> m > 0,
        0 <= i,
        i + ser_num(neg, m, scale).len() <= s.len(),
        s.subrange(i, i + ser_num(neg, m, scale).len()) == ser_num(neg, m, scale),
        i + ser_num(neg, m, scale).len() == s.len() || (!is_digit(
            s[i + ser_num(neg, m, scale).len()],
        ) && s[i + ser_num(neg, m, scale).len()] != 46 && s[i + ser_num(neg, m, scale).len()]
            != 101 && s[i + ser_num(neg, m, scale).len()] != 69),
    ensures
        parse_number_s(s, i) == Some(
            (JsonV::Num { neg, mantissa: m, scale }, i + ser_num(neg, m, scale).len()),
        ),
{
    let text = ser_num(neg, m, scale);
    let l = text.len() as int;
    let ds = dec_digits(m as nat);
    lemma_dec_digits_len(m as nat);
    lemma_dec_digits_are_digits(m as nat);
    let padded = if ds.len() >= scale + 1 {
        ds
    } else {
        zero_digits((scale + 1 - ds.len()) as nat) + ds
    };
    let pl = padded.len() as int;
    let split = pl - scale;
    assert(split >= 1);
    assert(forall|q: int| 0 <= q < pl ==> is_digit(#[trigger] padded[q]));
    let sign: Seq<u8> = if neg {
        seq![45u8]
    } else {
        Seq::empty()
    };
    let p1 = padded.subrange(0, split);
    let p2 = padded.subrange(split, pl);
    if scale > 0 {
        assert(text == sign + p1 + seq![46u8] + p2);
    } else {
        assert(p1 =~= padded);
        assert(text == sign + padded);
        assert(text =~= sign + p1);
    }
    let sl = sign.len() as int;
    let d0 = i + sl;
    let iend = d0 + split;
    // first byte: a sign or a digit, so the parser takes the number path
    if neg {
        assert(s.subrange(i, i + l)[0] == text[0]);
        assert(text[0] == 45);
        assert(s[i] == 45);
    } else {
        assert(s.subrange(i, i + l)[0] == text[0]);
        assert(text[0] == p1[0]);
        assert(is_digit(s[i]) && s[i] != 45);
    }
    // the integer digit run
    assert forall|q: int| d0 <= q < iend implies is_digit(#[trigger] s[q]) by {
        assert(s.subrange(i, i + l)[q - i] == text[q - i]);
        assert(text[q - i] == p1[q - d0]);
        assert(is_digit(padded[q - d0]));
    }
    assert(s.subrange(d0, iend) =~= p1) by {
        assert forall|q: int| 0 <= q < split implies s.subrange(d0, iend)[q] == p1[q] by {
            assert(s.subrange(i, i + l)[sl + q] == text[sl + q]);
            assert(text[sl + q] == p1[q]);
            assert(s.subrange(d0, iend)[q] == s[d0 + q]);
        }
    }
    if scale > 0 {
        assert(s.subrange(i, i + l)[iend - i] == text[iend - i]);
        assert(text[iend - i] == 46);
        assert(s[iend] == 46);
        assert(!is_digit(s[iend]));
        lemma_digits_len_exact(s, d0, split);
        let f0 = iend + 1;
        let fend = f0 + scale;
        assert(fend == i + l);
        assert forall|q: int| f0 <= q < fend implies is_digit(#[trigger] s[q]) by {
            assert(s.subrange(i, i + l)[q - i] == text[q - i]);
            assert(text[q - i] == p2[q - f0]);
            assert(is_digit(padded[split + q - f0]));
        }
        lemma_digits_len_exact(s, f0, scale as int);
        assert(s.subrange(f0, fend) =~= p2) by {
            assert forall|q: int| 0 <= q < scale implies s.subrange(f0, fend)[q] == p2[q] by {
                assert(s.subrange(i, i + l)[(f0 - i) + q] == text[(f0 - i) + q]);
                assert(text[(f0 - i) + q] == p2[q]);
                assert(s.subrange(f0, fend)[q] == s[f0 + q]);
            }
        }
        let run = s.subrange(d0, iend) + s.subrange(f0, fend);
        assert(run =~= padded);
        if ds.len() < scale + 1 {
            lemma_fold_zeros((scale + 1 - ds.len()) as nat, ds);
        }
        lemma_fold_dec_digits(m);
        assert(seq_digits_from(padded, 0u64) == Some(m));
        assert(parse_exp_s(s, fend, neg, m, scale as nat) == Some(
            (JsonV::Num { neg: neg && m > 0, mantissa: m, scale }, fend),
        ));
        assert(parse_number_s(s, i) == Some(
            (JsonV::Num { neg: neg && m > 0, mantissa: m, scale }, fend),
        ));
        assert((neg && m > 0) == neg);
    } else {
        assert(padded == ds);
        assert(iend == i + l);
        lemma_digits_len_exact(s, d0, split);
        assert(s.subrange(d0, iend) =~= padded);
        lemma_fold_dec_digits(m);
        assert(seq_digits_from(padded, 0u64) == Some(m));
        assert(parse_exp_s(s, iend, neg, m, 0) == Some(
            (JsonV::Num { neg: neg && m > 0, mantissa: m, scale: 0 }, iend),
        ));
        assert(parse_number_s(s, i) == Some(
            (JsonV::Num { neg: neg && m > 0, mantissa: m, scale: 0 }, iend),
        ));
        assert((neg && m > 0) == neg);
    }
}

/// A claim that a region of `s` holds `t` passes to its subregions.
proof fn lemma_sub_region(s: Seq<u8>, i: int, t: Seq<u8>, a: int, b: int)
    requires
        0 <= i,
        i + t.len() <= s.len(),
        s.subrange(i, i + t.len()) == t,
        0 <= a <= b <= t.len(),
    ensures
        s.subrange(i + a, i + b) == t.subrange(a, b),
{
    assert(s.subrange(i + a, i + b) =~= t.subrange(a, b)) by {
        assert forall|q: int|
            0 <= q < b - a implies s.subrange(i + a, i + b)[q] == t.subrange(a, b)[q] by {
            assert(s.subrange(i, i + t.len() as int)[a + q] == t[a + q]);
            assert(s.subrange(i + a, i + b)[q] == s[i + a + q]);
        }
    }
}

/// One byte of a region.
proof fn lemma_sub_byte(s: Seq<u8>, i: int, t: Seq<u8>, o: int)
    requires
        0 <= i,
        i + t.len() <= s.len(),
        s.subrange(i, i + t.len()) == t,
        0 <= o < t.len(),
    ensures
        s[i + o] == t[o],
{
    assert(s.subrange(i, i + t.len() as int)[o] == t[o]);
}

/// Parsing a serialized string body, with the closing quote after it,
/// gives the string back.
proof fn lemma_rt_string(s: Seq<u8>, i: int, sb: Seq<u8>)
    requires
        0 <= i,
        i + esc_bytes(sb).len() + 1 <= s.len(),
        s.subrange(i, i + esc_bytes(sb).len()) == esc_bytes(sb),
        s[i + esc_bytes(sb).len()] == 34,
    ensures
        parse_string_s(s, i) == Some((sb, i + esc_bytes(sb).len() + 1)),
    decreases sb.len(),
{
    let e = esc_bytes(sb);
    let el = e.len() as int;
    if sb.len() == 0 {
        assert(s[i] == 34);
        assert(sb =~= Seq::<u8>::empty());
    } else {
        let c = sb[0];
        let sb1 = sb.subrange(1, sb.len() as int);
        let e1 = esc_bytes(sb1);
        assert(e == esc_byte(c) + e1);
        let w = esc_byte(c).len() as int;
        assert forall|q: int| 0 <= q < w implies s[i + q] == esc_byte(c)[q] by {
            lemma_sub_byte(s, i, e, q);
        }
        lemma_sub_region(s, i, e, w, el);
        assert(e.subrange(w, el) =~= e1);
        lemma_rt_string(s, i + w, sb1);
        assert(seq![c] + sb1 =~= sb);
        if c == 34 || c == 92 {
            assert(s[i] == 92 && s[i + 1] == c);
            assert(esc_char(c) == Some(c));
        } else if c == 8 || c == 9 || c == 10 || c == 12 || c == 13 {
            assert(s[i] == 92);
            assert(esc_char(s[i + 1]) == Some(c));
        } else if c < 32 {
            assert(s[i] == 92 && s[i + 1] == 117);
            assert(esc_char(117u8) is None);
            assert(s[i + 2] == 48 && s[i + 3] == 48);
            assert(s[i + 4] == crate::ser::hex_digit((c / 16) as nat));
            assert(s[i + 5] == crate::ser::hex_digit((c % 16) as nat));
            assert(hex_val(s[i + 2]) == 0 && hex_val(s[i + 3]) == 0);
            assert(hex_val(s[i + 4]) == c / 16);
            assert(hex_val(s[i + 5]) == c % 16);
            assert(hex4_ok(s, i + 2));
            vstd::arithmetic::div_mod::lemma_fundamental_div_mod(c as int, 16);
            assert(hex4(s, i + 2) == c);
            assert(utf8_enc(c as nat) =~= seq![c]);
        } else {
            assert(s[i] == c && c != 34 && c != 92);
        }
    }
}

/// A serialized value is never empty and never starts with whitespace,
/// a closing bracket, a closing brace or a comma.
proof fn lemma_ser_val_first(v: JsonV)
    ensures
        ser_val(v).len() >= 1,
        !is_ws(ser_val(v)[0]),
        ser_val(v)[0] != 93,
        ser_val(v)[0] != 125,
        ser_val(v)[0] != 44,
        ser_val(v)[0] != 58,
{
    match v {
        JsonV::Num { neg, mantissa, scale } => {
            let ds = dec_digits(mantissa as nat);
            lemma_dec_digits_len(mantissa as nat);
            lemma_dec_digits_are_digits(mantissa as nat);
            let padded = if ds.len() >= scale + 1 {
                ds
            } else {
                zero_digits((scale + 1 - ds.len()) as nat) + ds
            };
            assert(is_digit(padded[0]));
            let t = ser_num(neg, mantissa, scale);
            if neg && mantissa > 0 {
                assert(t[0] == 45);
            } else {
                assert(t[0] == padded[0]);
            }
        },
        _ => {},
    }
}

/// Parsing a serialized value, with nothing number-like (a digit, a dot
/// or an exponent letter) straight after it, gives the value back.
#[verifier::rlimit(100)]
pub proof fn lemma_rt_value(s: Seq<u8>, i: int, v: JsonV)
    requires
        valid_v(v),
        0 <= i,
        i + ser_val(v).len() <= s.len(),
        s.subrange(i, i + ser_val(v).len()) == ser_val(v),
        i + ser_val(v).len() == s.len() || (!is_digit(s[i + ser_val(v).len()]) && s[i
            + ser_val(v).len()] != 46 && s[i + ser_val(v).len()] != 101 && s[i
            + ser_val(v).len()] != 69),
    ensures
        parse_value_s(s, i) == Some((v, i + ser_val(v).len())),
    decreases v,
{
    let t = ser_val(v);
    let l = t.len() as int;
    lemma_ser_val_first(v);
    lemma_sub_byte(s, i, t, 0);
    assert(s[i] == t[0]);
    assert(ws_len(s, i) == 0);
    match v {
        JsonV::Null => {
            lemma_sub_byte(s, i, t, 1);
            lemma_sub_byte(s, i, t, 2);
            lemma_sub_byte(s, i, t, 3);
            assert(s[i] == 110 && s[i + 1] == 117 && s[i + 2] == 108 && s[i + 3] == 108);
        },
        JsonV::Bool(b) => {
            if b {
                lemma_sub_byte(s, i, t, 1);
                lemma_sub_byte(s, i, t, 2);
                lemma_sub_byte(s, i, t, 3);
                assert(s[i] == 116 && s[i + 1] == 114 && s[i + 2] == 117 && s[i + 3] == 101);
            } else {
                lemma_sub_byte(s, i, t, 1);
                lemma_sub_byte(s, i, t, 2);
                lemma_sub_byte(s, i, t, 3);
                lemma_sub_byte(s, i, t, 4);
                assert(s[i] == 102 && s[i + 1] == 97 && s[i + 2] == 108 && s[i + 3] == 115 && s[i
                    + 4] == 101);
            }
        },
        JsonV::Num { neg, mantissa, scale } => {
            lemma_rt_num(s, i, neg, mantissa, scale);
            assert(s[i] == 45 || is_digit(s[i]));
        },
        JsonV::Str(sb) => {
            let e = esc_bytes(sb);
            let el = e.len() as int;
            assert(t == seq![34u8] + e + seq![34u8]);
            assert(s[i] == 34);
            lemma_sub_region(s, i, t, 1, 1 + el);
            assert(t.subrange(1, 1 + el) =~= e);
            lemma_sub_byte(s, i, t, 1 + el);
            assert(t[1 + el] == 34);
            lemma_rt_string(s, i + 1, sb);
        },
        JsonV::Arr(es) => {
            assert(s[i] == 91);
            if es.len() == 0 {
                assert(ser_elems(es).len() == 0);
                assert(t =~= seq![91u8, 93u8]);
                lemma_sub_byte(s, i, t, 1);
                assert(s[i + 1] == 93);
                assert(ws_len(s, i + 1) == 0);
                assert(es =~= Seq::<JsonV>::empty());
            } else {
                let le = ser_elems(es).len() as int;
                assert(t == seq![91u8] + ser_elems(es) + seq![93u8]);
                lemma_ser_val_first(es[0]);
                assert(ser_elems(es)[0] == ser_val(es[0])[0]);
                lemma_sub_byte(s, i, t, 1);
                assert(t[1] == ser_elems(es)[0]);
                assert(!is_ws(s[i + 1]) && s[i + 1] != 93);
                assert(ws_len(s, i + 1) == 0);
                lemma_sub_region(s, i, t, 1, 1 + le);
                assert(t.subrange(1, 1 + le) =~= ser_elems(es));
                lemma_sub_byte(s, i, t, 1 + le);
                assert(t[1 + le] == 93);
                lemma_rt_elems(s, i + 1, es);
            }
        },
        JsonV::Obj(ms) => {
            assert(s[i] == 123);
            if ms.len() == 0 {
                assert(ser_members(ms).len() == 0);
                assert(t =~= seq![123u8, 125u8]);
                lemma_sub_byte(s, i, t, 1);
                assert(s[i + 1] == 125);
                assert(ws_len(s, i + 1) == 0);
                assert(ms =~= Seq::<(Seq<u8>, JsonV)>::empty());
            } else {
                let lm = ser_members(ms).len() as int;
                assert(t == seq![123u8] + ser_members(ms) + seq![125u8]);
                assert(ser_members(ms)[0] == 34) by {
                    assert(ser_members(ms)[0] == ser_str(ms[0].0)[0]);
                    assert(ser_str(ms[0].0)[0] == 34);
                }
                lemma_sub_byte(s, i, t, 1);
                assert(t[1] == ser_members(ms)[0]);
                assert(!is_ws(s[i + 1]) && s[i + 1] != 125);
                assert(ws_len(s, i + 1) == 0);
                lemma_sub_region(s, i, t, 1, 1 + lm);
                assert(t.subrange(1, 1 + lm) =~= ser_members(ms));
                lemma_sub_byte(s, i, t, 1 + lm);
                assert(t[1 + lm] == 125);
                lemma_rt_members(s, i + 1, ms);
            }
        },
    }
}

/// Parsing serialized array elements, the closing bracket after them,
/// gives the elements back.
proof fn lemma_rt_elems(s: Seq<u8>, i: int, es: Seq<JsonV>)
    requires
        es.len() >= 1,
        forall|q: int| 0 <= q < es.len() ==> valid_v(#[trigger] es[q]),
        0 <= i,
        i + ser_elems(es).len() + 1 <= s.len(),
        s.subrange(i, i + ser_elems(es).len()) == ser_elems(es),
        s[i + ser_elems(es).len()] == 93,
    ensures
        parse_elems_s(s, i) == Some((es, i + ser_elems(es).len() + 1)),
    decreases es,
{
    let t = ser_elems(es);
    let le = t.len() as int;
    let v0 = es[0];
    assert(valid_v(v0));
    lemma_ser_val_first(v0);
    let l0 = ser_val(v0).len() as int;
    if es.len() == 1 {
        assert(t == ser_val(v0));
        assert(!is_digit(93u8) && 93u8 != 46 && 93u8 != 101 && 93u8 != 69);
        lemma_rt_value(s, i, v0);
        let k = i + l0;
        assert(ws_len(s, k) == 0);
        assert(seq![v0] =~= es);
    } else {
        let es1 = es.subrange(1, es.len() as int);
        let le1 = ser_elems(es1).len() as int;
        assert(t == ser_val(v0) + seq![44u8] + ser_elems(es1));
        lemma_sub_region(s, i, t, 0, l0);
        assert(t.subrange(0, l0) =~= ser_val(v0));
        lemma_sub_byte(s, i, t, l0);
        assert(t[l0] == 44);
        assert(!is_digit(44u8) && 44u8 != 46 && 44u8 != 101 && 44u8 != 69);
        lemma_rt_value(s, i, v0);
        let k = i + l0;
        assert(ws_len(s, k) == 0);
        assert(s[k] == 44 && s[k] != 93);
        lemma_sub_region(s, i, t, l0 + 1, le);
        assert(t.subrange(l0 + 1, le) =~= ser_elems(es1));
        assert(k + 1 + le1 == i + le);
        lemma_rt_elems(s, k + 1, es1);
        assert(seq![v0] + es1 =~= es);
    }
}

/// Parsing serialized object members, the closing brace after them,
/// gives the members back.
#[verifier::rlimit(100)]
proof fn lemma_rt_members(s: Seq<u8>, i: int, ms: Seq<(Seq<u8>, JsonV)>)
    requires
        ms.len() >= 1,
        forall|q: int| 0 <= q < ms.len() ==> valid_v(#[trigger] ms[q].1),
        0 <= i,
        i + ser_members(ms).len() + 1 <= s.len(),
        s.subrange(i, i + ser_members(ms).len()) == ser_members(ms),
        s[i + ser_members(ms).len()] == 125,
    ensures
        parse_members_s(s, i) == Some((ms, i + ser_members(ms).len() + 1)),
    decreases ms,
{
    let t = ser_members(ms);
    let lm = t.len() as int;
    let key = ms[0].0;
    let v0 = ms[0].1;
    assert(valid_v(v0));
    lemma_ser_val_first(v0);
    let e = esc_bytes(key);
    let el = e.len() as int;
    let l0 = ser_val(v0).len() as int;
    let head = ser_str(key) + seq![58u8] + ser_val(v0);
    assert(ser_str(key) == seq![34u8] + e + seq![34u8]);
    lemma_sub_byte(s, i, t, 0);
    assert(t[0] == 34);
    assert(ws_len(s, i) == 0);
    // the key string: body from i + 1, closing quote, then the colon
    lemma_sub_region(s, i, t, 1, 1 + el);
    assert(t.subrange(1, 1 + el) =~= e);
    lemma_sub_byte(s, i, t, 1 + el);
    assert(t[1 + el] == 34);
    lemma_rt_string(s, i + 1, key);
    let k0 = i + el + 2;
    lemma_sub_byte(s, i, t, el + 2);
    assert(t[el + 2] == 58);
    assert(ws_len(s, k0) == 0);
    let kv = k0 + 1;
    assert(kv == i + el + 3);
    if ms.len() == 1 {
        assert(t == head);
        lemma_sub_region(s, i, t, el + 3, lm);
        assert(t.subrange(el + 3, lm) =~= ser_val(v0));
        assert(!is_digit(125u8) && 125u8 != 46 && 125u8 != 101 && 125u8 != 69);
        lemma_rt_value(s, kv, v0);
        let k = kv + l0;
        assert(k == i + lm);
        assert(ws_len(s, k) == 0);
        assert(seq![(key, v0)] =~= ms);
    } else {
        let ms1 = ms.subrange(1, ms.len() as int);
        let lm1 = ser_members(ms1).len() as int;
        assert(t == head + seq![44u8] + ser_members(ms1));
        lemma_sub_region(s, i, t, el + 3, el + 3 + l0);
        assert(t.subrange(el + 3, el + 3 + l0) =~= ser_val(v0));
        lemma_sub_byte(s, i, t, el + 3 + l0);
        assert(t[el + 3 + l0] == 44);
        assert(!is_digit(44u8) && 44u8 != 46 && 44u8 != 101 && 44u8 != 69);
        lemma_rt_value(s, kv, v0);
        let k = kv + l0;
        assert(ws_len(s, k) == 0);
        assert(s[k] == 44 && s[k] != 125);
        lemma_sub_region(s, i, t, el + 4 + l0, lm);
        assert(t.subrange(el + 4 + l0, lm) =~= ser_members(ms1));
        assert(k + 1 + lm1 == i + lm);
        lemma_rt_members(s, k + 1, ms1);
        assert(seq![(key, v0)] + ms1 =~= ms);
    }
}

/// The round trip: a whole serialized document parses back to exactly
/// the document, for every valid document.
pub proof fn lemma_round_trip(v: JsonV)
    requires
        valid_v(v),
    ensures
        parse_doc_s(ser_val(v)) == Some(v),
{
    let s = ser_val(v);
    let l = s.len() as int;
    assert(s.subrange(0, l) =~= s);
    lemma_rt_value(s, 0, v);
    assert(ws_len(s, l) == 0);
    assert(skip_ws(s, l) == l);
}

/// Every value the parser returns is valid: a parsed number never puts a
/// minus sign before zero.
pub proof fn lemma_parse_value_valid(s: Seq<u8>, i: int)
    ensures
        parse_value_s(s, i) matches Some(r) ==> valid_v(r.0),
    decreases s.len() - i, 1int,
{
    let j = skip_ws(s, i);
    if j >= s.len() || j < 0 {
    } else if s[j] == 91 {
        let j1 = skip_ws(s, j + 1);
        if j1 < s.len() && s[j1] == 93 {
        } else {
            lemma_parse_elems_valid(s, j + 1);
            match parse_elems_s(s, j + 1) {
                Some((es, k)) => {
                    assert(valid_v(JsonV::Arr(es)));
                },
                None => {},
            }
        }
    } else if s[j] == 123 {
        let j1 = skip_ws(s, j + 1);
        if j1 < s.len() && s[j1] == 125 {
        } else {
            lemma_parse_members_valid(s, j + 1);
            match parse_members_s(s, j + 1) {
                Some((ms, k)) => {
                    assert(valid_v(JsonV::Obj(ms)));
                },
                None => {},
            }
        }
    }
}

/// Every element the array parser returns is valid.
proof fn lemma_parse_elems_valid(s: Seq<u8>, i: int)
    ensures
        parse_elems_s(s, i) matches Some(r) ==> forall|q: int|
            0 <= q < r.0.len() ==> valid_v(#[trigger] r.0[q]),
    decreases s.len() - i, 2int,
{
    match parse_value_s(s, i) {
        Some((v, k)) => {
            lemma_parse_value_valid(s, i);
            if k > i {
                let k2 = skip_ws(s, k);
                if k2 < s.len() && s[k2] == 44 {
                    lemma_parse_elems_valid(s, k2 + 1);
                    match parse_elems_s(s, k2 + 1) {
                        Some((rest, end)) => {
                            assert forall|q: int|
                                0 <= q < (seq![v] + rest).len() implies valid_v(
                                #[trigger] (seq![v] + rest)[q],
                            ) by {
                                if q > 0 {
                                    assert((seq![v] + rest)[q] == rest[q - 1]);
                                }
                            }
                        },
                        None => {},
                    }
                }
            }
        },
        None => {},
    }
}

/// Every member value the object parser returns is valid.
proof fn lemma_parse_members_valid(s: Seq<u8>, i: int)
    ensures
        parse_members_s(s, i) matches Some(r) ==> forall|q: int|
            0 <= q < r.0.len() ==> valid_v(#[trigger] r.0[q].1),
    decreases s.len() - i, 2int,
{
    let j = skip_ws(s, i);
    if j >= s.len() || s[j] != 34 {
    } else {
        match parse_string_s(s, j + 1) {
            Some((key, k0)) => {
                if k0 <= j {
                } else {
                    let k1 = skip_ws(s, k0);
                    if k1 >= s.len() || s[k1] != 58 {
                    } else {
                        match parse_value_s(s, k1 + 1) {
                            Some((v, k)) => {
                                lemma_parse_value_valid(s, k1 + 1);
                                if k > i {
                                    let k2 = skip_ws(s, k);
                                    if k2 < s.len() && s[k2] == 44 {
                                        lemma_parse_members_valid(s, k2 + 1);
                                        match parse_members_s(s, k2 + 1) {
                                            Some((rest, end)) => {
                                                assert forall|q: int|
                                                    0 <= q < (seq![(key, v)] + rest).len() implies valid_v(
                                                    #[trigger] (seq![(key, v)] + rest)[q].1,
                                                ) by {
                                                    if q > 0 {
                                                        assert((seq![(key, v)] + rest)[q] == rest[
                                                            q - 1]);
                                                    }
                                                }
                                            },
                                            None => {},
                                        }
                                    }
                                }
                            },
                            None => {},
                        }
                    }
                }
            },
            None => {},
        }
    }
}

/// A whole parsed document is valid.
pub proof fn lemma_parse_doc_valid(s: Seq<u8>)
    ensures
        parse_doc_s(s) matches Some(v) ==> valid_v(v),
{
    lemma_parse_value_valid(s, 0);
}

} // verus!
