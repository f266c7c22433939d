//! Serialization of documents to the on-disk text format.
//!
//! The output is canonical JSON text in one stable, compact form; the
//! parser accepts whitespace between tokens and the standard escapes, so
//! hand-edited and pretty-printed files still load, while every saved
//! document has exactly one byte form — which is what the atomicity and
//! round-trip proofs speak about.

use vstd::prelude::*;

use crate::json::{jview, jview_pairs, jview_seq, Json, JsonV};

verus! {

/// Decimal digits of `n`, most significant first; never empty.
pub open spec fn dec_digits(n: nat) -> Seq<u8>
    decreases n,
{
    if n < 10 {
        seq![(48 + n) as u8]
    } else {
        dec_digits(n / 10) + seq![(48 + n % 10) as u8]
    }
}

/// `k` copies of the digit `0`.
pub open spec fn zero_digits(k: nat) -> Seq<u8> {
    Seq::new(k, |i: int| 48u8)
}

/// Text of the number `mantissa / 10^scale`, with `scale` digits after the
/// point when `scale > 0`, and a leading minus sign only for a nonzero
/// negative number.
pub open spec fn ser_num(neg: bool, mantissa: u64, scale: u32) -> Seq<u8> {
    let ds = dec_digits(mantissa as nat);
    let padded = if ds.len() >= scale + 1 {
        ds
    } else {
        zero_digits((scale + 1 - ds.len()) as nat) + ds
    };
    let split = padded.len() - scale;
    let sign: Seq<u8> = if neg && mantissa > 0 {
        seq![45u8]
    } else {
        Seq::empty()
    };
    if scale > 0 {
        sign + padded.subrange(0, split) + seq![46u8] + padded.subrange(
            split,
            padded.len() as int,
        )
    } else {
        sign + padded
    }
}

/// The lowercase hex digit for `d`.
pub open spec fn hex_digit(d: nat) -> u8 {
    if d < 10 {
        (48 + d) as u8
    } else {
        (87 + d) as u8
    }
}

/// A string byte as written inside quotes: quote and backslash are
/// escaped with a backslash, the named control characters with their
/// letter escapes, the remaining control bytes as `\u00XX`, and every
/// other byte stands for itself.
pub open spec fn esc_byte(c: u8) -> Seq<u8> {
    if c == 34 || c == 92 {
        seq![92u8, c]
    } else if c == 8 {
        seq![92u8, 98u8]  // \b
    } else if c == 9 {
        seq![92u8, 116u8]  // \t
    } else if c == 10 {
        seq![92u8, 110u8]  // \n
    } else if c == 12 {
        seq![92u8, 102u8]  // \f
    } else if c == 13 {
        seq![92u8, 114u8]  // \r
    } else if c < 32 {
        seq![92u8, 117u8, 48u8, 48u8, hex_digit((c / 16) as nat), hex_digit((c % 16) as nat)]
    } else {
        seq![c]
    }
}

/// The escaped form of a whole string body.
pub open spec fn esc_bytes(s: Seq<u8>) -> Seq<u8>
    decreases s.len(),
{
    if s.len() == 0 {
        Seq::empty()
    } else {
        esc_byte(s[0]) + esc_bytes(s.subrange(1, s.len() as int))
    }
}

/// The serialized text of a string value, quotes included.
pub open spec fn ser_str(s: Seq<u8>) -> Seq<u8> {
    seq![34u8] + esc_bytes(s) + seq![34u8]
}

/// The serialized text of a document value.
pub open spec fn ser_val(v: JsonV) -> Seq<u8>
    decreases v,
{
    match v {
        JsonV::Null => seq![110u8, 117u8, 108u8, 108u8],  // null
        JsonV::Bool(b) => if b {
            seq![116u8, 114u8, 117u8, 101u8]  // true
        } else {
            seq![102u8, 97u8, 108u8, 115u8, 101u8]  // false
        },
        JsonV::Num { neg, mantissa, scale } => ser_num(neg, mantissa, scale),
        JsonV::Str(s) => ser_str(s),
        JsonV::Arr(es) => seq![91u8] + ser_elems(es) + seq![93u8],
        JsonV::Obj(ms) => seq![123u8] + ser_members(ms) + seq![125u8],
    }
}

/// Array elements joined by commas.
pub open spec fn ser_elems(es: Seq<JsonV>) -> Seq<u8>
    decreases es,
{
    if es.len() == 0 {
        Seq::empty()
    } else if es.len() == 1 {
        ser_val(es[0])
    } else {
        ser_val(es[0]) + seq![44u8] + ser_elems(es.subrange(1, es.len() as int))
    }
}

/// Object members, each a quoted key, a colon and a value, joined by commas.
pub open spec fn ser_members(ms: Seq<(Seq<u8>, JsonV)>) -> Seq<u8>
    decreases ms,
{
    if ms.len() == 0 {
        Seq::empty()
    } else if ms.len() == 1 {
        ser_str(ms[0].0) + seq![58u8] + ser_val(ms[0].1)
    } else {
        ser_str(ms[0].0) + seq![58u8] + ser_val(ms[0].1) + seq![44u8] + ser_members(
            ms.subrange(1, ms.len() as int),
        )
    }
}

/// Writes the decimal digits of `n`.
pub(crate) fn write_digits(out: &mut Vec<u8>, n: u64)
    ensures
        final(out)@ == old(out)@ + dec_digits(n as nat),
    decreases n,
{
    if n < 10 {
        out.push(48 + (n as u8));
    } else {
        write_digits(out, n / 10);
        out.push(48 + ((n % 10) as u8));
    }
    proof {
        assert(out@ =~= old(out)@ + dec_digits(n as nat));
    }
}

/// The number of decimal digits of `n`, between 1 and 20.
pub(crate) fn count_digits(n: u64) -> (r: usize)
    ensures
        r == dec_digits(n as nat).len(),
        1 <= r <= 20,
    decreases n,
{
    proof {
        lemma_dec_digits_len(n as nat);
    }
    if n < 10 {
        1
    } else {
        let r = count_digits(n / 10);
        r + 1
    }
}

/// The digit string of a `u64` has between 1 and 20 digits.
pub proof fn lemma_dec_digits_len(n: nat)
    ensures
        1 <= dec_digits(n).len(),
        n < u64::MAX as nat + 1 ==> dec_digits(n).len() <= 20,
    decreases n,
{
    if n >= 10 {
        lemma_dec_digits_len(n / 10);
        assert(dec_digits(n).len() == dec_digits(n / 10).len() + 1);
        if n < u64::MAX as nat + 1 {
            assert(pow10(20) == 100000000000000000000) by {
                reveal_with_fuel(pow10, 21);
            }
            lemma_digits_len_bound(n, 20);
        }
    }
}

/// If `n < 10^k`, then `n` has at most `k` decimal digits.
proof fn lemma_digits_len_bound(n: nat, k: nat)
    requires
        n < pow10(k),
        k >= 1,
    ensures
        dec_digits(n).len() <= k,
    decreases n,
{
    if n >= 10 {
        assert(pow10(k) == 10 * pow10((k - 1) as nat));
        lemma_digits_len_bound(n / 10, (k - 1) as nat);
    }
}

/// Ten to the power `k`.
pub open spec fn pow10(k: nat) -> nat
    decreases k,
{
    if k == 0 {
        1
    } else {
        10 * pow10((k - 1) as nat)
    }
}

/// Writes the text of the number `mantissa / 10^scale`.
#[verifier::loop_isolation(false)]
#[verifier::rlimit(50)]
fn write_num(out: &mut Vec<u8>, neg: bool, mantissa: u64, scale: u32)
    ensures
        final(out)@ == old(out)@ + ser_num(neg, mantissa, scale),
{
    proof {
        lemma_dec_digits_len(mantissa as nat);
    }
    let ghost sign: Seq<u8> = if neg && mantissa > 0 {
        seq![45u8]
    } else {
        Seq::empty()
    };
    if neg && mantissa > 0 {
        out.push(45);  // -
    }
    proof {
        assert(out@ =~= old(out)@ + sign);
    }
    let nd = count_digits(mantissa);
    let mut padded: Vec<u8> = Vec::new();
    let scale_us = scale as usize;
    if scale_us >= nd {
        let pad = scale_us - nd + 1;
        let mut k: usize = 0;
        while k < pad
            invariant
                k <= pad,
                padded@ =~= zero_digits(k as nat),
            decreases pad - k,
        {
            padded.push(48);
            k = k + 1;
            proof {
                assert(padded@ =~= zero_digits(k as nat));
            }
        }
    }
    write_digits(&mut padded, mantissa);
    let ghost padded_s = if dec_digits(mantissa as nat).len() >= scale + 1 {
        dec_digits(mantissa as nat)
    } else {
        zero_digits((scale + 1 - dec_digits(mantissa as nat).len()) as nat) + dec_digits(
            mantissa as nat,
        )
    };
    proof {
        assert(padded@ =~= padded_s);
    }
    let plen = padded.len();
    let split = plen - scale_us;
    let mut j: usize = 0;
    while j < split
        invariant
            j <= split,
            padded@ == padded_s,
            out@ =~= old(out)@ + sign + padded_s.subrange(0, j as int),
        decreases split - j,
    {
        let c = padded[j];
        out.push(c);
        j = j + 1;
        proof {
            assert(out@ =~= old(out)@ + sign + padded_s.subrange(0, j as int));
        }
    }
    if scale > 0 {
        out.push(46);  // .
        proof {
            assert(out@ =~= old(out)@ + sign + padded_s.subrange(0, split as int) + seq![46u8]
                + padded_s.subrange(split as int, split as int));
        }
        let mut j2: usize = split;
        while j2 < plen
            invariant
                split <= j2 <= plen,
                padded@ == padded_s,
                out@ =~= old(out)@ + sign + padded_s.subrange(0, split as int) + seq![46u8]
                    + padded_s.subrange(split as int, j2 as int),
            decreases plen - j2,
        {
            let c = padded[j2];
            out.push(c);
            j2 = j2 + 1;
            proof {
                assert(out@ =~= old(out)@ + sign + padded_s.subrange(0, split as int) + seq![46u8]
                    + padded_s.subrange(split as int, j2 as int));
            }
        }
        proof {
            assert(out@ =~= old(out)@ + ser_num(neg, mantissa, scale));
        }
    } else {
        proof {
            assert(padded_s.subrange(0, split as int) =~= padded_s);
            assert(out@ =~= old(out)@ + ser_num(neg, mantissa, scale));
        }
    }
}

/// Writes the escaped form of one byte.
fn write_esc_byte(out: &mut Vec<u8>, c: u8)
    ensures
        final(out)@ == old(out)@ + esc_byte(c),
{
    if c == 34 || c == 92 {
        out.push(92);
        out.push(c);
    } else if c == 8 {
        out.push(92);
        out.push(98);
    } else if c == 9 {
        out.push(92);
        out.push(116);
    } else if c == 10 {
        out.push(92);
        out.push(110);
    } else if c == 12 {
        out.push(92);
        out.push(102);
    } else if c == 13 {
        out.push(92);
        out.push(114);
    } else if c < 32 {
        out.push(92);
        out.push(117);
        out.push(48);
        out.push(48);
        let hi = c / 16;
        let lo = c % 16;
        out.push(if hi < 10 { 48 + hi } else { 87 + hi });
        out.push(if lo < 10 { 48 + lo } else { 87 + lo });
    } else {
        out.push(c);
    }
    proof {
        assert(out@ =~= old(out)@ + esc_byte(c));
    }
}

/// Writes the escaped body of a string, starting at byte `i`.
fn write_str_body(out: &mut Vec<u8>, s: &Vec<u8>, i: usize)
    requires
        i <= s@.len(),
    ensures
        final(out)@ == old(out)@ + esc_bytes(s@.subrange(i as int, s@.len() as int)),
{
    let end = s.len();
    let mut j = i;
    while j < end
        invariant
            i <= j <= end,
            end == s@.len(),
            out@ + esc_bytes(s@.subrange(j as int, end as int)) =~= old(out)@ + esc_bytes(
                s@.subrange(i as int, end as int),
            ),
        decreases end - j,
    {
        let c = s[j];
        let ghost tail = s@.subrange(j as int, end as int);
        proof {
            assert(tail[0] == c);
            assert(tail.subrange(1, tail.len() as int) =~= s@.subrange(j + 1 as int, end as int));
        }
        write_esc_byte(out, c);
        j = j + 1;
        proof {
            assert(out@ + esc_bytes(s@.subrange(j as int, end as int)) =~= old(out)@ + esc_bytes(
                s@.subrange(i as int, end as int),
            ));
        }
    }
    proof {
        assert(esc_bytes(s@.subrange(j as int, end as int)) =~= Seq::<u8>::empty());
        assert(out@ =~= old(out)@ + esc_bytes(s@.subrange(i as int, end as int)));
    }
}

/// Writes a string value, quotes and escapes included.
fn write_str(out: &mut Vec<u8>, s: &Vec<u8>)
    ensures
        final(out)@ == old(out)@ + ser_str(s@),
{
    out.push(34);
    write_str_body(out, s, 0);
    out.push(34);
    proof {
        assert(s@.subrange(0, s@.len() as int) =~= s@);
        assert(out@ =~= old(out)@ + ser_str(s@));
    }
}

/// Writes the serialized text of a document value.
pub fn write_val(out: &mut Vec<u8>, j: &Json)
    ensures
        final(out)@ == old(out)@ + ser_val(j@),
    decreases *j,
{
    match j {
        Json::Null => {
            out.push(110);
            out.push(117);
            out.push(108);
            out.push(108);
            proof {
                assert(out@ =~= old(out)@ + ser_val(j@));
            }
        },
        Json::Bool(b) => {
            if *b {
                out.push(116);
                out.push(114);
                out.push(117);
                out.push(101);
            } else {
                out.push(102);
                out.push(97);
                out.push(108);
                out.push(115);
                out.push(101);
            }
            proof {
                assert(out@ =~= old(out)@ + ser_val(j@));
            }
        },
        Json::Num { neg, mantissa, scale } => {
            write_num(out, *neg, *mantissa, *scale);
        },
        Json::Str(s) => {
            write_str(out, s);
        },
        Json::Arr(a) => {
            out.push(91);  // [
            proof {
                assert(a@.subrange(0, a@.len() as int) =~= a@);
                assert(decreases_to!(*j => a@));
            }
            write_elems(out, a, 0);
            out.push(93);  // ]
            proof {
                crate::json::lemma_jview_seq(a@);
                assert(jview_seq(a@).subrange(0, a@.len() as int) =~= jview_seq(a@));
                assert(out@ =~= old(out)@ + ser_val(j@));
            }
        },
        Json::Obj(m) => {
            out.push(123);  // {
            proof {
                assert(m@.subrange(0, m@.len() as int) =~= m@);
                assert(decreases_to!(*j => m@));
            }
            write_members(out, m, 0);
            out.push(125);  // }
            proof {
                crate::json::lemma_jview_pairs(m@);
                assert(jview_pairs(m@).subrange(0, m@.len() as int) =~= jview_pairs(m@));
                assert(out@ =~= old(out)@ + ser_val(j@));
            }
        },
    }
}

/// Writes the elements of an array from index `i` on, commas between them.
fn write_elems(out: &mut Vec<u8>, a: &Vec<Json>, i: usize)
    requires
        i <= a@.len(),
    ensures
        final(out)@ == old(out)@ + ser_elems(jview_seq(a@).subrange(i as int, a@.len() as int)),
    decreases a@.subrange(i as int, a@.len() as int),
{
    proof {
        crate::json::lemma_jview_seq(a@);
    }
    let ghost tail = jview_seq(a@).subrange(i as int, a@.len() as int);
    let ghost meas = a@.subrange(i as int, a@.len() as int);
    if i < a.len() {
        proof {
            assert(meas[0] == a@[i as int]);
            assert(decreases_to!(meas => meas[0]));
        }
        write_val(out, &a[i]);
        proof {
            assert(tail[0] == jview(a@[i as int]));
        }
        if i + 1 < a.len() {
            out.push(44);  // ,
            proof {
                assert(a@.subrange(i + 1 as int, a@.len() as int) =~= meas.subrange(
                    1,
                    meas.len() as int,
                ));
                assert(decreases_to!(meas => meas.subrange(1, meas.len() as int)));
            }
            write_elems(out, a, i + 1);
            proof {
                assert(jview_seq(a@).subrange(i + 1 as int, a@.len() as int) =~= tail.subrange(
                    1,
                    tail.len() as int,
                ));
                assert(out@ =~= old(out)@ + ser_elems(tail));
            }
        } else {
            proof {
                assert(tail.len() == 1);
                assert(out@ =~= old(out)@ + ser_elems(tail));
            }
        }
    } else {
        proof {
            assert(tail.len() == 0);
            assert(out@ =~= old(out)@ + ser_elems(tail));
        }
    }
}

/// Writes the members of an object from index `i` on, commas between them.
fn write_members(out: &mut Vec<u8>, m: &Vec<(Vec<u8>, Json)>, i: usize)
    requires
        i <= m@.len(),
    ensures
        final(out)@ == old(out)@ + ser_members(jview_pairs(m@).subrange(i as int, m@.len() as int)),
    decreases m@.subrange(i as int, m@.len() as int),
{
    proof {
        crate::json::lemma_jview_pairs(m@);
    }
    let ghost tail = jview_pairs(m@).subrange(i as int, m@.len() as int);
    let ghost meas = m@.subrange(i as int, m@.len() as int);
    if i < m.len() {
        write_str(out, &m[i].0);
        out.push(58);  // :
        proof {
            assert(meas[0] == m@[i as int]);
            assert(decreases_to!(meas => meas[0]));
            assert(decreases_to!(meas[0] => meas[0].1));
        }
        write_val(out, &m[i].1);
        proof {
            assert(tail[0] == (m@[i as int].0@, jview(m@[i as int].1)));
        }
        if i + 1 < m.len() {
            out.push(44);  // ,
            proof {
                assert(m@.subrange(i + 1 as int, m@.len() as int) =~= meas.subrange(
                    1,
                    meas.len() as int,
                ));
                assert(decreases_to!(meas => meas.subrange(1, meas.len() as int)));
            }
            write_members(out, m, i + 1);
            proof {
                assert(jview_pairs(m@).subrange(i + 1 as int, m@.len() as int) =~= tail.subrange(
                    1,
                    tail.len() as int,
                ));
                assert(out@ =~= old(out)@ + ser_members(tail));
            }
        } else {
            proof {
                assert(tail.len() == 1);
                assert(out@ =~= old(out)@ + ser_members(tail));
            }
        }
    } else {
        proof {
            assert(tail.len() == 0);
            assert(out@ =~= old(out)@ + ser_members(tail));
        }
    }
}

/// The serialized bytes of a whole document.
pub fn to_bytes(j: &Json) -> (r: Vec<u8>)
    ensures
        r@ == ser_val(j@),
{
    let mut out: Vec<u8> = Vec::new();
    write_val(&mut out, j);
    out
}

} // verus!
