//! Parsing of the on-disk text format back into documents.
//!
//! The grammar is JSON over exact decimals. Strings take the standard
//! escapes (quote, backslash, slash, `b t n f r`, and `\uXXXX` with
//! surrogate pairs), and any byte other than a quote or backslash may
//! also stand raw. Numbers take a sign, digits, an optional fraction and
//! an optional exponent, folded into one mantissa and scale; a number is
//! refused only when that exact form overflows the mantissa's or the
//! scale's machine word. An object's members are kept in the order
//! written, duplicate keys included: none is dropped or merged.

use vstd::prelude::*;

use crate::json::{jview, jview_pairs, jview_seq, Json, JsonV};

verus! {

/// Whitespace accepted between tokens.
pub open spec fn is_ws(c: u8) -> bool {
    c == 32 || c == 9 || c == 10 || c == 13
}

/// An ASCII decimal digit.
pub open spec fn is_digit(c: u8) -> bool {
    48 <= c <= 57
}

/// How many whitespace bytes stand at position `i`.
pub open spec fn ws_len(s: Seq<u8>, i: int) -> nat
    decreases s.len() - i,
{
    if 0 <= i < s.len() && is_ws(s[i]) {
        1 + ws_len(s, i + 1)
    } else {
        0
    }
}

/// The first non-whitespace position at or after `i`.
pub open spec fn skip_ws(s: Seq<u8>, i: int) -> int {
    i + ws_len(s, i)
}

/// How many digit bytes stand at position `i`.
pub open spec fn digits_len(s: Seq<u8>, i: int) -> nat
    decreases s.len() - i,
{
    if 0 <= i < s.len() && is_digit(s[i]) {
        1 + digits_len(s, i + 1)
    } else {
        0
    }
}

/// Folds a run of digit bytes into a number, most significant first;
/// `None` when the value would not fit in a `u64`.
pub open spec fn seq_digits_from(ds: Seq<u8>, acc: u64) -> Option<u64>
    decreases ds.len(),
{
    if ds.len() == 0 {
        Some(acc)
    } else {
        let d = (ds[0] - 48) as u64;
        if acc * 10 + d <= u64::MAX {
            seq_digits_from(ds.subrange(1, ds.len() as int), (acc * 10 + d) as u64)
        } else {
            None
        }
    }
}

/// `m * 10^k`, when it fits in a `u64`.
pub open spec fn mul_pow10(m: u64, k: nat) -> Option<u64>
    decreases k,
{
    if k == 0 {
        Some(m)
    } else if m * 10 <= u64::MAX {
        mul_pow10((m * 10) as u64, (k - 1) as nat)
    } else {
        None
    }
}

/// Folds an exponent into an exact decimal: the mantissa and scale of
/// `(m / 10^scale) * 10^(e negated when eneg)`, when the result stays an
/// exact decimal whose mantissa fits a `u64` and whose scale fits a
/// `u32`.
pub open spec fn apply_exp(m: u64, scale: nat, eneg: bool, e: u64) -> Option<(u64, u32)> {
    if m == 0 {
        Some((0u64, 0u32))
    } else if eneg {
        if scale + e > u32::MAX {
            None
        } else {
            Some((m, (scale + e) as u32))
        }
    } else {
        if e >= scale {
            match mul_pow10(m, (e - scale) as nat) {
                Some(m2) => Some((m2, 0u32)),
                None => None,
            }
        } else {
            if scale - e > u32::MAX {
                None
            } else {
                Some((m, (scale - e) as u32))
            }
        }
    }
}

/// Parses an optional exponent at position `i` and applies it to the
/// decimal already read; with no exponent there, the decimal stands as
/// it is.
pub open spec fn parse_exp_s(s: Seq<u8>, i: int, neg: bool, m: u64, scale: nat) -> Option<
    (JsonV, int),
> {
    if !(0 <= i < s.len() && (s[i] == 101 || s[i] == 69)) {  // e E
        if scale > u32::MAX {
            None
        } else {
            Some((JsonV::Num { neg: neg && m > 0, mantissa: m, scale: scale as u32 }, i))
        }
    } else {
        let q0 = i + 1;
        let eneg = q0 < s.len() && s[q0] == 45;
        let q1 = if q0 < s.len() && (s[q0] == 43 || s[q0] == 45) {
            q0 + 1
        } else {
            q0
        };
        let nexp = digits_len(s, q1);
        if nexp == 0 {
            None
        } else {
            match seq_digits_from(s.subrange(q1, q1 + nexp), 0u64) {
                Some(e) => match apply_exp(m, scale, eneg, e) {
                    Some((m2, sc2)) => Some(
                        (JsonV::Num { neg: neg && m2 > 0, mantissa: m2, scale: sc2 }, q1 + nexp),
                    ),
                    None => None,
                },
                None => None,
            }
        }
    }
}

/// Parses a number at position `i` (which must hold a digit or a minus
/// sign): an optional sign, integer digits, an optional fraction and an
/// optional exponent, folded into one exact decimal.
pub open spec fn parse_number_s(s: Seq<u8>, i: int) -> Option<(JsonV, int)> {
    let neg = 0 <= i < s.len() && s[i] == 45;
    let d0 = if neg {
        i + 1
    } else {
        i
    };
    let nint = digits_len(s, d0);
    if nint == 0 {
        None
    } else {
        let iend = d0 + nint;
        if iend < s.len() && s[iend] == 46 {
            let f0 = iend + 1;
            let nfrac = digits_len(s, f0);
            if nfrac == 0 {
                None
            } else {
                let ds = s.subrange(d0, iend) + s.subrange(f0, f0 + nfrac);
                match seq_digits_from(ds, 0u64) {
                    Some(m) => parse_exp_s(s, f0 + nfrac, neg, m, nfrac),
                    None => None,
                }
            }
        } else {
            match seq_digits_from(s.subrange(d0, iend), 0u64) {
                Some(m) => parse_exp_s(s, iend, neg, m, 0),
                None => None,
            }
        }
    }
}

/// A hexadecimal digit, either case.
pub open spec fn is_hex(c: u8) -> bool {
    is_digit(c) || (97 <= c <= 102) || (65 <= c <= 70)
}

/// The value of a hexadecimal digit.
pub open spec fn hex_val(c: u8) -> nat {
    if is_digit(c) {
        (c - 48) as nat
    } else if 97 <= c <= 102 {
        (c - 87) as nat
    } else {
        (c - 55) as nat
    }
}

/// Four hexadecimal digits stand at position `i`.
pub open spec fn hex4_ok(s: Seq<u8>, i: int) -> bool {
    0 <= i && i + 4 <= s.len() && is_hex(s[i]) && is_hex(s[i + 1]) && is_hex(s[i + 2]) && is_hex(
        s[i + 3],
    )
}

/// The code point named by the four hexadecimal digits at position `i`.
pub open spec fn hex4(s: Seq<u8>, i: int) -> nat {
    4096 * hex_val(s[i]) + 256 * hex_val(s[i + 1]) + 16 * hex_val(s[i + 2]) + hex_val(s[i + 3])
}

/// The UTF-8 bytes of the code point `cp`.
pub open spec fn utf8_enc(cp: nat) -> Seq<u8> {
    if cp < 0x80 {
        seq![cp as u8]
    } else if cp < 0x800 {
        seq![(0xC0 + cp / 64) as u8, (0x80 + cp % 64) as u8]
    } else if cp < 0x10000 {
        seq![(0xE0 + cp / 4096) as u8, (0x80 + (cp / 64) % 64) as u8, (0x80 + cp % 64) as u8]
    } else {
        seq![
            (0xF0 + cp / 262144) as u8,
            (0x80 + (cp / 4096) % 64) as u8,
            (0x80 + (cp / 64) % 64) as u8,
            (0x80 + cp % 64) as u8,
        ]
    }
}

/// The byte named by a single-character escape, if the letter is one.
pub open spec fn esc_char(c: u8) -> Option<u8> {
    if c == 34 || c == 92 || c == 47 {
        Some(c)
    } else if c == 98 {  // b
        Some(8u8)
    } else if c == 116 {  // t
        Some(9u8)
    } else if c == 110 {  // n
        Some(10u8)
    } else if c == 102 {  // f
        Some(12u8)
    } else if c == 114 {  // r
        Some(13u8)
    } else {
        None
    }
}

/// Parses a string body at position `i` (just after the opening quote),
/// up to and including the closing quote. The escapes are the standard
/// ones: a backslash before a quote, backslash, slash or one of the
/// letters `b t n f r`, and `\uXXXX`, a surrogate pair standing for one
/// code point; any other byte stands for itself.
pub open spec fn parse_string_s(s: Seq<u8>, i: int) -> Option<(Seq<u8>, int)>
    decreases s.len() - i,
{
    if i < 0 || i >= s.len() {
        None
    } else if s[i] == 34 {
        Some((Seq::empty(), i + 1))
    } else if s[i] == 92 {
        if i + 1 >= s.len() {
            None
        } else if esc_char(s[i + 1]) is Some {
            match parse_string_s(s, i + 2) {
                Some((t, k)) => Some((seq![esc_char(s[i + 1])->Some_0] + t, k)),
                None => None,
            }
        } else if s[i + 1] == 117 {  // u
            if !hex4_ok(s, i + 2) {
                None
            } else {
                let cp = hex4(s, i + 2);
                if 0xD800 <= cp < 0xDC00 {
                    // a high surrogate: a low one must follow
                    if i + 8 <= s.len() && s[i + 6] == 92 && s[i + 7] == 117 && hex4_ok(s, i + 8) {
                        let cp2 = hex4(s, i + 8);
                        if 0xDC00 <= cp2 < 0xE000 {
                            let code = 0x10000 + (cp - 0xD800) * 1024 + (cp2 - 0xDC00);
                            match parse_string_s(s, i + 12) {
                                Some((t, k)) => Some((utf8_enc(code as nat) + t, k)),
                                None => None,
                            }
                        } else {
                            None
                        }
                    } else {
                        None
                    }
                } else if 0xDC00 <= cp < 0xE000 {
                    // a lone low surrogate names no code point
                    None
                } else {
                    match parse_string_s(s, i + 6) {
                        Some((t, k)) => Some((utf8_enc(cp) + t, k)),
                        None => None,
                    }
                }
            }
        } else {
            None
        }
    } else {
        match parse_string_s(s, i + 1) {
            Some((t, k)) => Some((seq![s[i]] + t, k)),
            None => None,
        }
    }
}

/// Parses one value, whitespace allowed before it.
pub open spec fn parse_value_s(s: Seq<u8>, i: int) -> Option<(JsonV, int)>
    decreases s.len() - i, 1int,
{
    let j = skip_ws(s, i);
    if j >= s.len() || j < 0 {
        None
    } else if s[j] == 110 {  // n
        if j + 4 <= s.len() && s[j + 1] == 117 && s[j + 2] == 108 && s[j + 3] == 108 {
            Some((JsonV::Null, j + 4))
        } else {
            None
        }
    } else if s[j] == 116 {  // t
        if j + 4 <= s.len() && s[j + 1] == 114 && s[j + 2] == 117 && s[j + 3] == 101 {
            Some((JsonV::Bool(true), j + 4))
        } else {
            None
        }
    } else if s[j] == 102 {  // f
        if j + 5 <= s.len() && s[j + 1] == 97 && s[j + 2] == 108 && s[j + 3] == 115 && s[j + 4]
            == 101 {
            Some((JsonV::Bool(false), j + 5))
        } else {
            None
        }
    } else if s[j] == 34 {  // "
        match parse_string_s(s, j + 1) {
            Some((t, k)) => Some((JsonV::Str(t), k)),
            None => None,
        }
    } else if s[j] == 91 {  // [
        let j1 = skip_ws(s, j + 1);
        if j1 < s.len() && s[j1] == 93 {
            Some((JsonV::Arr(Seq::empty()), j1 + 1))
        } else {
            match parse_elems_s(s, j + 1) {
                Some((es, k)) => Some((JsonV::Arr(es), k)),
                None => None,
            }
        }
    } else if s[j] == 123 {  // {
        let j1 = skip_ws(s, j + 1);
        if j1 < s.len() && s[j1] == 125 {
            Some((JsonV::Obj(Seq::empty()), j1 + 1))
        } else {
            match parse_members_s(s, j + 1) {
                Some((ms, k)) => Some((JsonV::Obj(ms), k)),
                None => None,
            }
        }
    } else if s[j] == 45 || is_digit(s[j]) {
        parse_number_s(s, j)
    } else {
        None
    }
}

/// Parses one or more array elements from position `i`, up to and
/// including the closing bracket.
pub open spec fn parse_elems_s(s: Seq<u8>, i: int) -> Option<(Seq<JsonV>, int)>
    decreases s.len() - i, 2int,
{
    match parse_value_s(s, i) {
        Some((v, k)) => {
            if k <= i {
                None
            } else {
                let k2 = skip_ws(s, k);
                if k2 < s.len() && s[k2] == 93 {  // ]
                    Some((seq![v], k2 + 1))
                } else if k2 < s.len() && s[k2] == 44 {  // ,
                    match parse_elems_s(s, k2 + 1) {
                        Some((es, end)) => Some((seq![v] + es, end)),
                        None => None,
                    }
                } else {
                    None
                }
            }
        },
        None => None,
    }
}

/// Parses one or more object members from position `i`, up to and
/// including the closing brace.
pub open spec fn parse_members_s(s: Seq<u8>, i: int) -> Option<(Seq<(Seq<u8>, JsonV)>, int)>
    decreases s.len() - i, 2int,
{
    let j = skip_ws(s, i);
    if j >= s.len() || s[j] != 34 {
        None
    } else {
        match parse_string_s(s, j + 1) {
            Some((key, k0)) => {
                if k0 <= j {
                    None
                } else {
                    let k1 = skip_ws(s, k0);
                    if k1 >= s.len() || s[k1] != 58 {  // :
                        None
                    } else {
                        match parse_value_s(s, k1 + 1) {
                            Some((v, k)) => {
                                if k <= i {
                                    None
                                } else {
                                    let k2 = skip_ws(s, k);
                                    if k2 < s.len() && s[k2] == 125 {  // }
                                        Some((seq![(key, v)], k2 + 1))
                                    } else if k2 < s.len() && s[k2] == 44 {  // ,
                                        match parse_members_s(s, k2 + 1) {
                                            Some((ms, end)) => Some((seq![(key, v)] + ms, end)),
                                            None => None,
                                        }
                                    } else {
                                        None
                                    }
                                }
                            },
                            None => None,
                        }
                    }
                }
            },
            None => None,
        }
    }
}

/// Parses a whole document: one value and nothing but whitespace after it.
pub open spec fn parse_doc_s(s: Seq<u8>) -> Option<JsonV> {
    match parse_value_s(s, 0) {
        Some((v, k)) => {
            if skip_ws(s, k) == s.len() {
                Some(v)
            } else {
                None
            }
        },
        None => None,
    }
}

/// Advances over whitespace.
fn skip_ws_x(s: &Vec<u8>, i: usize) -> (r: usize)
    requires
        i <= s@.len(),
    ensures
        r == skip_ws(s@, i as int),
        i <= r <= s@.len(),
{
    let mut j = i;
    while j < s.len() && (s[j] == 32 || s[j] == 9 || s[j] == 10 || s[j] == 13)
        invariant
            i <= j <= s@.len(),
            skip_ws(s@, i as int) == skip_ws(s@, j as int),
        decreases s@.len() - j,
    {
        j = j + 1;
    }
    j
}

/// Counts the digits standing at position `i`.
fn digits_len_x(s: &Vec<u8>, i: usize) -> (r: usize)
    requires
        i <= s@.len(),
    ensures
        r == digits_len(s@, i as int),
        i + r <= s@.len(),
{
    let mut j = i;
    while j < s.len() && 48 <= s[j] && s[j] <= 57
        invariant
            i <= j <= s@.len(),
            digits_len(s@, i as int) == j - i + digits_len(s@, j as int),
        decreases s@.len() - j,
    {
        j = j + 1;
    }
    j - i
}

/// Folds the `n` digit bytes standing at position `i` onto `acc`,
/// refusing values that do not fit in a `u64`.
fn fold_digits_x(s: &Vec<u8>, i: usize, n: usize, acc: u64) -> (r: Option<u64>)
    requires
        i + n <= s@.len(),
        forall|k: int| i <= k < i + n ==> is_digit(s@[k]),
    ensures
        r == seq_digits_from(s@.subrange(i as int, i + n as int), acc),
{
    let sl = s.len();  // anchors the sequence length to a machine word
    let iend = i + n;
    let mut j = i;
    let mut a = acc;
    while j < iend
        invariant
            iend == i + n,
            i <= j <= iend,
            iend <= s@.len(),
            forall|k: int| i <= k < i + n ==> is_digit(s@[k]),
            seq_digits_from(s@.subrange(i as int, i + n as int), acc) == seq_digits_from(
                s@.subrange(j as int, i + n as int),
                a,
            ),
        decreases iend - j,
    {
        let d = s[j];
        let ghost pre = s@.subrange(j as int, i + n as int);
        proof {
            assert(pre[0] == d);
            assert(is_digit(d));
        }
        let dv = (d - 48) as u64;
        if a > (u64::MAX - dv) / 10 {
            proof {
                assert(a * 10 + dv > u64::MAX) by (nonlinear_arith)
                    requires
                        a > (u64::MAX - dv) / 10,
                ;
            }
            return None;
        }
        proof {
            assert(a * 10 + dv <= u64::MAX) by (nonlinear_arith)
                requires
                    a <= (u64::MAX - dv) / 10,
            ;
            assert(pre.subrange(1, pre.len() as int) =~= s@.subrange(j + 1 as int, i + n as int));
        }
        a = a * 10 + dv;
        j = j + 1;
    }
    proof {
        assert(s@.subrange(j as int, i + n as int).len() == 0);
    }
    Some(a)
}

/// Every byte of the digit run at `i` is a digit, and the run is in bounds.
pub proof fn lemma_digits_run(s: Seq<u8>, i: int)
    ensures
        0 <= i <= s.len() ==> i + digits_len(s, i) <= s.len(),
        forall|k: int| i <= k < i + digits_len(s, i) ==> is_digit(s[k]),
    decreases s.len() - i,
{
    if 0 <= i < s.len() && is_digit(s[i]) {
        lemma_digits_run(s, i + 1);
    }
}

/// Folds an exponent into the decimal already read, as `apply_exp` says.
#[verifier::loop_isolation(false)]
fn apply_exp_x(m: u64, scale: usize, eneg: bool, e: u64) -> (r: Option<(u64, u32)>)
    ensures
        r == apply_exp(m, scale as nat, eneg, e),
{
    if m == 0 {
        return Some((0, 0));
    }
    if eneg {
        if e > u32::MAX as u64 || scale as u64 > (u32::MAX as u64) - e {
            return None;
        }
        return Some((m, (scale as u64 + e) as u32));
    }
    if e >= scale as u64 {
        let ghost k0 = (e - scale as u64) as nat;
        let mut k = e - scale as u64;
        let mut m2 = m;
        while k > 0
            invariant
                mul_pow10(m, k0) == mul_pow10(m2, k as nat),
            decreases k,
        {
            if m2 > u64::MAX / 10 {
                proof {
                    assert(m2 * 10 > u64::MAX) by (nonlinear_arith)
                        requires
                            m2 > u64::MAX / 10,
                    ;
                }
                return None;
            }
            proof {
                assert(m2 * 10 <= u64::MAX) by (nonlinear_arith)
                    requires
                        m2 <= u64::MAX / 10,
                ;
            }
            m2 = m2 * 10;
            k = k - 1;
        }
        return Some((m2, 0));
    }
    let ns = scale - (e as usize);
    if ns > u32::MAX as usize {
        return None;
    }
    Some((m, ns as u32))
}

/// Parses an optional exponent at position `i` and applies it.
fn parse_exp_x(s: &Vec<u8>, i: usize, neg: bool, m: u64, scale: usize) -> (r: Option<
    (Json, usize),
>)
    requires
        i <= s@.len(),
    ensures
        match r {
            Some((v, k)) => parse_exp_s(s@, i as int, neg, m, scale as nat) == Some(
                (v@, k as int),
            ) && i <= k <= s@.len(),
            None => parse_exp_s(s@, i as int, neg, m, scale as nat) is None,
        },
{
    let sl = s.len();  // anchors the sequence length to a machine word
    if !(i < sl && (s[i] == 101 || s[i] == 69)) {
        if scale > u32::MAX as usize {
            return None;
        }
        return Some((Json::Num { neg: neg && m > 0, mantissa: m, scale: scale as u32 }, i));
    }
    let q0 = i + 1;
    let eneg = q0 < sl && s[q0] == 45;
    let q1 = if q0 < sl && (s[q0] == 43 || s[q0] == 45) {
        q0 + 1
    } else {
        q0
    };
    proof {
        lemma_digits_run(s@, q1 as int);
    }
    let nexp = digits_len_x(s, q1);
    if nexp == 0 {
        return None;
    }
    match fold_digits_x(s, q1, nexp, 0) {
        Some(e) => {
            match apply_exp_x(m, scale, eneg, e) {
                Some((m2, sc2)) => Some(
                    (Json::Num { neg: neg && m2 > 0, mantissa: m2, scale: sc2 }, q1 + nexp),
                ),
                None => None,
            }
        },
        None => None,
    }
}

/// Parses a number standing at position `i`.
fn parse_number_x(s: &Vec<u8>, i: usize) -> (r: Option<(Json, usize)>)
    requires
        i < s@.len(),
    ensures
        match r {
            Some((v, k)) => parse_number_s(s@, i as int) == Some((v@, k as int)) && i < k
                <= s@.len(),
            None => parse_number_s(s@, i as int) is None,
        },
{
    let sl = s.len();  // anchors the sequence length to a machine word
    proof {
        lemma_digits_run(s@, i as int);
        lemma_digits_run(s@, i + 1);
    }
    let neg = s[i] == 45;
    let d0 = if neg {
        i + 1
    } else {
        i
    };
    let nint = digits_len_x(s, d0);
    if nint == 0 {
        return None;
    }
    let iend = d0 + nint;
    if iend < s.len() && s[iend] == 46 {
        let f0 = iend + 1;
        proof {
            lemma_digits_run(s@, f0 as int);
        }
        let nfrac = digits_len_x(s, f0);
        if nfrac == 0 {
            return None;
        }
        match fold_digits_x(s, d0, nint, 0) {
            Some(m1) => {
                match fold_digits_x(s, f0, nfrac, m1) {
                    Some(m) => {
                        proof {
                            lemma_fold_digits_split(
                                s@.subrange(d0 as int, iend as int),
                                s@.subrange(f0 as int, f0 + nfrac as int),
                                0u64,
                            );
                        }
                        parse_exp_x(s, f0 + nfrac, neg, m, nfrac)
                    },
                    None => {
                        proof {
                            lemma_fold_digits_split(
                                s@.subrange(d0 as int, iend as int),
                                s@.subrange(f0 as int, f0 + nfrac as int),
                                0u64,
                            );
                        }
                        None
                    },
                }
            },
            None => {
                proof {
                    lemma_fold_digits_split(
                        s@.subrange(d0 as int, iend as int),
                        s@.subrange(f0 as int, f0 + nfrac as int),
                        0u64,
                    );
                }
                None
            },
        }
    } else {
        match fold_digits_x(s, d0, nint, 0) {
            Some(m) => parse_exp_x(s, iend, neg, m, 0),
            None => None,
        }
    }
}

/// Folding the digits of `a + b` is folding `a`, then `b` from there.
pub proof fn lemma_fold_digits_split(a: Seq<u8>, b: Seq<u8>, acc: u64)
    ensures
        seq_digits_from(a + b, acc) == match seq_digits_from(a, acc) {
            Some(m) => seq_digits_from(b, m),
            None => None,
        },
    decreases a.len(),
{
    if a.len() == 0 {
        assert(a + b =~= b);
    } else {
        let d = (a[0] - 48) as u64;
        assert((a + b)[0] == a[0]);
        if acc * 10 + d <= u64::MAX {
            assert((a + b).subrange(1, (a + b).len() as int) =~= a.subrange(1, a.len() as int) + b);
            lemma_fold_digits_split(a.subrange(1, a.len() as int), b, (acc * 10 + d) as u64);
        }
    }
}

/// The value of one hexadecimal digit byte, if it is one.
fn hex_digit_x(c: u8) -> (r: Option<u32>)
    ensures
        match r {
            Some(d) => is_hex(c) && d as nat == hex_val(c) && d < 16,
            None => !is_hex(c),
        },
{
    if 48 <= c && c <= 57 {
        Some((c - 48) as u32)
    } else if 97 <= c && c <= 102 {
        Some((c - 87) as u32)
    } else if 65 <= c && c <= 70 {
        Some((c - 55) as u32)
    } else {
        None
    }
}

/// Reads the four hexadecimal digits at position `i`, if they are there.
fn hex4_x(s: &Vec<u8>, i: usize) -> (r: Option<u32>)
    requires
        i <= s@.len(),
    ensures
        match r {
            Some(v) => hex4_ok(s@, i as int) && v as nat == hex4(s@, i as int) && v < 0x10000,
            None => !hex4_ok(s@, i as int),
        },
{
    if s.len() - i < 4 {
        return None;
    }
    let d0 = match hex_digit_x(s[i]) {
        Some(d) => d,
        None => {
            return None;
        },
    };
    let d1 = match hex_digit_x(s[i + 1]) {
        Some(d) => d,
        None => {
            return None;
        },
    };
    let d2 = match hex_digit_x(s[i + 2]) {
        Some(d) => d,
        None => {
            return None;
        },
    };
    let d3 = match hex_digit_x(s[i + 3]) {
        Some(d) => d,
        None => {
            return None;
        },
    };
    Some(4096 * d0 + 256 * d1 + 16 * d2 + d3)
}

/// Appends the UTF-8 bytes of the code point `cp`.
fn push_utf8(acc: &mut Vec<u8>, cp: u32)
    requires
        cp < 0x110000,
    ensures
        final(acc)@ == old(acc)@ + utf8_enc(cp as nat),
{
    if cp < 0x80 {
        acc.push(cp as u8);
    } else if cp < 0x800 {
        acc.push(0xC0 + (cp / 64) as u8);
        acc.push(0x80 + (cp % 64) as u8);
    } else if cp < 0x10000 {
        acc.push(0xE0 + (cp / 4096) as u8);
        acc.push(0x80 + ((cp / 64) % 64) as u8);
        acc.push(0x80 + (cp % 64) as u8);
    } else {
        acc.push(0xF0 + (cp / 262144) as u8);
        acc.push(0x80 + ((cp / 4096) % 64) as u8);
        acc.push(0x80 + ((cp / 64) % 64) as u8);
        acc.push(0x80 + (cp % 64) as u8);
    }
    proof {
        assert(acc@ =~= old(acc)@ + utf8_enc(cp as nat));
    }
}

/// Parses a string body at position `i`, the opening quote already read.
#[verifier::loop_isolation(false)]
fn parse_string_x(s: &Vec<u8>, i: usize) -> (r: Option<(Vec<u8>, usize)>)
    requires
        i <= s@.len(),
    ensures
        match r {
            Some((t, k)) => parse_string_s(s@, i as int) == Some((t@, k as int)) && i < k
                <= s@.len(),
            None => parse_string_s(s@, i as int) is None,
        },
{
    let mut acc: Vec<u8> = Vec::new();
    let mut j = i;
    loop
        invariant
            i <= j <= s@.len(),
            parse_string_s(s@, i as int) == (match parse_string_s(s@, j as int) {
                Some((t, k)) => Some((acc@ + t, k)),
                None => None::<(Seq<u8>, int)>,
            }),
        decreases s@.len() - j,
    {
        if j >= s.len() {
            return None;
        }
        let c = s[j];
        if c == 34 {
            proof {
                assert(acc@ + Seq::<u8>::empty() =~= acc@);
            }
            return Some((acc, j + 1));
        } else if c == 92 {
            if j + 1 >= s.len() {
                return None;
            }
            let e = s[j + 1];
            let single: Option<u8> = if e == 34 || e == 92 || e == 47 {
                Some(e)
            } else if e == 98 {
                Some(8)
            } else if e == 116 {
                Some(9)
            } else if e == 110 {
                Some(10)
            } else if e == 102 {
                Some(12)
            } else if e == 114 {
                Some(13)
            } else {
                None
            };
            match single {
                Some(b) => {
                    let ghost acc0 = acc@;
                    acc.push(b);
                    proof {
                        lemma_string_step(s@, i as int, j as int, acc0, seq![b], j + 2);
                    }
                    j = j + 2;
                },
                None => {
                    if e != 117 {
                        return None;
                    }
                    match hex4_x(s, j + 2) {
                        None => {
                            return None;
                        },
                        Some(cp) => {
                            if 0xD800 <= cp && cp < 0xDC00 {
                                if s.len() - j < 8 || s[j + 6] != 92 || s[j + 7] != 117 {
                                    return None;
                                }
                                match hex4_x(s, j + 8) {
                                    None => {
                                        return None;
                                    },
                                    Some(cp2) => {
                                        if !(0xDC00 <= cp2 && cp2 < 0xE000) {
                                            return None;
                                        }
                                        let code = 0x10000 + (cp - 0xD800) * 1024 + (cp2 - 0xDC00);
                                        let ghost acc0 = acc@;
                                        push_utf8(&mut acc, code);
                                        proof {
                                            lemma_string_step(
                                                s@,
                                                i as int,
                                                j as int,
                                                acc0,
                                                utf8_enc(code as nat),
                                                j + 12,
                                            );
                                        }
                                        j = j + 12;
                                    },
                                }
                            } else if 0xDC00 <= cp && cp < 0xE000 {
                                return None;
                            } else {
                                let ghost acc0 = acc@;
                                push_utf8(&mut acc, cp);
                                proof {
                                    lemma_string_step(
                                        s@,
                                        i as int,
                                        j as int,
                                        acc0,
                                        utf8_enc(cp as nat),
                                        j + 6,
                                    );
                                }
                                j = j + 6;
                            }
                        },
                    }
                },
            }
        } else {
            let ghost acc0 = acc@;
            acc.push(c);
            proof {
                lemma_string_step(s@, i as int, j as int, acc0, seq![c], j + 1);
            }
            j = j + 1;
        }
    }
}

/// One step of the string loop: if parsing from `j` prepends exactly
/// `px` to what parsing from `j2` gives, the loop invariant carries over.
proof fn lemma_string_step(s: Seq<u8>, i: int, j: int, acc: Seq<u8>, px: Seq<u8>, j2: int)
    requires
        parse_string_s(s, i) == (match parse_string_s(s, j) {
            Some((t, k)) => Some((acc + t, k)),
            None => None::<(Seq<u8>, int)>,
        }),
        parse_string_s(s, j) == (match parse_string_s(s, j2) {
            Some((t, k)) => Some((px + t, k)),
            None => None::<(Seq<u8>, int)>,
        }),
    ensures
        parse_string_s(s, i) == (match parse_string_s(s, j2) {
            Some((t, k)) => Some(((acc + px) + t, k)),
            None => None::<(Seq<u8>, int)>,
        }),
{
    match parse_string_s(s, j2) {
        Some((t, k)) => {
            assert(acc + (px + t) =~= (acc + px) + t);
        },
        None => {},
    }
}

/// Parses one value, whitespace allowed before it.
pub fn parse_value_x(s: &Vec<u8>, i: usize) -> (r: Option<(Json, usize)>)
    requires
        i <= s@.len(),
    ensures
        match r {
            Some((v, k)) => parse_value_s(s@, i as int) == Some((v@, k as int)) && i < k
                <= s@.len(),
            None => parse_value_s(s@, i as int) is None,
        },
    decreases s@.len() - i, 1int,
{
    let j = skip_ws_x(s, i);
    if j >= s.len() {
        return None;
    }
    let c = s[j];
    if c == 110 {  // n
        if s.len() - j >= 4 && s[j + 1] == 117 && s[j + 2] == 108 && s[j + 3] == 108 {
            Some((Json::Null, j + 4))
        } else {
            None
        }
    } else if c == 116 {  // t
        if s.len() - j >= 4 && s[j + 1] == 114 && s[j + 2] == 117 && s[j + 3] == 101 {
            Some((Json::Bool(true), j + 4))
        } else {
            None
        }
    } else if c == 102 {  // f
        if s.len() - j >= 5 && s[j + 1] == 97 && s[j + 2] == 108 && s[j + 3] == 115 && s[j + 4]
            == 101 {
            Some((Json::Bool(false), j + 5))
        } else {
            None
        }
    } else if c == 34 {  // "
        match parse_string_x(s, j + 1) {
            Some((t, k)) => Some((Json::Str(t), k)),
            None => None,
        }
    } else if c == 91 {  // [
        let j1 = skip_ws_x(s, j + 1);
        if j1 < s.len() && s[j1] == 93 {
            Some((Json::Arr(Vec::new()), j1 + 1))
        } else {
            match parse_elems_x(s, j + 1) {
                Some((es, k)) => Some((Json::Arr(es), k)),
                None => None,
            }
        }
    } else if c == 123 {  // {
        let j1 = skip_ws_x(s, j + 1);
        if j1 < s.len() && s[j1] == 125 {
            Some((Json::Obj(Vec::new()), j1 + 1))
        } else {
            match parse_members_x(s, j + 1) {
                Some((ms, k)) => Some((Json::Obj(ms), k)),
                None => None,
            }
        }
    } else if c == 45 || (48 <= c && c <= 57) {
        parse_number_x(s, j)
    } else {
        None
    }
}

/// Parses one or more array elements, closing bracket included.
fn parse_elems_x(s: &Vec<u8>, i: usize) -> (r: Option<(Vec<Json>, usize)>)
    requires
        i <= s@.len(),
    ensures
        match r {
            Some((es, k)) => parse_elems_s(s@, i as int) == Some((jview_seq(es@), k as int)) && i
                < k <= s@.len(),
            None => parse_elems_s(s@, i as int) is None,
        },
    decreases s@.len() - i, 2int,
{
    match parse_value_x(s, i) {
        Some((v, k)) => {
            let k2 = skip_ws_x(s, k);
            if k2 < s.len() && s[k2] == 93 {
                let mut es: Vec<Json> = Vec::new();
                es.push(v);
                proof {
                    crate::json::lemma_jview_seq(es@);
                    assert(jview_seq(es@) =~= seq![jview(es@[0])]);
                }
                Some((es, k2 + 1))
            } else if k2 < s.len() && s[k2] == 44 {
                match parse_elems_x(s, k2 + 1) {
                    Some((rest, end)) => {
                        let ghost rest0 = rest@;
                        let ghost vv = jview(v);
                        let mut rest2 = rest;
                        let mut es: Vec<Json> = Vec::new();
                        es.push(v);
                        es.append(&mut rest2);
                        proof {
                            crate::json::lemma_jview_seq(es@);
                            crate::json::lemma_jview_seq(rest0);
                            assert forall|q: int| 0 <= q < es@.len() implies jview_seq(es@)[q] == (
                            seq![vv] + jview_seq(rest0))[q] by {
                                if q > 0 {
                                    assert(es@[q] == rest0[q - 1]);
                                } else {
                                    assert(jview(es@[0]) == vv);
                                }
                            }
                            assert(jview_seq(es@) =~= seq![vv] + jview_seq(rest0));
                        }
                        Some((es, end))
                    },
                    None => None,
                }
            } else {
                None
            }
        },
        None => None,
    }
}

/// Parses one or more object members, closing brace included.
fn parse_members_x(s: &Vec<u8>, i: usize) -> (r: Option<(Vec<(Vec<u8>, Json)>, usize)>)
    requires
        i <= s@.len(),
    ensures
        match r {
            Some((ms, k)) => parse_members_s(s@, i as int) == Some((jview_pairs(ms@), k as int))
                && i < k <= s@.len(),
            None => parse_members_s(s@, i as int) is None,
        },
    decreases s@.len() - i, 2int,
{
    let j = skip_ws_x(s, i);
    if j >= s.len() {
        return None;
    }
    if s[j] != 34 {
        return None;
    }
    match parse_string_x(s, j + 1) {
        Some((key, k0)) => {
            let k1 = skip_ws_x(s, k0);
            if k1 >= s.len() {
                return None;
            }
            if s[k1] != 58 {
                return None;
            }
            match parse_value_x(s, k1 + 1) {
                Some((v, k)) => {
                    let k2 = skip_ws_x(s, k);
                    if k2 < s.len() && s[k2] == 125 {
                        let mut ms: Vec<(Vec<u8>, Json)> = Vec::new();
                        ms.push((key, v));
                        proof {
                            crate::json::lemma_jview_pairs(ms@);
                            assert(jview_pairs(ms@) =~= seq![(ms@[0].0@, jview(ms@[0].1))]);
                        }
                        Some((ms, k2 + 1))
                    } else if k2 < s.len() && s[k2] == 44 {
                        match parse_members_x(s, k2 + 1) {
                            Some((rest, end)) => {
                                let ghost rest0 = rest@;
                                let ghost keyv = key@;
                                let ghost vv = jview(v);
                                let mut rest2 = rest;
                                let mut ms: Vec<(Vec<u8>, Json)> = Vec::new();
                                ms.push((key, v));
                                ms.append(&mut rest2);
                                proof {
                                    crate::json::lemma_jview_pairs(ms@);
                                    crate::json::lemma_jview_pairs(rest0);
                                    assert forall|q: int| 0 <= q < ms@.len() implies jview_pairs(
                                        ms@,
                                    )[q] == (seq![(keyv, vv)] + jview_pairs(rest0))[q] by {
                                        if q > 0 {
                                            assert(ms@[q] == rest0[q - 1]);
                                            assert(ms@[q].0@ == rest0[q - 1].0@);
                                            assert(jview(ms@[q].1) == jview(rest0[q - 1].1));
                                        } else {
                                            assert(ms@[0].0@ == keyv);
                                            assert(jview(ms@[0].1) == vv);
                                        }
                                    }
                                    assert(jview_pairs(ms@) =~= seq![(keyv, vv)] + jview_pairs(
                                        rest0,
                                    ));
                                }
                                Some((ms, end))
                            },
                            None => None,
                        }
                    } else {
                        None
                    }
                },
                None => None,
            }
        },
        None => None,
    }
}

/// Parses a whole document: one value with only whitespace around it.
/// Whatever it returns is a valid document, so it can be saved and
/// loaded again unchanged.
pub fn parse(s: &Vec<u8>) -> (r: Option<Json>)
    ensures
        match r {
            Some(v) => parse_doc_s(s@) == Some(v@) && crate::json::valid_v(v@),
            None => parse_doc_s(s@) is None,
        },
{
    proof {
        crate::roundtrip::lemma_parse_doc_valid(s@);
    }
    match parse_value_x(s, 0) {
        Some((v, k)) => {
            let k2 = skip_ws_x(s, k);
            if k2 == s.len() {
                Some(v)
            } else {
                None
            }
        },
        None => None,
    }
}

} // verus!
