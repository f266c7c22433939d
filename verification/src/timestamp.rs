//! Local-time timestamps for backup names, in the form `YYYYMMDD-HHMMSS`.
//! The clock and calendar come from the `chrono` crate; the formatting is
//! the library's own and fully specified.

use vstd::prelude::*;

use crate::ser::{dec_digits, zero_digits};

verus! {

/// The digits of `n`, zero-padded on the left to at least `w` places.
pub open spec fn pad_spec(n: nat, w: nat) -> Seq<u8> {
    let ds = dec_digits(n);
    if ds.len() >= w {
        ds
    } else {
        zero_digits((w - ds.len()) as nat) + ds
    }
}

/// The timestamp text for the given local-time parts: four digits of
/// year (a minus sign first for a year before zero), two each of month
/// and day, a dash, and two digits each of hour, minute and second.
pub open spec fn ts_spec(y: int, mo: nat, d: nat, h: nat, mi: nat, sec: nat) -> Seq<u8> {
    let year_part = if y >= 0 {
        pad_spec(y as nat, 4)
    } else {
        seq![45u8] + pad_spec((0 - y) as nat, 4)
    };
    year_part + pad_spec(mo, 2) + pad_spec(d, 2) + seq![45u8] + pad_spec(h, 2) + pad_spec(mi, 2)
        + pad_spec(sec, 2)
}

/// A byte string is a timestamp when some in-range local-time parts
/// format to it.
pub open spec fn is_timestamp(b: Seq<u8>) -> bool {
    exists|y: int, mo: nat, d: nat, h: nat, mi: nat, sec: nat|
        1 <= mo <= 12 && 1 <= d <= 31 && h <= 23 && mi <= 59 && sec <= 59 && b == ts_spec(
            y,
            mo,
            d,
            h,
            mi,
            sec,
        )
}

/// Appends the digits of `n`, zero-padded to at least `w` places.
fn write_padded(out: &mut Vec<u8>, n: u64, w: usize)
    ensures
        final(out)@ == old(out)@ + pad_spec(n as nat, w as nat),
{
    let nd = crate::ser::count_digits(n);
    if nd < w {
        let pad = w - nd;
        let mut k: usize = 0;
        while k < pad
            invariant
                k <= pad,
                out@ =~= old(out)@ + zero_digits(k as nat),
            decreases pad - k,
        {
            out.push(48);
            k = k + 1;
            proof {
                assert(out@ =~= old(out)@ + zero_digits(k as nat));
            }
        }
    }
    crate::ser::write_digits(out, n);
    proof {
        assert(out@ =~= old(out)@ + pad_spec(n as nat, w as nat));
    }
}

/// Relies on `chrono::Local::now` and on chrono's `Datelike` and
/// `Timelike` accessors: `month` is 1 to 12, `day` 1 to 31, `hour` 0 to
/// 23, `minute` and `second` 0 to 59. Nothing is assumed of the year or
/// of which moment the clock reports.
#[verifier::external_body]
fn local_now_parts() -> (r: (i32, u32, u32, u32, u32, u32))
    ensures
        1 <= r.1 <= 12,
        1 <= r.2 <= 31,
        r.3 <= 23,
        r.4 <= 59,
        r.5 <= 59,
{
    let t = chrono::Local::now();
    (
        chrono::Datelike::year(&t),
        chrono::Datelike::month(&t),
        chrono::Datelike::day(&t),
        chrono::Timelike::hour(&t),
        chrono::Timelike::minute(&t),
        chrono::Timelike::second(&t),
    )
}

/// Formats the given local-time parts.
pub fn format_timestamp(y: i32, mo: u32, d: u32, h: u32, mi: u32, sec: u32) -> (r: Vec<u8>)
    ensures
        r@ == ts_spec(y as int, mo as nat, d as nat, h as nat, mi as nat, sec as nat),
{
    let mut out: Vec<u8> = Vec::new();
    if y >= 0 {
        write_padded(&mut out, y as u64, 4);
    } else {
        out.push(45);
        let ya = -(y as i64);
        write_padded(&mut out, ya as u64, 4);
    }
    write_padded(&mut out, mo as u64, 2);
    write_padded(&mut out, d as u64, 2);
    out.push(45);
    write_padded(&mut out, h as u64, 2);
    write_padded(&mut out, mi as u64, 2);
    write_padded(&mut out, sec as u64, 2);
    proof {
        assert(out@ =~= ts_spec(y as int, mo as nat, d as nat, h as nat, mi as nat, sec as nat));
    }
    out
}

/// The current local time as a timestamp.
pub fn current_timestamp() -> (r: Vec<u8>)
    ensures
        is_timestamp(r@),
{
    let (y, mo, d, h, mi, sec) = local_now_parts();
    let out = format_timestamp(y, mo, d, h, mi, sec);
    proof {
        assert(out@ == ts_spec(y as int, mo as nat, d as nat, h as nat, mi as nat, sec as nat));
    }
    out
}

} // verus!
