use vstd::prelude::*;
use crate::b64::{
    b64_decode, b64_encode, b64_decode_str, b64_encode_bytes, lemma_b64_encode_len,
    lemma_b64_roundtrip,
};
use crate::errors::DatabaseIntegrityError;

verus! {

// Calendar timestamps with second resolution, counted from the year-1
// epoch 0001-01-01T00:00:00 of the proleptic Gregorian calendar. Two text
// dialects exist: the legacy literal `YYYY-MM-DDTHH:MM:SSZ`, and Base64 of
// the little-endian signed 64-bit second count. Decoding accepts both,
// trying the literal form first; encoding always emits the Base64 form.

/// An instant, as signed seconds since 0001-01-01T00:00:00.
#[derive(Debug, Clone, Copy, PartialEq, Eq, Structural)]
pub struct Timestamp {
    pub seconds: i64,
}

/// Whether a year has a leap day.
pub open spec fn spec_is_leap(y: int) -> bool {
    y % 4 == 0 && (y % 100 != 0 || y % 400 == 0)
}

/// Days in the months before month `m` of a common year.
pub open spec fn spec_days_before_month(m: int) -> int
    recommends
        1 <= m <= 12,
{
    if m == 1 {
        0
    } else if m == 2 {
        31
    } else if m == 3 {
        59
    } else if m == 4 {
        90
    } else if m == 5 {
        120
    } else if m == 6 {
        151
    } else if m == 7 {
        181
    } else if m == 8 {
        212
    } else if m == 9 {
        243
    } else if m == 10 {
        273
    } else if m == 11 {
        304
    } else {
        334
    }
}

/// The number of days in a month.
pub open spec fn spec_days_in_month(y: int, m: int) -> int
    recommends
        1 <= m <= 12,
{
    if m == 2 {
        if spec_is_leap(y) {
            29
        } else {
            28
        }
    } else if m == 4 || m == 6 || m == 9 || m == 11 {
        30
    } else {
        31
    }
}

/// Days from 0001-01-01 to the given calendar day.
pub open spec fn spec_days_from_year1(y: int, m: int, d: int) -> int
    recommends
        1 <= y,
        1 <= m <= 12,
        1 <= d,
{
    let py = y - 1;
    365 * py + py / 4 - py / 100 + py / 400 + spec_days_before_month(m) + (if spec_is_leap(y)
        && m > 2 {
        1int
    } else {
        0int
    }) + (d - 1)
}

/// Seconds from the year-1 epoch to the given calendar second.
pub open spec fn spec_civil_seconds(y: int, m: int, d: int, h: int, mi: int, s: int) -> int {
    spec_days_from_year1(y, m, d) * 86400 + h * 3600 + mi * 60 + s
}

/// Whether the six fields name a real calendar second the literal dialect
/// can carry.
pub open spec fn spec_valid_civil(y: int, m: int, d: int, h: int, mi: int, s: int) -> bool {
    1 <= y <= 9999 && 1 <= m <= 12 && 1 <= d <= spec_days_in_month(y, m) && 0 <= h < 24 && 0 <= mi
        < 60 && 0 <= s < 60
}

/// The value of a decimal digit character.
pub open spec fn spec_digit(c: char) -> Option<int> {
    let x = c as int;
    if 48 <= x < 58 {
        Some(x - 48)
    } else {
        None
    }
}

/// Whether positions `[i, i + n)` of `t` are all decimal digits.
pub open spec fn spec_all_digits(t: Seq<char>, i: int, n: int) -> bool {
    forall|j: int| i <= j < i + n ==> spec_digit(t[j]) is Some
}

/// The number carried by digits `[i, i + n)` of `t`.
pub open spec fn spec_digits_val(t: Seq<char>, i: int, n: int) -> int
    decreases n,
{
    if n <= 0 {
        0
    } else {
        spec_digits_val(t, i, n - 1) * 10 + spec_digit(t[i + n - 1]).unwrap_or(0)
    }
}

/// The instant carried by a literal `YYYY-MM-DDTHH:MM:SSZ`, or `None`
/// where the text is not such a literal.
pub open spec fn spec_parse_iso(t: Seq<char>) -> Option<int> {
    if t.len() == 20 && t[4] == '-' && t[7] == '-' && t[10] == 'T' && t[13] == ':' && t[16] == ':'
        && t[19] == 'Z' && spec_all_digits(t, 0, 4) && spec_all_digits(t, 5, 2) && spec_all_digits(
        t,
        8,
        2,
    ) && spec_all_digits(t, 11, 2) && spec_all_digits(t, 14, 2) && spec_all_digits(t, 17, 2) {
        let y = spec_digits_val(t, 0, 4);
        let m = spec_digits_val(t, 5, 2);
        let d = spec_digits_val(t, 8, 2);
        let h = spec_digits_val(t, 11, 2);
        let mi = spec_digits_val(t, 14, 2);
        let s = spec_digits_val(t, 17, 2);
        if spec_valid_civil(y, m, d, h, mi, s) {
            Some(spec_civil_seconds(y, m, d, h, mi, s))
        } else {
            None
        }
    } else {
        None
    }
}

/// The little-endian bytes of a 64-bit value.
pub open spec fn spec_le_bytes(x: u64) -> Seq<u8> {
    seq![
        x as u8,
        (x >> 8) as u8,
        (x >> 16) as u8,
        (x >> 24) as u8,
        (x >> 32) as u8,
        (x >> 40) as u8,
        (x >> 48) as u8,
        (x >> 56) as u8,
    ]
}

/// The 64-bit value of eight little-endian bytes.
pub open spec fn spec_le_value(b: Seq<u8>) -> u64
    recommends
        b.len() == 8,
{
    (b[0] as u64) | ((b[1] as u64) << 8) | ((b[2] as u64) << 16) | ((b[3] as u64) << 24) | ((
    b[4] as u64) << 32) | ((b[5] as u64) << 40) | ((b[6] as u64) << 48) | ((b[7] as u64) << 56)
}

/// The Base64-dialect text of an instant.
pub open spec fn spec_ts_text(t: i64) -> Seq<char> {
    b64_encode(spec_le_bytes(t as u64))
}

/// The instant carried by timestamp text in either dialect, or `None`.
pub open spec fn spec_parse_timestamp(t: Seq<char>) -> Option<i64> {
    match spec_parse_iso(t) {
        Some(s) => Some(s as i64),
        None => match b64_decode(t) {
            Some(bytes) => if bytes.len() >= 8 {
                Some(spec_le_value(bytes.take(8)) as i64)
            } else {
                None
            },
            None => None,
        },
    }
}

/// Reading eight little-endian bytes returns the value they were made of.
pub proof fn lemma_le_roundtrip(x: u64)
    ensures
        spec_le_value(spec_le_bytes(x)) == x,
{
    let b = spec_le_bytes(x);
    assert(((x as u8) as u64) | ((((x >> 8) as u8) as u64) << 8) | ((((x >> 16) as u8) as u64)
        << 16) | ((((x >> 24) as u8) as u64) << 24) | ((((x >> 32) as u8) as u64) << 32) | ((((x
        >> 40) as u8) as u64) << 40) | ((((x >> 48) as u8) as u64) << 48) | ((((x >> 56) as u8)
        as u64) << 56) == x) by (bit_vector);
}

/// The Base64 dialect decodes back to the instant it was made from, and
/// the literal dialect is never mistaken for it.
pub proof fn lemma_timestamp_roundtrip(t: i64)
    ensures
        spec_parse_timestamp(spec_ts_text(t)) == Some(t),
{
    let bytes = spec_le_bytes(t as u64);
    let s = spec_ts_text(t);
    lemma_b64_encode_len(bytes);
    assert(s.len() == 12);
    assert(spec_parse_iso(s) is None);
    lemma_b64_roundtrip(bytes);
    assert(bytes.take(8) =~= bytes);
    lemma_le_roundtrip(t as u64);
    assert(((t as u64) as i64) == t) by (bit_vector);
}

/// Both dialects of one instant decode to that instant: text in the
/// literal dialect carrying `t` and the Base64 text of `t` agree.
pub proof fn lemma_timestamp_dialects(s: Seq<char>, t: i64)
    requires
        spec_parse_iso(s) == Some(t as int),
    ensures
        spec_parse_timestamp(s) == Some(t),
        spec_parse_timestamp(spec_ts_text(t)) == Some(t),
{
    lemma_timestamp_roundtrip(t);
}

/// Powers of ten used to bound short digit runs.
pub open spec fn spec_pow10(n: int) -> int {
    if n <= 0 {
        1
    } else if n == 1 {
        10
    } else if n == 2 {
        100
    } else if n == 3 {
        1000
    } else {
        10000
    }
}

/// A run of digits is bounded by the matching power of ten.
proof fn lemma_digits_val_bound(t: Seq<char>, i: int, n: int)
    requires
        0 <= n <= 4,
        spec_all_digits(t, i, n),
    ensures
        0 <= spec_digits_val(t, i, n) < spec_pow10(n),
    decreases n,
{
    if n > 0 {
        lemma_digits_val_bound(t, i, n - 1);
    }
}

/// The number carried by digit positions `[i, i + n)`, or `None` where a
/// position holds something other than a digit.
fn digits_val(t: &str, i: usize, n: usize) -> (r: Option<u32>)
    requires
        i + n <= t@.len(),
        n <= 4,
        i <= 1000,
    ensures
        match r {
            Some(v) => spec_all_digits(t@, i as int, n as int) && v == spec_digits_val(
                t@,
                i as int,
                n as int,
            ),
            None => !spec_all_digits(t@, i as int, n as int),
        },
{
    let mut acc: u32 = 0;
    let mut j: usize = 0;
    while j < n
        invariant
            j <= n,
            n <= 4,
            i <= 1000,
            i + n <= t@.len(),
            spec_all_digits(t@, i as int, j as int),
            acc == spec_digits_val(t@, i as int, j as int),
            acc < spec_pow10(j as int),
        decreases n - j,
    {
        let c = t.get_char(i + j);
        let x = c as u32;
        if 48 <= x && x < 58 {
            acc = acc * 10 + (x - 48);
        } else {
            proof {
                assert(spec_digit(t@[i + j]) is None);
            }
            return None;
        }
        j = j + 1;
    }
    Some(acc)
}

/// Whether a year has a leap day.
pub fn is_leap(y: u32) -> (r: bool)
    ensures
        r == spec_is_leap(y as int),
{
    y % 4 == 0 && (y % 100 != 0 || y % 400 == 0)
}

/// Days in the months before month `m` of a common year.
fn days_before_month(m: u32) -> (r: u32)
    requires
        1 <= m <= 12,
    ensures
        r == spec_days_before_month(m as int),
        r <= 334,
{
    if m == 1 {
        0
    } else if m == 2 {
        31
    } else if m == 3 {
        59
    } else if m == 4 {
        90
    } else if m == 5 {
        120
    } else if m == 6 {
        151
    } else if m == 7 {
        181
    } else if m == 8 {
        212
    } else if m == 9 {
        243
    } else if m == 10 {
        273
    } else if m == 11 {
        304
    } else {
        334
    }
}

/// The number of days in a month.
pub fn days_in_month(y: u32, m: u32) -> (r: u32)
    requires
        1 <= m <= 12,
    ensures
        r == spec_days_in_month(y as int, m as int),
{
    if m == 2 {
        if is_leap(y) {
            29
        } else {
            28
        }
    } else if m == 4 || m == 6 || m == 9 || m == 11 {
        30
    } else {
        31
    }
}

/// Days from 0001-01-01 to the given calendar day.
fn days_from_year1(y: u32, m: u32, d: u32) -> (r: u32)
    requires
        1 <= y <= 9999,
        1 <= m <= 12,
        1 <= d <= 31,
    ensures
        r == spec_days_from_year1(y as int, m as int, d as int),
        r <= 3652160,
{
    let py = y - 1;
    let a = py / 4;
    let b = py / 100;
    let c = py / 400;
    proof {
        vstd::arithmetic::div_mod::lemma_div_is_ordered_by_denominator(py as int, 4, 100);
        vstd::arithmetic::div_mod::lemma_div_is_ordered(py as int, 9998, 4);
        vstd::arithmetic::div_mod::lemma_div_is_ordered(py as int, 9998, 400);
        assert(9998int / 4 == 2499);
        assert(9998int / 400 == 24);
    }
    let bm = days_before_month(m);
    let leap_adj: u32 = if is_leap(y) && m > 2 {
        1
    } else {
        0
    };
    365 * py + a - b + c + bm + leap_adj + (d - 1)
}

/// Seconds from the year-1 epoch to the given calendar second.
fn civil_seconds(y: u32, m: u32, d: u32, h: u32, mi: u32, s: u32) -> (r: i64)
    requires
        spec_valid_civil(y as int, m as int, d as int, h as int, mi as int, s as int),
    ensures
        r == spec_civil_seconds(y as int, m as int, d as int, h as int, mi as int, s as int),
{
    let days = days_from_year1(y, m, d);
    (days as i64) * 86400 + (h as i64) * 3600 + (mi as i64) * 60 + (s as i64)
}

/// The instant carried by a literal `YYYY-MM-DDTHH:MM:SSZ`, or `None`
/// where the text is not such a literal.
pub fn parse_iso_str(t: &str) -> (r: Option<i64>)
    ensures
        match r {
            Some(v) => spec_parse_iso(t@) == Some(v as int),
            None => spec_parse_iso(t@) is None,
        },
{
    let n = t.unicode_len();
    if n != 20 {
        return None;
    }
    if !(t.get_char(4) == '-' && t.get_char(7) == '-' && t.get_char(10) == 'T' && t.get_char(13)
        == ':' && t.get_char(16) == ':' && t.get_char(19) == 'Z') {
        return None;
    }
    let y = match digits_val(t, 0, 4) {
        Some(v) => v,
        None => {
            return None;
        },
    };
    let m = match digits_val(t, 5, 2) {
        Some(v) => v,
        None => {
            return None;
        },
    };
    let d = match digits_val(t, 8, 2) {
        Some(v) => v,
        None => {
            return None;
        },
    };
    let h = match digits_val(t, 11, 2) {
        Some(v) => v,
        None => {
            return None;
        },
    };
    let mi = match digits_val(t, 14, 2) {
        Some(v) => v,
        None => {
            return None;
        },
    };
    let s = match digits_val(t, 17, 2) {
        Some(v) => v,
        None => {
            return None;
        },
    };
    proof {
        lemma_digits_val_bound(t@, 0, 4);
        lemma_digits_val_bound(t@, 5, 2);
        lemma_digits_val_bound(t@, 8, 2);
        lemma_digits_val_bound(t@, 11, 2);
        lemma_digits_val_bound(t@, 14, 2);
        lemma_digits_val_bound(t@, 17, 2);
    }
    if !(1 <= y && 1 <= m && m <= 12) {
        return None;
    }
    if !(1 <= d && d <= days_in_month(y, m)) {
        return None;
    }
    if !(h < 24 && mi < 60 && s < 60) {
        return None;
    }
    Some(civil_seconds(y, m, d, h, mi, s))
}

/// The instant carried by timestamp text: the literal dialect where it
/// parses, otherwise Base64 of the little-endian second count. Fails
/// with `Base64` where the fallback text is not Base64, and with
/// `Timestamp` where it decodes to fewer than eight bytes.
pub fn parse_xml_timestamp(t: &str) -> (r: Result<Timestamp, DatabaseIntegrityError>)
    ensures
        match r {
            Ok(ts) => spec_parse_timestamp(t@) == Some(ts.seconds),
            Err(_) => spec_parse_timestamp(t@) is None,
        },
        r is Err ==> spec_parse_iso(t@) is None,
        r is Err ==> r == Err::<Timestamp, DatabaseIntegrityError>(
            if b64_decode(t@) is None {
                DatabaseIntegrityError::Base64
            } else {
                DatabaseIntegrityError::Timestamp
            },
        ),
{
    match parse_iso_str(t) {
        Some(v) => Ok(Timestamp { seconds: v }),
        None => match b64_decode_str(t) {
            None => Err(DatabaseIntegrityError::Base64),
            Some(bytes) => {
                if bytes.len() >= 8 {
                    let x = (bytes[0] as u64) | ((bytes[1] as u64) << 8) | ((bytes[2] as u64)
                        << 16) | ((bytes[3] as u64) << 24) | ((bytes[4] as u64) << 32) | ((
                    bytes[5] as u64) << 40) | ((bytes[6] as u64) << 48) | ((bytes[7] as u64)
                        << 56);
                    proof {
                        assert(bytes@.take(8) =~= bytes@.subrange(0, 8));
                        assert(spec_le_value(bytes@.take(8)) == x);
                    }
                    Ok(Timestamp { seconds: x as i64 })
                } else {
                    Err(DatabaseIntegrityError::Timestamp)
                }
            },
        },
    }
}

/// The Base64-dialect text of an instant, as the encoder emits it.
pub fn timestamp_text(t: &Timestamp) -> (r: String)
    ensures
        r@ == spec_ts_text(t.seconds),
{
    let x = t.seconds as u64;
    let bytes: Vec<u8> = vec![
        x as u8,
        (x >> 8) as u8,
        (x >> 16) as u8,
        (x >> 24) as u8,
        (x >> 32) as u8,
        (x >> 40) as u8,
        (x >> 48) as u8,
        (x >> 56) as u8,
    ];
    proof {
        assert(bytes@ =~= spec_le_bytes(x));
    }
    b64_encode_bytes(bytes.as_slice())
}

} // verus!
