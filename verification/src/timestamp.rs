//! The timestamp codec: a creation moment with its local UTC offset,
//! stored as a canonical, sortable, round-trippable piece of text of the
//! shape `YYYY-MM-DDThh:mm:ss+HH:MM`.
use vstd::prelude::*;
use vstd::arithmetic::div_mod::{lemma_fundamental_div_mod, lemma_fundamental_div_mod_converse};

use crate::errors::MemoError;

verus! {

/// A wall-clock instant together with the UTC offset that was in force
/// where and when it was taken. Second precision; the offset is kept in
/// minutes, as the textual form carries it.
#[derive(Clone, Copy, Debug, PartialEq, Eq, Structural)]
pub struct Timestamp {
    pub year: u32,
    pub month: u32,
    pub day: u32,
    pub hour: u32,
    pub minute: u32,
    pub second: u32,
    pub offset_minutes: i32,
}

pub open spec fn is_leap_year(y: int) -> bool {
    y % 4 == 0 && (y % 100 != 0 || y % 400 == 0)
}

pub open spec fn days_in_month(y: int, m: int) -> int {
    if m == 2 {
        if is_leap_year(y) {
            29
        } else {
            28
        }
    } else if m == 4 || m == 6 || m == 9 || m == 11 {
        30
    } else {
        31
    }
}

impl Timestamp {
    /// A real calendar moment that the textual form can carry: a proleptic
    /// Gregorian date with a four-digit year, a time of day, and an offset
    /// below one day in magnitude, whole minutes.
    pub open spec fn valid(self) -> bool {
        &&& self.year <= 9999
        &&& 1 <= self.month <= 12
        &&& 1 <= self.day && self.day as int <= days_in_month(
            self.year as int,
            self.month as int,
        )
        &&& self.hour <= 23
        &&& self.minute <= 59
        &&& self.second <= 59
        &&& -1439 <= self.offset_minutes <= 1439
    }
}

pub open spec fn is_digit(c: char) -> bool {
    48 <= c as int && c as int <= 57
}

pub open spec fn digit_val(c: char) -> int {
    c as int - 48
}

pub open spec fn digit_char(d: int) -> char {
    if d == 0 {
        '0'
    } else if d == 1 {
        '1'
    } else if d == 2 {
        '2'
    } else if d == 3 {
        '3'
    } else if d == 4 {
        '4'
    } else if d == 5 {
        '5'
    } else if d == 6 {
        '6'
    } else if d == 7 {
        '7'
    } else if d == 8 {
        '8'
    } else {
        '9'
    }
}

proof fn lemma_digit_char_val(d: int)
    requires
        0 <= d <= 9,
    ensures
        is_digit(digit_char(d)),
        digit_val(digit_char(d)) == d,
{
}

proof fn lemma_digit_val_char(c: char)
    requires
        is_digit(c),
    ensures
        0 <= digit_val(c) <= 9,
        digit_char(digit_val(c)) == c,
{
}

/// The two zero-padded decimal digits of a value below one hundred.
pub open spec fn two_dig(n: int) -> Seq<char>
    recommends
        0 <= n <= 99,
{
    seq![digit_char(n / 10), digit_char(n % 10)]
}

pub open spec fn offset_magnitude(t: Timestamp) -> int {
    if t.offset_minutes >= 0 {
        t.offset_minutes as int
    } else {
        -(t.offset_minutes as int)
    }
}

pub open spec fn offset_sign(t: Timestamp) -> char {
    if t.offset_minutes >= 0 {
        '+'
    } else {
        '-'
    }
}

/// The canonical textual form: `YYYY-MM-DDThh:mm:ss+HH:MM`, 25 characters,
/// every numeric field zero-padded, the offset signed (`+` for zero).
pub open spec fn encode_spec(t: Timestamp) -> Seq<char>
    recommends
        t.valid(),
{
    two_dig(t.year as int / 100) + two_dig(t.year as int % 100) + seq!['-'] + two_dig(
        t.month as int,
    ) + seq!['-'] + two_dig(t.day as int) + seq!['T'] + two_dig(t.hour as int) + seq![':']
        + two_dig(t.minute as int) + seq![':'] + two_dig(t.second as int) + seq![offset_sign(t)]
        + two_dig(offset_magnitude(t) / 60) + seq![':'] + two_dig(offset_magnitude(t) % 60)
}

/// The value of the two digits starting at position `i`.
pub open spec fn dv2(s: Seq<char>, i: int) -> int {
    10 * digit_val(s[i]) + digit_val(s[i + 1])
}

/// The string has the shape of the canonical form: right length, digits and
/// separators in their places.
pub open spec fn shape_ok(s: Seq<char>) -> bool {
    &&& s.len() == 25
    &&& is_digit(s[0]) && is_digit(s[1]) && is_digit(s[2]) && is_digit(s[3])
    &&& s[4] == '-' && is_digit(s[5]) && is_digit(s[6])
    &&& s[7] == '-' && is_digit(s[8]) && is_digit(s[9])
    &&& s[10] == 'T' && is_digit(s[11]) && is_digit(s[12])
    &&& s[13] == ':' && is_digit(s[14]) && is_digit(s[15])
    &&& s[16] == ':' && is_digit(s[17]) && is_digit(s[18])
    &&& (s[19] == '+' || s[19] == '-')
    &&& is_digit(s[20]) && is_digit(s[21]) && s[22] == ':' && is_digit(s[23]) && is_digit(s[24])
}

/// The instant that a well-shaped string denotes.
pub open spec fn parsed(s: Seq<char>) -> Timestamp
    recommends
        shape_ok(s),
{
    Timestamp {
        year: (100 * dv2(s, 0) + dv2(s, 2)) as u32,
        month: dv2(s, 5) as u32,
        day: dv2(s, 8) as u32,
        hour: dv2(s, 11) as u32,
        minute: dv2(s, 14) as u32,
        second: dv2(s, 17) as u32,
        offset_minutes: (if s[19] == '+' {
            60 * dv2(s, 20) + dv2(s, 23)
        } else {
            -(60 * dv2(s, 20) + dv2(s, 23))
        }) as i32,
    }
}

/// A well-shaped string whose fields are in range and whose offset is
/// written canonically (hours and minutes in range, no negative zero).
pub open spec fn canonical_ok(s: Seq<char>) -> bool {
    &&& shape_ok(s)
    &&& parsed(s).valid()
    &&& dv2(s, 20) <= 23
    &&& dv2(s, 23) <= 59
    &&& (s[19] == '-' ==> 60 * dv2(s, 20) + dv2(s, 23) > 0)
}

/// What decoding a stored string yields: the denoted instant for exactly
/// the canonical encodings, nothing for every other string.
pub open spec fn decode_spec(s: Seq<char>) -> Option<Timestamp> {
    if canonical_ok(s) {
        Some(parsed(s))
    } else {
        None
    }
}

/// Each character of the canonical encoding, by position.
proof fn lemma_encode_chars(t: Timestamp)
    requires
        t.valid(),
    ensures
        ({
            let s = encode_spec(t);
            &&& s.len() == 25
            &&& s[0] == digit_char((t.year as int / 100) / 10)
            &&& s[1] == digit_char((t.year as int / 100) % 10)
            &&& s[2] == digit_char((t.year as int % 100) / 10)
            &&& s[3] == digit_char((t.year as int % 100) % 10)
            &&& s[4] == '-'
            &&& s[5] == digit_char(t.month as int / 10)
            &&& s[6] == digit_char(t.month as int % 10)
            &&& s[7] == '-'
            &&& s[8] == digit_char(t.day as int / 10)
            &&& s[9] == digit_char(t.day as int % 10)
            &&& s[10] == 'T'
            &&& s[11] == digit_char(t.hour as int / 10)
            &&& s[12] == digit_char(t.hour as int % 10)
            &&& s[13] == ':'
            &&& s[14] == digit_char(t.minute as int / 10)
            &&& s[15] == digit_char(t.minute as int % 10)
            &&& s[16] == ':'
            &&& s[17] == digit_char(t.second as int / 10)
            &&& s[18] == digit_char(t.second as int % 10)
            &&& s[19] == offset_sign(t)
            &&& s[20] == digit_char((offset_magnitude(t) / 60) / 10)
            &&& s[21] == digit_char((offset_magnitude(t) / 60) % 10)
            &&& s[22] == ':'
            &&& s[23] == digit_char((offset_magnitude(t) % 60) / 10)
            &&& s[24] == digit_char((offset_magnitude(t) % 60) % 10)
        }),
{
}

/// Reading back the two digits written for a value below one hundred
/// recovers the value.
proof fn lemma_two_dig_val(n: int)
    requires
        0 <= n <= 99,
    ensures
        is_digit(digit_char(n / 10)),
        is_digit(digit_char(n % 10)),
        10 * digit_val(digit_char(n / 10)) + digit_val(digit_char(n % 10)) == n,
{
    lemma_fundamental_div_mod(n, 10);
    lemma_digit_char_val(n / 10);
    lemma_digit_char_val(n % 10);
}

/// Decoding inverts encoding: every valid instant is recovered, offset
/// included, from its canonical textual form.
#[verifier::rlimit(60)]
pub proof fn lemma_codec_round_trip(t: Timestamp)
    requires
        t.valid(),
    ensures
        decode_spec(encode_spec(t)) == Some(t),
{
    let s = encode_spec(t);
    let y = t.year as int;
    let mag = offset_magnitude(t);
    lemma_encode_chars(t);
    lemma_fundamental_div_mod(y, 100);
    lemma_fundamental_div_mod(mag, 60);
    lemma_two_dig_val(y / 100);
    lemma_two_dig_val(y % 100);
    lemma_two_dig_val(t.month as int);
    lemma_two_dig_val(t.day as int);
    lemma_two_dig_val(t.hour as int);
    lemma_two_dig_val(t.minute as int);
    lemma_two_dig_val(t.second as int);
    lemma_two_dig_val(mag / 60);
    lemma_two_dig_val(mag % 60);
    assert(dv2(s, 0) == y / 100);
    assert(dv2(s, 2) == y % 100);
    assert(100 * dv2(s, 0) + dv2(s, 2) == y);
    assert(dv2(s, 20) == mag / 60);
    assert(dv2(s, 23) == mag % 60);
    assert(60 * dv2(s, 20) + dv2(s, 23) == mag);
    assert(shape_ok(s));
    assert(parsed(s) == t);
    assert(canonical_ok(s));
}

/// Decoding is strict: it accepts nothing but canonical encodings, so a
/// successful decode pins the string down to `encode_spec` of its result.
pub proof fn lemma_decode_canonical(s: Seq<char>, t: Timestamp)
    requires
        decode_spec(s) == Some(t),
    ensures
        t.valid(),
        encode_spec(t) == s,
{
    assert(canonical_ok(s));
    assert(t == parsed(s));
    let yv = 100 * dv2(s, 0) + dv2(s, 2);
    let magv = 60 * dv2(s, 20) + dv2(s, 23);
    assert(t.year as int == yv);
    assert(offset_magnitude(t) == magv);
    lemma_fundamental_div_mod_converse(yv, 100, dv2(s, 0), dv2(s, 2));
    lemma_fundamental_div_mod_converse(magv, 60, dv2(s, 20), dv2(s, 23));
    lemma_fundamental_div_mod_converse(dv2(s, 0), 10, digit_val(s[0]), digit_val(s[1]));
    lemma_fundamental_div_mod_converse(dv2(s, 2), 10, digit_val(s[2]), digit_val(s[3]));
    lemma_fundamental_div_mod_converse(dv2(s, 5), 10, digit_val(s[5]), digit_val(s[6]));
    lemma_fundamental_div_mod_converse(dv2(s, 8), 10, digit_val(s[8]), digit_val(s[9]));
    lemma_fundamental_div_mod_converse(dv2(s, 11), 10, digit_val(s[11]), digit_val(s[12]));
    lemma_fundamental_div_mod_converse(dv2(s, 14), 10, digit_val(s[14]), digit_val(s[15]));
    lemma_fundamental_div_mod_converse(dv2(s, 17), 10, digit_val(s[17]), digit_val(s[18]));
    lemma_fundamental_div_mod_converse(dv2(s, 20), 10, digit_val(s[20]), digit_val(s[21]));
    lemma_fundamental_div_mod_converse(dv2(s, 23), 10, digit_val(s[23]), digit_val(s[24]));
    lemma_digit_val_char(s[0]);
    lemma_digit_val_char(s[1]);
    lemma_digit_val_char(s[2]);
    lemma_digit_val_char(s[3]);
    lemma_digit_val_char(s[5]);
    lemma_digit_val_char(s[6]);
    lemma_digit_val_char(s[8]);
    lemma_digit_val_char(s[9]);
    lemma_digit_val_char(s[11]);
    lemma_digit_val_char(s[12]);
    lemma_digit_val_char(s[14]);
    lemma_digit_val_char(s[15]);
    lemma_digit_val_char(s[17]);
    lemma_digit_val_char(s[18]);
    lemma_digit_val_char(s[20]);
    lemma_digit_val_char(s[21]);
    lemma_digit_val_char(s[23]);
    lemma_digit_val_char(s[24]);
    assert(offset_sign(t) == s[19]);
    assert(encode_spec(t) =~= s);
}

fn digit_char_exec(d: u32) -> (r: char)
    requires
        d <= 9,
    ensures
        r == digit_char(d as int),
{
    if d == 0 {
        '0'
    } else if d == 1 {
        '1'
    } else if d == 2 {
        '2'
    } else if d == 3 {
        '3'
    } else if d == 4 {
        '4'
    } else if d == 5 {
        '5'
    } else if d == 6 {
        '6'
    } else if d == 7 {
        '7'
    } else if d == 8 {
        '8'
    } else {
        '9'
    }
}

fn push_two_dig(v: &mut Vec<char>, n: u32)
    requires
        n <= 99,
    ensures
        final(v)@ == old(v)@ + two_dig(n as int),
{
    v.push(digit_char_exec(n / 10));
    v.push(digit_char_exec(n % 10));
    proof {
        assert(v@ =~= old(v)@ + two_dig(n as int));
    }
}

/// Write a valid instant in its canonical 25-character textual form.
pub fn encode_timestamp(t: &Timestamp) -> (r: Vec<char>)
    requires
        t.valid(),
    ensures
        r@ == encode_spec(*t),
{
    let mut v: Vec<char> = Vec::new();
    push_two_dig(&mut v, t.year / 100);
    push_two_dig(&mut v, t.year % 100);
    v.push('-');
    push_two_dig(&mut v, t.month);
    v.push('-');
    push_two_dig(&mut v, t.day);
    v.push('T');
    push_two_dig(&mut v, t.hour);
    v.push(':');
    push_two_dig(&mut v, t.minute);
    v.push(':');
    push_two_dig(&mut v, t.second);
    let om = t.offset_minutes;
    let sign: char = if om >= 0 {
        '+'
    } else {
        '-'
    };
    let mag: u32 = if om >= 0 {
        om as u32
    } else {
        (-om) as u32
    };
    v.push(sign);
    push_two_dig(&mut v, mag / 60);
    v.push(':');
    push_two_dig(&mut v, mag % 60);
    proof {
        assert(mag as int == offset_magnitude(*t));
        assert(sign == offset_sign(*t));
        assert(v@ =~= encode_spec(*t));
    }
    v
}

/// The value of one decimal digit character, or nothing for any other
/// character.
fn digit_of(c: char) -> (r: Option<u32>)
    ensures
        match r {
            Some(d) => is_digit(c) && d <= 9 && d as int == digit_val(c),
            None => !is_digit(c),
        },
{
    let u = c as u32;
    if 48 <= u && u <= 57 {
        Some(u - 48)
    } else {
        None
    }
}

/// The value of a pair of digit characters, or nothing if either is no
/// digit.
fn two_digit_val(a: char, b: char) -> (r: Option<u32>)
    ensures
        match r {
            Some(n) => is_digit(a) && is_digit(b) && n <= 99 && n as int == 10 * digit_val(a)
                + digit_val(b),
            None => !(is_digit(a) && is_digit(b)),
        },
{
    let hi = match digit_of(a) {
        Some(d) => d,
        None => {
            return None;
        },
    };
    let lo = match digit_of(b) {
        Some(d) => d,
        None => {
            return None;
        },
    };
    Some(10 * hi + lo)
}

fn days_in_month_exec(y: u32, m: u32) -> (r: u32)
    requires
        1 <= m <= 12,
    ensures
        r as int == days_in_month(y as int, m as int),
{
    if m == 2 {
        if y % 4 == 0 && (y % 100 != 0 || y % 400 == 0) {
            29
        } else {
            28
        }
    } else if m == 4 || m == 6 || m == 9 || m == 11 {
        30
    } else {
        31
    }
}

/// Read a stored timestamp string back into the instant it denotes.
/// Exactly the canonical encodings are accepted; any other string is
/// reported as a decode failure.
#[verifier::rlimit(60)]
pub fn decode_timestamp(s: &Vec<char>) -> (r: Result<Timestamp, MemoError>)
    ensures
        match r {
            Ok(t) => decode_spec(s@) == Some(t),
            Err(e) => e == MemoError::TimestampDecodeError && decode_spec(s@) is None,
        },
{
    if s.len() != 25 {
        return Err(MemoError::TimestampDecodeError);
    }
    if !(s[4] == '-' && s[7] == '-' && s[10] == 'T' && s[13] == ':' && s[16] == ':' && s[22]
        == ':') {
        return Err(MemoError::TimestampDecodeError);
    }
    let sign = s[19];
    if !(sign == '+' || sign == '-') {
        return Err(MemoError::TimestampDecodeError);
    }
    let y_hi = match two_digit_val(s[0], s[1]) {
        Some(n) => n,
        None => {
            return Err(MemoError::TimestampDecodeError);
        },
    };
    let y_lo = match two_digit_val(s[2], s[3]) {
        Some(n) => n,
        None => {
            return Err(MemoError::TimestampDecodeError);
        },
    };
    let month = match two_digit_val(s[5], s[6]) {
        Some(n) => n,
        None => {
            return Err(MemoError::TimestampDecodeError);
        },
    };
    let day = match two_digit_val(s[8], s[9]) {
        Some(n) => n,
        None => {
            return Err(MemoError::TimestampDecodeError);
        },
    };
    let hour = match two_digit_val(s[11], s[12]) {
        Some(n) => n,
        None => {
            return Err(MemoError::TimestampDecodeError);
        },
    };
    let minute = match two_digit_val(s[14], s[15]) {
        Some(n) => n,
        None => {
            return Err(MemoError::TimestampDecodeError);
        },
    };
    let second = match two_digit_val(s[17], s[18]) {
        Some(n) => n,
        None => {
            return Err(MemoError::TimestampDecodeError);
        },
    };
    let off_h = match two_digit_val(s[20], s[21]) {
        Some(n) => n,
        None => {
            return Err(MemoError::TimestampDecodeError);
        },
    };
    let off_m = match two_digit_val(s[23], s[24]) {
        Some(n) => n,
        None => {
            return Err(MemoError::TimestampDecodeError);
        },
    };
    let year = 100 * y_hi + y_lo;
    let mag = 60 * off_h + off_m;
    if !(1 <= month && month <= 12) {
        return Err(MemoError::TimestampDecodeError);
    }
    if !(1 <= day && day <= days_in_month_exec(year, month)) {
        return Err(MemoError::TimestampDecodeError);
    }
    if !(hour <= 23 && minute <= 59 && second <= 59 && off_h <= 23 && off_m <= 59) {
        return Err(MemoError::TimestampDecodeError);
    }
    if sign == '-' && mag == 0 {
        return Err(MemoError::TimestampDecodeError);
    }
    let off: i32 = if sign == '+' {
        mag as i32
    } else {
        -(mag as i32)
    };
    let t = Timestamp { year, month, day, hour, minute, second, offset_minutes: off };
    proof {
        assert(shape_ok(s@));
        assert(parsed(s@) == t);
        assert(canonical_ok(s@));
    }
    Ok(t)
}

/// Relies on chrono's `Local::now` with the `Datelike` and `Timelike`
/// accessors and `FixedOffset::local_minus_utc`: the moment's date is a real
/// calendar date, month, day, hour, minute and second lie in their
/// documented ranges, and the offset is strictly below one day of seconds.
/// The year carries no promise. Relies also on the system clock lying in
/// chrono's representable range: `Local::now` panics on a clock before the
/// Unix epoch or beyond chrono's years, an environment degeneracy that no
/// precondition can exclude.
#[verifier::external_body]
fn now_parts() -> (r: (i32, u32, u32, u32, u32, u32, i32))
    ensures
        1 <= r.1 <= 12,
        1 <= r.2 && r.2 as int <= days_in_month(r.0 as int, r.1 as int),
        r.3 <= 23,
        r.4 <= 59,
        r.5 <= 59,
        -86400 < r.6 < 86400,
{
    let now = chrono::Local::now();
    (
        chrono::Datelike::year(&now),
        chrono::Datelike::month(&now),
        chrono::Datelike::day(&now),
        chrono::Timelike::hour(&now),
        chrono::Timelike::minute(&now),
        chrono::Timelike::second(&now),
        now.offset().local_minus_utc(),
    )
}

/// A zone offset in seconds reduced to whole minutes, the sub-minute part
/// truncated toward zero.
pub open spec fn offset_minutes_of(off_secs: int) -> int {
    if off_secs >= 0 {
        off_secs / 60
    } else {
        -((-off_secs) / 60)
    }
}

/// Build the timestamp for a drawn clock moment: exactly the given parts,
/// the offset reduced to whole minutes, whenever the year fits the
/// four-digit textual form; nothing for any other year.
pub fn timestamp_from_parts(
    y: i32,
    mo: u32,
    d: u32,
    h: u32,
    mi: u32,
    s: u32,
    off_secs: i32,
) -> (r: Option<Timestamp>)
    requires
        1 <= mo <= 12,
        1 <= d && d as int <= days_in_month(y as int, mo as int),
        h <= 23,
        mi <= 59,
        s <= 59,
        -86400 < off_secs < 86400,
    ensures
        r is Some <==> 0 <= y <= 9999,
        match r {
            Some(t) => t == (Timestamp {
                year: y as u32,
                month: mo,
                day: d,
                hour: h,
                minute: mi,
                second: s,
                offset_minutes: offset_minutes_of(off_secs as int) as i32,
            }) && t.valid(),
            None => true,
        },
{
    if 0 <= y && y <= 9999 {
        let mag: u32 = if off_secs >= 0 {
            off_secs as u32
        } else {
            (-off_secs) as u32
        };
        let m = mag / 60;
        let om: i32 = if off_secs >= 0 {
            m as i32
        } else {
            -(m as i32)
        };
        proof {
            assert(om as int == offset_minutes_of(off_secs as int));
        }
        Some(
            Timestamp {
                year: y as u32,
                month: mo,
                day: d,
                hour: h,
                minute: mi,
                second: s,
                offset_minutes: om,
            },
        )
    } else {
        None
    }
}

/// The present local moment, as `timestamp_from_parts` makes of the drawn
/// clock parts: nothing only for a year outside the four-digit range.
pub fn now_local() -> (r: Option<Timestamp>)
    ensures
        match r {
            Some(t) => t.valid(),
            None => true,
        },
{
    let (y, mo, d, h, mi, s, off) = now_parts();
    timestamp_from_parts(y, mo, d, h, mi, s, off)
}

} // verus!
