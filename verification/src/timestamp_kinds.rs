//! The format catalog: the timestamp conventions a log line can carry, each
//! as a pattern over bytes together with the rule turning a match into an
//! absolute timestamp.
//!
//! The catalog order is a correctness invariant: more specific patterns stand
//! before more general ones, because a general pattern can spuriously match
//! inside a longer timestamp. A pattern match whose fields fail validation
//! (a day outside its month, an hour over 23, an offset out of range) counts
//! as no match at all.

use vstd::prelude::*;
use crate::Timestamp;
use crate::scan::{
    blank_run_end, digit_run_end, digits_between, digits_in, is_word_byte, lemma_digit_run_props,
    lemma_num_val_bound, num_val, parse_num, pow10, scan_blanks, scan_digits, scan_ws, ws_run_end,
};
use crate::timestamp::{
    civil_micros, month_length, timestamp_from_civil, valid_hms, valid_ymd, MAX_CONTEXT_YEAR,
    MIN_CONTEXT_YEAR,
};

verus! {

/// The timestamp conventions of the catalog, in priority order:
/// - `MonthNameNoYear`: `Apr  6 17:13:40` (year taken from the date context)
/// - `IsoOffsetBasic`: `2018-12-15T02:11:06+0200`
/// - `IsoFracOffset`: `2018-12-15T02:11:06.123456+02:00`
/// - `DateTimeMillis`: `2018-04-06 17:13:40,955`, with an optional leading
///   token (digits plus whitespace, or `[`)
/// - `IsoFracZulu`: `2025-02-25T00:20:58.907788Z`
/// - `DateTimeMicros`: as `DateTimeMillis` with six fractional digits
/// - `TimeOnly`: a bare `HH:MM:SS[.ffffff]` anywhere after a word boundary
///   (date taken from the date context)
#[derive(Clone, Copy, PartialEq, Eq, Structural, Debug)]
pub enum FormatId {
    MonthNameNoYear,
    IsoOffsetBasic,
    IsoFracOffset,
    DateTimeMillis,
    IsoFracZulu,
    DateTimeMicros,
    TimeOnly,
}

/// One timestamp format: its pattern identity and the date context captured
/// when the catalog was built, for conventions whose text omits the date.
#[derive(Clone, Copy, PartialEq, Eq, Structural, Debug)]
pub struct TimestampKind {
    pub fmt: FormatId,
    pub year: i64,
    pub month: u64,
    pub day: u64,
}

/// A separator byte of the date part: `-`, or also `/` for the flexible
/// patterns.
pub open spec fn sep_ok(c: u8, flex: bool) -> bool {
    c == 45 || (flex && c == 47)
}

/// The byte between date and time: `T`, or also a space for the flexible
/// patterns.
pub open spec fn mid_ok(c: u8, flex: bool) -> bool {
    c == 84 || (flex && c == 32)
}

/// A full `YYYY-MM-DD{T}HH:MM:SS` shape, 19 bytes starting at `g`.
pub open spec fn dt_shape(s: Seq<u8>, g: int, flex: bool) -> bool {
    &&& 0 <= g
    &&& g + 19 <= s.len()
    &&& digits_in(s, g, g + 4)
    &&& sep_ok(s[g + 4], flex)
    &&& digits_in(s, g + 5, g + 7)
    &&& sep_ok(s[g + 7], flex)
    &&& digits_in(s, g + 8, g + 10)
    &&& mid_ok(s[g + 10], flex)
    &&& digits_in(s, g + 11, g + 13)
    &&& s[g + 13] == 58
    &&& digits_in(s, g + 14, g + 16)
    &&& s[g + 16] == 58
    &&& digits_in(s, g + 17, g + 19)
}

/// The result of a matched pattern: the timestamp if every field is in
/// range, otherwise no match.
pub open spec fn civil_result(
    y: int,
    mo: int,
    d: int,
    h: int,
    mi: int,
    sec: int,
    frac: int,
    off: int,
) -> Option<int> {
    if valid_ymd(y, mo, d) && valid_hms(h, mi, sec) {
        Some(civil_micros(y, mo, d, h, mi, sec, frac, off))
    } else {
        None
    }
}

/// The value of a `dt_shape` match at `g`, given fractional microseconds and
/// an offset east of UTC in seconds.
pub open spec fn dt_value(s: Seq<u8>, g: int, frac: int, off: int) -> Option<int> {
    civil_result(
        num_val(s, g, g + 4),
        num_val(s, g + 5, g + 7),
        num_val(s, g + 8, g + 10),
        num_val(s, g + 11, g + 13),
        num_val(s, g + 14, g + 16),
        num_val(s, g + 17, g + 19),
        frac,
        off,
    )
}

/// `IsoOffsetBasic`: a strict date-time shape at the line start followed by
/// `+HHMM`. Offset minutes above 59, or a whole offset of a day or more,
/// fail validation.
pub open spec fn iso_offset_basic_spec(s: Seq<u8>) -> Option<int> {
    if dt_shape(s, 0, false) && s.len() >= 24 && s[19] == 43 && digits_in(s, 20, 24) {
        let oh = num_val(s, 20, 22);
        let om = num_val(s, 22, 24);
        if om <= 59 && oh * 3600 + om * 60 < 86400 {
            dt_value(s, 0, 0, oh * 3600 + om * 60)
        } else {
            None
        }
    } else {
        None
    }
}

/// `IsoFracOffset`: a strict date-time shape, at least six fractional
/// digits (the first six kept, the rest dropped), then `+HH:MM`.
pub open spec fn iso_frac_offset_spec(s: Seq<u8>) -> Option<int> {
    if dt_shape(s, 0, false) && s.len() >= 26 && (s[19] == 46 || s[19] == 44) && digits_in(
        s,
        20,
        26,
    ) {
        let k = digit_run_end(s, 26);
        if k + 6 <= s.len() && s[k] == 43 && digits_in(s, k + 1, k + 3) && s[k + 3] == 58
            && digits_in(s, k + 4, k + 6) {
            let oh = num_val(s, k + 1, k + 3);
            let om = num_val(s, k + 4, k + 6);
            if om <= 59 && oh * 3600 + om * 60 < 86400 {
                dt_value(s, 0, num_val(s, 20, 26), oh * 3600 + om * 60)
            } else {
                None
            }
        } else {
            None
        }
    } else {
        None
    }
}

/// `IsoFracZulu`: a strict date-time shape, a dot, at least six fractional
/// digits, then `Z`.
pub open spec fn iso_frac_zulu_spec(s: Seq<u8>) -> Option<int> {
    if dt_shape(s, 0, false) && s.len() >= 26 && s[19] == 46 && digits_in(s, 20, 26) {
        let k = digit_run_end(s, 26);
        if k < s.len() && s[k] == 90 {
            dt_value(s, 0, num_val(s, 20, 26), 0)
        } else {
            None
        }
    } else {
        None
    }
}

/// Where the date-time shape of the flexible patterns starts: after a
/// leading token of digits plus whitespace, after a leading `[`, or at the
/// line start, the first of these that carries the shape.
pub open spec fn prefix_pos(s: Seq<u8>) -> Option<int> {
    let j = digit_run_end(s, 0);
    let w = ws_run_end(s, j);
    if j >= 1 && w > j && dt_shape(s, w, true) {
        Some(w)
    } else if s.len() >= 1 && s[0] == 91 && dt_shape(s, 1, true) {
        Some(1)
    } else if dt_shape(s, 0, true) {
        Some(0)
    } else {
        None
    }
}

/// `DateTimeMillis` (`fl == 3`, `mult == 1000`) and `DateTimeMicros`
/// (`fl == 6`, `mult == 1`). The pattern accepts `/` separators and a `T`,
/// but only the plain `-` and space forms survive field validation, so those
/// variants count as no match. A `.` or `,` followed by exactly `fl`
/// fractional digits contributes; otherwise the fraction is zero.
pub open spec fn date_time_spec(s: Seq<u8>, fl: int, mult: int) -> Option<int> {
    match prefix_pos(s) {
        None => None,
        Some(g) => {
            if s[g + 4] == 45 && s[g + 7] == 45 && s[g + 10] == 32 {
                let e = g + 19;
                let frac = if e < s.len() && (s[e] == 46 || s[e] == 44) && e + 1 + fl <= s.len()
                    && digits_in(s, e + 1, e + 1 + fl) {
                    num_val(s, e + 1, e + 1 + fl) * mult
                } else {
                    0
                };
                dt_value(s, g, frac, 0)
            } else {
                None
            }
        },
    }
}

/// The lower-case image of an ASCII letter; other bytes unchanged.
pub open spec fn lower_byte(c: u8) -> u8 {
    if 65 <= c <= 90 {
        (c + 32) as u8
    } else {
        c
    }
}

/// The month number of a three-letter month name, compared without case;
/// zero when the bytes name no month.
pub open spec fn month_num(a: u8, b: u8, c: u8) -> int {
    let x = lower_byte(a);
    let y = lower_byte(b);
    let z = lower_byte(c);
    if x == 106 && y == 97 && z == 110 {
        1
    } else if x == 102 && y == 101 && z == 98 {
        2
    } else if x == 109 && y == 97 && z == 114 {
        3
    } else if x == 97 && y == 112 && z == 114 {
        4
    } else if x == 109 && y == 97 && z == 121 {
        5
    } else if x == 106 && y == 117 && z == 110 {
        6
    } else if x == 106 && y == 117 && z == 108 {
        7
    } else if x == 97 && y == 117 && z == 103 {
        8
    } else if x == 115 && y == 101 && z == 112 {
        9
    } else if x == 111 && y == 99 && z == 116 {
        10
    } else if x == 110 && y == 111 && z == 118 {
        11
    } else if x == 100 && y == 101 && z == 99 {
        12
    } else {
        0
    }
}

/// `MonthNameNoYear`: three word bytes, spaces, a day number, spaces, then
/// `H:M:S` with runs of digits, anchored at the line start. The word bytes
/// must name a month, and each numeric run may hold at most two digits;
/// the year comes from the date context.
pub open spec fn month_name_spec(s: Seq<u8>, year: int) -> Option<int> {
    if s.len() >= 3 && is_word_byte(s[0]) && is_word_byte(s[1]) && is_word_byte(s[2]) {
        let a = blank_run_end(s, 3);
        let db = digit_run_end(s, a);
        let b = blank_run_end(s, db);
        let he = digit_run_end(s, b);
        if a > 3 && db > a && b > db && he > b && he < s.len() && s[he] == 58 {
            let me = digit_run_end(s, he + 1);
            if me > he + 1 && me < s.len() && s[me] == 58 {
                let se = digit_run_end(s, me + 1);
                if se > me + 1 {
                    let mo = month_num(s[0], s[1], s[2]);
                    if mo >= 1 && db - a <= 2 && he - b <= 2 && me - he - 1 <= 2 && se - me - 1
                        <= 2 {
                        civil_result(
                            year,
                            mo,
                            num_val(s, a, db),
                            num_val(s, b, he),
                            num_val(s, he + 1, me),
                            num_val(s, me + 1, se),
                            0,
                            0,
                        )
                    } else {
                        None
                    }
                } else {
                    None
                }
            } else {
                None
            }
        } else {
            None
        }
    } else {
        None
    }
}

/// A bare `HH:MM:SS` at `i`, with a word boundary just before it.
pub open spec fn time_shape_at(s: Seq<u8>, i: int) -> bool {
    &&& 0 <= i
    &&& i + 8 <= s.len()
    &&& (i == 0 || !is_word_byte(s[i - 1]))
    &&& digits_in(s, i, i + 2)
    &&& s[i + 2] == 58
    &&& digits_in(s, i + 3, i + 5)
    &&& s[i + 5] == 58
    &&& digits_in(s, i + 6, i + 8)
}

/// The leftmost position at or after `i` where the bare time shape stands.
pub open spec fn time_find(s: Seq<u8>, i: int) -> Option<int>
    recommends
        0 <= i,
    decreases s.len() - i,
{
    if i + 8 > s.len() {
        None
    } else if time_shape_at(s, i) {
        Some(i)
    } else {
        time_find(s, i + 1)
    }
}

/// `TimeOnly`: the leftmost bare time in the line, with an optional dot and
/// exactly six fractional digits; the date comes from the date context. Only
/// the leftmost position counts: if its fields fail validation, the whole
/// pattern yields no match.
pub open spec fn time_only_spec(s: Seq<u8>, year: int, month: int, day: int) -> Option<int> {
    match time_find(s, 0) {
        None => None,
        Some(i) => {
            let frac = if i + 15 <= s.len() && s[i + 8] == 46 && digits_in(s, i + 9, i + 15) {
                num_val(s, i + 9, i + 15)
            } else {
                0
            };
            civil_result(
                year,
                month,
                day,
                num_val(s, i, i + 2),
                num_val(s, i + 3, i + 5),
                num_val(s, i + 6, i + 8),
                frac,
                0,
            )
        },
    }
}

impl TimestampKind {
    /// The date context is sound: the year is one a calendar date can
    /// carry, month and day are in range.
    pub open spec fn wf(self) -> bool {
        &&& MIN_CONTEXT_YEAR <= self.year <= MAX_CONTEXT_YEAR
        &&& 1 <= self.month <= 12
        &&& 1 <= self.day <= 31
    }

    /// What this format yields on a line.
    pub open spec fn spec_parse(self, s: Seq<u8>) -> Option<int> {
        match self.fmt {
            FormatId::MonthNameNoYear => month_name_spec(s, self.year as int),
            FormatId::IsoOffsetBasic => iso_offset_basic_spec(s),
            FormatId::IsoFracOffset => iso_frac_offset_spec(s),
            FormatId::DateTimeMillis => date_time_spec(s, 3, 1000),
            FormatId::IsoFracZulu => iso_frac_zulu_spec(s),
            FormatId::DateTimeMicros => date_time_spec(s, 6, 1),
            FormatId::TimeOnly => time_only_spec(
                s,
                self.year as int,
                self.month as int,
                self.day as int,
            ),
        }
    }

    pub fn new(fmt: FormatId, year: i64, month: u64, day: u64) -> (r: Self)
        requires
            MIN_CONTEXT_YEAR <= year <= MAX_CONTEXT_YEAR,
            1 <= month <= 12,
            1 <= day <= 31,
        ensures
            r == (TimestampKind { fmt, year, month, day }),
            r.wf(),
    {
        TimestampKind { fmt, year, month, day }
    }

    /// Tries this format on a line.
    pub fn parse(&self, line: &Vec<u8>) -> (r: Option<Timestamp>)
        requires
            self.wf(),
        ensures
            ts_opt_matches(r, self.spec_parse(line@)),
    {
        match self.fmt {
            FormatId::MonthNameNoYear => parse_month_name(line, self.year),
            FormatId::IsoOffsetBasic => parse_iso_offset_basic(line),
            FormatId::IsoFracOffset => parse_iso_frac_offset(line),
            FormatId::DateTimeMillis => parse_date_time(line, 3, 1000),
            FormatId::IsoFracZulu => parse_iso_frac_zulu(line),
            FormatId::DateTimeMicros => parse_date_time(line, 6, 1),
            FormatId::TimeOnly => parse_time_only(line, self.year, self.month, self.day),
        }
    }
}

/// An executable match result agrees with a specified one.
pub open spec fn ts_opt_matches(r: Option<Timestamp>, m: Option<int>) -> bool {
    match m {
        None => r is None,
        Some(v) => r == Some(Timestamp { micros: v as i64 }) && i64::MIN <= v <= i64::MAX,
    }
}

/// Validates civil fields and builds the timestamp, as `civil_result` says.
fn checked_civil(y: i64, mo: u64, d: u64, h: u64, mi: u64, sec: u64, frac: u64, off: i64) -> (r:
    Option<Timestamp>)
    requires
        MIN_CONTEXT_YEAR <= y <= MAX_CONTEXT_YEAR,
        frac < 1000000,
        -86400 < off < 86400,
    ensures
        ts_opt_matches(
            r,
            civil_result(
                y as int,
                mo as int,
                d as int,
                h as int,
                mi as int,
                sec as int,
                frac as int,
                off as int,
            ),
        ),
{
    if 1 <= mo && mo <= 12 && 1 <= d && d <= month_length(y, mo) && h <= 23 && mi <= 59 && sec
        <= 60 {
        Some(timestamp_from_civil(y, mo, d, h, mi, sec, frac, off))
    } else {
        None
    }
}

/// Checks the 19-byte date-time shape at `g`.
fn dt_shape_check(v: &Vec<u8>, g: usize, flex: bool) -> (r: bool)
    requires
        g <= v.len(),
    ensures
        r == dt_shape(v@, g as int, flex),
{
    if v.len() - g < 19 {
        return false;
    }
    if !digits_between(v, g, g + 4) {
        return false;
    }
    let s1 = v[g + 4];
    if !(s1 == 45 || (flex && s1 == 47)) {
        return false;
    }
    if !digits_between(v, g + 5, g + 7) {
        return false;
    }
    let s2 = v[g + 7];
    if !(s2 == 45 || (flex && s2 == 47)) {
        return false;
    }
    if !digits_between(v, g + 8, g + 10) {
        return false;
    }
    let m = v[g + 10];
    if !(m == 84 || (flex && m == 32)) {
        return false;
    }
    if !digits_between(v, g + 11, g + 13) {
        return false;
    }
    if v[g + 13] != 58 {
        return false;
    }
    if !digits_between(v, g + 14, g + 16) {
        return false;
    }
    if v[g + 16] != 58 {
        return false;
    }
    if !digits_between(v, g + 17, g + 19) {
        return false;
    }
    true
}

/// Reads the six numeric fields of a date-time shape at `g`.
fn read_dt_fields(v: &Vec<u8>, g: usize) -> (r: (u64, u64, u64, u64, u64, u64))
    requires
        g + 19 <= v.len(),
        dt_shape(v@, g as int, true),
    ensures
        r.0 == num_val(v@, g as int, g + 4),
        r.1 == num_val(v@, g + 5, g + 7),
        r.2 == num_val(v@, g + 8, g + 10),
        r.3 == num_val(v@, g + 11, g + 13),
        r.4 == num_val(v@, g + 14, g + 16),
        r.5 == num_val(v@, g + 17, g + 19),
        0 <= r.0 < 10000,
{
    proof {
        lemma_num_val_bound(v@, g as int, g + 4);
        reveal_with_fuel(pow10, 7);
    }
    (
        parse_num(v, g, g + 4),
        parse_num(v, g + 5, g + 7),
        parse_num(v, g + 8, g + 10),
        parse_num(v, g + 11, g + 13),
        parse_num(v, g + 14, g + 16),
        parse_num(v, g + 17, g + 19),
    )
}

/// Reads a two-digit pair at `from` as an offset component, below 100.
fn read_two(v: &Vec<u8>, from: usize) -> (r: u64)
    requires
        from + 2 <= v.len(),
        digits_in(v@, from as int, from + 2),
    ensures
        r == num_val(v@, from as int, from + 2),
        r < 100,
{
    proof {
        lemma_num_val_bound(v@, from as int, from + 2);
        reveal_with_fuel(pow10, 3);
    }
    parse_num(v, from, from + 2)
}

fn parse_iso_offset_basic(v: &Vec<u8>) -> (r: Option<Timestamp>)
    ensures
        ts_opt_matches(r, iso_offset_basic_spec(v@)),
{
    if !dt_shape_check(v, 0, false) {
        return None;
    }
    if v.len() < 24 {
        return None;
    }
    if v[19] != 43 {
        return None;
    }
    if !digits_between(v, 20, 24) {
        return None;
    }
    let oh = read_two(v, 20);
    let om = read_two(v, 22);
    if !(om <= 59 && oh * 3600 + om * 60 < 86400) {
        return None;
    }
    let f = read_dt_fields(v, 0);
    checked_civil(f.0 as i64, f.1, f.2, f.3, f.4, f.5, 0, (oh * 3600 + om * 60) as i64)
}

fn parse_iso_frac_offset(v: &Vec<u8>) -> (r: Option<Timestamp>)
    ensures
        ts_opt_matches(r, iso_frac_offset_spec(v@)),
{
    if !dt_shape_check(v, 0, false) {
        return None;
    }
    if v.len() < 26 {
        return None;
    }
    if !(v[19] == 46 || v[19] == 44) {
        return None;
    }
    if !digits_between(v, 20, 26) {
        return None;
    }
    let k = scan_digits(v, 26);
    if v.len() - k < 6 {
        return None;
    }
    if v[k] != 43 {
        return None;
    }
    if !digits_between(v, k + 1, k + 3) {
        return None;
    }
    if v[k + 3] != 58 {
        return None;
    }
    if !digits_between(v, k + 4, k + 6) {
        return None;
    }
    let oh = read_two(v, k + 1);
    let om = read_two(v, k + 4);
    if !(om <= 59 && oh * 3600 + om * 60 < 86400) {
        return None;
    }
    proof {
        lemma_num_val_bound(v@, 20, 26);
        reveal_with_fuel(pow10, 7);
    }
    let micro = parse_num(v, 20, 26);
    let f = read_dt_fields(v, 0);
    checked_civil(f.0 as i64, f.1, f.2, f.3, f.4, f.5, micro, (oh * 3600 + om * 60) as i64)
}

fn parse_iso_frac_zulu(v: &Vec<u8>) -> (r: Option<Timestamp>)
    ensures
        ts_opt_matches(r, iso_frac_zulu_spec(v@)),
{
    if !dt_shape_check(v, 0, false) {
        return None;
    }
    if v.len() < 26 {
        return None;
    }
    if v[19] != 46 {
        return None;
    }
    if !digits_between(v, 20, 26) {
        return None;
    }
    let k = scan_digits(v, 26);
    if k >= v.len() {
        return None;
    }
    if v[k] != 90 {
        return None;
    }
    proof {
        lemma_num_val_bound(v@, 20, 26);
        reveal_with_fuel(pow10, 7);
    }
    let micro = parse_num(v, 20, 26);
    let f = read_dt_fields(v, 0);
    checked_civil(f.0 as i64, f.1, f.2, f.3, f.4, f.5, micro, 0)
}

fn parse_date_time(v: &Vec<u8>, fl: usize, mult: u64) -> (r: Option<Timestamp>)
    requires
        (fl == 3 && mult == 1000) || (fl == 6 && mult == 1),
    ensures
        ts_opt_matches(r, date_time_spec(v@, fl as int, mult as int)),
{
    let j = scan_digits(v, 0);
    let w = scan_ws(v, j);
    let g: usize = if j >= 1 && w > j && dt_shape_check(v, w, true) {
        w
    } else if v.len() >= 1 && v[0] == 91 && dt_shape_check(v, 1, true) {
        1
    } else if dt_shape_check(v, 0, true) {
        0
    } else {
        return None;
    };
    assert(prefix_pos(v@) == Some(g as int));
    if !(v[g + 4] == 45 && v[g + 7] == 45 && v[g + 10] == 32) {
        return None;
    }
    let e = g + 19;
    let frac: u64 = if e < v.len() && (v[e] == 46 || v[e] == 44) && v.len() - (e + 1) >= fl
        && digits_between(v, e + 1, e + 1 + fl) {
        proof {
            lemma_num_val_bound(v@, e + 1, e + 1 + fl);
            reveal_with_fuel(pow10, 7);
        }
        parse_num(v, e + 1, e + 1 + fl) * mult
    } else {
        0
    };
    let f = read_dt_fields(v, g);
    checked_civil(f.0 as i64, f.1, f.2, f.3, f.4, f.5, frac, 0)
}

/// The lower-case image of an ASCII letter byte.
fn lower(c: u8) -> (r: u8)
    ensures
        r == lower_byte(c),
{
    if 65 <= c && c <= 90 {
        c + 32
    } else {
        c
    }
}

/// Looks a three-letter month name up; zero when the bytes name no month.
fn month_lookup(a: u8, b: u8, c: u8) -> (r: u64)
    ensures
        r == month_num(a, b, c),
{
    let x = lower(a);
    let y = lower(b);
    let z = lower(c);
    if x == 106 && y == 97 && z == 110 {
        1
    } else if x == 102 && y == 101 && z == 98 {
        2
    } else if x == 109 && y == 97 && z == 114 {
        3
    } else if x == 97 && y == 112 && z == 114 {
        4
    } else if x == 109 && y == 97 && z == 121 {
        5
    } else if x == 106 && y == 117 && z == 110 {
        6
    } else if x == 106 && y == 117 && z == 108 {
        7
    } else if x == 97 && y == 117 && z == 103 {
        8
    } else if x == 115 && y == 101 && z == 112 {
        9
    } else if x == 111 && y == 99 && z == 116 {
        10
    } else if x == 110 && y == 111 && z == 118 {
        11
    } else if x == 100 && y == 101 && z == 99 {
        12
    } else {
        0
    }
}

fn parse_month_name(v: &Vec<u8>, year: i64) -> (r: Option<Timestamp>)
    requires
        MIN_CONTEXT_YEAR <= year <= MAX_CONTEXT_YEAR,
    ensures
        ts_opt_matches(r, month_name_spec(v@, year as int)),
{
    if v.len() < 3 {
        return None;
    }
    if !(word_byte(v[0]) && word_byte(v[1]) && word_byte(v[2])) {
        return None;
    }
    let a = scan_blanks(v, 3);
    if a == 3 {
        return None;
    }
    let db = scan_digits(v, a);
    if db == a {
        return None;
    }
    let b = scan_blanks(v, db);
    if b == db {
        return None;
    }
    let he = scan_digits(v, b);
    if he == b {
        return None;
    }
    if he >= v.len() || v[he] != 58 {
        return None;
    }
    let me = scan_digits(v, he + 1);
    if me == he + 1 {
        return None;
    }
    if me >= v.len() || v[me] != 58 {
        return None;
    }
    let se = scan_digits(v, me + 1);
    if se == me + 1 {
        return None;
    }
    let mo = month_lookup(v[0], v[1], v[2]);
    if !(mo >= 1 && db - a <= 2 && he - b <= 2 && me - he - 1 <= 2 && se - me - 1 <= 2) {
        return None;
    }
    proof {
        lemma_digit_run_props(v@, a as int);
        lemma_digit_run_props(v@, b as int);
        lemma_digit_run_props(v@, he + 1);
        lemma_digit_run_props(v@, me + 1);
    }
    let d = parse_num(v, a, db);
    let h = parse_num(v, b, he);
    let mi = parse_num(v, he + 1, me);
    let sec = parse_num(v, me + 1, se);
    checked_civil(year, mo, d, h, mi, sec, 0, 0)
}

/// Whether a byte belongs to the word class of the patterns.
fn word_byte(c: u8) -> (r: bool)
    ensures
        r == is_word_byte(c),
{
    (48 <= c && c <= 57) || (65 <= c && c <= 90) || (97 <= c && c <= 122) || c == 95 || c >= 128
}

/// Checks the bare time shape, boundary included, at `i`.
fn time_shape_check(v: &Vec<u8>, i: usize) -> (r: bool)
    requires
        i + 8 <= v.len(),
    ensures
        r == time_shape_at(v@, i as int),
{
    if !(i == 0 || !word_byte(v[i - 1])) {
        return false;
    }
    if !digits_between(v, i, i + 2) {
        return false;
    }
    if v[i + 2] != 58 {
        return false;
    }
    if !digits_between(v, i + 3, i + 5) {
        return false;
    }
    if v[i + 5] != 58 {
        return false;
    }
    if !digits_between(v, i + 6, i + 8) {
        return false;
    }
    true
}

/// Whatever position `time_find` names carries the time shape.
proof fn lemma_time_find_props(s: Seq<u8>, j: int)
    requires
        0 <= j,
    ensures
        (match time_find(s, j) {
            None => true,
            Some(i) => j <= i && i + 8 <= s.len() && time_shape_at(s, i),
        }),
    decreases s.len() - j,
{
    if j + 8 <= s.len() && !time_shape_at(s, j) {
        lemma_time_find_props(s, j + 1);
    }
}

/// Finds the leftmost bare time position in the line.
fn find_time_pos(v: &Vec<u8>) -> (r: Option<usize>)
    ensures
        (match r {
            None => time_find(v@, 0) is None,
            Some(i) => time_find(v@, 0) == Some(i as int),
        }),
{
    if v.len() < 8 {
        return None;
    }
    let mut i: usize = 0;
    while i <= v.len() - 8
        invariant
            v@.len() >= 8,
            0 <= i <= v@.len() - 8 + 1,
            time_find(v@, 0) == time_find(v@, i as int),
        decreases v.len() - i,
    {
        if time_shape_check(v, i) {
            return Some(i);
        }
        i = i + 1;
    }
    None
}

fn parse_time_only(v: &Vec<u8>, year: i64, month: u64, day: u64) -> (r: Option<Timestamp>)
    requires
        MIN_CONTEXT_YEAR <= year <= MAX_CONTEXT_YEAR,
    ensures
        ts_opt_matches(r, time_only_spec(v@, year as int, month as int, day as int)),
{
    let i: usize = match find_time_pos(v) {
        None => {
            return None;
        },
        Some(i) => i,
    };
    proof {
        lemma_time_find_props(v@, 0);
    }
    assert(time_find(v@, 0) == Some(i as int));
    let frac: u64 = if v.len() - i >= 15 && v[i + 8] == 46 && digits_between(v, i + 9, i + 15) {
        proof {
            lemma_num_val_bound(v@, i + 9, i + 15);
            reveal_with_fuel(pow10, 7);
        }
        parse_num(v, i + 9, i + 15)
    } else {
        0
    };
    let h = parse_num(v, i, i + 2);
    let mi = parse_num(v, i + 3, i + 5);
    let sec = parse_num(v, i + 6, i + 8);
    checked_civil(year, month, day, h, mi, sec, frac, 0)
}

/// The first catalog entry at or after `i` that matches the line, with its
/// index and timestamp value.
pub open spec fn catalog_from(kinds: Seq<TimestampKind>, s: Seq<u8>, i: int) -> Option<(int, int)>
    recommends
        0 <= i,
    decreases kinds.len() - i,
{
    if i >= kinds.len() {
        None
    } else {
        match kinds[i].spec_parse(s) {
            Some(v) => Some((i, v)),
            None => catalog_from(kinds, s, i + 1),
        }
    }
}

/// The first catalog entry that matches the line.
pub open spec fn catalog_parse(kinds: Seq<TimestampKind>, s: Seq<u8>) -> Option<(int, int)> {
    catalog_from(kinds, s, 0)
}

/// A catalog match names an entry that does parse the line to that value.
pub proof fn lemma_catalog_from_props(kinds: Seq<TimestampKind>, s: Seq<u8>, i: int)
    requires
        0 <= i,
    ensures
        (match catalog_from(kinds, s, i) {
            None => true,
            Some(p) => i <= p.0 < kinds.len() && kinds[p.0].spec_parse(s) == Some(p.1),
        }),
    decreases kinds.len() - i,
{
    if i < kinds.len() && kinds[i].spec_parse(s) is None {
        lemma_catalog_from_props(kinds, s, i + 1);
    }
}

/// Tries the catalog in order and returns the first match.
pub fn catalog_match(kinds: &Vec<TimestampKind>, line: &Vec<u8>) -> (r: Option<(usize, Timestamp)>)
    requires
        forall|i: int| 0 <= i < kinds@.len() ==> kinds@[i].wf(),
    ensures
        (match catalog_parse(kinds@, line@) {
            None => r is None,
            Some(p) => match r {
                Some(q) => q.0 == p.0 && ts_opt_matches(Some(q.1), Some(p.1)),
                None => false,
            },
        }),
{
    let mut i: usize = 0;
    while i < kinds.len()
        invariant
            0 <= i <= kinds@.len(),
            forall|k: int| 0 <= k < kinds@.len() ==> kinds@[k].wf(),
            catalog_from(kinds@, line@, 0) == catalog_from(kinds@, line@, i as int),
        decreases kinds@.len() - i,
    {
        let got = kinds[i].parse(line);
        match got {
            Some(t) => {
                return Some((i, t));
            },
            None => {},
        }
        i = i + 1;
    }
    None
}

/// Relies on `chrono::Utc::now` for the current instant and on the
/// `chrono::Datelike` accessors `year`, `month` and `day` to read its civil
/// date: the year lies within what a `chrono` calendar date can carry, the
/// month is 1 to 12 and the day 1 to 31.
#[verifier::external_body]
fn now_civil_date() -> (r: (i64, u64, u64))
    ensures
        MIN_CONTEXT_YEAR <= r.0 <= MAX_CONTEXT_YEAR,
        1 <= r.1 <= 12,
        1 <= r.2 <= 31,
{
    let now = chrono::Utc::now();
    (
        chrono::Datelike::year(&now) as i64,
        chrono::Datelike::month(&now) as u64,
        chrono::Datelike::day(&now) as u64,
    )
}

/// Builds the catalog in priority order, sharing one date context snapshot
/// taken now.
pub fn get_timestamp_kinds() -> (r: Vec<TimestampKind>)
    ensures
        r@.len() == 7,
        r@[0].fmt == FormatId::MonthNameNoYear,
        r@[1].fmt == FormatId::IsoOffsetBasic,
        r@[2].fmt == FormatId::IsoFracOffset,
        r@[3].fmt == FormatId::DateTimeMillis,
        r@[4].fmt == FormatId::IsoFracZulu,
        r@[5].fmt == FormatId::DateTimeMicros,
        r@[6].fmt == FormatId::TimeOnly,
        forall|i: int| 0 <= i < 7 ==> (#[trigger] r@[i]).wf(),
        forall|i: int|
            0 <= i < 7 ==> (#[trigger] r@[i]).year == r@[0].year && r@[i].month == r@[0].month
                && r@[i].day == r@[0].day,
{
    let (year, month, day) = now_civil_date();
    let mut r: Vec<TimestampKind> = Vec::new();
    r.push(TimestampKind::new(FormatId::MonthNameNoYear, year, month, day));
    r.push(TimestampKind::new(FormatId::IsoOffsetBasic, year, month, day));
    r.push(TimestampKind::new(FormatId::IsoFracOffset, year, month, day));
    r.push(TimestampKind::new(FormatId::DateTimeMillis, year, month, day));
    r.push(TimestampKind::new(FormatId::IsoFracZulu, year, month, day));
    r.push(TimestampKind::new(FormatId::DateTimeMicros, year, month, day));
    r.push(TimestampKind::new(FormatId::TimeOnly, year, month, day));
    r
}

} // verus!
