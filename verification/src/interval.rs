//! The interval annotator: prepends to each merged line a fixed-width
//! column holding the whole seconds or milliseconds elapsed since the last
//! timestamped line.
//!
//! The column is seven bytes wide, right-justified, and blank when either
//! the current line or every earlier line lacks a timestamp. The memory of
//! the last observed timestamp is updated only by lines that carry one, so
//! a gap of untimestamped lines does not reset interval tracking. Negative
//! gaps (an out-of-order timestamp) truncate toward zero, like the positive
//! ones.

use vstd::prelude::*;
use crate::scan::{append_bytes, pow10};
use crate::Timestamp;

verus! {

#[derive(Clone, Copy, PartialEq, Eq, Structural, Debug)]
pub enum IntervalUnit {
    Seconds,
    Milliseconds,
}

/// Microseconds per unit.
pub open spec fn unit_divisor(u: IntervalUnit) -> int {
    match u {
        IntervalUnit::Seconds => 1000000,
        IntervalUnit::Milliseconds => 1000,
    }
}

/// The decimal digits of `n`, most significant first.
pub open spec fn dec_digits(n: nat) -> Seq<u8>
    decreases n,
{
    if n < 10 {
        seq![(48 + n) as u8]
    } else {
        dec_digits(n / 10).push((48 + (n % 10)) as u8)
    }
}

/// The decimal text of an integer, a leading minus for negative values.
pub open spec fn dec_int(v: int) -> Seq<u8> {
    if v < 0 {
        seq![45u8] + dec_digits((-v) as nat)
    } else {
        dec_digits(v as nat)
    }
}

pub open spec fn blanks(n: nat) -> Seq<u8> {
    Seq::new(n, |i: int| 32u8)
}

/// Right-justifies text in the seven-byte column; longer text is kept whole.
pub open spec fn pad7(s: Seq<u8>) -> Seq<u8> {
    if s.len() >= 7 {
        s
    } else {
        blanks((7 - s.len()) as nat) + s
    }
}

/// Whole units from `prev` to `cur`, truncated toward zero.
pub open spec fn interval_val(prev: int, cur: int, u: IntervalUnit) -> int {
    let d = cur - prev;
    if d >= 0 {
        d / unit_divisor(u)
    } else {
        -((-d) / unit_divisor(u))
    }
}

pub open spec fn ts_val(t: Option<Timestamp>) -> Option<int> {
    match t {
        None => None,
        Some(x) => Some(x.micros as int),
    }
}

/// The column text for one line: the elapsed whole units when both the
/// memory and the line carry a timestamp, blank otherwise.
pub open spec fn column_text(prev: Option<int>, cur: Option<int>, u: IntervalUnit) -> Seq<u8> {
    match (prev, cur) {
        (Some(p), Some(c)) => pad7(dec_int(interval_val(p, c, u))),
        _ => blanks(7),
    }
}

/// `dec_digits` of a machine word is at most 20 digits long.
proof fn lemma_dec_digits_len(n: nat, k: nat)
    requires
        k >= 1,
        n < pow10(k),
    ensures
        1 <= dec_digits(n).len() <= k,
    decreases n,
{
    if n >= 10 {
        vstd::arithmetic::div_mod::lemma_fundamental_div_mod(n as int, 10);
        assert(pow10(k) == 10 * pow10((k - 1) as nat));
        lemma_dec_digits_len(n / 10, (k - 1) as nat);
    }
}

/// Writes the decimal digits of `n`.
pub fn dec_u64(n: u64) -> (r: Vec<u8>)
    ensures
        r@ == dec_digits(n as nat),
        1 <= r@.len() <= 20,
    decreases n,
{
    proof {
        reveal_with_fuel(pow10, 21);
        lemma_dec_digits_len(n as nat, 20);
    }
    if n < 10 {
        let mut r: Vec<u8> = Vec::new();
        r.push(48 + n as u8);
        proof {
            assert(r@ =~= seq![(48 + n as nat) as u8]);
        }
        r
    } else {
        let mut r = dec_u64(n / 10);
        r.push(48 + (n % 10) as u8);
        r
    }
}

/// Interval state: the unit requested, and the last observed timestamp.
pub struct IntervalAnnotator {
    pub unit: IntervalUnit,
    pub prev: Option<Timestamp>,
}

impl IntervalAnnotator {
    pub fn new(unit: IntervalUnit) -> (r: Self)
        ensures
            r.unit == unit,
            r.prev is None,
    {
        IntervalAnnotator { unit, prev: None }
    }

    /// Annotates one merged line: the column, then the rendered line. A
    /// line carrying a timestamp becomes the new memory; one without leaves
    /// the memory unchanged.
    pub fn annotate(&mut self, ts: Option<Timestamp>, line: &Vec<u8>) -> (out: Vec<u8>)
        ensures
            final(self).unit == old(self).unit,
            final(self).prev == (match ts {
                Some(t) => Some(t),
                None => old(self).prev,
            }),
            out@ == column_text(ts_val(old(self).prev), ts_val(ts), old(self).unit) + line@,
    {
        let mut col: Vec<u8> = Vec::new();
        match (self.prev, ts) {
            (Some(p), Some(c)) => {
                let d: i128 = c.micros as i128 - p.micros as i128;
                let div: u64 = match self.unit {
                    IntervalUnit::Seconds => 1000000,
                    IntervalUnit::Milliseconds => 1000,
                };
                let neg: bool = d < 0;
                let mag: u64 = if d >= 0 {
                    d as u64
                } else {
                    (-d) as u64
                };
                let q: u64 = mag / div;
                let ghost v = interval_val(p.micros as int, c.micros as int, self.unit);
                proof {
                    assert(v == if neg && q > 0 {
                        -(q as int)
                    } else {
                        q as int
                    });
                }
                let digits = dec_u64(q);
                let sign: usize = if neg && q > 0 {
                    1
                } else {
                    0
                };
                let total: usize = sign + digits.len();
                let pad: usize = if total >= 7 {
                    0
                } else {
                    7 - total
                };
                let mut i: usize = 0;
                while i < pad
                    invariant
                        0 <= i <= pad,
                        col@ =~= blanks(i as nat),
                    decreases pad - i,
                {
                    col.push(32);
                    proof {
                        assert(col@ =~= blanks((i + 1) as nat));
                    }
                    i = i + 1;
                }
                if sign == 1 {
                    col.push(45);
                }
                append_bytes(&mut col, &digits);
                proof {
                    if sign == 1 {
                        assert(dec_int(v) =~= seq![45u8] + dec_digits(q as nat));
                        assert(col@ =~= blanks(pad as nat) + dec_int(v));
                    } else {
                        assert(dec_int(v) == dec_digits(q as nat));
                        assert(col@ =~= blanks(pad as nat) + dec_int(v));
                    }
                    assert(col@ =~= pad7(dec_int(v)));
                }
            },
            _ => {
                let mut i: usize = 0;
                while i < 7
                    invariant
                        0 <= i <= 7,
                        col@ =~= blanks(i as nat),
                    decreases 7 - i,
                {
                    col.push(32);
                    proof {
                        assert(col@ =~= blanks((i + 1) as nat));
                    }
                    i = i + 1;
                }
            },
        }
        match ts {
            Some(_) => {
                self.prev = ts;
            },
            None => {},
        }
        append_bytes(&mut col, line);
        col
    }
}

} // verus!
