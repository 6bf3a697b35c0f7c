//! Byte-level scanning helpers shared by the timestamp format matchers:
//! digit runs, numeric values, and the byte classes the patterns use.
//!
//! Lines are handled as raw bytes. A word byte is an ASCII letter, digit or
//! underscore, or any byte outside ASCII (so that the bytes of a multi-byte
//! character never act as a word boundary).

use vstd::prelude::*;

verus! {

pub open spec fn is_digit(c: u8) -> bool {
    48 <= c <= 57
}

pub open spec fn digit_val(c: u8) -> int {
    c - 48
}

pub open spec fn is_word_byte(c: u8) -> bool {
    is_digit(c) || (65 <= c <= 90) || (97 <= c <= 122) || c == 95 || c >= 128
}

/// ASCII whitespace, as the patterns' whitespace class accepts it.
pub open spec fn is_space_byte(c: u8) -> bool {
    c == 32 || c == 9 || c == 10 || c == 11 || c == 12 || c == 13
}

pub open spec fn digits_in(s: Seq<u8>, i: int, j: int) -> bool {
    forall|k: int| i <= k < j ==> is_digit(s[k])
}

/// Index just past the run of digit bytes that starts at `i`.
pub open spec fn digit_run_end(s: Seq<u8>, i: int) -> int
    recommends
        0 <= i <= s.len(),
    decreases s.len() - i,
{
    if i < s.len() && is_digit(s[i]) {
        digit_run_end(s, i + 1)
    } else {
        i
    }
}

/// Index just past the run of plain space bytes (0x20) that starts at `i`.
pub open spec fn blank_run_end(s: Seq<u8>, i: int) -> int
    recommends
        0 <= i <= s.len(),
    decreases s.len() - i,
{
    if i < s.len() && s[i] == 32 {
        blank_run_end(s, i + 1)
    } else {
        i
    }
}

/// Index just past the run of whitespace-class bytes that starts at `i`.
pub open spec fn ws_run_end(s: Seq<u8>, i: int) -> int
    recommends
        0 <= i <= s.len(),
    decreases s.len() - i,
{
    if i < s.len() && is_space_byte(s[i]) {
        ws_run_end(s, i + 1)
    } else {
        i
    }
}

/// The value of the decimal digits `s[i..j]`, most significant first.
pub open spec fn num_val(s: Seq<u8>, i: int, j: int) -> int
    recommends
        0 <= i <= j <= s.len(),
        digits_in(s, i, j),
    decreases j - i,
{
    if i >= j {
        0
    } else {
        num_val(s, i, j - 1) * 10 + digit_val(s[j - 1])
    }
}

pub open spec fn pow10(n: nat) -> int
    decreases n,
{
    if n == 0 {
        1
    } else {
        10 * pow10((n - 1) as nat)
    }
}

pub proof fn lemma_pow10_le(a: nat, b: nat)
    requires
        a <= b,
    ensures
        1 <= pow10(a) <= pow10(b),
    decreases b,
{
    if b > 0 {
        if a < b {
            lemma_pow10_le(a, (b - 1) as nat);
        } else {
            lemma_pow10_le((a - 1) as nat, (b - 1) as nat);
        }
    }
}

pub proof fn lemma_digit_run_props(s: Seq<u8>, i: int)
    requires
        0 <= i <= s.len(),
    ensures
        i <= digit_run_end(s, i) <= s.len(),
        digits_in(s, i, digit_run_end(s, i)),
        digit_run_end(s, i) < s.len() ==> !is_digit(s[digit_run_end(s, i)]),
    decreases s.len() - i,
{
    if i < s.len() && is_digit(s[i]) {
        lemma_digit_run_props(s, i + 1);
    }
}

pub proof fn lemma_num_val_bound(s: Seq<u8>, i: int, j: int)
    requires
        0 <= i <= j <= s.len(),
        digits_in(s, i, j),
    ensures
        0 <= num_val(s, i, j) < pow10((j - i) as nat),
    decreases j - i,
{
    if i < j {
        lemma_num_val_bound(s, i, j - 1);
        assert(pow10((j - i) as nat) == 10 * pow10((j - i - 1) as nat));
    }
}

/// Finds the end of the digit run starting at `from`.
pub fn scan_digits(v: &Vec<u8>, from: usize) -> (r: usize)
    requires
        from <= v.len(),
    ensures
        r == digit_run_end(v@, from as int),
        from <= r <= v.len(),
{
    let mut i = from;
    while i < v.len() && 48 <= v[i] && v[i] <= 57
        invariant
            from <= i <= v.len(),
            digit_run_end(v@, from as int) == digit_run_end(v@, i as int),
        decreases v.len() - i,
    {
        i = i + 1;
    }
    i
}

/// Finds the end of the plain-space run starting at `from`.
pub fn scan_blanks(v: &Vec<u8>, from: usize) -> (r: usize)
    requires
        from <= v.len(),
    ensures
        r == blank_run_end(v@, from as int),
        from <= r <= v.len(),
{
    let mut i = from;
    while i < v.len() && v[i] == 32
        invariant
            from <= i <= v.len(),
            blank_run_end(v@, from as int) == blank_run_end(v@, i as int),
        decreases v.len() - i,
    {
        i = i + 1;
    }
    i
}

/// Finds the end of the whitespace run starting at `from`.
pub fn scan_ws(v: &Vec<u8>, from: usize) -> (r: usize)
    requires
        from <= v.len(),
    ensures
        r == ws_run_end(v@, from as int),
        from <= r <= v.len(),
{
    let mut i = from;
    while i < v.len() && (v[i] == 32 || v[i] == 9 || v[i] == 10 || v[i] == 11 || v[i] == 12
        || v[i] == 13)
        invariant
            from <= i <= v.len(),
            ws_run_end(v@, from as int) == ws_run_end(v@, i as int),
        decreases v.len() - i,
    {
        i = i + 1;
    }
    i
}

/// Reports whether every byte of `v[from..to]` is a decimal digit.
pub fn digits_between(v: &Vec<u8>, from: usize, to: usize) -> (r: bool)
    requires
        from <= to <= v.len(),
    ensures
        r == digits_in(v@, from as int, to as int),
{
    let mut i = from;
    while i < to
        invariant
            from <= i <= to <= v.len(),
            digits_in(v@, from as int, i as int),
        decreases to - i,
    {
        if v[i] < 48 || v[i] > 57 {
            assert(!is_digit(v@[i as int]));
            return false;
        }
        i = i + 1;
    }
    true
}

/// Reads the value of the decimal digits `v[from..to]`.
pub fn parse_num(v: &Vec<u8>, from: usize, to: usize) -> (r: u64)
    requires
        from <= to <= v.len(),
        to - from <= 18,
        digits_in(v@, from as int, to as int),
    ensures
        r == num_val(v@, from as int, to as int),
{
    let mut acc: u64 = 0;
    let mut i = from;
    while i < to
        invariant
            from <= i <= to <= v.len(),
            to - from <= 18,
            digits_in(v@, from as int, to as int),
            acc == num_val(v@, from as int, i as int),
        decreases to - i,
    {
        proof {
            lemma_num_val_bound(v@, from as int, i as int);
            lemma_pow10_le((i - from) as nat, 17);
            reveal_with_fuel(pow10, 19);
            assert(pow10(17) == 100000000000000000);
        }
        assert(acc < 100000000000000000);
        acc = acc * 10 + (v[i] - 48) as u64;
        i = i + 1;
    }
    acc
}

/// Appends all bytes of `src` to `out`.
pub fn append_bytes(out: &mut Vec<u8>, src: &Vec<u8>)
    ensures
        final(out)@ == old(out)@ + src@,
{
    let mut i: usize = 0;
    while i < src.len()
        invariant
            0 <= i <= src@.len(),
            out@ == old(out)@ + src@.subrange(0, i as int),
        decreases src@.len() - i,
    {
        out.push(src[i]);
        proof {
            assert(old(out)@ + src@.subrange(0, i as int) + seq![src@[i as int]] =~= old(out)@
                + src@.subrange(0, i + 1));
        }
        i = i + 1;
    }
    proof {
        assert(src@.subrange(0, src@.len() as int) =~= src@);
    }
}

/// The concatenation of two byte vectors.
pub fn concat_bytes(a: &Vec<u8>, b: &Vec<u8>) -> (r: Vec<u8>)
    ensures
        r@ == a@ + b@,
{
    let mut out: Vec<u8> = Vec::new();
    append_bytes(&mut out, a);
    append_bytes(&mut out, b);
    proof {
        assert(Seq::<u8>::empty() + a@ + b@ =~= a@ + b@);
    }
    out
}

/// Copies the bytes `v[from..to]` into a fresh vector.
pub fn copy_range(v: &Vec<u8>, from: usize, to: usize) -> (r: Vec<u8>)
    requires
        from <= to <= v.len(),
    ensures
        r@ == v@.subrange(from as int, to as int),
{
    let mut out: Vec<u8> = Vec::new();
    let mut i = from;
    while i < to
        invariant
            from <= i <= to <= v@.len(),
            out@ == v@.subrange(from as int, i as int),
        decreases to - i,
    {
        out.push(v[i]);
        proof {
            assert(v@.subrange(from as int, i as int) + seq![v@[i as int]] =~= v@.subrange(
                from as int,
                i + 1,
            ));
        }
        i = i + 1;
    }
    out
}

} // verus!
