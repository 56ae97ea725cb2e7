//! Decimal numerals on byte strings: formatting of integers, strict integer
//! parsing, and the lenient coordinate grammar (optional sign, digits, an
//! optional fractional part that is truncated toward zero, saturating to the
//! `i32` range).

use vstd::prelude::*;

verus! {

pub const BYTE_ZERO: u8 = 48;

pub const BYTE_MINUS: u8 = 45;

pub const BYTE_PLUS: u8 = 43;

pub const BYTE_DOT: u8 = 46;

pub const I32_MAX_INT: i64 = 2147483647;

pub const I32_MIN_ABS: i64 = 2147483648;

/// Saturation cap for coordinate digit accumulation; anything at or above it
/// clamps to an `i32` bound anyway.
pub const COORD_CAP: i64 = 3000000000;

pub open spec fn is_digit(b: u8) -> bool {
    BYTE_ZERO <= b <= 57
}

/// The decimal digits of `n`, most significant first.
pub open spec fn dec_digits(n: nat) -> Seq<u8>
    decreases n,
{
    if n < 10 {
        seq![(BYTE_ZERO + n) as u8]
    } else {
        dec_digits(n / 10).push((BYTE_ZERO + n % 10) as u8)
    }
}

/// The canonical decimal spelling of `v`: a minus sign for negatives, then
/// the digits of the magnitude.
pub open spec fn int_decimal(v: int) -> Seq<u8> {
    if v < 0 {
        seq![BYTE_MINUS] + dec_digits((-v) as nat)
    } else {
        dec_digits(v as nat)
    }
}

/// The value of the digit run `s[a..b]`, read as a decimal numeral.
pub open spec fn digits_val_range(s: Seq<u8>, a: int, b: int) -> int
    decreases b - a,
{
    if a >= b {
        0
    } else {
        digits_val_range(s, a, b - 1) * 10 + (s[b - 1] - BYTE_ZERO)
    }
}

/// The first index at or after `i` holding a non-digit, or the length.
pub open spec fn digits_end(s: Seq<u8>, i: int) -> int
    decreases s.len() - i,
{
    if i < 0 || i >= s.len() || !is_digit(s[i]) {
        i
    } else {
        digits_end(s, i + 1)
    }
}

pub proof fn lemma_dec_digits(n: nat)
    ensures
        dec_digits(n).len() >= 1,
        forall|i: int| 0 <= i < dec_digits(n).len() ==> is_digit(#[trigger] dec_digits(n)[i]),
        digits_val_range(dec_digits(n), 0, dec_digits(n).len() as int) == n,
    decreases n,
{
    if n < 10 {
        assert(dec_digits(n)[0] == 48 + n);
        assert(digits_val_range(dec_digits(n), 0, 0) == 0);
        assert(digits_val_range(dec_digits(n), 0, 1) == n);
    } else {
        lemma_dec_digits(n / 10);
        let d = dec_digits(n / 10);
        let s = dec_digits(n);
        assert(s == d.push((BYTE_ZERO + n % 10) as u8));
        lemma_range_agree(s, d, 0, d.len() as int);
        assert(digits_val_range(s, 0, d.len() as int) == n / 10);
        assert(digits_val_range(s, 0, s.len() as int) == (n / 10) * 10 + n % 10);
        assert(n == (n / 10) * 10 + n % 10) by (nonlinear_arith);
    }
}

/// Two byte strings agreeing on `[a, b)` give the same digit-run value.
pub proof fn lemma_range_agree(s: Seq<u8>, t: Seq<u8>, a: int, b: int)
    requires
        0 <= a <= b,
        b <= s.len(),
        b <= t.len(),
        forall|i: int| a <= i < b ==> s[i] == #[trigger] t[i],
    ensures
        digits_val_range(s, a, b) == digits_val_range(t, a, b),
    decreases b - a,
{
    if a < b {
        lemma_range_agree(s, t, a, b - 1);
        assert(s[b - 1] == t[b - 1]);
    }
}

/// A digit-run value shifts with its indices.
pub proof fn lemma_range_shift(s: Seq<u8>, t: Seq<u8>, k: int, a: int, b: int)
    requires
        0 <= a <= b,
        0 <= a + k,
        b + k <= s.len(),
        b <= t.len(),
        forall|i: int| a <= i < b ==> s[i + k] == #[trigger] t[i],
    ensures
        digits_val_range(s, a + k, b + k) == digits_val_range(t, a, b),
    decreases b - a,
{
    if a < b {
        lemma_range_shift(s, t, k, a, b - 1);
        assert(s[(b - 1) + k] == t[b - 1]);
    }
}

/// Digit-run values are non-negative and grow with the run.
pub proof fn lemma_range_nonneg(s: Seq<u8>, a: int, b: int)
    requires
        0 <= a <= b <= s.len(),
        forall|i: int| a <= i < b ==> is_digit(#[trigger] s[i]),
    ensures
        digits_val_range(s, a, b) >= 0,
        forall|c: int| a <= c <= b ==> digits_val_range(s, a, c) <= digits_val_range(s, a, b),
    decreases b - a,
{
    if a < b {
        lemma_range_nonneg(s, a, b - 1);
        let p = digits_val_range(s, a, b - 1);
        let last = s[b - 1] - BYTE_ZERO;
        assert(is_digit(s[b - 1]));
        assert(p <= p * 10 + last && p * 10 + last >= 0) by (nonlinear_arith)
            requires
                p >= 0,
                last >= 0,
        ;
        assert forall|c: int| a <= c <= b implies digits_val_range(s, a, c) <= digits_val_range(
            s,
            a,
            b,
        ) by {
            if c <= b - 1 {
                assert(digits_val_range(s, a, c) <= digits_val_range(s, a, b - 1));
            }
        }
    }
}

/// `digits_end` is pinned by a digit run followed by a non-digit or the end.
pub proof fn lemma_digits_end(s: Seq<u8>, a: int, e: int)
    requires
        0 <= a <= e <= s.len(),
        forall|i: int| a <= i < e ==> is_digit(s[i]),
        e == s.len() || !is_digit(s[e]),
    ensures
        digits_end(s, a) == e,
    decreases e - a,
{
    if a < e {
        lemma_digits_end(s, a + 1, e);
    }
}

/// Append the decimal digits of `n` to `out`.
pub fn push_dec_digits(out: &mut Vec<u8>, n: u64)
    ensures
        final(out)@ == old(out)@ + dec_digits(n as nat),
    decreases n,
{
    if n < 10 {
        out.push(BYTE_ZERO + (n as u8));
        proof {
            assert(final(out)@ =~= old(out)@ + dec_digits(n as nat));
        }
    } else {
        push_dec_digits(out, n / 10);
        out.push(BYTE_ZERO + ((n % 10) as u8));
        proof {
            assert(final(out)@ =~= old(out)@ + dec_digits(n as nat));
        }
    }
}

/// The canonical decimal spelling of `v` as bytes.
pub fn format_i64(v: i64) -> (r: Vec<u8>)
    ensures
        r@ == int_decimal(v as int),
{
    let mut out: Vec<u8> = Vec::new();
    if v < 0 {
        out.push(BYTE_MINUS);
        let m: u64 = if v == i64::MIN {
            9223372036854775808u64
        } else {
            (-v) as u64
        };
        push_dec_digits(&mut out, m);
        proof {
            assert(out@ =~= int_decimal(v as int));
        }
    } else {
        push_dec_digits(&mut out, v as u64);
    }
    out
}

/// The canonical decimal spelling of `v` as bytes.
pub fn format_i32(v: i32) -> (r: Vec<u8>)
    ensures
        r@ == int_decimal(v as int),
{
    format_i64(v as i64)
}

/// Strict decimal parse: an optional sign and at least one digit, valuing to
/// an `i32` without overflow.
pub open spec fn parse_i32_spec(s: Seq<u8>) -> Option<int> {
    let start: int = if s.len() > 0 && (s[0] == BYTE_MINUS || s[0] == BYTE_PLUS) {
        1
    } else {
        0
    };
    let neg = s.len() > 0 && s[0] == BYTE_MINUS;
    if digits_end(s, start) == s.len() && s.len() > start {
        let mag = digits_val_range(s, start, s.len() as int);
        let v: int = if neg {
            -mag
        } else {
            mag
        };
        if i32::MIN <= v <= i32::MAX {
            Some(v)
        } else {
            None
        }
    } else {
        None
    }
}

/// Scan the digit run of `s` starting at `start`, accumulating its value
/// saturated at `COORD_CAP`. Returns the end of the run and the value.
fn scan_digits(s: &[u8], start: usize) -> (r: (usize, i64))
    requires
        start <= s@.len(),
    ensures
        r.0 == digits_end(s@, start as int),
        start <= r.0 <= s@.len(),
        forall|i: int| start <= i < r.0 ==> is_digit(s@[i]),
        r.1 == if digits_val_range(s@, start as int, r.0 as int) > COORD_CAP {
            COORD_CAP as int
        } else {
            digits_val_range(s@, start as int, r.0 as int)
        },
        0 <= r.1 <= COORD_CAP,
{
    let mut i: usize = start;
    let mut acc: i64 = 0;
    while i < s.len() && 48 <= s[i] && s[i] <= 57
        invariant
            start <= i <= s@.len(),
            forall|j: int| start <= j < i ==> is_digit(s@[j]),
            0 <= acc <= COORD_CAP,
            acc == if digits_val_range(s@, start as int, i as int) > COORD_CAP {
                COORD_CAP as int
            } else {
                digits_val_range(s@, start as int, i as int)
            },
        decreases s@.len() - i,
    {
        let d = (s[i] - 48) as i64;
        proof {
            lemma_range_nonneg(s@, start as int, i as int);
            assert(digits_val_range(s@, start as int, i + 1) == digits_val_range(
                s@,
                start as int,
                i as int,
            ) * 10 + (s@[i as int] - BYTE_ZERO));
            if digits_val_range(s@, start as int, i as int) > COORD_CAP {
                assert(digits_val_range(s@, start as int, i as int) * 10 + (s@[i as int]
                    - BYTE_ZERO) > COORD_CAP) by (nonlinear_arith)
                    requires
                        digits_val_range(s@, start as int, i as int) > COORD_CAP,
                        COORD_CAP > 0,
                        s@[i as int] - BYTE_ZERO >= 0,
                ;
            }
        }
        if acc == COORD_CAP {
            // saturated: the true value only grows with more digits
            proof {
                assert(digits_val_range(s@, start as int, i + 1) > COORD_CAP || digits_val_range(
                    s@,
                    start as int,
                    i + 1,
                ) == COORD_CAP) by (nonlinear_arith)
                    requires
                        digits_val_range(s@, start as int, i + 1) == digits_val_range(
                            s@,
                            start as int,
                            i as int,
                        ) * 10 + (s@[i as int] - BYTE_ZERO),
                        digits_val_range(s@, start as int, i as int) >= COORD_CAP,
                        s@[i as int] - BYTE_ZERO >= 0,
                        COORD_CAP > 0,
                ;
            }
        } else {
            let t = acc * 10 + d;
            acc = if t > COORD_CAP {
                COORD_CAP
            } else {
                t
            };
        }
        i = i + 1;
    }
    proof {
        lemma_digits_end(s@, start as int, i as int);
    }
    (i, acc)
}

/// Strict decimal parse of `s` as an `i32`; out-of-range values are rejected.
pub fn parse_i32(s: &[u8]) -> (r: Option<i32>)
    ensures
        match r {
            Some(v) => parse_i32_spec(s@) == Some(v as int),
            None => parse_i32_spec(s@) is None,
        },
{
    let len = s.len();
    let (neg, start): (bool, usize) = if len > 0 && s[0] == BYTE_MINUS {
        (true, 1)
    } else if len > 0 && s[0] == BYTE_PLUS {
        (false, 1)
    } else {
        (false, 0)
    };
    if start > len {
        return None;
    }
    let (end, mag) = scan_digits(s, start);
    if end != len || len == start {
        return None;
    }
    proof {
        lemma_range_nonneg(s@, start as int, end as int);
    }
    if neg {
        if mag > I32_MIN_ABS {
            None
        } else {
            Some((-mag) as i32)
        }
    } else {
        if mag > I32_MAX_INT {
            None
        } else {
            Some(mag as i32)
        }
    }
}

/// The lenient coordinate grammar: an optional sign, then digits with an
/// optional fractional part (`D+ [. D*]` or `. D+`), truncated toward zero
/// and saturated to the `i32` range.
pub open spec fn parse_coord_spec(s: Seq<u8>) -> Option<int> {
    let start: int = if s.len() > 0 && (s[0] == BYTE_MINUS || s[0] == BYTE_PLUS) {
        1
    } else {
        0
    };
    let neg = s.len() > 0 && s[0] == BYTE_MINUS;
    let ie = digits_end(s, start);
    let shape_ok = if ie == s.len() {
        ie > start
    } else if s[ie] == BYTE_DOT {
        let fe = digits_end(s, ie + 1);
        fe == s.len() && (ie > start || fe > ie + 1)
    } else {
        false
    };
    if shape_ok {
        let mag = digits_val_range(s, start, ie);
        Some(clamp_i32(if neg { -mag } else { mag }))
    } else {
        None
    }
}

pub open spec fn clamp_i32(v: int) -> int {
    if v > i32::MAX {
        i32::MAX as int
    } else if v < i32::MIN {
        i32::MIN as int
    } else {
        v
    }
}

/// Parse one coordinate under the lenient grammar.
pub fn parse_coord(s: &[u8]) -> (r: Option<i32>)
    ensures
        match r {
            Some(v) => parse_coord_spec(s@) == Some(v as int),
            None => parse_coord_spec(s@) is None,
        },
{
    let len = s.len();
    let (neg, start): (bool, usize) = if len > 0 && s[0] == BYTE_MINUS {
        (true, 1)
    } else if len > 0 && s[0] == BYTE_PLUS {
        (false, 1)
    } else {
        (false, 0)
    };
    if start > len {
        return None;
    }
    let (ie, mag) = scan_digits(s, start);
    let shape_ok: bool = if ie == len {
        ie > start
    } else if s[ie] == BYTE_DOT {
        let (fe, _fval) = scan_digits(s, ie + 1);
        fe == len && (ie > start || fe > ie + 1)
    } else {
        false
    };
    if !shape_ok {
        return None;
    }
    proof {
        lemma_range_nonneg(s@, start as int, ie as int);
    }
    let v: i64 = if neg {
        -mag
    } else {
        mag
    };
    let clamped: i32 = if v > I32_MAX_INT {
        i32::MAX
    } else if v < -I32_MIN_ABS {
        i32::MIN
    } else {
        v as i32
    };
    proof {
        let smag = digits_val_range(s@, start as int, ie as int);
        let sv: int = if neg {
            -smag
        } else {
            smag
        };
        if smag > COORD_CAP {
            assert(clamp_i32(sv) == clamp_i32(v as int));
        }
    }
    Some(clamped)
}

/// `parse_i32` reads back what `format_i32` wrote.
pub proof fn lemma_parse_format_i32(v: i32)
    ensures
        parse_i32_spec(int_decimal(v as int)) == Some(v as int),
{
    let s = int_decimal(v as int);
    if v < 0 {
        let d = dec_digits((-v) as nat);
        lemma_dec_digits((-v) as nat);
        assert(s == seq![BYTE_MINUS] + d);
        assert(s[0] == BYTE_MINUS);
        assert(forall|i: int| 1 <= i < s.len() ==> is_digit(s[i]));
        lemma_digits_end(s, 1, s.len() as int);
        lemma_range_shift(s, d, 1, 0, d.len() as int);
        assert(digits_val_range(s, 1, s.len() as int) == (-v) as int);
    } else {
        let d = dec_digits(v as nat);
        lemma_dec_digits(v as nat);
        assert(s == d);
        assert(!(s[0] == BYTE_MINUS || s[0] == BYTE_PLUS));
        lemma_digits_end(s, 0, s.len() as int);
    }
}

/// `parse_coord` also reads back what `format_i32` wrote.
pub proof fn lemma_coord_format_i32(v: i32)
    ensures
        parse_coord_spec(int_decimal(v as int)) == Some(v as int),
{
    let s = int_decimal(v as int);
    if v < 0 {
        let d = dec_digits((-v) as nat);
        lemma_dec_digits((-v) as nat);
        assert(s == seq![BYTE_MINUS] + d);
        lemma_digits_end(s, 1, s.len() as int);
        lemma_range_shift(s, d, 1, 0, d.len() as int);
        assert(digits_val_range(s, 1, s.len() as int) == (-v) as int);
    } else {
        let d = dec_digits(v as nat);
        lemma_dec_digits(v as nat);
        assert(s == d);
        lemma_digits_end(s, 0, s.len() as int);
    }
}

} // verus!
