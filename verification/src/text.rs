//! Byte-string text helpers: UTF-8 validation, trailing-whitespace trimming,
//! whitespace tokenisation, and the float-literal grammar used for typed
//! write bodies.

use vstd::prelude::*;

use vstd::utf8::{
    is_continuation_byte, is_leading_byte_width_1, is_leading_byte_width_2,
    is_leading_byte_width_3, is_leading_byte_width_4, pop_first_scalar, valid_first_scalar,
    valid_utf8,
};

use crate::num::{digits_end, is_digit, BYTE_DOT, BYTE_MINUS, BYTE_PLUS};

verus! {

/// Take the subslice `[a, b)` of `s`.
pub fn sub_slice(s: &[u8], a: usize, b: usize) -> (r: &[u8])
    requires
        a <= b <= s@.len(),
    ensures
        r@ == s@.subrange(a as int, b as int),
{
    &s[a..b]
}

/// Whether the bytes are a well-formed UTF-8 encoding.
pub fn validate_utf8(s: &[u8]) -> (r: bool)
    ensures
        r == valid_utf8(s@),
{
    let len = s.len();
    let mut i: usize = 0;
    proof {
        assert(s@.skip(0) =~= s@);
    }
    while i < len
        invariant
            i <= len,
            len == s@.len(),
            valid_utf8(s@) == valid_utf8(s@.skip(i as int)),
        decreases len - i,
    {
        let ghost t = s@.skip(i as int);
        assert(t.len() > 0);
        let b0 = s[i];
        assert(t[0] == s@[i as int]);
        let width: usize = if b0 < 0x80 {
            1
        } else if 0xc0 <= b0 && b0 <= 0xdf {
            if i + 1 >= len || !(0x80 <= s[i + 1] && s[i + 1] <= 0xbf) {
                proof {
                    assert(!valid_first_scalar(t));
                }
                return false;
            }
            let b1 = s[i + 1];
            let cp: u32 = (((b0 & 0x1f) as u32) << 6u32) | ((b1 & 0x3f) as u32);
            if cp < 0x80 {
                proof {
                    assert(!valid_first_scalar(t));
                }
                return false;
            }
            proof {
                assert(cp <= 0x7ff) by (bit_vector)
                    requires
                        cp == (((b0 & 0x1f) as u32) << 6u32) | ((b1 & 0x3f) as u32),
                ;
            }
            2
        } else if 0xe0 <= b0 && b0 <= 0xef {
            if len - i < 3 || !(0x80 <= s[i + 1] && s[i + 1] <= 0xbf) || !(0x80 <= s[i + 2] && s[i
                + 2] <= 0xbf) {
                proof {
                    assert(!valid_first_scalar(t));
                }
                return false;
            }
            let cp: u32 = (((b0 & 0x0f) as u32) << 12u32) | (((s[i + 1] & 0x3f) as u32) << 6u32)
                | ((s[i + 2] & 0x3f) as u32);
            if cp < 0x800 || (0xd800 <= cp && cp <= 0xdfff) {
                proof {
                    assert(!valid_first_scalar(t));
                }
                return false;
            }
            3
        } else if 0xf0 <= b0 && b0 <= 0xf7 {
            if len - i < 4 || !(0x80 <= s[i + 1] && s[i + 1] <= 0xbf) || !(0x80 <= s[i + 2] && s[i
                + 2] <= 0xbf) || !(0x80 <= s[i + 3] && s[i + 3] <= 0xbf) {
                proof {
                    assert(!valid_first_scalar(t));
                }
                return false;
            }
            let cp: u32 = (((b0 & 0x07) as u32) << 18u32) | (((s[i + 1] & 0x3f) as u32) << 12u32)
                | (((s[i + 2] & 0x3f) as u32) << 6u32) | ((s[i + 3] & 0x3f) as u32);
            if cp < 0x10000 || cp > 0x10ffff {
                proof {
                    assert(!valid_first_scalar(t));
                }
                return false;
            }
            4
        } else {
            // a stray continuation byte, or a byte above 0xf7
            proof {
                assert(!valid_first_scalar(t));
            }
            return false;
        };
        proof {
            assert(valid_first_scalar(t));
            assert(pop_first_scalar(t) =~= s@.skip(i + width));
        }
        i = i + width;
    }
    proof {
        assert(s@.skip(len as int) =~= Seq::<u8>::empty());
    }
    true
}

/// ASCII whitespace, as trimmed from the end of a write body.
pub open spec fn is_ascii_ws(b: u8) -> bool {
    b == 32 || b == 9 || b == 10 || b == 13 || b == 11 || b == 12
}

/// `s` with every trailing ASCII whitespace byte removed.
pub open spec fn trim_end_spec(s: Seq<u8>) -> Seq<u8>
    decreases s.len(),
{
    if s.len() > 0 && is_ascii_ws(s.last()) {
        trim_end_spec(s.drop_last())
    } else {
        s
    }
}

/// Trim trailing ASCII whitespace.
pub fn trim_end(s: &[u8]) -> (r: &[u8])
    ensures
        r@ == trim_end_spec(s@),
{
    let mut end = s.len();
    proof {
        assert(s@.subrange(0, s@.len() as int) =~= s@);
    }
    while end > 0 && (s[end - 1] == 32 || s[end - 1] == 9 || s[end - 1] == 10 || s[end - 1] == 13
        || s[end - 1] == 11 || s[end - 1] == 12)
        invariant
            end <= s@.len(),
            trim_end_spec(s@) == trim_end_spec(s@.subrange(0, end as int)),
        decreases end,
    {
        proof {
            assert(s@.subrange(0, end as int).drop_last() =~= s@.subrange(0, end - 1));
        }
        end = end - 1;
    }
    proof {
        if end > 0 {
            assert(!is_ascii_ws(s@.subrange(0, end as int).last()));
        }
    }
    sub_slice(s, 0, end)
}

/// The float-literal grammar accepted for `Float` and `Position` write
/// bodies: an optional sign, then either `inf`, `infinity` or `nan` in any
/// case, or a mantissa (`D+[.D*]` or `.D+`) with an optional `e`/`E`
/// exponent of an optionally signed digit run.
pub open spec fn float_ok(s: Seq<u8>) -> bool {
    let start: int = if s.len() > 0 && (s[0] == BYTE_MINUS || s[0] == BYTE_PLUS) {
        1
    } else {
        0
    };
    special_ok(s.skip(start)) || mantissa_exp_ok(s, start)
}

/// `inf`, `infinity` or `nan`, case-insensitively.
pub open spec fn special_ok(t: Seq<u8>) -> bool {
    ||| lower_seq(t) =~= seq![105u8, 110u8, 102u8]
    ||| lower_seq(t) =~= seq![105u8, 110u8, 102u8, 105u8, 110u8, 105u8, 116u8, 121u8]
    ||| lower_seq(t) =~= seq![110u8, 97u8, 110u8]
}

pub open spec fn to_lower(b: u8) -> u8 {
    if 65 <= b <= 90 {
        (b + 32) as u8
    } else {
        b
    }
}

pub open spec fn lower_seq(t: Seq<u8>) -> Seq<u8> {
    t.map_values(|b: u8| to_lower(b))
}

/// A mantissa starting at `start`, then an optional exponent to the end.
pub open spec fn mantissa_exp_ok(s: Seq<u8>, start: int) -> bool {
    let ie = digits_end(s, start);
    if ie < s.len() && s[ie] == BYTE_DOT {
        let fe = digits_end(s, ie + 1);
        (ie > start || fe > ie + 1) && exponent_ok(s, fe)
    } else {
        ie > start && exponent_ok(s, ie)
    }
}

/// Either the end of the input, or `e`/`E`, an optional sign, and a
/// non-empty digit run to the end.
pub open spec fn exponent_ok(s: Seq<u8>, p: int) -> bool {
    if p == s.len() {
        true
    } else if 0 <= p < s.len() && (s[p] == 101 || s[p] == 69) {
        let q: int = if p + 1 < s.len() && (s[p + 1] == BYTE_MINUS || s[p + 1] == BYTE_PLUS) {
            p + 2
        } else {
            p + 1
        };
        digits_end(s, q) == s.len() && s.len() > q
    } else {
        false
    }
}

/// Scan the digit run starting at `from`.
fn scan_digit_run(s: &[u8], from: usize) -> (r: usize)
    requires
        from <= s@.len(),
    ensures
        r == digits_end(s@, from as int),
        from <= r <= s@.len(),
{
    let mut i: usize = from;
    while i < s.len() && 48 <= s[i] && s[i] <= 57
        invariant
            from <= i <= s@.len(),
            forall|j: int| from <= j < i ==> is_digit(#[trigger] s@[j]),
        decreases s@.len() - i,
    {
        i = i + 1;
    }
    proof {
        crate::num::lemma_digits_end(s@, from as int, i as int);
    }
    i
}

/// Whether the bytes spell a float literal.
pub fn is_float_literal(s: &[u8]) -> (r: bool)
    ensures
        r == float_ok(s@),
{
    let len = s.len();
    let start: usize = if len > 0 && (s[0] == BYTE_MINUS || s[0] == BYTE_PLUS) {
        1
    } else {
        0
    };
    if check_special(s, start) {
        return true;
    }
    let ie = scan_digit_run(s, start);
    let mant_ok: bool;
    let after_mant: usize;
    if ie < len && s[ie] == BYTE_DOT {
        let fe = scan_digit_run(s, ie + 1);
        mant_ok = ie > start || fe > ie + 1;
        after_mant = fe;
    } else {
        mant_ok = ie > start;
        after_mant = ie;
    }
    if !mant_ok {
        return false;
    }
    let p = after_mant;
    if p == len {
        return true;
    }
    if !(s[p] == 101 || s[p] == 69) {
        return false;
    }
    let q: usize = if p + 1 < len && (s[p + 1] == BYTE_MINUS || s[p + 1] == BYTE_PLUS) {
        p + 2
    } else {
        p + 1
    };
    let ee = scan_digit_run(s, q);
    ee == len && len > q
}

/// Whether `s[start..]` spells `inf`, `infinity` or `nan` in any case.
fn check_special(s: &[u8], start: usize) -> (r: bool)
    requires
        start <= s@.len(),
    ensures
        r == special_ok(s@.skip(start as int)),
{
    let len = s.len();
    let n = len - start;
    let ghost t = s@.skip(start as int);
    if n == 3 {
        let a = lower_byte(s[start]);
        let b = lower_byte(s[start + 1]);
        let c = lower_byte(s[start + 2]);
        let r = (a == 105 && b == 110 && c == 102) || (a == 110 && b == 97 && c == 110);
        proof {
            assert(lower_seq(t).len() == 3);
            assert(lower_seq(t)[0] == to_lower(t[0]));
            assert(lower_seq(t)[1] == to_lower(t[1]));
            assert(lower_seq(t)[2] == to_lower(t[2]));
            if r {
                if a == 105 {
                    assert(lower_seq(t) =~= seq![105u8, 110u8, 102u8]);
                } else {
                    assert(lower_seq(t) =~= seq![110u8, 97u8, 110u8]);
                }
            } else {
                assert(!special_ok(t));
            }
        }
        r
    } else if n == 8 {
        let a0 = lower_byte(s[start]);
        let a1 = lower_byte(s[start + 1]);
        let a2 = lower_byte(s[start + 2]);
        let a3 = lower_byte(s[start + 3]);
        let a4 = lower_byte(s[start + 4]);
        let a5 = lower_byte(s[start + 5]);
        let a6 = lower_byte(s[start + 6]);
        let a7 = lower_byte(s[start + 7]);
        let ok = a0 == 105 && a1 == 110 && a2 == 102 && a3 == 105 && a4 == 110 && a5 == 105 && a6
            == 116 && a7 == 121;
        proof {
            assert(lower_seq(t).len() == 8);
            assert forall|j: int| 0 <= j < 8 implies lower_seq(t)[j] == to_lower(t[j]) by {}
            assert(t[0] == s@[start as int] && t[1] == s@[start + 1] && t[2] == s@[start + 2] && t[3]
                == s@[start + 3] && t[4] == s@[start + 4] && t[5] == s@[start + 5] && t[6] == s@[
                start + 6] && t[7] == s@[start + 7]);
            if ok {
                assert(lower_seq(t) =~= seq![105u8, 110u8, 102u8, 105u8, 110u8, 105u8, 116u8, 121u8]);
            } else {
                assert(!(lower_seq(t) =~= seq![105u8, 110u8, 102u8, 105u8, 110u8, 105u8, 116u8, 121u8]));
                assert(!special_ok(t));
            }
        }
        ok
    } else {
        proof {
            assert(lower_seq(t).len() == t.len());
            assert(!special_ok(t));
        }
        false
    }
}

fn lower_byte(b: u8) -> (r: u8)
    ensures
        r == to_lower(b),
{
    if 65 <= b && b <= 90 {
        b + 32
    } else {
        b
    }
}

/// The whitespace-separated tokens of `s`, in order.
pub open spec fn tokens_spec(s: Seq<u8>) -> Seq<Seq<u8>>
    decreases s.len(),
    via tokens_spec_decreases
{
    if s.len() == 0 {
        seq![]
    } else if is_ascii_ws(s[0]) {
        tokens_spec(s.skip(1))
    } else {
        let e = nonws_end(s, 0);
        seq![s.subrange(0, e)] + tokens_spec(s.skip(e))
    }
}

#[via_fn]
proof fn tokens_spec_decreases(s: Seq<u8>) {
    if s.len() > 0 && !is_ascii_ws(s[0]) {
        lemma_nonws_end_bounds(s, 0);
        assert(nonws_end(s, 0) >= 1);
    }
}

proof fn lemma_nonws_end_bounds(s: Seq<u8>, i: int)
    requires
        0 <= i <= s.len(),
    ensures
        i <= nonws_end(s, i) <= s.len(),
        i < s.len() && !is_ascii_ws(s[i]) ==> nonws_end(s, i) > i,
    decreases s.len() - i,
{
    if i < s.len() && !is_ascii_ws(s[i]) {
        lemma_nonws_end_bounds(s, i + 1);
    }
}

/// The first whitespace index at or after `i`, or the length.
pub open spec fn nonws_end(s: Seq<u8>, i: int) -> int
    decreases s.len() - i,
{
    if i < 0 || i >= s.len() || is_ascii_ws(s[i]) {
        i
    } else {
        nonws_end(s, i + 1)
    }
}

/// Split `s` into its whitespace-separated tokens.
pub fn split_whitespace(s: &[u8]) -> (r: Vec<Vec<u8>>)
    ensures
        r@.map_values(|v: Vec<u8>| v@) == tokens_spec(s@),
    decreases s@.len(),
{
    let mut out: Vec<Vec<u8>> = Vec::new();
    let mut i: usize = 0;
    let len = s.len();
    proof {
        assert(s@.skip(0) =~= s@);
        assert(out@.map_values(|v: Vec<u8>| v@) + tokens_spec(s@) =~= tokens_spec(s@));
    }
    while i < len
        invariant
            i <= len,
            len == s@.len(),
            tokens_spec(s@) == out@.map_values(|v: Vec<u8>| v@) + tokens_spec(s@.skip(i as int)),
        decreases len - i,
    {
        if s[i] == 32 || s[i] == 9 || s[i] == 10 || s[i] == 13 || s[i] == 11 || s[i] == 12 {
            proof {
                assert(s@.skip(i as int)[0] == s@[i as int]);
                assert(s@.skip(i as int).skip(1) =~= s@.skip(i + 1));
            }
            i = i + 1;
        } else {
            // scan the token
            let mut j: usize = i;
            while j < len && !(s[j] == 32 || s[j] == 9 || s[j] == 10 || s[j] == 13 || s[j] == 11
                || s[j] == 12)
                invariant
                    i <= j <= len,
                    len == s@.len(),
                    forall|k: int| i <= k < j ==> !is_ascii_ws(#[trigger] s@[k]),
                decreases len - j,
            {
                j = j + 1;
            }
            proof {
                let t = s@.skip(i as int);
                lemma_nonws_end(t, 0, (j - i) as int);
                assert(nonws_end(t, 0) == j - i);
                assert(t.subrange(0, (j - i) as int) =~= s@.subrange(i as int, j as int));
                assert(t.skip((j - i) as int) =~= s@.skip(j as int));
            }
            let ghost prev = out@;
            let tok = vstd::slice::slice_to_vec(sub_slice(s, i, j));
            proof {
                assert(tok@ == s@.subrange(i as int, j as int));
            }
            out.push(tok);
            proof {
                let f = |v: Vec<u8>| v@;
                assert(out@ == prev.push(tok));
                assert(out@.map_values(f) =~= prev.map_values(f).push(tok@));
                assert(tokens_spec(s@.skip(i as int)) == seq![tok@] + tokens_spec(
                    s@.skip(j as int),
                ));
                assert(prev.map_values(f) + (seq![tok@] + tokens_spec(s@.skip(j as int)))
                    =~= out@.map_values(f) + tokens_spec(s@.skip(j as int)));
            }
            i = j;
        }
    }
    proof {
        assert(tokens_spec(s@.skip(len as int)) =~= Seq::<Seq<u8>>::empty());
        assert(tokens_spec(s@) =~= out@.map_values(|v: Vec<u8>| v@));
    }
    out
}

proof fn lemma_nonws_end(s: Seq<u8>, a: int, e: int)
    requires
        0 <= a <= e <= s.len(),
        forall|i: int| a <= i < e ==> !is_ascii_ws(#[trigger] s[i]),
        e == s.len() || is_ascii_ws(s[e]),
    ensures
        nonws_end(s, a) == e,
    decreases e - a,
{
    if a < e {
        lemma_nonws_end(s, a + 1, e);
    }
}

} // verus!
