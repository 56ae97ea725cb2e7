//! Block positions, dimensions, and the block-coordinate name grammar.
//!
//! A directory name such as `10,64,-5` or `10 64 -5` denotes a block
//! position: three coordinates separated by a comma or a space, each read
//! under the lenient grammar of [`crate::num::parse_coord_spec`].

use vstd::prelude::*;

use crate::num::{
    digits_end, format_i32, int_decimal, is_digit, lemma_coord_format_i32, lemma_dec_digits,
    parse_coord, parse_coord_spec, BYTE_MINUS,
};

verus! {

pub const BYTE_COMMA: u8 = 44;

pub const BYTE_SPACE: u8 = 32;

#[derive(Clone, Copy, Debug, PartialEq, Eq, Structural)]
pub struct BlockPos {
    pub x: i32,
    pub y: i32,
    pub z: i32,
}

#[derive(Clone, Copy, Debug, PartialEq, Eq, Structural)]
pub enum Dimension {
    Overworld,
    Nether,
    End,
}

/// The path segment naming a dimension's directory.
pub fn dimension_name(d: Dimension) -> (r: &'static str)
    ensures
        d == Dimension::Overworld ==> r == "overworld",
        d == Dimension::Nether ==> r == "nether",
        d == Dimension::End ==> r == "end",
{
    match d {
        Dimension::Overworld => "overworld",
        Dimension::Nether => "nether",
        Dimension::End => "end",
    }
}

pub open spec fn is_sep(b: u8) -> bool {
    b == BYTE_COMMA || b == BYTE_SPACE
}

/// The first separator index at or after `i`, or the length.
pub open spec fn sep_index(s: Seq<u8>, i: int) -> int
    decreases s.len() - i,
{
    if i < 0 || i >= s.len() || is_sep(s[i]) {
        i
    } else {
        sep_index(s, i + 1)
    }
}

pub proof fn lemma_sep_index(s: Seq<u8>, a: int, e: int)
    requires
        0 <= a <= e <= s.len(),
        forall|i: int| a <= i < e ==> !is_sep(#[trigger] s[i]),
        e == s.len() || is_sep(s[e]),
    ensures
        sep_index(s, a) == e,
    decreases e - a,
{
    if a < e {
        lemma_sep_index(s, a + 1, e);
    }
}

/// The block-coordinate name grammar: exactly three coordinate fields, the
/// first two ended by the first two separators, the third running to the end
/// of the name (so a third separator makes the name invalid).
pub open spec fn parse_block_position_spec(s: Seq<u8>) -> Option<(int, int, int)> {
    let a = sep_index(s, 0);
    if a == s.len() {
        None
    } else {
        let b = sep_index(s, a + 1);
        if b == s.len() {
            None
        } else {
            let px = parse_coord_spec(s.subrange(0, a));
            let py = parse_coord_spec(s.subrange(a + 1, b));
            let pz = parse_coord_spec(s.subrange(b + 1, s.len() as int));
            if px is Some && py is Some && pz is Some {
                Some((px->Some_0, py->Some_0, pz->Some_0))
            } else {
                None
            }
        }
    }
}

/// Find the first separator at or after `from`.
fn find_sep(s: &[u8], from: usize) -> (r: usize)
    requires
        from <= s@.len(),
    ensures
        r == sep_index(s@, from as int),
        from <= r <= s@.len(),
        r < s@.len() ==> is_sep(s@[r as int]),
{
    let mut i: usize = from;
    while i < s.len() && s[i] != BYTE_COMMA && s[i] != BYTE_SPACE
        invariant
            from <= i <= s@.len(),
            forall|j: int| from <= j < i ==> !is_sep(#[trigger] s@[j]),
        decreases s@.len() - i,
    {
        i = i + 1;
    }
    proof {
        lemma_sep_index(s@, from as int, i as int);
    }
    i
}

/// Parse a name as a block position, if it has the shape of one.
pub fn parse_block_position(s: &[u8]) -> (r: Option<BlockPos>)
    ensures
        match r {
            Some(p) => parse_block_position_spec(s@) == Some(
                (p.x as int, p.y as int, p.z as int),
            ),
            None => parse_block_position_spec(s@) is None,
        },
{
    let len = s.len();
    let a = find_sep(s, 0);
    if a == len {
        return None;
    }
    let b = find_sep(s, a + 1);
    if b == len {
        return None;
    }
    let seg_x = slice_subrange(s, 0, a);
    let seg_y = slice_subrange(s, a + 1, b);
    let seg_z = slice_subrange(s, b + 1, len);
    let px = parse_coord(seg_x);
    let py = parse_coord(seg_y);
    let pz = parse_coord(seg_z);
    match (px, py, pz) {
        (Some(x), Some(y), Some(z)) => Some(BlockPos { x, y, z }),
        _ => None,
    }
}

/// Take the subslice `[a, b)` of `s`.
fn slice_subrange(s: &[u8], a: usize, b: usize) -> (r: &[u8])
    requires
        a <= b <= s@.len(),
    ensures
        r@ == s@.subrange(a as int, b as int),
{
    &s[a..b]
}

/// Like the block-coordinate name grammar, but each field is a strict
/// decimal integer: no fractional part, no saturation.
pub open spec fn parse_block_position_strict_spec(s: Seq<u8>) -> Option<(int, int, int)> {
    let a = sep_index(s, 0);
    if a == s.len() {
        None
    } else {
        let b = sep_index(s, a + 1);
        if b == s.len() {
            None
        } else {
            let px = crate::num::parse_i32_spec(s.subrange(0, a));
            let py = crate::num::parse_i32_spec(s.subrange(a + 1, b));
            let pz = crate::num::parse_i32_spec(s.subrange(b + 1, s.len() as int));
            if px is Some && py is Some && pz is Some {
                Some((px->Some_0, py->Some_0, pz->Some_0))
            } else {
                None
            }
        }
    }
}

/// Parse three strict integers separated by a comma or a space.
pub fn parse_block_position_strict(s: &[u8]) -> (r: Option<BlockPos>)
    ensures
        match r {
            Some(p) => parse_block_position_strict_spec(s@) == Some(
                (p.x as int, p.y as int, p.z as int),
            ),
            None => parse_block_position_strict_spec(s@) is None,
        },
{
    let len = s.len();
    let a = find_sep(s, 0);
    if a == len {
        return None;
    }
    let b = find_sep(s, a + 1);
    if b == len {
        return None;
    }
    let px = crate::num::parse_i32(slice_subrange(s, 0, a));
    let py = crate::num::parse_i32(slice_subrange(s, a + 1, b));
    let pz = crate::num::parse_i32(slice_subrange(s, b + 1, len));
    match (px, py, pz) {
        (Some(x), Some(y), Some(z)) => Some(BlockPos { x, y, z }),
        _ => None,
    }
}

/// The canonical `x,y,z` spelling of a block position.
pub open spec fn format_block_position_spec(p: BlockPos) -> Seq<u8> {
    int_decimal(p.x as int) + seq![BYTE_COMMA] + int_decimal(p.y as int) + seq![BYTE_COMMA]
        + int_decimal(p.z as int)
}

pub fn format_block_position(p: &BlockPos) -> (r: Vec<u8>)
    ensures
        r@ == format_block_position_spec(*p),
{
    let mut out = format_i32(p.x);
    out.push(BYTE_COMMA);
    let mut ybytes = format_i32(p.y);
    out.append(&mut ybytes);
    out.push(BYTE_COMMA);
    let mut zbytes = format_i32(p.z);
    out.append(&mut zbytes);
    proof {
        assert(out@ =~= format_block_position_spec(*p));
    }
    out
}

/// A canonical integer spelling holds no separator and no dot, and starts
/// with a sign or digit only.
proof fn lemma_int_decimal_plain(v: int)
    requires
        i32::MIN <= v <= i32::MAX,
    ensures
        forall|i: int|
            0 <= i < int_decimal(v).len() ==> !is_sep(#[trigger] int_decimal(v)[i]),
        int_decimal(v).len() >= 1,
{
    if v < 0 {
        lemma_dec_digits((-v) as nat);
        assert forall|i: int| 0 <= i < int_decimal(v).len() implies !is_sep(
            #[trigger] int_decimal(v)[i],
        ) by {
            if i > 0 {
                assert(int_decimal(v)[i] == dec_digits_of(v)[i - 1]);
                assert(is_digit(int_decimal(v)[i]));
            }
        }
    } else {
        lemma_dec_digits(v as nat);
        assert forall|i: int| 0 <= i < int_decimal(v).len() implies !is_sep(
            #[trigger] int_decimal(v)[i],
        ) by {
            assert(is_digit(int_decimal(v)[i]));
        }
    }
}

/// The digit part of a canonical spelling of a negative value.
spec fn dec_digits_of(v: int) -> Seq<u8> {
    crate::num::dec_digits((if v < 0 {
        -v
    } else {
        v
    }) as nat)
}

/// Parsing is a left inverse of the canonical `x,y,z` format, over the whole
/// `i32` range of each coordinate.
pub proof fn lemma_parse_format_block_position(p: BlockPos)
    ensures
        parse_block_position_spec(format_block_position_spec(p)) == Some(
            (p.x as int, p.y as int, p.z as int),
        ),
{
    let sx = int_decimal(p.x as int);
    let sy = int_decimal(p.y as int);
    let sz = int_decimal(p.z as int);
    let s = format_block_position_spec(p);
    lemma_int_decimal_plain(p.x as int);
    lemma_int_decimal_plain(p.y as int);
    lemma_int_decimal_plain(p.z as int);
    let a = sx.len() as int;
    let b = a + 1 + sy.len();
    assert(s.len() == sx.len() + 1 + sy.len() + 1 + sz.len());
    assert forall|i: int| 0 <= i < a implies !is_sep(#[trigger] s[i]) by {
        assert(s[i] == sx[i]);
    }
    assert(is_sep(s[a]));
    lemma_sep_index(s, 0, a);
    assert forall|i: int| a + 1 <= i < b implies !is_sep(#[trigger] s[i]) by {
        assert(s[i] == sy[i - (a + 1)]);
    }
    assert(is_sep(s[b]));
    lemma_sep_index(s, a + 1, b);
    assert(s.subrange(0, a) =~= sx);
    assert(s.subrange(a + 1, b) =~= sy);
    assert(s.subrange(b + 1, s.len() as int) =~= sz);
    lemma_coord_format_i32(p.x);
    lemma_coord_format_i32(p.y);
    lemma_coord_format_i32(p.z);
}

} // verus!
