//! CPU generation of RGBA8 mip chains with a 2x2 box filter.

use vstd::prelude::*;
use vstd::arithmetic::div_mod::lemma_fundamental_div_mod_converse;
use vstd::arithmetic::mul::lemma_mul_inequality;

use crate::ids::ValidationError;
use crate::texture::texture::bit_length;

verus! {

/// The smaller of two naturals.
pub open spec fn min_nat(a: nat, b: nat) -> nat {
    if a <= b {
        a
    } else {
        b
    }
}

/// Size of the next, halved mip dimension (never below one).
pub open spec fn half_dim(v: nat) -> nat {
    if v / 2 == 0 {
        1
    } else {
        v / 2
    }
}

/// Index of channel `c` of the source texel `(sx, sy)` in a level of width `cw`.
pub open spec fn texel_index(cw: nat, sx: nat, sy: nat, c: nat) -> nat {
    (sy * cw + sx) * 4 + c
}

/// Source texel sampled for block offset `(ox, oy)` of target texel `(x, y)`,
/// clamped to the edge of a `cw x ch` level.
pub open spec fn sample_index(cw: nat, ch: nat, x: nat, y: nat, ox: nat, oy: nat, c: nat) -> nat {
    texel_index(
        cw,
        min_nat(x * 2 + ox, (cw - 1) as nat),
        min_nat(y * 2 + oy, (ch - 1) as nat),
        c,
    )
}

/// Channel `c` of target texel `(x, y)`: the truncated mean of the 2x2 source block.
pub open spec fn block_average(cur: Seq<u8>, cw: nat, ch: nat, x: nat, y: nat, c: nat) -> u8 {
    ((cur[sample_index(cw, ch, x, y, 0, 0, c) as int] + cur[sample_index(cw, ch, x, y, 1, 0, c) as int]
        + cur[sample_index(cw, ch, x, y, 0, 1, c) as int] + cur[sample_index(
        cw,
        ch,
        x,
        y,
        1,
        1,
        c,
    ) as int]) / 4) as u8
}

/// The level that follows the `cw x ch` RGBA8 level `cur`.
pub open spec fn downsample(cur: Seq<u8>, cw: nat, ch: nat) -> Seq<u8> {
    let nw = half_dim(cw);
    let nh = half_dim(ch);
    Seq::new(
        nw * nh * 4,
        |i: int|
            {
                let p = i / 4;
                block_average(cur, cw, ch, (p % (nw as int)) as nat, (p / (nw as int)) as nat, (i % 4) as nat)
            },
    )
}

/// The full mip chain of a `w x h` RGBA8 image, from the base level down to `1 x 1`.
pub open spec fn mip_chain(data: Seq<u8>, w: nat, h: nat) -> Seq<Seq<u8>>
    decreases w + h,
{
    if w == 0 || h == 0 || (w <= 1 && h <= 1) {
        seq![data]
    } else {
        seq![data] + mip_chain(downsample(data, w, h), half_dim(w), half_dim(h))
    }
}

/// The inputs on which the row-major texel index of the base level no longer
/// fits in 32 bits while a chain is being built.
pub open spec fn mip_index_overflows(len: nat, width: u32, height: u32) -> bool {
    &&& width > 0
    &&& height > 0
    &&& len == width * height * 4
    &&& (width > 1 || height > 1)
    &&& (width * height - 1) * 4 > u32::MAX
}

/// Box filter law: the level after a `w x h` RGBA8 level has
/// `max(w / 2, 1) x max(h / 2, 1)` texels, and channel `c` of its texel
/// `(x, y)` is the truncated mean of that channel over source columns `2x`,
/// `2x + 1` and rows `2y`, `2y + 1`, each clamped to the last column or row.
pub proof fn lemma_next_level_is_box_filtered(data: Seq<u8>, w: nat, h: nat, x: nat, y: nat, c: nat)
    requires
        w > 0,
        h > 0,
        w > 1 || h > 1,
        data.len() == w * h * 4,
        x < (if w / 2 == 0 { 1 } else { w / 2 }),
        y < (if h / 2 == 0 { 1 } else { h / 2 }),
        c < 4,
    ensures
        ({
            let nw: nat = if w / 2 == 0 { 1 } else { w / 2 };
            let nh: nat = if h / 2 == 0 { 1 } else { h / 2 };
            let next = mip_chain(data, w, h)[1];
            let x0: int = if 2 * x < w { 2 * x as int } else { w - 1 };
            let x1: int = if 2 * x + 1 < w { 2 * x + 1 as int } else { w - 1 };
            let y0: int = if 2 * y < h { 2 * y as int } else { h - 1 };
            let y1: int = if 2 * y + 1 < h { 2 * y + 1 as int } else { h - 1 };
            &&& mip_chain(data, w, h).len() >= 2
            &&& mip_chain(data, w, h)[0] == data
            &&& next.len() == nw * nh * 4
            &&& next[((y * nw + x) * 4 + c) as int] as int == (data[(y0 * w + x0) * 4 + c] + data[(y0 * w + x1) * 4 + c]
                + data[(y1 * w + x0) * 4 + c] + data[(y1 * w + x1) * 4 + c]) / 4
        }),
{
    reveal_with_fuel(mip_chain, 2);
    let nw = half_dim(w);
    let nh = half_dim(h);
    let next = downsample(data, w, h);
    assert(mip_chain(data, w, h) == seq![data] + mip_chain(next, nw, nh));
    assert(mip_chain(next, nw, nh)[0] == next);
    assert(mip_chain(data, w, h)[1] == next);
    lemma_decompose(nw, x, y, c);
    assert((y * nw + x) * 4 + c < nw * nh * 4) by (nonlinear_arith)
        requires
            x < nw,
            y < nh,
            c < 4,
    ;
}

/// A chain has one level per binary digit of the larger base side: it halves
/// down to `1 x 1` and stops there.
pub proof fn lemma_chain_length(data: Seq<u8>, w: nat, h: nat)
    requires
        w > 0,
        h > 0,
    ensures
        mip_chain(data, w, h).len() == bit_length(if w >= h { w } else { h }),
    decreases w + h,
{
    let m = if w >= h { w } else { h };
    if w <= 1 && h <= 1 {
        assert(m == 1);
        assert(bit_length(1) == 1 + bit_length(0));
    } else {
        let nw = half_dim(w);
        let nh = half_dim(h);
        lemma_chain_length(downsample(data, w, h), nw, nh);
        let nm = if nw >= nh { nw } else { nh };
        assert(nm == m / 2);
        assert(bit_length(m) == 1 + bit_length(m / 2));
    }
}

/// The contents of each level buffer.
pub open spec fn level_views(levels: Seq<Vec<u8>>) -> Seq<Seq<u8>> {
    levels.map_values(|m: Vec<u8>| m@)
}

/// Row-major position `(x, y)` with channel `c` decomposes back into its parts.
proof fn lemma_decompose(nw: nat, x: nat, y: nat, c: nat)
    requires
        nw > 0,
        x < nw,
        c < 4,
    ensures
        ((y * nw + x) * 4 + c) / 4 == y * nw + x,
        ((y * nw + x) * 4 + c) % 4 == c,
        ((y * nw + x) as int) % (nw as int) == x,
        ((y * nw + x) as int) / (nw as int) == y,
{
    lemma_fundamental_div_mod_converse(((y * nw + x) * 4 + c) as int, 4, (y * nw + x) as int, c as int);
    lemma_fundamental_div_mod_converse((y * nw + x) as int, nw as int, y as int, x as int);
}

/// Every clamped sample of a block lies inside the source level.
proof fn lemma_sample_in_bounds(cw: nat, ch: nat, x: nat, y: nat, ox: nat, oy: nat, c: nat)
    requires
        cw > 0,
        ch > 0,
        c < 4,
    ensures
        sample_index(cw, ch, x, y, ox, oy, c) < cw * ch * 4,
{
    let sx = min_nat(x * 2 + ox, (cw - 1) as nat);
    let sy = min_nat(y * 2 + oy, (ch - 1) as nat);
    lemma_mul_inequality(sy as int, (ch - 1) as int, cw as int);
    assert((ch - 1) * cw + cw == ch * cw) by (nonlinear_arith);
    assert(ch * cw == cw * ch) by (nonlinear_arith);
    assert(sy * cw + sx < cw * ch);
}

/// Mean of the 2x2 block feeding target texel `(x, y)`, channel `c`.
fn average_block(cur: &Vec<u8>, cw: usize, ch: usize, x: usize, y: usize, c: usize) -> (r: u8)
    requires
        cw > 0,
        ch > 0,
        c < 4,
        x < half_dim(cw as nat),
        y < half_dim(ch as nat),
        cur@.len() == cw * ch * 4,
    ensures
        r == block_average(cur@, cw as nat, ch as nat, x as nat, y as nat, c as nat),
{
    let mut sum: u32 = 0;
    let mut oy: usize = 0;
    let ghost s = cur@;
    let cur_len = cur.len();
    while oy < 2
        invariant
            oy <= 2,
            cw > 0,
            ch > 0,
            c < 4,
            x < half_dim(cw as nat),
            y < half_dim(ch as nat),
            cur@ == s,
            s.len() == cw * ch * 4,
            cur_len == s.len(),
            sum == (if oy >= 1 {
                s[sample_index(cw as nat, ch as nat, x as nat, y as nat, 0, 0, c as nat) as int]
                    + s[sample_index(cw as nat, ch as nat, x as nat, y as nat, 1, 0, c as nat) as int]
            } else {
                0
            }) + (if oy >= 2 {
                s[sample_index(cw as nat, ch as nat, x as nat, y as nat, 0, 1, c as nat) as int]
                    + s[sample_index(cw as nat, ch as nat, x as nat, y as nat, 1, 1, c as nat) as int]
            } else {
                0
            }),
        decreases 2 - oy,
    {
        let mut ox: usize = 0;
        let row_start = sum;
        while ox < 2
            invariant
                ox <= 2,
                oy < 2,
                cw > 0,
                ch > 0,
                c < 4,
                x < half_dim(cw as nat),
                y < half_dim(ch as nat),
                cur@ == s,
                s.len() == cw * ch * 4,
                cur_len == s.len(),
                row_start <= 510,
                sum == row_start + (if ox >= 1 {
                    s[sample_index(cw as nat, ch as nat, x as nat, y as nat, 0, oy as nat, c as nat) as int]
                } else {
                    0
                }) + (if ox >= 2 {
                    s[sample_index(cw as nat, ch as nat, x as nat, y as nat, 1, oy as nat, c as nat) as int]
                } else {
                    0
                }),
            decreases 2 - ox,
        {
            let tx = x * 2 + ox;
            let sx = if tx < cw - 1 {
                tx
            } else {
                cw - 1
            };
            let ty = y * 2 + oy;
            let sy = if ty < ch - 1 {
                ty
            } else {
                ch - 1
            };
            proof {
                lemma_sample_in_bounds(cw as nat, ch as nat, x as nat, y as nat, ox as nat, oy as nat, c as nat);
                assert(sy * cw <= (ch - 1) * cw) by (nonlinear_arith)
                    requires
                        sy <= ch - 1,
                ;
                assert((ch - 1) * cw + cw == cw * ch) by (nonlinear_arith);
            }
            proof {
                assert(sy * cw + sx < cw * ch);
                assert((sy * cw + sx) * 4 + c < cw * ch * 4);
            }
            let index = (sy * cw + sx) * 4 + c;
            assert(index == sample_index(cw as nat, ch as nat, x as nat, y as nat, ox as nat, oy as nat, c as nat));
            sum = sum + cur[index] as u32;
            ox = ox + 1;
        }
        oy = oy + 1;
    }
    (sum / 4) as u8
}

/// Builds the next, halved level from a `cw x ch` RGBA8 level.
fn downsample_level(cur: &Vec<u8>, cw: usize, ch: usize) -> (next: Vec<u8>)
    requires
        cw > 0,
        ch > 0,
        cur@.len() == cw * ch * 4,
    ensures
        next@ == downsample(cur@, cw as nat, ch as nat),
{
    let nw: usize = if cw / 2 == 0 {
        1
    } else {
        cw / 2
    };
    let nh: usize = if ch / 2 == 0 {
        1
    } else {
        ch / 2
    };
    let ghost target = downsample(cur@, cw as nat, ch as nat);
    proof {
        assert(nw * nh <= cw * ch) by (nonlinear_arith)
            requires
                nw <= cw,
                nh <= ch,
        ;
    }
    let mut next: Vec<u8> = Vec::new();
    let mut y: usize = 0;
    while y < nh
        invariant
            y <= nh,
            nw == half_dim(cw as nat),
            nh == half_dim(ch as nat),
            cw > 0,
            ch > 0,
            cur@.len() == cw * ch * 4,
            nw * nh <= cw * ch,
            target == downsample(cur@, cw as nat, ch as nat),
            next@ == target.take((y * nw * 4) as int),
        decreases nh - y,
    {
        let mut x: usize = 0;
        while x < nw
            invariant
                x <= nw,
                y < nh,
                nw == half_dim(cw as nat),
                nh == half_dim(ch as nat),
                cw > 0,
                ch > 0,
                cur@.len() == cw * ch * 4,
                nw * nh <= cw * ch,
                target == downsample(cur@, cw as nat, ch as nat),
                next@ == target.take(((y * nw + x) * 4) as int),
            decreases nw - x,
        {
            let mut c: usize = 0;
            while c < 4
                invariant
                    c <= 4,
                    x < nw,
                    y < nh,
                    nw == half_dim(cw as nat),
                    nh == half_dim(ch as nat),
                    cw > 0,
                    ch > 0,
                    cur@.len() == cw * ch * 4,
                    nw * nh <= cw * ch,
                    target == downsample(cur@, cw as nat, ch as nat),
                    next@ == target.take(((y * nw + x) * 4 + c) as int),
                decreases 4 - c,
            {
                let value = average_block(cur, cw, ch, x, y, c);
                proof {
                    lemma_decompose(nw as nat, x as nat, y as nat, c as nat);
                    assert((y * nw + x) < nw * nh) by (nonlinear_arith)
                        requires
                            x < nw,
                            y < nh,
                    ;
                    assert(target[((y * nw + x) * 4 + c) as int] == value);
                }
                let ghost before = next@;
                next.push(value);
                assert(next@ =~= target.take(((y * nw + x) * 4 + c + 1) as int));
                c = c + 1;
            }
            x = x + 1;
        }
        assert((y + 1) * nw * 4 == (y * nw + nw) * 4) by (nonlinear_arith);
        y = y + 1;
    }
    assert(nh * nw * 4 == target.len()) by (nonlinear_arith)
        requires
            target.len() == nw * nh * 4,
    ;
    assert(next@ =~= target);
    next
}

/// Generates the RGBA8 mip chain of a `width x height` image, base level first.
pub fn generate(data: &[u8], width: u32, height: u32) -> (r: Result<Vec<Vec<u8>>, ValidationError>)
    requires
        !mip_index_overflows(data@.len(), width, height),
    ensures
        match r {
            Ok(levels) => {
                &&& width > 0 && height > 0 && data@.len() == width * height * 4
                &&& level_views(levels@) == mip_chain(data@, width as nat, height as nat)
            },
            Err(e) => e == ValidationError::OutOfRange && !(width > 0 && height > 0 && data@.len()
                == width * height * 4),
        },
{
    let w = width as usize;
    let h = height as usize;
    let data_len = data.len();
    let expected = match w.checked_mul(h) {
        Some(wh) => wh.checked_mul(4),
        None => None,
    };
    let expected = match expected {
        Some(e) => e,
        None => {
            proof {
                if width > 0 && height > 0 {
                    assert(width * height * 4 >= width * height) by (nonlinear_arith)
                        requires
                            width > 0,
                            height > 0,
                    ;
                }
            }
            return Err(ValidationError::OutOfRange);
        },
    };
    if width == 0 || height == 0 || data.len() != expected {
        return Err(ValidationError::OutOfRange);
    }
    let mut levels: Vec<Vec<u8>> = Vec::new();
    levels.push(vstd::slice::slice_to_vec(data));
    let mut cw: usize = w;
    let mut ch: usize = h;
    assert(level_views(levels@).drop_last() + mip_chain(data@, w as nat, h as nat) =~= mip_chain(
        data@,
        w as nat,
        h as nat,
    ));
    while cw > 1 || ch > 1
        invariant
            levels@.len() >= 1,
            cw > 0,
            ch > 0,
            cw <= w,
            ch <= h,
            levels@.last()@.len() == cw * ch * 4,
            level_views(levels@).drop_last() + mip_chain(levels@.last()@, cw as nat, ch as nat)
                == mip_chain(data@, w as nat, h as nat),
        decreases cw + ch,
    {
        let last = levels.len() - 1;
        let next = downsample_level(&levels[last], cw, ch);
        let nw: usize = if cw / 2 == 0 {
            1
        } else {
            cw / 2
        };
        let nh: usize = if ch / 2 == 0 {
            1
        } else {
            ch / 2
        };
        let ghost old_views = level_views(levels@);
        let ghost cur = levels@.last()@;
        assert(nw * nh * 4 == next@.len());
        levels.push(next);
        proof {
            assert(level_views(levels@).drop_last() =~= old_views);
            assert(old_views =~= old_views.drop_last() + seq![cur]);
            assert(mip_chain(cur, cw as nat, ch as nat) == seq![cur] + mip_chain(
                downsample(cur, cw as nat, ch as nat),
                nw as nat,
                nh as nat,
            ));
            assert(level_views(levels@).drop_last() + mip_chain(levels@.last()@, nw as nat, nh as nat)
                =~= old_views.drop_last() + mip_chain(cur, cw as nat, ch as nat));
        }
        cw = nw;
        ch = nh;
    }
    proof {
        assert(mip_chain(levels@.last()@, cw as nat, ch as nat) == seq![levels@.last()@]);
        assert(level_views(levels@) =~= level_views(levels@).drop_last() + seq![levels@.last()@]);
    }
    Ok(levels)
}

} // verus!
