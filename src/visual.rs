//! False-colour rendering of a disparity grid: each offset becomes a hue,
//! and each hue an RGB triple at full saturation and value.
use crate::model::{DisparityError, DisparityGrid, VisualizationImage};
use vstd::prelude::*;

verus! {

/// Hue of a disparity: `200 * (max_disparity - disparity) / max_disparity`,
/// rounded down, so offset 0 gets 200 and larger offsets smaller hues; an
/// offset at or past `max_disparity` gets 0.
pub open spec fn hue_spec(disparity: int, max_disparity: int) -> int {
    if disparity >= max_disparity {
        0
    } else {
        200 * (max_disparity - disparity) / max_disparity
    }
}

/// Denominator of the hue fraction: hue bytes span six sectors of 255/6, so
/// `h * 6 / 255 == 2h / 85`, and saturation is a fraction of 255.
pub const HUE_SCALE: u32 = 85;

/// `255 * 85`, the common denominator of `s/255 * f` with `f = r/85`.
pub const SV_SCALE: u32 = 21675;

/// Sector of a hue byte: the integer part of `h * 6 / 255`.
pub open spec fn hsv_sector(h: u8) -> int {
    (2 * h) / (HUE_SCALE as int)
}

/// Fractional part of `h * 6 / 255`, in 85ths.
pub open spec fn hsv_frac(h: u8) -> int {
    (2 * h) % (HUE_SCALE as int)
}

/// `v * (1 - s/255)`, rounded down.
pub open spec fn hsv_p(s: u8, v: u8) -> u8 {
    ((v * (255 - s)) / 255) as u8
}

/// `v * (1 - s/255 * f)`, rounded down.
pub open spec fn hsv_q(h: u8, s: u8, v: u8) -> u8 {
    ((v * (SV_SCALE - s * hsv_frac(h))) / (SV_SCALE as int)) as u8
}

/// `v * (1 - s/255 * (1 - f))`, rounded down.
pub open spec fn hsv_t(h: u8, s: u8, v: u8) -> u8 {
    ((v * (SV_SCALE - s * (HUE_SCALE - hsv_frac(h)))) / (SV_SCALE as int)) as u8
}

/// The RGB triple of hue, saturation and value bytes, the sector taken modulo 6.
pub open spec fn hsv_rgb(h: u8, s: u8, v: u8) -> Seq<u8> {
    let p = hsv_p(s, v);
    let q = hsv_q(h, s, v);
    let t = hsv_t(h, s, v);
    let i = hsv_sector(h) % 6;
    if i == 0 {
        seq![v, t, p]
    } else if i == 1 {
        seq![q, v, p]
    } else if i == 2 {
        seq![p, v, t]
    } else if i == 3 {
        seq![p, q, v]
    } else if i == 4 {
        seq![t, p, v]
    } else {
        seq![v, p, q]
    }
}

/// The RGB triple that renders one disparity.
pub open spec fn disparity_rgb(disparity: int, max_disparity: int) -> Seq<u8> {
    hsv_rgb(hue_spec(disparity, max_disparity) as u8, 255, 255)
}

/// The triples of a row-major sequence of disparities, one after another.
pub open spec fn render_cells(cells: Seq<usize>, max_disparity: int) -> Seq<u8>
    decreases cells.len(),
{
    if cells.len() == 0 {
        Seq::empty()
    } else {
        render_cells(cells.drop_last(), max_disparity) + disparity_rgb(cells.last() as int, max_disparity)
    }
}

/// The hue byte of a disparity.
pub fn hue_for_disparity(disparity: usize, max_disparity: usize) -> (r: u8)
    requires
        max_disparity > 0,
    ensures
        r as int == hue_spec(disparity as int, max_disparity as int),
{
    if disparity >= max_disparity {
        0
    } else {
        let num: u128 = 200u128 * ((max_disparity - disparity) as u128);
        let q: u128 = num / (max_disparity as u128);
        assert(q <= 200) by (nonlinear_arith)
            requires
                q == num / (max_disparity as u128),
                num <= 200 * (max_disparity as u128),
                max_disparity > 0,
        ;
        q as u8
    }
}

/// `v * n / d` rounded down stays within `v` when `n <= d`.
proof fn lemma_scaled_le(v: int, n: int, d: int)
    requires
        0 <= v,
        0 <= n <= d,
        0 < d,
    ensures
        0 <= (v * n) / d <= v,
{
    assert(0 <= v * n <= v * d) by (nonlinear_arith)
        requires
            0 <= v,
            0 <= n <= d,
    ;
    assert((v * d) / d == v) by (nonlinear_arith)
        requires
            0 < d,
    ;
    vstd::arithmetic::div_mod::lemma_div_is_ordered(v * n, v * d, d);
    vstd::arithmetic::div_mod::lemma_div_pos_is_pos(v * n, d);
}

/// The RGB triple of hue `h`, saturation `s` and value `v`, all bytes.
pub fn hsv_to_rgb(h: u8, s: u8, v: u8) -> (r: Vec<u8>)
    ensures
        r@ == hsv_rgb(h, s, v),
{
    let h2: u32 = 2 * (h as u32);
    let sector: u32 = h2 / HUE_SCALE;
    let frac: u32 = h2 % HUE_SCALE;
    let sf: u32 = s as u32;
    let vf: u32 = v as u32;
    assert(sf * frac <= 255 * 84) by (nonlinear_arith)
        requires
            sf <= 255,
            frac < 85,
    ;
    assert(sf * (HUE_SCALE - frac) <= 255 * 85) by (nonlinear_arith)
        requires
            sf <= 255,
            frac < 85,
    ;
    let np: u32 = 255 - sf;
    let nq: u32 = SV_SCALE - sf * frac;
    let nt: u32 = SV_SCALE - sf * (HUE_SCALE - frac);
    assert(vf * np <= 255 * 255 && vf * nq <= 255 * 21675 && vf * nt <= 255 * 21675) by (nonlinear_arith)
        requires
            vf <= 255,
            np <= 255,
            nq <= 21675,
            nt <= 21675,
    ;
    proof {
        lemma_scaled_le(vf as int, np as int, 255);
        lemma_scaled_le(vf as int, nq as int, SV_SCALE as int);
        lemma_scaled_le(vf as int, nt as int, SV_SCALE as int);
    }
    let p = ((vf * np) / 255) as u8;
    let q = ((vf * nq) / SV_SCALE) as u8;
    let t = ((vf * nt) / SV_SCALE) as u8;
    let i = sector % 6;
    if i == 0 {
        vec![v, t, p]
    } else if i == 1 {
        vec![q, v, p]
    } else if i == 2 {
        vec![p, v, t]
    } else if i == 3 {
        vec![p, q, v]
    } else if i == 4 {
        vec![t, p, v]
    } else {
        vec![v, p, q]
    }
}

/// The false-colour image of a disparity grid: the same width and height,
/// and for each cell, in order, the triple of its hue at full saturation and
/// value. Refused when `max_disparity` is zero.
pub fn visualize(grid: &DisparityGrid, max_disparity: usize) -> (r: Result<VisualizationImage, DisparityError>)
    ensures
        r is Err <==> max_disparity == 0,
        r matches Ok(img) ==> {
            &&& img.width == grid.width
            &&& img.height == grid.height
            &&& img.pixels@ == render_cells(grid.cells@, max_disparity as int)
        },
{
    if max_disparity == 0 {
        return Err(DisparityError::InvalidInput);
    }
    let mut pixels: Vec<u8> = Vec::new();
    let n = grid.cells.len();
    assert(grid.cells@.take(0) =~= Seq::<usize>::empty());
    for i in 0..n
        invariant
            n == grid.cells@.len(),
            max_disparity > 0,
            pixels@ == render_cells(grid.cells@.take(i as int), max_disparity as int),
    {
        let hue = hue_for_disparity(grid.cells[i], max_disparity);
        let rgb = hsv_to_rgb(hue, 255, 255);
        let ghost before = pixels@;
        pixels.push(rgb[0]);
        pixels.push(rgb[1]);
        pixels.push(rgb[2]);
        proof {
            let next = grid.cells@.take(i + 1);
            assert(next.drop_last() =~= grid.cells@.take(i as int));
            assert(next.last() == grid.cells@[i as int]);
            assert(rgb@ =~= seq![rgb@[0], rgb@[1], rgb@[2]]);
            assert(pixels@ =~= before + rgb@);
        }
    }
    assert(grid.cells@.take(n as int) =~= grid.cells@);
    Ok(VisualizationImage { width: grid.width, height: grid.height, pixels })
}

} // verus!
