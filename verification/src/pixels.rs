//! Pixel preparation for texture upload: alpha premultiplication and the
//! block-compression pipeline around `intel_tex_2`.
use crate::assets::TextureCompression;
use intel_tex_2::{RSurface, RgSurface, RgbaSurface};
// The prebuilt texture-compression kernels carry a C++ object, which needs
// the C++ runtime at link time.
use link_cplusplus as _;
use vstd::prelude::*;

verus! {

/// `c * a / 255`, rounded to nearest.
pub open spec fn premultiplied(c: u8, a: u8) -> u8 {
    ((c as int * a as int + 127) / 255) as u8
}

/// Byte `i` of `old` after premultiplying every complete RGBA pixel.
pub open spec fn premultiplied_at(old: Seq<u8>, i: int) -> u8 {
    if i < (old.len() / 4) * 4 && i % 4 != 3 {
        premultiplied(old[i], old[i - i % 4 + 3])
    } else {
        old[i]
    }
}

/// Multiplies the color channels of every complete RGBA8 pixel by its alpha.
/// Alpha bytes, and a trailing incomplete pixel, are left as they are.
pub fn premultiply(pixels: &mut [u8])
    ensures
        final(pixels)@.len() == old(pixels)@.len(),
        forall|i: int|
            0 <= i < old(pixels)@.len() ==> #[trigger] final(pixels)@[i] == premultiplied_at(
                old(pixels)@,
                i,
            ),
{
    let ghost orig = pixels@;
    let n = pixels.len() / 4;
    let mut p: usize = 0;
    while p < n
        invariant
            n == orig.len() / 4,
            p <= n,
            pixels@.len() == orig.len(),
            forall|i: int| 0 <= i < 4 * p ==> #[trigger] pixels@[i] == premultiplied_at(orig, i),
            forall|i: int| 4 * p <= i < orig.len() ==> #[trigger] pixels@[i] == orig[i],
        decreases n - p,
    {
        let len = pixels.len();
        assert(4 * p + 3 < len);
        let base = 4 * p;
        let alpha = pixels[base + 3];
        let r = scale(pixels[base], alpha);
        let g = scale(pixels[base + 1], alpha);
        let b = scale(pixels[base + 2], alpha);
        pixels[base] = r;
        pixels[base + 1] = g;
        pixels[base + 2] = b;
        proof {
            let bi = base as int;
            assert(bi % 4 == 0);
            assert((bi + 1) % 4 == 1);
            assert((bi + 2) % 4 == 2);
            assert((bi + 3) % 4 == 3);
            assert(bi + 3 < (orig.len() / 4) * 4);
            assert forall|i: int| 0 <= i < 4 * (p + 1) implies #[trigger] pixels@[i] == premultiplied_at(orig, i) by {
                if i >= bi {
                    assert(i - i % 4 + 3 == bi + 3);
                }
            }
        }
        p = p + 1;
    }
}

/// `premultiplied`, computed.
fn scale(c: u8, a: u8) -> (r: u8)
    ensures
        r == premultiplied(c, a),
{
    let v = c as u16;
    let alpha = a as u16;
    assert(v * alpha <= 255 * 255) by (nonlinear_arith)
        requires
            v <= 255,
            alpha <= 255,
    ;
    ((v * alpha + 127) / 255) as u8
}

/// `v` rounded up to a multiple of 4.
pub open spec fn round_up4(v: int) -> int {
    (v + 3) / 4 * 4
}

/// Where byte `k` of an image `bw` pixels wide, grown from a `w`×`h` image
/// of `bpp`-byte pixels by repeating its last column and row, comes from.
pub open spec fn padded_source(w: int, h: int, bw: int, bpp: int, k: int) -> int {
    let p = k / bpp;
    let x = p % bw;
    let y = p / bw;
    let sx = if x < w { x } else { w - 1 };
    let sy = if y < h { y } else { h - 1 };
    (sy * w + sx) * bpp + k % bpp
}

/// The `w`×`h` image `src` of `bpp`-byte pixels, row by row, grown to
/// `bw`×`bh` by repeating its last column and its last row.
pub open spec fn padded(src: Seq<u8>, w: int, h: int, bw: int, bh: int, bpp: int) -> Seq<u8> {
    Seq::new((bw * bh * bpp) as nat, |k: int| src[padded_source(w, h, bw, bpp, k)])
}

proof fn lemma_split(k: int, d: int, q: int, r: int)
    requires
        d > 0,
        0 <= r < d,
        k == q * d + r,
    ensures
        k / d == q,
        k % d == r,
{
    vstd::arithmetic::div_mod::lemma_fundamental_div_mod_converse(k, d, q, r);
}

proof fn lemma_pixel_in_image(sx: int, sy: int, w: int, h: int, bpp: int, c: int)
    by (nonlinear_arith)
    requires
        0 <= sx < w,
        0 <= sy < h,
        0 <= c < bpp,
    ensures
        0 <= (sy * w + sx) * bpp + c < w * h * bpp,
        sy * w + sx < w * h,
{
    assert(sy * w + sx <= (h - 1) * w + w - 1);
    assert((sy * w + sx) * bpp + c <= (w * h - 1) * bpp + bpp - 1);
}

proof fn lemma_mul_bounds(a: int, b: int, c: int)
    by (nonlinear_arith)
    requires
        0 <= a,
        0 <= b,
        0 <= c,
    ensures
        a * b * c == (a * b) * c,
        0 <= a * b,
        b > 0 ==> a <= a * b,
{
}

/// Grows the `w`×`h` image `src` of `bpp`-byte pixels to `bw`×`bh` pixels by
/// repeating its last column and row.
pub fn pad_image(src: &[u8], w: u32, h: u32, bw: u32, bh: u32, bpp: usize) -> (r: Vec<u8>)
    requires
        1 <= w <= bw,
        1 <= h <= bh,
        1 <= bpp,
        src@.len() == w * h * bpp,
        bw * bh * bpp <= usize::MAX,
    ensures
        r@ == padded(src@, w as int, h as int, bw as int, bh as int, bpp as int),
{
    let ghost spec = padded(src@, w as int, h as int, bw as int, bh as int, bpp as int);
    proof {
        lemma_mul_bounds(bw as int, bh as int, bpp as int);
        lemma_mul_bounds(bw as int * bh as int, bpp as int, 1);
    }
    let n: usize = (bw as usize) * (bh as usize);
    let total = src.len();
    let mut out: Vec<u8> = Vec::new();
    let mut p: usize = 0;
    while p < n
        invariant
            n == bw * bh,
            n * bpp <= usize::MAX,
            1 <= w <= bw,
            1 <= h <= bh,
            1 <= bpp,
            src@.len() == w * h * bpp,
            src@.len() == total,
            spec == padded(src@, w as int, h as int, bw as int, bh as int, bpp as int),
            p <= n,
            out@.len() == p * bpp,
            forall|k: int| 0 <= k < out@.len() ==> #[trigger] out@[k] == spec[k],
        decreases n - p,
    {
        let x = p % (bw as usize);
        let y = p / (bw as usize);
        let sx = if x < w as usize { x } else { w as usize - 1 };
        let sy = if y < h as usize { y } else { h as usize - 1 };
        proof {
            vstd::arithmetic::div_mod::lemma_fundamental_div_mod(p as int, bw as int);
            assert(y < bh) by (nonlinear_arith)
                requires
                    p < bw * bh,
                    p == bw * y + x,
                    0 <= x,
                    bw > 0,
            ;
            lemma_pixel_in_image(sx as int, sy as int, w as int, h as int, bpp as int, 0);
            lemma_mul_bounds(p as int, bpp as int, 1);
            lemma_mul_bounds(sy as int * w as int + sx as int, bpp as int, 1);
            assert(src@.len() <= usize::MAX);
            assert(0 <= sy * w);
            assert((p + 1) * bpp <= n * bpp) by (nonlinear_arith)
                requires
                    p + 1 <= n,
                    bpp >= 1,
            ;
        }
        let base = (sy * (w as usize) + sx) * bpp;
        let mut c: usize = 0;
        while c < bpp
            invariant
                n == bw * bh,
                n * bpp <= usize::MAX,
                1 <= w <= bw,
                1 <= h <= bh,
                1 <= bpp,
                src@.len() == w * h * bpp,
                src@.len() == total,
                spec == padded(src@, w as int, h as int, bw as int, bh as int, bpp as int),
                p < n,
                (p + 1) * bpp <= n * bpp,
                x == p as int % bw as int,
                y == p as int / bw as int,
                sx == (if x < w { x as int } else { w - 1 }),
                sy == (if y < h { y as int } else { h - 1 }),
                sx < w,
                sy < h,
                base == (sy * w + sx) * bpp,
                c <= bpp,
                out@.len() == p * bpp + c,
                forall|k: int| 0 <= k < out@.len() ==> #[trigger] out@[k] == spec[k],
            decreases bpp - c,
        {
            proof {
                lemma_pixel_in_image(sx as int, sy as int, w as int, h as int, bpp as int, c as int);
                assert(src@.len() <= usize::MAX);
                lemma_split(p * bpp + c, bpp as int, p as int, c as int);
                assert(p * bpp + c < (p + 1) * bpp) by (nonlinear_arith)
                    requires
                        c < bpp,
                ;
                assert(padded_source(w as int, h as int, bw as int, bpp as int, p * bpp + c) == base + c);
            }
            out.push(src[base + c]);
            c = c + 1;
        }
        proof {
            assert(p * bpp + bpp == (p + 1) * bpp) by (nonlinear_arith);
        }
        p = p + 1;
    }
    proof {
        assert(out@ =~= spec);
    }
    out
}

/// BC2 keeps four bits of alpha: `a` rounded to the nearest multiple of 17.
pub open spec fn bc2_alpha(a: u8) -> u8 {
    ((a as int + 8) / 17 * 17) as u8
}

/// Byte `i` of `s` after rounding the alpha of every complete pixel to
/// four bits.
pub open spec fn quantized_at(s: Seq<u8>, i: int) -> u8 {
    if i < s.len() / 4 * 4 && i % 4 == 3 {
        bc2_alpha(s[i])
    } else {
        s[i]
    }
}

/// Rounds the alpha of every complete RGBA8 pixel to a multiple of 17.
pub fn quantize_alpha(pixels: &mut Vec<u8>)
    ensures
        final(pixels)@.len() == old(pixels)@.len(),
        forall|i: int| 0 <= i < old(pixels)@.len() ==> #[trigger] final(pixels)@[i] == quantized_at(old(pixels)@, i),
{
    let ghost orig = pixels@;
    let len = pixels.len();
    let n = len / 4;
    let mut p: usize = 0;
    while p < n
        invariant
            n == orig.len() / 4,
            len == orig.len(),
            p <= n,
            pixels@.len() == orig.len(),
            forall|i: int| 0 <= i < 4 * p ==> #[trigger] pixels@[i] == quantized_at(orig, i),
            forall|i: int| 4 * p <= i < orig.len() ==> #[trigger] pixels@[i] == orig[i],
        decreases n - p,
    {
        let k = 4 * p + 3;
        let a = pixels[k] as u16;
        let q = ((a + 8) / 17 * 17) as u8;
        pixels.set(k, q);
        proof {
            assert forall|i: int| 0 <= i < 4 * (p + 1) implies #[trigger] pixels@[i] == quantized_at(orig, i) by {
                if i >= 4 * p {
                    assert(i < orig.len() / 4 * 4);
                }
            }
        }
        p = p + 1;
    }
}

/// The red bytes of the RGBA8 pixels of `s`.
pub open spec fn red_channel(s: Seq<u8>) -> Seq<u8> {
    Seq::new(s.len() / 4, |p: int| s[4 * p])
}

/// The red and green bytes of the RGBA8 pixels of `s`, interleaved.
pub open spec fn red_green_channels(s: Seq<u8>) -> Seq<u8> {
    Seq::new(s.len() / 4 * 2, |k: int| s[4 * (k / 2) + k % 2])
}

/// The first `count` bytes of every 4-byte pixel of `s`.
fn channels(s: &Vec<u8>, count: usize) -> (r: Vec<u8>)
    requires
        count == 1 || count == 2,
    ensures
        count == 1 ==> r@ == red_channel(s@),
        count == 2 ==> r@ == red_green_channels(s@),
{
    let len = s.len();
    let n = len / 4;
    let mut r: Vec<u8> = Vec::new();
    let mut p: usize = 0;
    while p < n
        invariant
            n == s@.len() / 4,
            len == s@.len(),
            count == 1 || count == 2,
            p <= n,
            r@.len() == p * count,
            count == 1 ==> forall|q: int| 0 <= q < r@.len() ==> #[trigger] r@[q] == red_channel(s@)[q],
            count == 2 ==> forall|q: int| 0 <= q < r@.len() ==> #[trigger] r@[q] == red_green_channels(s@)[q],
        decreases n - p,
    {
        r.push(s[4 * p]);
        if count == 2 {
            r.push(s[4 * p + 1]);
        }
        p = p + 1;
    }
    proof {
        if count == 1 {
            assert(r@ =~= red_channel(s@));
        } else {
            assert(r@ =~= red_green_channels(s@));
        }
    }
    r
}

/// Four-bit alpha: `a * 15 / 255`, rounded to nearest.
pub open spec fn alpha4(a: u8) -> int {
    (a as int * 15 + 127) / 255
}

/// The pixel index of pixel `j` (0 to 15, row by row) of 4×4 block `n`
/// (row by row) of an image `bw` pixels wide.
pub open spec fn block_pixel(bw: int, n: int, j: int) -> int {
    let cw = bw / 4;
    (n / cw * 4 + j / 4) * bw + n % cw * 4 + j % 4
}

/// Alpha byte `i` (0 to 7) of BC2 block `n`: pixels `2i` and `2i + 1` of
/// the block, four bits each, the first in the low half.
pub open spec fn bc2_alpha_byte(img: Seq<u8>, bw: int, n: int, i: int) -> u8 {
    (alpha4(img[block_pixel(bw, n, 2 * i) * 4 + 3]) + 16 * alpha4(img[block_pixel(bw, n, 2 * i + 1) * 4 + 3])) as u8
}

/// BC3 blocks of `img` turned into BC2 blocks: the first 8 bytes of each
/// 16-byte block are replaced by explicit four-bit alpha.
pub open spec fn with_bc2_alpha(blocks: Seq<u8>, img: Seq<u8>, bw: int) -> Seq<u8> {
    Seq::new(blocks.len(), |k: int| if k % 16 < 8 { bc2_alpha_byte(img, bw, k / 16, k % 16) } else { blocks[k] })
}

proof fn lemma_block_pixel(cw: int, ch: int, n: int, j: int)
    requires
        cw > 0,
        ch > 0,
        0 <= n < cw * ch,
        0 <= j < 16,
    ensures
        0 <= block_pixel(4 * cw, n, j) < (4 * cw) * (4 * ch),
{
    assert((4 * cw) / 4 == cw);
    vstd::arithmetic::div_mod::lemma_fundamental_div_mod(n, cw);
    let q = n / cw;
    let r = n % cw;
    assert(q < ch) by (nonlinear_arith)
        requires
            n == cw * q + r,
            0 <= r,
            n < cw * ch,
            cw > 0,
    ;
    assert(0 <= q) by (nonlinear_arith)
        requires
            n == cw * q + r,
            r < cw,
            n >= 0,
            cw > 0,
    ;
    assert(0 <= (q * 4 + j / 4) * (4 * cw) + r * 4 + j % 4 < (4 * cw) * (4 * ch)) by (nonlinear_arith)
        requires
            0 <= q < ch,
            0 <= r < cw,
            0 <= j / 4 < 4,
            0 <= j % 4 < 4,
            cw > 0,
    ;
}

fn four_bits(a: u8) -> (r: u8)
    ensures
        r == alpha4(a),
        r < 16,
{
    (((a as u16) * 15 + 127) / 255) as u8
}

/// Writes the BC2 alpha of the 4×4 blocks of `img` (RGBA8, `bw`×`bh`) into
/// the first half of each 16-byte block of `blocks`.
fn set_bc2_alpha(blocks: &mut Vec<u8>, img: &Vec<u8>, bw: u32, bh: u32)
    requires
        bw % 4 == 0,
        bh % 4 == 0,
        bw > 0,
        bh > 0,
        img@.len() == bw * bh * 4,
        old(blocks)@.len() == bw * bh / 16 * 16,
        bw * bh * 4 <= usize::MAX,
    ensures
        final(blocks)@ == with_bc2_alpha(old(blocks)@, img@, bw as int),
{
    let ghost orig = blocks@;
    let ghost cw: int = (bw / 4) as int;
    let ghost ch: int = (bh / 4) as int;
    assert(bw * bh / 16 == cw * ch) by (nonlinear_arith)
        requires
            bw == 4 * cw,
            bh == 4 * ch,
    ;
    let count = blocks.len() / 16;
    let per_row = (bw / 4) as usize;
    let w = bw as usize;
    let mut n: usize = 0;
    while n < count
        invariant
            bw == 4 * cw,
            bh == 4 * ch,
            cw > 0,
            ch > 0,
            per_row == cw,
            w == bw,
            count == cw * ch,
            img@.len() == bw * bh * 4,
            bw * bh * 4 <= usize::MAX,
            orig.len() == count * 16,
            orig.len() <= usize::MAX,
            blocks@.len() == orig.len(),
            n <= count,
            forall|k: int| 0 <= k < 16 * n ==> #[trigger] blocks@[k] == with_bc2_alpha(orig, img@, bw as int)[k],
            forall|k: int| 16 * n <= k < orig.len() ==> #[trigger] blocks@[k] == orig[k],
        decreases count - n,
    {
        proof {
            vstd::arithmetic::div_mod::lemma_fundamental_div_mod(n as int, cw);
            assert(n as int / cw < ch) by (nonlinear_arith)
                requires
                    n == cw * (n as int / cw) + n as int % cw,
                    0 <= n as int % cw,
                    n < cw * ch,
                    cw > 0,
            ;
        }
        let bx = n % per_row * 4;
        let by = n / per_row * 4;
        let mut i: usize = 0;
        while i < 8
            invariant
                bw == 4 * cw,
                bh == 4 * ch,
                cw > 0,
                ch > 0,
                per_row == cw,
                w == bw,
                count == cw * ch,
                img@.len() == bw * bh * 4,
                bw * bh * 4 <= usize::MAX,
                orig.len() == count * 16,
                orig.len() <= usize::MAX,
                blocks@.len() == orig.len(),
                n < count,
                bx == n % per_row * 4,
                by == n / per_row * 4,
                i <= 8,
                forall|k: int| 0 <= k < 16 * n + i ==> #[trigger] blocks@[k] == with_bc2_alpha(orig, img@, bw as int)[k],
                forall|k: int| 16 * n + i <= k < orig.len() ==> #[trigger] blocks@[k] == orig[k],
            decreases 8 - i,
        {
            proof {
                lemma_block_pixel(cw, ch, n as int, 2 * i as int);
                lemma_block_pixel(cw, ch, n as int, 2 * i as int + 1);
                assert((16 * n + 16) <= count * 16) by (nonlinear_arith)
                    requires
                        n < count,
                ;
                assert((4 * cw) * (4 * ch) == bw * bh);
            }
            let pa = (by + i * 2 / 4) * w + bx + i * 2 % 4;
            let pb = (by + (i * 2 + 1) / 4) * w + bx + (i * 2 + 1) % 4;
            assert(pa == block_pixel(bw as int, n as int, 2 * i as int));
            assert(pb == block_pixel(bw as int, n as int, 2 * i as int + 1));
            let a = four_bits(img[pa * 4 + 3]);
            let b = four_bits(img[pb * 4 + 3]);
            let byte = a | b << 4;
            assert(byte == a + 16 * b) by (bit_vector)
                requires
                    a < 16,
                    b < 16,
                    byte == a | b << 4,
            ;
            let k = 16 * n + i;
            blocks.set(k, byte);
            proof {
                lemma_split(k as int, 16, n as int, i as int);
            }
            i = i + 1;
        }
        n = n + 1;
    }
    proof {
        assert(blocks@ =~= with_bc2_alpha(orig, img@, bw as int));
    }
}

/// The size `intel_tex_2` gives the output: one block of `block_bytes`
/// bytes per 16 pixels, rounded up.
///
/// Of the compression wrappers below only this size is stated: the blocks
/// come from prebuilt kernels that pick their instruction set at run time
/// and compute in floating point, so nothing here says which blocks a given
/// surface gives. The kernels take the sizes and the stride as `i32` and
/// address the surface with 32-bit offsets, so each wrapper admits only
/// surfaces of at most `i32::MAX` bytes.
pub open spec fn compressed_len(width: u32, height: u32, block_bytes: int) -> int {
    (width * height + 15) / 16 * block_bytes
}

/// `intel_tex_2::bc1::compress_blocks` on the tightly packed RGBA8 surface
/// `data`: 8 bytes per 4×4 block. The kernel reads `stride * height` bytes.
#[verifier::external_body]
fn compress_bc1(data: &[u8], width: u32, height: u32, stride: u32) -> (r: Vec<u8>)
    requires
        width % 4 == 0,
        height % 4 == 0,
        stride == width * 4,
        data@.len() == width * height * 4,
        width * height * 4 <= i32::MAX,
    ensures
        r@.len() == compressed_len(width, height, 8),
{
    intel_tex_2::bc1::compress_blocks(&RgbaSurface { data, width, height, stride })
}

/// `intel_tex_2::bc3::compress_blocks` on the tightly packed RGBA8 surface
/// `data`: 16 bytes per 4×4 block.
#[verifier::external_body]
fn compress_bc3(data: &[u8], width: u32, height: u32, stride: u32) -> (r: Vec<u8>)
    requires
        width % 4 == 0,
        height % 4 == 0,
        stride == width * 4,
        data@.len() == width * height * 4,
        width * height * 4 <= i32::MAX,
    ensures
        r@.len() == compressed_len(width, height, 16),
{
    intel_tex_2::bc3::compress_blocks(&RgbaSurface { data, width, height, stride })
}

/// `intel_tex_2::bc4::compress_blocks` on the tightly packed one-channel
/// surface `data`: 8 bytes per 4×4 block.
#[verifier::external_body]
fn compress_bc4(data: &[u8], width: u32, height: u32, stride: u32) -> (r: Vec<u8>)
    requires
        width % 4 == 0,
        height % 4 == 0,
        stride == width,
        data@.len() == width * height,
        width * height <= i32::MAX,
    ensures
        r@.len() == compressed_len(width, height, 8),
{
    intel_tex_2::bc4::compress_blocks(&RSurface { data, width, height, stride })
}

/// `intel_tex_2::bc5::compress_blocks` on the tightly packed two-channel
/// surface `data`: 16 bytes per 4×4 block.
#[verifier::external_body]
fn compress_bc5(data: &[u8], width: u32, height: u32, stride: u32) -> (r: Vec<u8>)
    requires
        width % 4 == 0,
        height % 4 == 0,
        stride == width * 2,
        data@.len() == width * height * 2,
        width * height * 2 <= i32::MAX,
    ensures
        r@.len() == compressed_len(width, height, 16),
{
    intel_tex_2::bc5::compress_blocks(&RgSurface { data, width, height, stride })
}

/// `intel_tex_2::bc6h::compress_blocks` with `bc6h::very_fast_settings()`
/// on the tightly packed surface `data` of four little-endian half floats
/// per pixel: 16 bytes per 4×4 block.
#[verifier::external_body]
fn compress_bc6h(data: &[u8], width: u32, height: u32, stride: u32) -> (r: Vec<u8>)
    requires
        width % 4 == 0,
        height % 4 == 0,
        stride == width * 8,
        data@.len() == width * height * 8,
        width * height * 8 <= i32::MAX,
    ensures
        r@.len() == compressed_len(width, height, 16),
{
    let settings = intel_tex_2::bc6h::very_fast_settings();
    intel_tex_2::bc6h::compress_blocks(&settings, &RgbaSurface { data, width, height, stride })
}

/// `intel_tex_2::bc7::compress_blocks` with `bc7::alpha_ultra_fast_settings()`
/// on the tightly packed RGBA8 surface `data`: 16 bytes per 4×4 block.
#[verifier::external_body]
fn compress_bc7(data: &[u8], width: u32, height: u32, stride: u32) -> (r: Vec<u8>)
    requires
        width % 4 == 0,
        height % 4 == 0,
        stride == width * 4,
        data@.len() == width * height * 4,
        width * height * 4 <= i32::MAX,
    ensures
        r@.len() == compressed_len(width, height, 16),
{
    let settings = intel_tex_2::bc7::alpha_ultra_fast_settings();
    intel_tex_2::bc7::compress_blocks(&settings, &RgbaSurface { data, width, height, stride })
}

/// `out` is a result the compression kernel of `kernel` can give for the
/// surface of `width`×`height` pixels whose bytes are `surface`, rows
/// `stride` bytes apart: a possible result of the wrapper of that format's
/// `intel_tex_2` kernel (`compress_bc1`, `compress_bc3`, `compress_bc4`,
/// `compress_bc5`, `compress_bc6h` or `compress_bc7`) called with exactly
/// these arguments. BC2 and RGBA8 have no kernel of their own.
pub closed spec fn kernel_call(kernel: TextureCompression, surface: Seq<u8>, width: u32, height: u32, stride: u32, out: Seq<u8>) -> bool {
    exists|s: &[u8], v: Vec<u8>|
        #![trigger s@, v@]
        s@ == surface && v@ == out && match kernel {
            TextureCompression::BC1 => call_ensures(compress_bc1, (s, width, height, stride), v),
            TextureCompression::BC3 => call_ensures(compress_bc3, (s, width, height, stride), v),
            TextureCompression::BC4 => call_ensures(compress_bc4, (s, width, height, stride), v),
            TextureCompression::BC5 => call_ensures(compress_bc5, (s, width, height, stride), v),
            TextureCompression::BC6H => call_ensures(compress_bc6h, (s, width, height, stride), v),
            TextureCompression::BC7 => call_ensures(compress_bc7, (s, width, height, stride), v),
            _ => false,
        }
}

/// A result of a kernel has the size `intel_tex_2` gives its output.
pub proof fn lemma_kernel_call_len(kernel: TextureCompression, surface: Seq<u8>, width: u32, height: u32, stride: u32, out: Seq<u8>)
    requires
        kernel_call(kernel, surface, width, height, stride, out),
    ensures
        out.len() == compressed_len(width, height, block_bytes(kernel)),
{
    let (s, v) = choose|s: &[u8], v: Vec<u8>|
        #![trigger s@, v@]
        s@ == surface && v@ == out && match kernel {
            TextureCompression::BC1 => call_ensures(compress_bc1, (s, width, height, stride), v),
            TextureCompression::BC3 => call_ensures(compress_bc3, (s, width, height, stride), v),
            TextureCompression::BC4 => call_ensures(compress_bc4, (s, width, height, stride), v),
            TextureCompression::BC5 => call_ensures(compress_bc5, (s, width, height, stride), v),
            TextureCompression::BC6H => call_ensures(compress_bc6h, (s, width, height, stride), v),
            TextureCompression::BC7 => call_ensures(compress_bc7, (s, width, height, stride), v),
            _ => false,
        };
}

/// The bytes between rows of the surface the kernel of `compression`
/// reads, for a surface `bw` pixels wide.
pub open spec fn kernel_stride(compression: TextureCompression, bw: int) -> u32 {
    (bw * kernel_bpp(compression)) as u32
}

/// `out` is what compressing the kernel image `img`, `bw`×`bh` pixels, as
/// `compression` gives: that format's kernel's result for the surface of
/// `bw`×`bh` pixels with rows `kernel_stride` apart; for BC2, the BC3
/// kernel's result with the first 8 bytes of each block replaced by the
/// image's explicit four-bit alpha.
pub open spec fn compressed_from(compression: TextureCompression, img: Seq<u8>, bw: int, bh: int, out: Seq<u8>) -> bool {
    if compression == TextureCompression::BC2 {
        exists|blocks: Seq<u8>|
            kernel_call(TextureCompression::BC3, img, bw as u32, bh as u32, kernel_stride(TextureCompression::BC3, bw), blocks)
                && out == #[trigger] with_bc2_alpha(blocks, img, bw)
    } else {
        kernel_call(compression, img, bw as u32, bh as u32, kernel_stride(compression, bw), out)
    }
}

/// `premultiply` applied to all of `s`.
pub open spec fn premultiplied_all(s: Seq<u8>) -> Seq<u8> {
    Seq::new(s.len(), |i: int| premultiplied_at(s, i))
}

/// `quantize_alpha` applied to all of `s`.
pub open spec fn quantized_all(s: Seq<u8>) -> Seq<u8> {
    Seq::new(s.len(), |i: int| quantized_at(s, i))
}

/// Bytes per 4×4 block of a compressed format.
pub open spec fn block_bytes(compression: TextureCompression) -> int {
    match compression {
        TextureCompression::BC1 | TextureCompression::BC4 => 8,
        _ => 16,
    }
}

/// Bytes per pixel of the image a format starts from: four little-endian
/// half floats for BC6H, RGBA8 for every other format.
pub open spec fn source_bpp(compression: TextureCompression) -> int {
    if compression == TextureCompression::BC6H {
        8
    } else {
        4
    }
}

/// Bytes per pixel of the image a format's compression kernel reads: one
/// channel for BC4, two for BC5, four half floats for BC6H, RGBA8
/// otherwise.
pub open spec fn kernel_bpp(compression: TextureCompression) -> int {
    match compression {
        TextureCompression::BC4 => 1,
        TextureCompression::BC5 => 2,
        TextureCompression::BC6H => 8,
        _ => 4,
    }
}

/// The image the compression kernel of `compression` is given for the
/// `w`×`h` image `pixels`: the image grown to whole blocks by repeating its
/// edges, premultiplied first where the format stores color and alpha
/// together (BC2, BC3, BC7) and, for BC2, with alpha rounded to four bits
/// before that; BC4 keeps the red channel, BC5 red and green. RGBA8 has no
/// kernel: its premultiplied pixels are uploaded as they are.
pub open spec fn kernel_image(compression: TextureCompression, w: int, h: int, pixels: Seq<u8>) -> Seq<u8> {
    let bw = round_up4(w);
    let bh = round_up4(h);
    match compression {
        TextureCompression::RGBA8 => premultiplied_all(pixels),
        TextureCompression::BC1 => padded(pixels, w, h, bw, bh, 4),
        TextureCompression::BC2 => padded(premultiplied_all(quantized_all(pixels)), w, h, bw, bh, 4),
        TextureCompression::BC3 => padded(premultiplied_all(pixels), w, h, bw, bh, 4),
        TextureCompression::BC7 => padded(premultiplied_all(pixels), w, h, bw, bh, 4),
        TextureCompression::BC4 => red_channel(padded(pixels, w, h, bw, bh, 4)),
        TextureCompression::BC5 => red_green_channels(padded(pixels, w, h, bw, bh, 4)),
        TextureCompression::BC6H => padded(pixels, w, h, bw, bh, 8),
    }
}

/// The first 8 bytes of every 16-byte block of `blocks` are the explicit
/// four-bit alpha of that block of `img`, an image `bw` pixels wide.
pub open spec fn explicit_alpha(blocks: Seq<u8>, img: Seq<u8>, bw: int) -> bool {
    forall|k: int| 0 <= k < blocks.len() && k % 16 < 8 ==> #[trigger] blocks[k] == bc2_alpha_byte(img, bw, k / 16, k % 16)
}

/// `out` is what a `w`×`h` RGBA8 image `pixels` is uploaded as when stored
/// with `compression`: the premultiplied pixels for RGBA8; otherwise one
/// block of `block_bytes(compression)` bytes per 4×4 block of the image
/// grown to whole blocks, where BC2 blocks begin with the image's explicit
/// four-bit alpha; the blocks are what that format's kernel gives for the
/// kernel image (`compressed_from`, `kernel_image`).
pub open spec fn rgba8_encoded(compression: TextureCompression, w: int, h: int, pixels: Seq<u8>, out: Seq<u8>) -> bool {
    let bw = round_up4(w);
    let bh = round_up4(h);
    match compression {
        TextureCompression::RGBA8 => out == premultiplied_all(pixels),
        _ => {
            &&& out.len() == compressed_len(bw as u32, bh as u32, block_bytes(compression))
            &&& compression == TextureCompression::BC2 ==> explicit_alpha(out, kernel_image(compression, w, h, pixels), bw)
            &&& compressed_from(compression, kernel_image(compression, w, h, pixels), bw, bh, out)
        },
    }
}

/// The sizes an image of `w`×`h` pixels of `bpp` bytes can be compressed
/// at: grown to whole blocks, its sizes fit a `u32`, and its bytes fit what
/// the compression kernels address (`i32::MAX`).
pub open spec fn compressible(w: int, h: int, bpp: int) -> bool {
    &&& 1 <= w <= u32::MAX - 3
    &&& 1 <= h <= u32::MAX - 3
    &&& round_up4(w) * round_up4(h) + 15 <= u32::MAX
    &&& round_up4(w) * round_up4(h) * bpp <= usize::MAX
    &&& round_up4(w) * bpp <= u32::MAX
    &&& round_up4(w) * round_up4(h) * bpp <= i32::MAX
}

/// Whether a `width`×`height` image of `bpp`-byte pixels can be compressed.
pub fn fits_compression(width: u32, height: u32, bpp: u32) -> (r: bool)
    requires
        1 <= bpp <= 8,
    ensures
        r == compressible(width as int, height as int, bpp as int),
{
    if width == 0 || height == 0 || width > u32::MAX - 3 || height > u32::MAX - 3 {
        return false;
    }
    let bw = (width as u64 + 3) / 4 * 4;
    let bh = (height as u64 + 3) / 4 * 4;
    assert(bw * bh <= 0x1_0000_0000 * 0x1_0000_0000) by (nonlinear_arith)
        requires
            bw <= 0x1_0000_0000,
            bh <= 0x1_0000_0000,
    ;
    let area = (bw as u128) * (bh as u128);
    assert(area * bpp <= 0x1_0000_0000 * 0x1_0000_0000 * 8 && bw * bpp <= 0x1_0000_0000 * 8) by (nonlinear_arith)
        requires
            area == bw * bh,
            bw * bh <= 0x1_0000_0000 * 0x1_0000_0000,
            bw <= 0x1_0000_0000,
            1 <= bpp <= 8,
    ;
    area + 15 <= u32::MAX as u128 && area * (bpp as u128) <= usize::MAX as u128 && bw * (bpp as u64) <= u32::MAX as u64
        && area * (bpp as u128) <= i32::MAX as u128
}

fn block_extent(v: u32) -> (r: u32)
    requires
        v <= u32::MAX - 3,
    ensures
        r == round_up4(v as int),
        r % 4 == 0,
        v <= r,
{
    (v + 3) / 4 * 4
}

/// The image handed to the compression kernel of `compression` for a
/// `width`×`height` image `pixels` (RGBA8, or four half floats per pixel
/// for BC6H): `kernel_image`. For RGBA8, the bytes uploaded.
pub fn kernel_input(compression: TextureCompression, width: u32, height: u32, pixels: Vec<u8>) -> (r: Vec<u8>)
    requires
        pixels@.len() == width * height * source_bpp(compression),
        compression != TextureCompression::RGBA8 ==> compressible(width as int, height as int, source_bpp(compression)),
    ensures
        r@ == kernel_image(compression, width as int, height as int, pixels@),
{
    let mut pixels = pixels;
    let ghost orig = pixels@;
    if compression == TextureCompression::RGBA8 {
        premultiply(pixels.as_mut_slice());
        assert(pixels@ =~= premultiplied_all(orig));
        return pixels;
    }
    let bw = block_extent(width);
    let bh = block_extent(height);
    if compression == TextureCompression::BC6H {
        proof {
            lemma_mul_bounds(bw as int, bh as int, 8);
        }
        return pad_image(pixels.as_slice(), width, height, bw, bh, 8);
    }
    proof {
        lemma_mul_bounds(bw as int, bh as int, 4);
        lemma_mul_bounds(width as int, height as int, 4);
    }
    let ghost prepared = if compression == TextureCompression::BC2 {
        premultiplied_all(quantized_all(orig))
    } else if compression == TextureCompression::BC3 || compression == TextureCompression::BC7 {
        premultiplied_all(orig)
    } else {
        orig
    };
    if compression == TextureCompression::BC2 {
        quantize_alpha(&mut pixels);
        assert(pixels@ =~= quantized_all(orig));
    }
    if compression == TextureCompression::BC2 || compression == TextureCompression::BC3 || compression
        == TextureCompression::BC7 {
        let ghost before = pixels@;
        premultiply(pixels.as_mut_slice());
        assert(pixels@ =~= premultiplied_all(before));
    }
    assert(pixels@ == prepared);
    let img = pad_image(pixels.as_slice(), width, height, bw, bh, 4);
    if compression == TextureCompression::BC4 {
        channels(&img, 1)
    } else if compression == TextureCompression::BC5 {
        channels(&img, 2)
    } else {
        img
    }
}

/// Compresses `img`, a `bw`×`bh` image as the kernel of `compression`
/// reads it (`kernel_image`), into blocks. For BC2 the blocks are BC3's
/// with their first 8 bytes replaced by the image's four-bit alpha.
fn compress_image(compression: TextureCompression, img: &Vec<u8>, bw: u32, bh: u32) -> (r: Vec<u8>)
    requires
        compression != TextureCompression::RGBA8,
        bw % 4 == 0,
        bh % 4 == 0,
        bw > 0,
        bh > 0,
        img@.len() == bw * bh * kernel_bpp(compression),
        bw * bh * kernel_bpp(compression) <= i32::MAX,
    ensures
        r@.len() == compressed_len(bw, bh, block_bytes(compression)),
        compression == TextureCompression::BC2 ==> explicit_alpha(r@, img@, bw as int),
        compressed_from(compression, img@, bw as int, bh as int, r@),
{
    proof {
        let kb = kernel_bpp(compression);
        assert(bw * bh <= bw * bh * kb && bw * kb <= bw * bh * kb) by (nonlinear_arith)
            requires
                kb >= 1,
                bw > 0,
                bh > 0,
        ;
    }
    let surface = img.as_slice();
    match compression {
        TextureCompression::BC1 => {
            let kernel = compress_bc1;
            let r = kernel(surface, bw, bh, bw * 4);
            assert(surface@ == img@ && kernel_call(compression, img@, bw, bh, (bw * 4) as u32, r@));
            r
        },
        TextureCompression::BC3 => {
            let kernel = compress_bc3;
            let r = kernel(surface, bw, bh, bw * 4);
            assert(kernel_call(compression, img@, bw, bh, (bw * 4) as u32, r@));
            r
        },
        TextureCompression::BC7 => {
            let kernel = compress_bc7;
            let r = kernel(surface, bw, bh, bw * 4);
            assert(kernel_call(compression, img@, bw, bh, (bw * 4) as u32, r@));
            r
        },
        TextureCompression::BC4 => {
            let kernel = compress_bc4;
            let r = kernel(surface, bw, bh, bw);
            assert(kernel_call(compression, img@, bw, bh, bw, r@));
            r
        },
        TextureCompression::BC5 => {
            let kernel = compress_bc5;
            let r = kernel(surface, bw, bh, bw * 2);
            assert(kernel_call(compression, img@, bw, bh, (bw * 2) as u32, r@));
            r
        },
        TextureCompression::BC6H => {
            let kernel = compress_bc6h;
            let r = kernel(surface, bw, bh, bw * 8);
            assert(kernel_call(compression, img@, bw, bh, (bw * 8) as u32, r@));
            r
        },
        _ => {
            let kernel = compress_bc3;
            let mut blocks = kernel(surface, bw, bh, bw * 4);
            let ghost raw = blocks@;
            assert(kernel_call(TextureCompression::BC3, img@, bw, bh, (bw * 4) as u32, raw));
            proof {
                let a = bw as int / 4;
                let b = bh as int / 4;
                assert(bw * bh == 16 * (a * b)) by (nonlinear_arith)
                    requires
                        bw == 4 * a,
                        bh == 4 * b,
                ;
                assert((bw * bh + 15) / 16 * 16 == bw * bh / 16 * 16);
            }
            set_bc2_alpha(&mut blocks, img, bw, bh);
            proof {
                assert forall|k: int| 0 <= k < blocks@.len() && k % 16 < 8 implies #[trigger] blocks@[k]
                    == bc2_alpha_byte(img@, bw as int, k / 16, k % 16) by {}
                assert(blocks@ == with_bc2_alpha(raw, img@, bw as int));
            }
            blocks
        },
    }
}

/// Prepares a `width`×`height` RGBA8 image for upload as `compression` (any
/// format but BC6H, whose pixels are half floats: see `encode_half`): the
/// kernel's image (`kernel_input`), compressed.
pub fn encode_rgba8(width: u32, height: u32, pixels: Vec<u8>, compression: TextureCompression) -> (r: Vec<u8>)
    requires
        compression != TextureCompression::BC6H,
        pixels@.len() == width * height * 4,
        compression != TextureCompression::RGBA8 ==> compressible(width as int, height as int, 4),
    ensures
        rgba8_encoded(compression, width as int, height as int, pixels@, r@),
{
    let img = kernel_input(compression, width, height, pixels);
    if compression == TextureCompression::RGBA8 {
        return img;
    }
    let bw = block_extent(width);
    let bh = block_extent(height);
    proof {
        lemma_mul_bounds(bw as int, bh as int, 4);
    }
    compress_image(compression, &img, bw, bh)
}

/// Prepares a `width`×`height` image of four little-endian half floats per
/// pixel for upload as BC6H: the kernel's image (`kernel_input`, the image
/// grown to whole blocks by repeating its edges), compressed.
pub fn encode_half(width: u32, height: u32, half_pixels: Vec<u8>) -> (r: Vec<u8>)
    requires
        half_pixels@.len() == width * height * 8,
        compressible(width as int, height as int, 8),
    ensures
        r@.len() == compressed_len(round_up4(width as int) as u32, round_up4(height as int) as u32, 16),
        kernel_call(
            TextureCompression::BC6H,
            padded(half_pixels@, width as int, height as int, round_up4(width as int), round_up4(height as int), 8),
            round_up4(width as int) as u32,
            round_up4(height as int) as u32,
            (round_up4(width as int) * 8) as u32,
            r@,
        ),
{
    let img = kernel_input(TextureCompression::BC6H, width, height, half_pixels);
    let bw = block_extent(width);
    let bh = block_extent(height);
    proof {
        lemma_mul_bounds(bw as int, bh as int, 8);
    }
    compress_image(TextureCompression::BC6H, &img, bw, bh)
}

/// What the bytes `out` uploaded for the `w`×`h` RGBA8 image `pixels` as
/// `compression` are, format by format: RGBA8 uploads the premultiplied
/// pixels; every other format is the result of its own kernel (BC2: the
/// BC3 kernel's, with explicit alpha) for the image grown to whole 4×4
/// blocks by repeating its edges, as a surface `round_up4(w)` pixels wide
/// and `round_up4(h)` high, read row by row. Formats that store color and
/// alpha together (BC2, BC3, BC7) are premultiplied first, BC2 after
/// rounding alpha to four bits; BC4 reads the red channel, BC5 red and
/// green.
pub open spec fn blocks_of_format(compression: TextureCompression, w: int, h: int, pixels: Seq<u8>, out: Seq<u8>) -> bool {
    let bw = round_up4(w);
    let bh = round_up4(h);
    let grown = padded(pixels, w, h, bw, bh, 4);
    let grown_premultiplied = padded(premultiplied_all(pixels), w, h, bw, bh, 4);
    match compression {
        TextureCompression::RGBA8 => out == premultiplied_all(pixels),
        TextureCompression::BC1 => kernel_call(TextureCompression::BC1, grown, bw as u32, bh as u32, (bw * 4) as u32, out),
        TextureCompression::BC3 => kernel_call(TextureCompression::BC3, grown_premultiplied, bw as u32, bh as u32, (bw * 4) as u32, out),
        TextureCompression::BC7 => kernel_call(TextureCompression::BC7, grown_premultiplied, bw as u32, bh as u32, (bw * 4) as u32, out),
        TextureCompression::BC4 => kernel_call(TextureCompression::BC4, red_channel(grown), bw as u32, bh as u32, bw as u32, out),
        TextureCompression::BC5 => kernel_call(TextureCompression::BC5, red_green_channels(grown), bw as u32, bh as u32, (bw * 2) as u32, out),
        TextureCompression::BC2 => {
            let img = padded(premultiplied_all(quantized_all(pixels)), w, h, bw, bh, 4);
            exists|blocks: Seq<u8>|
                #![trigger kernel_call(TextureCompression::BC3, img, bw as u32, bh as u32, (bw * 4) as u32, blocks)]
                kernel_call(TextureCompression::BC3, img, bw as u32, bh as u32, (bw * 4) as u32, blocks)
                && blocks.len() == out.len()
                && forall|k: int| 0 <= k < out.len() ==> #[trigger] out[k] == if k % 16 < 8 {
                    bc2_alpha_byte(img, bw, k / 16, k % 16)
                } else {
                    blocks[k]
                }
        },
        TextureCompression::BC6H => false,
    }
}

/// Every format is encoded by its own compression kernel, given the image
/// that format stores: whatever `encode_rgba8` uploads for a format is a
/// result of that format's kernel (for BC2, of the BC3 kernel, overlaid
/// with the image's explicit alpha) for the prepared image, laid out as a
/// surface of whole blocks read row by row (`blocks_of_format`).
pub proof fn law_each_format_uses_its_own_kernel(compression: TextureCompression, w: int, h: int, pixels: Seq<u8>, out: Seq<u8>)
    requires
        compression != TextureCompression::BC6H,
        rgba8_encoded(compression, w, h, pixels, out),
    ensures
        blocks_of_format(compression, w, h, pixels, out),
{
    let bw = round_up4(w);
    let bh = round_up4(h);
    if compression == TextureCompression::BC2 {
        let img = kernel_image(compression, w, h, pixels);
        let blocks = choose|blocks: Seq<u8>|
            kernel_call(TextureCompression::BC3, img, bw as u32, bh as u32, kernel_stride(TextureCompression::BC3, bw), blocks)
                && out == #[trigger] with_bc2_alpha(blocks, img, bw);
        assert(kernel_call(TextureCompression::BC3, img, bw as u32, bh as u32, (bw * 4) as u32, blocks));
    }
}

/// Byte `c` of pixel (`x`, `y`) of the grown image, with rows `bw * bpp`
/// bytes apart, is byte `c` of the image's pixel at the nearest column and
/// row inside it.
pub proof fn lemma_padded_pixel(src: Seq<u8>, w: int, h: int, bw: int, bh: int, bpp: int, x: int, y: int, c: int)
    requires
        1 <= w <= bw,
        1 <= h <= bh,
        1 <= bpp,
        0 <= x < bw,
        0 <= y < bh,
        0 <= c < bpp,
    ensures
        0 <= (y * bw + x) * bpp + c < bw * bh * bpp,
        y * (bw * bpp) + x * bpp + c == (y * bw + x) * bpp + c,
        padded(src, w, h, bw, bh, bpp)[(y * bw + x) * bpp + c] == src[((if y < h { y } else { h - 1 }) * w + (if x < w {
            x
        } else {
            w - 1
        })) * bpp + c],
{
    let p = y * bw + x;
    let k = p * bpp + c;
    assert(y * (bw * bpp) + x * bpp + c == (y * bw + x) * bpp + c) by (nonlinear_arith);
    assert(0 <= p < bw * bh) by (nonlinear_arith)
        requires
            p == y * bw + x,
            0 <= x < bw,
            0 <= y < bh,
    ;
    assert(0 <= k < bw * bh * bpp) by (nonlinear_arith)
        requires
            k == p * bpp + c,
            0 <= p < bw * bh,
            0 <= c < bpp,
    ;
    lemma_split(k, bpp, p, c);
    lemma_split(p, bw, y, x);
}

/// A BC6H upload reads the image row by row: `encode_half`'s blocks are a
/// result of the BC6H kernel for a surface `round_up4(w)` pixels wide and
/// `round_up4(h)` high whose rows lie `8 * round_up4(w)` bytes apart, with
/// pixel (`x`, `y`) of the image at row `y`, column `x`, and the edge
/// pixels repeated over the rest.
pub proof fn law_half_blocks_read_the_image_row_by_row(
    half_pixels: Seq<u8>,
    w: int,
    h: int,
    out: Seq<u8>,
    x: int,
    y: int,
    c: int,
)
    requires
        1 <= w,
        1 <= h,
        kernel_call(
            TextureCompression::BC6H,
            padded(half_pixels, w, h, round_up4(w), round_up4(h), 8),
            round_up4(w) as u32,
            round_up4(h) as u32,
            (round_up4(w) * 8) as u32,
            out,
        ),
        0 <= x < round_up4(w),
        0 <= y < round_up4(h),
        0 <= c < 8,
    ensures
        exists|surface: Seq<u8>|
            #![trigger kernel_call(TextureCompression::BC6H, surface, round_up4(w) as u32, round_up4(h) as u32, (round_up4(w) * 8) as u32, out)]
            kernel_call(TextureCompression::BC6H, surface, round_up4(w) as u32, round_up4(h) as u32, (round_up4(w) * 8) as u32, out)
                && surface[y * (round_up4(w) * 8) + x * 8 + c] == half_pixels[((if y < h { y } else { h - 1 }) * w + (if x < w {
                x
            } else {
                w - 1
            })) * 8 + c],
{
    lemma_padded_pixel(half_pixels, w, h, round_up4(w), round_up4(h), 8, x, y, c);
}

} // verus!
