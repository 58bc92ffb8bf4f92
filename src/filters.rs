//! The three filters: Gaussian blur, edge detection and box downsampling.
//!
//! Rounding rules, chosen once for all filters:
//! - Gaussian blur works in fixed point. Kernel weights carry `KERNEL_SCALE`
//!   as their unit; each output channel is the weighted sum divided by
//!   `KERNEL_SCALE`, rounded down and clamped to 255. Window cells that fall
//!   outside the raster are skipped, so the border loses mass.
//! - Edge detection examines the full 3 x 3 neighbourhood of each sample
//!   (the sample itself and its 8 neighbours, clipped at the border).
//! - Box downsampling averages each whole `wscale` x `hscale` block and
//!   divides by the true block area, rounding down.
use crate::metric::{color_distance, lemma_distance_exceeds, squared_dist};
use crate::pixel::{at, black, channel, in_bounds, white, BufferView, FilterError, Pixel, PixelBuffer};
use vstd::arithmetic::div_mod::lemma_fundamental_div_mod_converse;
use vstd::prelude::*;

verus! {

/// The unit of a kernel weight: a weight of `KERNEL_SCALE` stands for 1.0.
pub const KERNEL_SCALE: u64 = 65536;

/// The largest kernel radius accepted.
pub const MAX_RADIUS: usize = 2047;

/// The largest single kernel weight accepted.
pub const MAX_WEIGHT: u32 = 16777216;

/// A square convolution kernel of half-width `radius`, stored row-major over
/// offsets `-radius ..= radius` in both directions, in units of
/// `KERNEL_SCALE`.
pub struct GaussKernel {
    pub radius: usize,
    pub weights: Vec<u32>,
}

/// Number of cells on one side of a kernel window.
pub open spec fn side(radius: int) -> int {
    2 * radius + 1
}

pub open spec fn kernel_wf(radius: int, weights: Seq<u32>) -> bool {
    &&& 0 <= radius <= MAX_RADIUS
    &&& weights.len() == side(radius) * side(radius)
    &&& forall|i: int| 0 <= i < weights.len() ==> #[trigger] weights[i] <= MAX_WEIGHT
}

impl GaussKernel {
    pub open spec fn wf(&self) -> bool {
        kernel_wf(self.radius as int, self.weights@)
    }

    /// Builds a kernel; fails with `Configuration` unless the radius is at most
    /// `MAX_RADIUS`, there are `(2 * radius + 1)^2` weights and none exceeds
    /// `MAX_WEIGHT`.
    pub fn new(radius: usize, weights: Vec<u32>) -> (r: Result<GaussKernel, FilterError>)
        ensures
            kernel_wf(radius as int, weights@) <==> r is Ok,
            r is Ok ==> r->Ok_0.wf() && r->Ok_0.radius == radius && r->Ok_0.weights@ == weights@,
            r is Err ==> r->Err_0 == FilterError::Configuration,
    {
        if kernel_is_valid(radius, &weights) {
            Ok(GaussKernel { radius, weights })
        } else {
            Err(FilterError::Configuration)
        }
    }
}

/// Whether `radius` and `weights` form a well-formed kernel.
fn kernel_is_valid(radius: usize, weights: &Vec<u32>) -> (r: bool)
    ensures
        r == kernel_wf(radius as int, weights@),
{
    if radius > MAX_RADIUS {
        return false;
    }
    let s = 2 * radius + 1;
    assert(s * s <= 4095 * 4095) by (nonlinear_arith)
        requires
            s <= 4095,
    ;
    if weights.len() != s * s {
        return false;
    }
    let mut i: usize = 0;
    while i < weights.len()
        invariant
            i <= weights@.len(),
            forall|j: int| 0 <= j < i ==> #[trigger] weights@[j] <= MAX_WEIGHT,
        decreases weights@.len() - i,
    {
        if weights[i] > MAX_WEIGHT {
            return false;
        }
        i = i + 1;
    }
    true
}

/// Contribution of window cell `i` to channel `c` of the blurred sample at `(x, y)`.
pub open spec fn blur_term(v: BufferView, radius: int, weights: Seq<u32>, x: int, y: int, c: int, i: int) -> int {
    let nx = x + i % side(radius) - radius;
    let ny = y + i / side(radius) - radius;
    if in_bounds(v, nx, ny) {
        channel(at(v, nx, ny), c) * weights[i]
    } else {
        0
    }
}

/// Sum of the first `n` window cells' contributions.
pub open spec fn blur_sum(v: BufferView, radius: int, weights: Seq<u32>, x: int, y: int, c: int, n: nat) -> int
    decreases n,
{
    if n == 0 {
        0
    } else {
        blur_sum(v, radius, weights, x, y, c, (n - 1) as nat) + blur_term(v, radius, weights, x, y, c, n - 1)
    }
}

/// Channel `c` of the blurred sample at `(x, y)`: the weighted window sum in
/// kernel units, rounded down and clamped to 255.
pub open spec fn blur_channel(v: BufferView, radius: int, weights: Seq<u32>, x: int, y: int, c: int) -> u8 {
    let q = blur_sum(v, radius, weights, x, y, c, (side(radius) * side(radius)) as nat) / KERNEL_SCALE as int;
    if q > 255 {
        255
    } else {
        q as u8
    }
}

pub open spec fn blur_pixel(v: BufferView, radius: int, weights: Seq<u32>, x: int, y: int) -> Pixel {
    Pixel {
        r: blur_channel(v, radius, weights, x, y, 0),
        g: blur_channel(v, radius, weights, x, y, 1),
        b: blur_channel(v, radius, weights, x, y, 2),
    }
}

/// The blurred raster: same dimensions, each sample blurred.
pub open spec fn blur_view(radius: int, weights: Seq<u32>, v: BufferView) -> BufferView {
    BufferView {
        width: v.width,
        height: v.height,
        samples: Seq::new(
            v.width * v.height,
            |i: int| blur_pixel(v, radius, weights, i % (v.width as int), i / (v.width as int)),
        ),
    }
}

/// `p + d - r` when it lies in `[0, limit)`, computed without overflow.
fn offset_coord(p: usize, d: usize, r: usize, limit: usize) -> (res: Option<usize>)
    requires
        p < limit,
        d <= 2 * r,
    ensures
        match res {
            Some(q) => q == p + d - r && q < limit,
            None => !(0 <= p + d - r < limit),
        },
{
    if d < r {
        if p >= r - d {
            Some(p - (r - d))
        } else {
            None
        }
    } else if d - r < limit - p {
        Some(p + (d - r))
    } else {
        None
    }
}

/// `v * w` for a channel value and a kernel weight.
fn weighted(v: u8, w: u32) -> (r: u64)
    requires
        w <= MAX_WEIGHT,
    ensures
        r == v * w,
        r <= 255 * MAX_WEIGHT,
{
    assert(v * w <= 255 * MAX_WEIGHT) by (nonlinear_arith)
        requires
            v <= 255,
            w <= MAX_WEIGHT,
    ;
    (v as u64) * (w as u64)
}

fn clamp_channel(acc: u64) -> (r: u8)
    ensures
        r == (if acc / KERNEL_SCALE > 255 { 255 } else { acc / KERNEL_SCALE }),
{
    let q = acc / KERNEL_SCALE;
    if q > 255 {
        255
    } else {
        q as u8
    }
}

/// The blurred sample at `(x, y)`.
fn blur_at(k: &GaussKernel, buf: &PixelBuffer, x: usize, y: usize) -> (r: Pixel)
    requires
        k.wf(),
        buf.wf(),
        x < buf.width,
        y < buf.height,
    ensures
        r == blur_pixel(buf@, k.radius as int, k.weights@, x as int, y as int),
{
    let ghost v = buf@;
    let ghost rad = k.radius as int;
    let ghost ws = k.weights@;
    let s = 2 * k.radius + 1;
    assert(s * s <= 4095 * 4095) by (nonlinear_arith)
        requires
            s <= 4095,
    ;
    let n = s * s;
    let mut acc_r: u64 = 0;
    let mut acc_g: u64 = 0;
    let mut acc_b: u64 = 0;
    let mut i: usize = 0;
    let mut dx: usize = 0;
    let mut dy: usize = 0;
    while i < n
        invariant
            k.wf(),
            buf.wf(),
            v == buf@,
            rad == k.radius,
            ws == k.weights@,
            x < buf.width,
            y < buf.height,
            s == side(rad),
            n == s * s,
            n == ws.len(),
            i <= n,
            dx < s,
            i == dy * s + dx,
            acc_r == blur_sum(v, rad, ws, x as int, y as int, 0, i as nat),
            acc_g == blur_sum(v, rad, ws, x as int, y as int, 1, i as nat),
            acc_b == blur_sum(v, rad, ws, x as int, y as int, 2, i as nat),
            acc_r <= i * 4278190080,
            acc_g <= i * 4278190080,
            acc_b <= i * 4278190080,
        decreases n - i,
    {
        proof {
            lemma_fundamental_div_mod_converse(i as int, s as int, dy as int, dx as int);
            assert(dy < s) by (nonlinear_arith)
                requires
                    i == dy * s + dx,
                    i < s * s,
                    0 <= dx,
            ;
        }
        let w = k.weights[i];
        let ox = offset_coord(x, dx, k.radius, buf.width);
        let oy = offset_coord(y, dy, k.radius, buf.height);
        let mut tr: u64 = 0;
        let mut tg: u64 = 0;
        let mut tb: u64 = 0;
        if let Some(nx) = ox {
            if let Some(ny) = oy {
                let p = buf.get_pixel(nx, ny);
                tr = weighted(p.r, w);
                tg = weighted(p.g, w);
                tb = weighted(p.b, w);
            }
        }
        assert(n <= 4095 * 4095) by (nonlinear_arith)
            requires
                n == s * s,
                s <= 4095,
        ;
        acc_r = acc_r + tr;
        acc_g = acc_g + tg;
        acc_b = acc_b + tb;
        i = i + 1;
        dx = dx + 1;
        if dx == s {
            assert(dy * s + s == (dy + 1) * s) by (nonlinear_arith);
            dx = 0;
            dy = dy + 1;
        }
    }
    Pixel { r: clamp_channel(acc_r), g: clamp_channel(acc_g), b: clamp_channel(acc_b) }
}

/// Convolves every sample with the kernel; the dimensions are kept.
pub fn blur_buffer(k: &GaussKernel, buf: &PixelBuffer) -> (r: PixelBuffer)
    requires
        k.wf(),
        buf.wf(),
    ensures
        r.wf(),
        r@ == blur_view(k.radius as int, k.weights@, buf@),
        r.width == buf.width,
        r.height == buf.height,
{
    let w = buf.width;
    let h = buf.height;
    let mut out: Vec<Pixel> = Vec::new();
    let mut y: usize = 0;
    while y < h
        invariant
            k.wf(),
            buf.wf(),
            w == buf.width,
            h == buf.height,
            y <= h,
            out@.len() == y * w,
            forall|j: int| 0 <= j < out@.len() ==> #[trigger] out@[j] == blur_pixel(buf@, k.radius as int, k.weights@, j % (w as int), j / (w as int)),
        decreases h - y,
    {
        let mut x: usize = 0;
        while x < w
            invariant
                k.wf(),
                buf.wf(),
                w == buf.width,
                h == buf.height,
                y < h,
                x <= w,
                out@.len() == y * w + x,
                forall|j: int| 0 <= j < out@.len() ==> #[trigger] out@[j] == blur_pixel(buf@, k.radius as int, k.weights@, j % (w as int), j / (w as int)),
            decreases w - x,
        {
            let p = blur_at(k, buf, x, y);
            proof {
                lemma_fundamental_div_mod_converse((y * w + x) as int, w as int, y as int, x as int);
            }
            out.push(p);
            x = x + 1;
        }
        assert(y * w + w == (y + 1) * w) by (nonlinear_arith);
        y = y + 1;
    }
    let r = PixelBuffer { width: w, height: h, samples: out };
    assert(h * w == w * h) by (nonlinear_arith);
    assert(r@.samples =~= blur_view(k.radius as int, k.weights@, buf@).samples);
    r
}

/// Window cell `k` (0 to 8) of the 3 x 3 neighbourhood of `(x, y)` lies in
/// the raster and is farther than `t` from the centre sample.
pub open spec fn neighbor_exceeds(v: BufferView, t: int, x: int, y: int, k: int) -> bool {
    let nx = x + k % 3 - 1;
    let ny = y + k / 3 - 1;
    in_bounds(v, nx, ny) && color_distance(at(v, x, y), at(v, nx, ny)) > t
}

/// Some sample of the clipped 3 x 3 neighbourhood of `(x, y)` is farther than
/// `t` from the centre.
pub open spec fn is_edge(v: BufferView, t: int, x: int, y: int) -> bool {
    exists|k: int| 0 <= k < 9 && #[trigger] neighbor_exceeds(v, t, x, y, k)
}

pub open spec fn edge_pixel(v: BufferView, t: int, x: int, y: int) -> Pixel {
    if is_edge(v, t, x, y) {
        black()
    } else {
        white()
    }
}

/// The edge map: black where a neighbour differs by more than `t`, white elsewhere.
pub open spec fn edge_view(t: int, v: BufferView) -> BufferView {
    BufferView {
        width: v.width,
        height: v.height,
        samples: Seq::new(
            v.width * v.height,
            |i: int| edge_pixel(v, t, i % (v.width as int), i / (v.width as int)),
        ),
    }
}

/// Whether `(x, y)` lies on an edge at threshold `t`.
fn edge_at(t: u32, buf: &PixelBuffer, x: usize, y: usize) -> (r: bool)
    requires
        buf.wf(),
        x < buf.width,
        y < buf.height,
    ensures
        r == is_edge(buf@, t as int, x as int, y as int),
{
    let ghost v = buf@;
    let center = buf.get_pixel(x, y);
    let mut k: usize = 0;
    let mut dx: usize = 0;
    let mut dy: usize = 0;
    while k < 9
        invariant
            buf.wf(),
            v == buf@,
            x < buf.width,
            y < buf.height,
            center == at(v, x as int, y as int),
            k <= 9,
            dx < 3,
            k == dy * 3 + dx,
            forall|j: int| 0 <= j < k ==> !#[trigger] neighbor_exceeds(v, t as int, x as int, y as int, j),
        decreases 9 - k,
    {
        proof {
            lemma_fundamental_div_mod_converse(k as int, 3, dy as int, dx as int);
        }
        let ox = offset_coord(x, dx, 1, buf.width);
        let oy = offset_coord(y, dy, 1, buf.height);
        if let Some(nx) = ox {
            if let Some(ny) = oy {
                let p = buf.get_pixel(nx, ny);
                let d = squared_dist(&center, &p);
                proof {
                    lemma_distance_exceeds(center, p, t as nat);
                    if t >= 442 {
                        assert((t + 1) * (t + 1) > 3 * 255 * 255) by (nonlinear_arith)
                            requires
                                t >= 442,
                        ;
                    }
                }
                if t < 442 {
                    let t1 = t as u64 + 1;
                    assert(t1 * t1 <= 443 * 443) by (nonlinear_arith)
                        requires
                            t1 <= 443,
                    ;
                    if d >= t1 * t1 {
                        assert(neighbor_exceeds(v, t as int, x as int, y as int, k as int));
                        return true;
                    }
                }
            }
        }
        k = k + 1;
        dx = dx + 1;
        if dx == 3 {
            dx = 0;
            dy = dy + 1;
        }
    }
    false
}

/// Marks each sample black when some neighbour is farther than `t` from it,
/// white otherwise; the dimensions are kept.
pub fn edge_buffer(t: u32, buf: &PixelBuffer) -> (r: PixelBuffer)
    requires
        buf.wf(),
    ensures
        r.wf(),
        r@ == edge_view(t as int, buf@),
        r.width == buf.width,
        r.height == buf.height,
{
    let w = buf.width;
    let h = buf.height;
    let mut out: Vec<Pixel> = Vec::new();
    let mut y: usize = 0;
    while y < h
        invariant
            buf.wf(),
            w == buf.width,
            h == buf.height,
            y <= h,
            out@.len() == y * w,
            forall|j: int| 0 <= j < out@.len() ==> #[trigger] out@[j] == edge_pixel(buf@, t as int, j % (w as int), j / (w as int)),
        decreases h - y,
    {
        let mut x: usize = 0;
        while x < w
            invariant
                buf.wf(),
                w == buf.width,
                h == buf.height,
                y < h,
                x <= w,
                out@.len() == y * w + x,
                forall|j: int| 0 <= j < out@.len() ==> #[trigger] out@[j] == edge_pixel(buf@, t as int, j % (w as int), j / (w as int)),
            decreases w - x,
        {
            let p = if edge_at(t, buf, x, y) {
                Pixel { r: 0, g: 0, b: 0 }
            } else {
                Pixel { r: 255, g: 255, b: 255 }
            };
            proof {
                lemma_fundamental_div_mod_converse((y * w + x) as int, w as int, y as int, x as int);
            }
            out.push(p);
            x = x + 1;
        }
        assert(y * w + w == (y + 1) * w) by (nonlinear_arith);
        y = y + 1;
    }
    let r = PixelBuffer { width: w, height: h, samples: out };
    assert(h * w == w * h) by (nonlinear_arith);
    assert(r@.samples =~= edge_view(t as int, buf@).samples);
    r
}

/// Channel `c` of cell `j` of the block that output sample `(x, y)` averages;
/// cells are numbered row-major within the block.
pub open spec fn block_term(v: BufferView, hs: int, ws: int, x: int, y: int, c: int, j: int) -> int {
    channel(at(v, x * ws + j % ws, y * hs + j / ws), c) as int
}

/// Sum of channel `c` over the first `n` cells of the block of `(x, y)`.
pub open spec fn block_sum(v: BufferView, hs: int, ws: int, x: int, y: int, c: int, n: nat) -> int
    decreases n,
{
    if n == 0 {
        0
    } else {
        block_sum(v, hs, ws, x, y, c, (n - 1) as nat) + block_term(v, hs, ws, x, y, c, n - 1)
    }
}

/// Channel `c` of output sample `(x, y)`: the block mean, rounded down.
pub open spec fn down_channel(v: BufferView, hs: int, ws: int, x: int, y: int, c: int) -> u8 {
    (block_sum(v, hs, ws, x, y, c, (ws * hs) as nat) / (ws * hs)) as u8
}

pub open spec fn down_pixel(v: BufferView, hs: int, ws: int, x: int, y: int) -> Pixel {
    Pixel {
        r: down_channel(v, hs, ws, x, y, 0),
        g: down_channel(v, hs, ws, x, y, 1),
        b: down_channel(v, hs, ws, x, y, 2),
    }
}

/// The downsampled raster: `width / ws` by `height / hs`, each sample the mean
/// of its `ws` x `hs` block; trailing rows and columns are dropped.
pub open spec fn down_view(hs: int, ws: int, v: BufferView) -> BufferView {
    let ow = v.width as int / ws;
    let oh = v.height as int / hs;
    BufferView {
        width: ow as nat,
        height: oh as nat,
        samples: Seq::new((ow * oh) as nat, |i: int| down_pixel(v, hs, ws, i % ow, i / ow)),
    }
}

/// Block `x` of size `s` ends within a line of length `len`.
pub proof fn lemma_block_fits(x: int, s: int, len: int)
    requires
        0 <= x < len / s,
        s > 0,
        len >= 0,
    ensures
        x * s + s <= len,
{
    let q = len / s;
    vstd::arithmetic::div_mod::lemma_fundamental_div_mod(len, s);
    vstd::arithmetic::div_mod::lemma_mod_pos_bound(len, s);
    assert(x * s + s <= q * s) by (nonlinear_arith)
        requires
            x + 1 <= q,
            s > 0,
    ;
    assert(q * s == s * q) by (nonlinear_arith);
}

/// Cell `(bx, by)` of block `(x, y)` lies in the raster.
pub proof fn lemma_block_cell_in_bounds(v: BufferView, hs: int, ws: int, x: int, y: int, bx: int, by: int)
    requires
        hs > 0,
        ws > 0,
        0 <= x < v.width as int / ws,
        0 <= y < v.height as int / hs,
        0 <= bx < ws,
        0 <= by < hs,
    ensures
        in_bounds(v, x * ws + bx, y * hs + by),
{
    lemma_block_fits(x, ws, v.width as int);
    lemma_block_fits(y, hs, v.height as int);
    assert(0 <= x * ws) by (nonlinear_arith)
        requires
            0 <= x,
            0 <= ws,
    ;
    assert(0 <= y * hs) by (nonlinear_arith)
        requires
            0 <= y,
            0 <= hs,
    ;
}

fn channel_sum_step(acc: u128, v: u8, j: u64) -> (r: u128)
    requires
        acc <= j * 255,
    ensures
        r == acc + v,
        r <= (j + 1) * 255,
{
    acc + v as u128
}

/// The mean of the block behind output sample `(x, y)`.
fn down_at(hs: u32, ws: u32, buf: &PixelBuffer, x: usize, y: usize) -> (r: Pixel)
    requires
        buf.wf(),
        hs > 0,
        ws > 0,
        x < buf.width as int / (ws as int),
        y < buf.height as int / (hs as int),
    ensures
        r == down_pixel(buf@, hs as int, ws as int, x as int, y as int),
{
    let ghost v = buf@;
    let sw = ws as usize;
    let sh = hs as usize;
    assert(0 < (ws as u64) * (hs as u64) <= 0xffff_ffff * 0xffff_ffff) by (nonlinear_arith)
        requires
            0 < ws <= 0xffff_ffff,
            0 < hs <= 0xffff_ffff,
    ;
    let n: u64 = (ws as u64) * (hs as u64);
    let mut acc_r: u128 = 0;
    let mut acc_g: u128 = 0;
    let mut acc_b: u128 = 0;
    let mut j: u64 = 0;
    let mut bx: usize = 0;
    let mut by: usize = 0;
    proof {
        lemma_block_fits(x as int, ws as int, buf.width as int);
        lemma_block_fits(y as int, hs as int, buf.height as int);
    }
    while j < n
        invariant
            buf.wf(),
            v == buf@,
            hs > 0,
            ws > 0,
            sw == ws,
            sh == hs,
            x < buf.width as int / (ws as int),
            y < buf.height as int / (hs as int),
            x * ws + ws <= buf.width,
            y * hs + hs <= buf.height,
            n == ws * hs,
            n > 0,
            j <= n,
            bx < sw,
            j == by * sw + bx,
            acc_r == block_sum(v, hs as int, ws as int, x as int, y as int, 0, j as nat),
            acc_g == block_sum(v, hs as int, ws as int, x as int, y as int, 1, j as nat),
            acc_b == block_sum(v, hs as int, ws as int, x as int, y as int, 2, j as nat),
            acc_r <= j * 255,
            acc_g <= j * 255,
            acc_b <= j * 255,
        decreases n - j,
    {
        proof {
            lemma_fundamental_div_mod_converse(j as int, ws as int, by as int, bx as int);
            assert(by < sh) by (nonlinear_arith)
                requires
                    j == by * sw + bx,
                    j < sw * sh,
                    0 <= bx,
            ;
            lemma_block_cell_in_bounds(v, hs as int, ws as int, x as int, y as int, bx as int, by as int);
            assert(x * sw + bx < buf.width);
            assert(y * sh + by < buf.height);
        }
        let p = buf.get_pixel(x * sw + bx, y * sh + by);
        acc_r = channel_sum_step(acc_r, p.r, j);
        acc_g = channel_sum_step(acc_g, p.g, j);
        acc_b = channel_sum_step(acc_b, p.b, j);
        j = j + 1;
        bx = bx + 1;
        if bx == sw {
            assert(by * sw + sw == (by + 1) * sw) by (nonlinear_arith);
            bx = 0;
            by = by + 1;
        }
    }
    Pixel { r: block_mean(acc_r, n), g: block_mean(acc_g, n), b: block_mean(acc_b, n) }
}

/// `sum / n`, which fits a channel when `sum` is at most `255 * n`.
fn block_mean(sum: u128, n: u64) -> (r: u8)
    requires
        n > 0,
        sum <= n * 255,
    ensures
        r == sum as int / (n as int),
{
    proof {
        vstd::arithmetic::div_mod::lemma_div_is_ordered(sum as int, n * 255, n as int);
        vstd::arithmetic::div_mod::lemma_div_multiples_vanish(255, n as int);
        assert(n * 255 == n as int * 255);
    }
    (sum / (n as u128)) as u8
}

/// Averages non-overlapping `wscale` x `hscale` blocks into single samples.
pub fn down_buffer(hs: u32, ws: u32, buf: &PixelBuffer) -> (r: PixelBuffer)
    requires
        buf.wf(),
        hs > 0,
        ws > 0,
    ensures
        r.wf(),
        r@ == down_view(hs as int, ws as int, buf@),
        r.width == buf.width / (ws as usize),
        r.height == buf.height / (hs as usize),
{
    let w = buf.width / (ws as usize);
    let h = buf.height / (hs as usize);
    proof {
        vstd::arithmetic::div_mod::lemma_div_is_ordered_by_denominator(buf.width as int, 1, ws as int);
        vstd::arithmetic::div_mod::lemma_div_is_ordered_by_denominator(buf.height as int, 1, hs as int);
        assert(w * h <= buf.width * buf.height) by (nonlinear_arith)
            requires
                0 <= w <= buf.width,
                0 <= h <= buf.height,
        ;
    }
    let mut out: Vec<Pixel> = Vec::new();
    let mut y: usize = 0;
    while y < h
        invariant
            buf.wf(),
            hs > 0,
            ws > 0,
            w == buf.width as int / (ws as int),
            h == buf.height as int / (hs as int),
            y <= h,
            out@.len() == y * w,
            forall|j: int| 0 <= j < out@.len() ==> #[trigger] out@[j] == down_pixel(buf@, hs as int, ws as int, j % (w as int), j / (w as int)),
        decreases h - y,
    {
        let mut x: usize = 0;
        while x < w
            invariant
                buf.wf(),
                hs > 0,
                ws > 0,
                w == buf.width as int / (ws as int),
                h == buf.height as int / (hs as int),
                y < h,
                x <= w,
                out@.len() == y * w + x,
                forall|j: int| 0 <= j < out@.len() ==> #[trigger] out@[j] == down_pixel(buf@, hs as int, ws as int, j % (w as int), j / (w as int)),
            decreases w - x,
        {
            let p = down_at(hs, ws, buf, x, y);
            proof {
                lemma_fundamental_div_mod_converse((y * w + x) as int, w as int, y as int, x as int);
            }
            out.push(p);
            x = x + 1;
        }
        assert(y * w + w == (y + 1) * w) by (nonlinear_arith);
        y = y + 1;
    }
    let r = PixelBuffer { width: w, height: h, samples: out };
    assert(h * w == w * h) by (nonlinear_arith);
    assert(r@.samples =~= down_view(hs as int, ws as int, buf@).samples);
    r
}

/// One stage of a pipeline.
pub enum Filter {
    /// Convolution with a fixed-point kernel.
    GaussianBlur(GaussKernel),
    /// Edge map at the given colour-distance threshold.
    EdgeDetect(u32),
    /// Block averaging by `(hscale, wscale)`.
    BoxDownsample(u32, u32),
}

impl Filter {
    /// The filter's parameters are in their domain.
    pub open spec fn wf(&self) -> bool {
        match self {
            Filter::GaussianBlur(k) => k.wf(),
            Filter::EdgeDetect(_) => true,
            Filter::BoxDownsample(hs, ws) => *hs > 0 && *ws > 0,
        }
    }

    /// What the filter makes of a raster.
    pub open spec fn spec_apply(&self, v: BufferView) -> BufferView {
        match self {
            Filter::GaussianBlur(k) => blur_view(k.radius as int, k.weights@, v),
            Filter::EdgeDetect(t) => edge_view(*t as int, v),
            Filter::BoxDownsample(hs, ws) => down_view(*hs as int, *ws as int, v),
        }
    }

    pub fn is_valid(&self) -> (r: bool)
        ensures
            r == self.wf(),
    {
        match self {
            Filter::GaussianBlur(k) => kernel_is_valid(k.radius, &k.weights),
            Filter::EdgeDetect(_) => true,
            Filter::BoxDownsample(hs, ws) => *hs > 0 && *ws > 0,
        }
    }

    /// Runs the filter on `buf`, producing a new buffer.
    pub fn apply(&self, buf: &PixelBuffer) -> (r: PixelBuffer)
        requires
            self.wf(),
            buf.wf(),
        ensures
            r.wf(),
            r@ == self.spec_apply(buf@),
    {
        match self {
            Filter::GaussianBlur(k) => blur_buffer(k, buf),
            Filter::EdgeDetect(t) => edge_buffer(*t, buf),
            Filter::BoxDownsample(hs, ws) => down_buffer(*hs, *ws, buf),
        }
    }
}

/// A Gaussian blur with the given kernel; fails with `Configuration` when the
/// kernel is malformed.
pub fn gaussian_blur(kernel: GaussKernel) -> (r: Result<Filter, FilterError>)
    ensures
        kernel.wf() <==> r is Ok,
        r is Ok ==> r->Ok_0 == Filter::GaussianBlur(kernel),
        r is Err ==> r->Err_0 == FilterError::Configuration,
{
    if kernel_is_valid(kernel.radius, &kernel.weights) {
        Ok(Filter::GaussianBlur(kernel))
    } else {
        Err(FilterError::Configuration)
    }
}

/// Edge detection: a sample turns black when a neighbour lies farther than
/// `dist` from it in colour, white otherwise.
pub fn color_dist_lines(dist: u32) -> (r: Filter)
    ensures
        r == Filter::EdgeDetect(dist),
        r.wf(),
{
    Filter::EdgeDetect(dist)
}

/// Box downsampling by `hscale` rows and `wscale` columns; a zero factor is
/// rejected with `Configuration`.
pub fn down_sample(hscale: u32, wscale: u32) -> (r: Result<Filter, FilterError>)
    ensures
        (hscale > 0 && wscale > 0) <==> r is Ok,
        r is Ok ==> r->Ok_0 == Filter::BoxDownsample(hscale, wscale),
        r is Err ==> r->Err_0 == FilterError::Configuration,
{
    if hscale > 0 && wscale > 0 {
        Ok(Filter::BoxDownsample(hscale, wscale))
    } else {
        Err(FilterError::Configuration)
    }
}

} // verus!
