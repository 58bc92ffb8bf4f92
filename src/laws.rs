//! Properties that relate the filters' models across all inputs.
use crate::chain::chain_view;
use crate::filters::{
    blur_channel, blur_sum, block_sum, block_term, down_channel, down_view, edge_view,
    is_edge, lemma_block_cell_in_bounds, neighbor_exceeds, side, Filter, GaussKernel,
    KERNEL_SCALE,
};
use crate::metric::{color_distance, lemma_distance_exceeds, sq_dist};
use crate::pixel::{at, black, channel, in_bounds, view_wf, white, BufferView, Pixel};
use vstd::arithmetic::div_mod::{lemma_fundamental_div_mod_converse, lemma_div_multiples_vanish};
use vstd::prelude::*;

verus! {

/// Every weighted window sum of a blur is non-negative.
pub proof fn lemma_blur_sum_nonneg(v: BufferView, radius: int, weights: Seq<u32>, x: int, y: int, c: int, n: nat)
    ensures
        blur_sum(v, radius, weights, x, y, c, n) >= 0,
    decreases n,
{
    if n > 0 {
        lemma_blur_sum_nonneg(v, radius, weights, x, y, c, (n - 1) as nat);
        let nx = x + (n - 1) % side(radius) - radius;
        let ny = y + (n - 1) / side(radius) - radius;
        if in_bounds(v, nx, ny) {
            let a = channel(at(v, nx, ny), c) as int;
            let b = weights[n - 1] as int;
            assert(a * b >= 0) by (nonlinear_arith)
                requires
                    a >= 0,
                    b >= 0,
            ;
        }
    }
}

/// A blurred channel never wraps: it is the weighted window sum in kernel
/// units, rounded down, and saturates at 255.
pub proof fn lemma_blur_channel_saturates(v: BufferView, radius: int, weights: Seq<u32>, x: int, y: int, c: int)
    ensures
        ({
            let q = blur_sum(v, radius, weights, x, y, c, (side(radius) * side(radius)) as nat) / KERNEL_SCALE as int;
            &&& q >= 0
            &&& q <= 255 ==> blur_channel(v, radius, weights, x, y, c) == q
            &&& q > 255 ==> blur_channel(v, radius, weights, x, y, c) == 255
        }),
{
    lemma_blur_sum_nonneg(v, radius, weights, x, y, c, (side(radius) * side(radius)) as nat);
}

/// Edge detection produces only black and white samples.
pub proof fn lemma_edge_is_binary(t: int, v: BufferView)
    ensures
        forall|i: int|
            0 <= i < edge_view(t, v).samples.len() ==> #[trigger] edge_view(t, v).samples[i] == black()
                || edge_view(t, v).samples[i] == white(),
{
}

/// Two different samples are at distance at least 1.
pub proof fn lemma_distinct_distance_positive(a: Pixel, b: Pixel)
    requires
        a != b,
    ensures
        color_distance(a, b) > 0,
{
    let dr = if a.r > b.r { a.r - b.r } else { b.r - a.r };
    let dg = if a.g > b.g { a.g - b.g } else { b.g - a.g };
    let db = if a.b > b.b { a.b - b.b } else { b.b - a.b };
    assert(dr * dr >= 0 && dg * dg >= 0 && db * db >= 0) by (nonlinear_arith);
    if a.r != b.r {
        assert(dr * dr >= 1) by (nonlinear_arith)
            requires
                dr >= 1,
        ;
    } else if a.g != b.g {
        assert(dg * dg >= 1) by (nonlinear_arith)
            requires
                dg >= 1,
        ;
    } else {
        assert(db * db >= 1) by (nonlinear_arith)
            requires
                db >= 1,
        ;
    }
    assert(sq_dist(a, b) >= 1);
    lemma_distance_exceeds(a, b, 0);
    assert((0 + 1) * (0 + 1) == 1) by (nonlinear_arith);
}

/// At threshold 0, a sample with a differing neighbour in its 3 x 3
/// neighbourhood is black in the edge map.
pub proof fn lemma_edge_threshold_zero(v: BufferView, x: int, y: int, nx: int, ny: int)
    requires
        view_wf(v),
        in_bounds(v, x, y),
        in_bounds(v, nx, ny),
        x - 1 <= nx <= x + 1,
        y - 1 <= ny <= y + 1,
        at(v, nx, ny) != at(v, x, y),
    ensures
        at(edge_view(0, v), x, y) == black(),
{
    let w = v.width as int;
    let k = (ny - y + 1) * 3 + (nx - x + 1);
    lemma_fundamental_div_mod_converse(k, 3, ny - y + 1, nx - x + 1);
    lemma_distinct_distance_positive(at(v, x, y), at(v, nx, ny));
    assert(neighbor_exceeds(v, 0, x, y, k));
    assert(is_edge(v, 0, x, y));
    crate::pixel::lemma_index_in_range(w, v.height as int, x, y);
    lemma_fundamental_div_mod_converse(y * w + x, w, y, x);
}

/// On a raster whose samples all equal `p`, every block sum is the block
/// size times `p`'s channel.
pub proof fn lemma_block_sum_uniform(v: BufferView, hs: int, ws: int, x: int, y: int, c: int, n: nat, p: Pixel)
    requires
        view_wf(v),
        hs > 0,
        ws > 0,
        0 <= x < v.width as int / ws,
        0 <= y < v.height as int / hs,
        n <= ws * hs,
        forall|i: int| 0 <= i < v.samples.len() ==> #[trigger] v.samples[i] == p,
    ensures
        block_sum(v, hs, ws, x, y, c, n) == n * channel(p, c),
    decreases n,
{
    if n > 0 {
        let j = n - 1;
        lemma_block_sum_uniform(v, hs, ws, x, y, c, (n - 1) as nat, p);
        vstd::arithmetic::div_mod::lemma_fundamental_div_mod(j, ws);
        vstd::arithmetic::div_mod::lemma_mod_pos_bound(j, ws);
        let by = j / ws;
        let bx = j % ws;
        assert(by < hs) by (nonlinear_arith)
            requires
                j == ws * by + bx,
                j < ws * hs,
                0 <= bx,
                ws > 0,
        ;
        assert(by >= 0) by (nonlinear_arith)
            requires
                j == ws * by + bx,
                j >= 0,
                bx < ws,
                ws > 0,
        ;
        lemma_block_cell_in_bounds(v, hs, ws, x, y, bx, by);
        crate::pixel::lemma_index_in_range(v.width as int, v.height as int, x * ws + bx, y * hs + by);
        assert(block_term(v, hs, ws, x, y, c, j) == channel(p, c));
        assert((n - 1) * channel(p, c) + channel(p, c) == n * channel(p, c)) by (nonlinear_arith);
    }
}

/// Downsampling a raster whose samples all equal `p` yields samples that all
/// equal `p`, whatever the scale factors.
pub proof fn lemma_downsample_uniform(v: BufferView, hs: int, ws: int, p: Pixel)
    requires
        view_wf(v),
        hs > 0,
        ws > 0,
        forall|i: int| 0 <= i < v.samples.len() ==> #[trigger] v.samples[i] == p,
    ensures
        forall|i: int| 0 <= i < down_view(hs, ws, v).samples.len() ==> #[trigger] down_view(hs, ws, v).samples[i] == p,
{
    let ow = v.width as int / ws;
    let oh = v.height as int / hs;
    assert forall|i: int| 0 <= i < down_view(hs, ws, v).samples.len() implies #[trigger] down_view(hs, ws, v).samples[i] == p by {
        assert(0 <= i < ow * oh);
        assert(ow > 0) by (nonlinear_arith)
            requires
                0 <= i < ow * oh,
                oh >= 0,
        ;
        vstd::arithmetic::div_mod::lemma_fundamental_div_mod(i, ow);
        vstd::arithmetic::div_mod::lemma_mod_pos_bound(i, ow);
        let x = i % ow;
        let y = i / ow;
        assert(0 <= y < oh) by (nonlinear_arith)
            requires
                i == ow * y + x,
                0 <= i < ow * oh,
                0 <= x < ow,
        ;
        let n = ws * hs;
        assert(n > 0) by (nonlinear_arith)
            requires
                n == ws * hs,
                ws > 0,
                hs > 0,
        ;
        assert forall|c: int| 0 <= c < 3 implies down_channel(v, hs, ws, x, y, c) == channel(p, c) by {
            lemma_block_sum_uniform(v, hs, ws, x, y, c, n as nat, p);
            lemma_div_multiples_vanish(channel(p, c) as int, n);
            assert(n * channel(p, c) == channel(p, c) * n) by (nonlinear_arith);
        }
        assert(down_channel(v, hs, ws, x, y, 0) == channel(p, 0));
        assert(down_channel(v, hs, ws, x, y, 1) == channel(p, 1));
        assert(down_channel(v, hs, ws, x, y, 2) == channel(p, 2));
    }
}

/// A blur followed by a 2 x 2 downsample halves both dimensions, rounding
/// down; the blur itself changes neither.
pub proof fn lemma_blur_then_halve(k: GaussKernel, v: BufferView)
    ensures
        Filter::GaussianBlur(k).spec_apply(v).width == v.width,
        Filter::GaussianBlur(k).spec_apply(v).height == v.height,
        chain_view(seq![Filter::GaussianBlur(k), Filter::BoxDownsample(2, 2)], v).width == v.width / 2,
        chain_view(seq![Filter::GaussianBlur(k), Filter::BoxDownsample(2, 2)], v).height == v.height / 2,
{
    let fs = seq![Filter::GaussianBlur(k), Filter::BoxDownsample(2, 2)];
    let s1 = fs.drop_last();
    assert(s1 =~= seq![Filter::GaussianBlur(k)]);
    assert(s1.drop_last() =~= Seq::<Filter>::empty());
    assert(chain_view(s1.drop_last(), v) == v);
    assert(s1.last() == Filter::GaussianBlur(k));
    assert(chain_view(s1, v) == Filter::GaussianBlur(k).spec_apply(v));
    assert(fs.last() == Filter::BoxDownsample(2, 2));
}

} // verus!
