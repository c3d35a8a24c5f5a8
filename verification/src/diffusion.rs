use vstd::prelude::*;

use crate::quantize::Quantizer;
use crate::raster::DitherError;
use crate::raster::Raster;

verus! {

/// One entry of an error-diffusion kernel: the neighbor at `(dx, dy)` from
/// the current pixel receives `num / den` of the quantization error, where
/// `den` is the kernel's common denominator.
#[derive(Clone, Copy, Debug)]
pub struct Weight {
    pub dx: i32,
    pub dy: i32,
    pub num: u32,
}

impl Weight {
    /// An entry is admissible when its share is at most the whole error and
    /// its target is a pixel not yet visited by the row-major scan.
    pub open spec fn valid(self, den: int) -> bool {
        &&& 0 <= self.num <= den
        &&& 0 <= self.dy
        &&& (self.dy == 0 ==> self.dx >= 1)
    }
}

/// An admissible kernel: a short list of admissible entries over a positive
/// denominator.
pub open spec fn kernel_ok(kernel: Seq<Weight>, den: int) -> bool {
    &&& 1 <= den <= 16
    &&& kernel.len() <= 8
    &&& forall|t: int| 0 <= t < kernel.len() ==> (#[trigger] kernel[t]).valid(den)
}

/// Whether `(x, y)` lies on a `w` by `h` raster.
pub open spec fn in_bounds(w: int, h: int, x: int, y: int) -> bool {
    0 <= x < w && 0 <= y < h
}

/// Clamps an error-adjusted working value to the representable sample range.
pub open spec fn clamp_sample(v: int) -> int {
    if v < 0 {
        0
    } else if v > 255 {
        255
    } else {
        v
    }
}

/// The portion `num / den` of `err`, rounded toward zero.
pub open spec fn weighted_share(err: int, num: int, den: int) -> int {
    if err >= 0 {
        (err * num) / den
    } else {
        -(((-err) * num) / den)
    }
}

/// Adds one kernel entry's share of `err` to the working buffer, skipping a
/// target that falls off the raster (that share of the error is lost).
pub open spec fn apply_weight(
    state: Seq<int>,
    w: int,
    h: int,
    x: int,
    y: int,
    err: int,
    k: Weight,
    den: int,
) -> Seq<int> {
    let tx = x + k.dx;
    let ty = y + k.dy;
    if in_bounds(w, h, tx, ty) {
        let j = ty * w + tx;
        state.update(j, state[j] + weighted_share(err, k.num as int, den))
    } else {
        state
    }
}

/// Distributes `err` over every kernel entry in order.
pub open spec fn distribute(
    state: Seq<int>,
    w: int,
    h: int,
    x: int,
    y: int,
    err: int,
    kernel: Seq<Weight>,
    den: int,
) -> Seq<int>
    decreases kernel.len(),
{
    if kernel.len() == 0 {
        state
    } else {
        distribute(
            apply_weight(state, w, h, x, y, err, kernel[0], den),
            w,
            h,
            x,
            y,
            err,
            kernel.drop_first(),
            den,
        )
    }
}

/// The level the quantizer assigns to pixel `i` of a working buffer, after
/// clamping the error-adjusted value to the sample range.
pub open spec fn quantized_level<Q: Quantizer>(q: Q, state: Seq<int>, i: int) -> u8 {
    q.level_of(clamp_sample(state[i]) as u8)
}

/// One step of the row-major scan at pixel `i`: read the error-adjusted
/// value, clamp, quantize, write the level back, and diffuse the error.
pub open spec fn diffuse_step<Q: Quantizer>(
    q: Q,
    state: Seq<int>,
    w: int,
    h: int,
    i: int,
    kernel: Seq<Weight>,
    den: int,
) -> Seq<int> {
    let v = clamp_sample(state[i]);
    let level = quantized_level(q, state, i);
    let err = v - level;
    distribute(state.update(i, level as int), w, h, i % w, i / w, err, kernel, den)
}

/// The working buffer after the first `n` pixels of the scan.
pub open spec fn diffuse_prefix<Q: Quantizer>(
    q: Q,
    init: Seq<int>,
    w: int,
    h: int,
    n: int,
    kernel: Seq<Weight>,
    den: int,
) -> Seq<int>
    decreases n,
{
    if n <= 0 {
        init
    } else {
        diffuse_step(
            q,
            diffuse_prefix(q, init, w, h, n - 1, kernel, den),
            w,
            h,
            n - 1,
            kernel,
            den,
        )
    }
}

/// The samples widened to unbounded signed working values.
pub open spec fn to_signed(data: Seq<u8>) -> Seq<int> {
    data.map_values(|s: u8| s as int)
}

/// The raster produced by a full error-diffusing pass with the given kernel.
pub open spec fn diffuse_spec<Q: Quantizer>(
    q: Q,
    data: Seq<u8>,
    w: int,
    h: int,
    kernel: Seq<Weight>,
    den: int,
) -> Seq<u8> {
    diffuse_prefix(q, to_signed(data), w, h, w * h, kernel, den).map_values(|v: int| v as u8)
}

/// A pixel's coordinates index the raster within bounds.
proof fn lemma_index_bounds(w: int, h: int, x: int, y: int)
    requires
        in_bounds(w, h, x, y),
    ensures
        0 <= y * w + x < w * h,
{
    assert(0 <= y * w + x < w * h) by (nonlinear_arith)
        requires
            0 <= x < w,
            0 <= y < h,
    ;
}

/// Every in-bounds kernel target lies strictly after the current pixel in
/// the row-major order.
proof fn lemma_target_after(w: int, h: int, i: int, k: Weight, den: int)
    requires
        w >= 1,
        0 <= i < w * h,
        k.valid(den),
        in_bounds(w, h, i % w + k.dx, i / w + k.dy),
    ensures
        i < (i / w + k.dy) * w + (i % w + k.dx) < w * h,
{
    let x = i % w;
    let y = i / w;
    vstd::arithmetic::div_mod::lemma_fundamental_div_mod(i, w);
    vstd::arithmetic::div_mod::lemma_mod_bound(i, w);
    assert(i == w * (i / w) + i % w);
    assert(y * w + x < (y + k.dy) * w + (x + k.dx) < w * h) by (nonlinear_arith)
        requires
            w >= 1,
            0 <= x + k.dx < w,
            0 <= y + k.dy < h,
            0 <= x < w,
            0 <= y,
            k.dy >= 0,
            (k.dy == 0 ==> k.dx >= 1),
    ;
}

/// Distributing error changes no pixel at or before the current one, keeps
/// the buffer's length, and moves any pixel by at most 255 per entry.
proof fn lemma_distribute_frame(
    state: Seq<int>,
    w: int,
    h: int,
    i: int,
    err: int,
    kernel: Seq<Weight>,
    den: int,
)
    requires
        w >= 1,
        state.len() == w * h,
        0 <= i < w * h,
        1 <= den,
        forall|t: int| 0 <= t < kernel.len() ==> (#[trigger] kernel[t]).valid(den),
        -255 <= err <= 255,
    ensures
        distribute(state, w, h, i % w, i / w, err, kernel, den).len() == state.len(),
        forall|j: int|
            0 <= j <= i ==> #[trigger] distribute(state, w, h, i % w, i / w, err, kernel, den)[j]
                == state[j],
        forall|j: int|
            0 <= j < w * h ==> state[j] - 255 * kernel.len()
                <= #[trigger] distribute(state, w, h, i % w, i / w, err, kernel, den)[j]
                <= state[j] + 255 * kernel.len(),
    decreases kernel.len(),
{
    if kernel.len() == 0 {
    } else {
        let k = kernel[0];
        assert(k.valid(den));
        let s1 = apply_weight(state, w, h, i % w, i / w, err, k, den);
        let tx = i % w + k.dx;
        let ty = i / w + k.dy;
        if in_bounds(w, h, tx, ty) {
            lemma_target_after(w, h, i, k, den);
            let j = ty * w + tx;
            assert(i < j < w * h);
            assert(s1.len() == state.len());
            lemma_share_bounded(err, k.num as int, den);
        }
        assert(forall|t: int|
            0 <= t < kernel.drop_first().len() ==> (#[trigger] kernel.drop_first()[t]).valid(
                den,
            ));
        lemma_distribute_frame(s1, w, h, i, err, kernel.drop_first(), den);
    }
}

/// A share of an error of magnitude at most 255 has magnitude at most 255.
proof fn lemma_share_bounded(err: int, num: int, den: int)
    requires
        -255 <= err <= 255,
        0 <= num <= den,
        1 <= den,
    ensures
        -255 <= weighted_share(err, num, den) <= 255,
        err >= 0 ==> 0 <= weighted_share(err, num, den) <= err,
        err < 0 ==> err <= weighted_share(err, num, den) <= 0,
{
    if err >= 0 {
        assert(0 <= (err * num) / den <= err) by (nonlinear_arith)
            requires
                0 <= err,
                0 <= num <= den,
                1 <= den,
        ;
    } else {
        assert(0 <= ((-err) * num) / den <= -err) by (nonlinear_arith)
            requires
                0 <= -err,
                0 <= num <= den,
                1 <= den,
        ;
    }
}

/// Distributing over the first `t + 1` kernel entries is distributing over
/// the first `t` and then applying entry `t`.
proof fn lemma_distribute_snoc(
    state: Seq<int>,
    w: int,
    h: int,
    x: int,
    y: int,
    err: int,
    kernel: Seq<Weight>,
    den: int,
    t: int,
)
    requires
        0 <= t < kernel.len(),
    ensures
        distribute(state, w, h, x, y, err, kernel.take(t + 1), den) == apply_weight(
            distribute(state, w, h, x, y, err, kernel.take(t), den),
            w,
            h,
            x,
            y,
            err,
            kernel[t],
            den,
        ),
    decreases t,
{
    let s0 = apply_weight(state, w, h, x, y, err, kernel[0], den);
    assert(kernel.take(t + 1)[0] == kernel[0]);
    assert(kernel.take(t + 1).drop_first() =~= kernel.drop_first().take(t));
    if t == 0 {
        assert(kernel.take(0) =~= Seq::<Weight>::empty());
        assert(distribute(s0, w, h, x, y, err, kernel.drop_first().take(0), den) == s0);
    } else {
        assert(kernel.take(t)[0] == kernel[0]);
        assert(kernel.take(t).drop_first() =~= kernel.drop_first().take(t - 1));
        lemma_distribute_snoc(s0, w, h, x, y, err, kernel.drop_first(), den, t - 1);
        assert(kernel.drop_first()[t - 1] == kernel[t]);
    }
}

/// After `n` pixels of the scan the buffer keeps its length, every visited
/// pixel holds exactly the level the quantizer assigned when it was visited,
/// and every value still lies within the reach of the shares applied so far.
pub proof fn lemma_prefix_properties<Q: Quantizer>(
    q: Q,
    init: Seq<int>,
    w: int,
    h: int,
    n: int,
    kernel: Seq<Weight>,
    den: int,
)
    requires
        init.len() == w * h,
        w >= 0,
        h >= 0,
        0 <= n <= w * h,
        kernel_ok(kernel, den),
        forall|j: int| 0 <= j < init.len() ==> 0 <= #[trigger] init[j] <= 255,
    ensures
        diffuse_prefix(q, init, w, h, n, kernel, den).len() == init.len(),
        forall|j: int|
            0 <= j < n ==> #[trigger] diffuse_prefix(q, init, w, h, n, kernel, den)[j]
                == quantized_level(q, diffuse_prefix(q, init, w, h, j, kernel, den), j) as int,
        forall|j: int|
            0 <= j < w * h ==> -2040 * n
                <= #[trigger] diffuse_prefix(q, init, w, h, n, kernel, den)[j]
                <= 255 + 2040 * n,
    decreases n,
{
    if n <= 0 {
    } else {
        lemma_prefix_properties(q, init, w, h, n - 1, kernel, den);
        let prev = diffuse_prefix(q, init, w, h, n - 1, kernel, den);
        let i = n - 1;
        assert(w >= 1) by (nonlinear_arith)
            requires
                0 < n <= w * h,
                w >= 0,
        ;
        let v = clamp_sample(prev[i]);
        let level = quantized_level(q, prev, i);
        let err = v - level;
        assert(-255 <= err <= 255);
        let mid = prev.update(i, level as int);
        lemma_distribute_frame(mid, w, h, i, err, kernel, den);
        let cur = diffuse_prefix(q, init, w, h, n, kernel, den);
        assert(cur == distribute(mid, w, h, i % w, i / w, err, kernel, den));
        assert(cur.len() == init.len());
        assert forall|j: int| 0 <= j < n implies #[trigger] cur[j] == quantized_level(
            q,
            diffuse_prefix(q, init, w, h, j, kernel, den),
            j,
        ) as int by {
            if j < n - 1 {
                assert(cur[j] == mid[j]);
                assert(mid[j] == prev[j]);
            } else {
                assert(cur[j] == mid[j]);
                assert(mid[i] == level as int);
            }
        }
        assert forall|j: int| 0 <= j < w * h implies -2040 * n <= #[trigger] cur[j] <= 255 + 2040
            * n by {
            assert(mid[j] - 255 * kernel.len() <= cur[j] <= mid[j] + 255 * kernel.len());
            if j == i {
                assert(0 <= mid[j] <= 255);
            } else {
                assert(mid[j] == prev[j]);
            }
        }
    }
}

/// The signed working values that a buffer of `i128` cells holds.
spec fn signed_view(work: Seq<i128>) -> Seq<int> {
    work.map_values(|v: i128| v as int)
}

/// Runs one full error-diffusing pass over `data` with the given kernel.
#[verifier::loop_isolation(false)]
fn diffuse_in_place<Q: Quantizer>(
    data: &mut Vec<u8>,
    width: usize,
    height: usize,
    kernel: &Vec<Weight>,
    den: u32,
    q: &Q,
)
    requires
        old(data)@.len() == width * height,
        kernel_ok(kernel@, den as int),
    ensures
        final(data)@ == diffuse_spec(
            *q,
            old(data)@,
            width as int,
            height as int,
            kernel@,
            den as int,
        ),
{
    let ghost orig = old(data)@;
    let ghost w = width as int;
    let ghost h = height as int;
    let n = data.len();
    proof {
        assert(forall|j: int| 0 <= j < orig.len() ==> 0 <= #[trigger] to_signed(orig)[j] <= 255);
    }

    let mut work: Vec<i128> = Vec::new();
    let mut f: usize = 0;
    while f < n
        invariant
            f <= n,
            work@.len() == f,
            data@ == orig,
            forall|j: int| 0 <= j < f ==> work@[j] == orig[j] as i128,
        decreases n - f,
    {
        work.push(data[f] as i128);
        f = f + 1;
    }
    proof {
        assert(signed_view(work@) =~= to_signed(orig));
    }

    let mut i: usize = 0;
    while i < n
        invariant
            i <= n,
            work@.len() == n,
            data@ == orig,
            signed_view(work@) == diffuse_prefix(*q, to_signed(orig), w, h, i as int, kernel@, den as int),
        decreases n - i,
    {
        proof {
            if width == 0 {
                assert(w * h == 0);
                assert(false);
            }
            lemma_prefix_properties(*q, to_signed(orig), w, h, i as int, kernel@, den as int);
            assert(2040 * (i as int) <= 2040 * (n as int)) by (nonlinear_arith)
                requires
                    i as int <= n as int,
            ;
        }
        let ghost prefix_i = diffuse_prefix(*q, to_signed(orig), w, h, i as int, kernel@, den as int);
        let x = i % width;
        let y = i / width;
        let wv: i128 = work[i];
        let v: u8 = if wv < 0 {
            0
        } else if wv > 255 {
            255
        } else {
            wv as u8
        };
        proof {
            assert(wv as int == prefix_i[i as int]);
            assert(v as int == clamp_sample(prefix_i[i as int]));
        }
        let level: u8 = q.quantize(v);
        let err: i128 = v as i128 - level as i128;
        proof {
            assert(level == quantized_level(*q, prefix_i, i as int));
        }
        work.set(i, level as i128);
        let ghost mid = prefix_i.update(i as int, level as int);
        let ghost xg = (i as int) % w;
        let ghost yg = (i as int) / w;
        let ghost errg = clamp_sample(prefix_i[i as int]) - quantized_level(
            *q,
            prefix_i,
            i as int,
        ) as int;
        proof {
            assert(x as int == xg);
            assert(y as int == yg);
            assert(err as int == errg);
            assert(-255 <= errg <= 255);
            assert(signed_view(work@) =~= distribute(
                mid,
                w,
                h,
                xg,
                yg,
                errg,
                kernel@.take(0),
                den as int,
            ));
            assert forall|j: int| 0 <= j < n implies -2040 * (i as int) - 255 <= #[trigger] work@[j]
                <= 255 + 2040 * (i as int) by {
                assert(signed_view(work@)[j] == work@[j] as int);
                assert(signed_view(work@)[j] == mid[j]);
                if j != i as int {
                    assert(mid[j] == prefix_i[j]);
                }
            }
        }
        let mut t: usize = 0;
        while t < kernel.len()
            invariant
                t <= kernel@.len(),
                work@.len() == n,
                data@ == orig,
                signed_view(work@) == distribute(
                    mid,
                    w,
                    h,
                    xg,
                    yg,
                    errg,
                    kernel@.take(t as int),
                    den as int,
                ),
                forall|j: int|
                    0 <= j < n ==> -2040 * (i as int) - 255 * (t as int) - 255 <= #[trigger] work@[j]
                        <= 255 + 2040 * (i as int) + 255 * (t as int),
            decreases kernel@.len() - t,
        {
            let ghost before = signed_view(work@);
            let k = kernel[t];
            proof {
                assert(kernel@[t as int].valid(den as int));
                lemma_distribute_snoc(mid, w, h, xg, yg, errg, kernel@, den as int, t as int);
            }
            let tx: i128 = x as i128 + k.dx as i128;
            let ty: i128 = y as i128 + k.dy as i128;
            if 0 <= tx && tx < width as i128 && 0 <= ty && ty < height as i128 {
                proof {
                    lemma_index_bounds(w, h, tx as int, ty as int);
                }
                let j_wide: i128 = ty * (width as i128) + tx;
                let j: usize = j_wide as usize;
                let mag: u128 = if err >= 0 {
                    err as u128
                } else {
                    (-err) as u128
                };
                proof {
                    assert(mag <= 255);
                    assert(mag * (k.num as u128) <= 255 * 16) by (nonlinear_arith)
                        requires
                            mag <= 255,
                            k.num <= 16,
                    ;
                    lemma_share_bounded(errg, k.num as int, den as int);
                }
                let s: u128 = (mag * (k.num as u128)) / (den as u128);
                proof {
                    assert(s as int == (mag as int * (k.num as int)) / (den as int));
                    if errg >= 0 {
                        assert(mag as int == errg);
                        assert(s as int == weighted_share(errg, k.num as int, den as int));
                    } else {
                        assert(mag as int == -errg);
                        assert(s as int == -weighted_share(errg, k.num as int, den as int));
                    }
                    assert(s <= 255);
                }
                let sh: i128 = if err >= 0 {
                    s as i128
                } else {
                    -(s as i128)
                };
                proof {
                    assert(sh as int == weighted_share(errg, k.num as int, den as int));
                }
                let cur: i128 = work[j];
                work.set(j, cur + sh);
                proof {
                    assert(signed_view(work@) =~= before.update(
                        j as int,
                        before[j as int] + weighted_share(errg, k.num as int, den as int),
                    ));
                    assert(signed_view(work@) =~= apply_weight(
                        before,
                        w,
                        h,
                        xg,
                        yg,
                        errg,
                        kernel@[t as int],
                        den as int,
                    ));
                }
            } else {
                proof {
                    assert(!in_bounds(w, h, xg + kernel@[t as int].dx, yg + kernel@[t as int].dy));
                    assert(signed_view(work@) == apply_weight(
                        before,
                        w,
                        h,
                        xg,
                        yg,
                        errg,
                        kernel@[t as int],
                        den as int,
                    ));
                }
            }
            t = t + 1;
        }
        proof {
            assert(kernel@.take(kernel@.len() as int) =~= kernel@);
            assert(signed_view(work@) == diffuse_step(
                *q,
                prefix_i,
                w,
                h,
                i as int,
                kernel@,
                den as int,
            ));
            assert(diffuse_prefix(*q, to_signed(orig), w, h, i as int + 1, kernel@, den as int)
                == diffuse_step(*q, prefix_i, w, h, i as int, kernel@, den as int));
        }
        i = i + 1;
    }

    let ghost prefix_n = diffuse_prefix(*q, to_signed(orig), w, h, n as int, kernel@, den as int);
    proof {
        lemma_prefix_properties(*q, to_signed(orig), w, h, n as int, kernel@, den as int);
        assert(forall|j: int| 0 <= j < n ==> 0 <= #[trigger] prefix_n[j] <= 255);
    }
    let mut m: usize = 0;
    while m < n
        invariant
            m <= n,
            data@.len() == n,
            work@.len() == n,
            signed_view(work@) == prefix_n,
            forall|j: int| 0 <= j < m ==> #[trigger] data@[j] == prefix_n[j] as u8,
        decreases n - m,
    {
        let wv: i128 = work[m];
        proof {
            assert(wv as int == prefix_n[m as int]);
            assert(0 <= prefix_n[m as int] <= 255);
        }
        data.set(m, wv as u8);
        m = m + 1;
    }
    proof {
        assert(data@ =~= diffuse_spec(*q, orig, w, h, kernel@, den as int));
    }
}

/// The Floyd-Steinberg kernel, in sixteenths: right 7, below-left 3, below 5,
/// below-right 1.
pub open spec fn floyd_steinberg_kernel() -> Seq<Weight> {
    seq![
        (Weight { dx: 1, dy: 0, num: 7 }),
        (Weight { dx: -1i32, dy: 1, num: 3 }),
        (Weight { dx: 0, dy: 1, num: 5 }),
        (Weight { dx: 1, dy: 1, num: 1 }),
    ]
}

/// The Floyd-Steinberg denominator.
pub open spec fn floyd_steinberg_den() -> int {
    16
}

/// The Atkinson kernel, in eighths: one share each to right, right + 1,
/// below-left, below, below-right and two rows below; two eighths of the
/// error are deliberately discarded.
pub open spec fn atkinson_kernel() -> Seq<Weight> {
    seq![
        (Weight { dx: 1, dy: 0, num: 1 }),
        (Weight { dx: 2, dy: 0, num: 1 }),
        (Weight { dx: -1i32, dy: 1, num: 1 }),
        (Weight { dx: 0, dy: 1, num: 1 }),
        (Weight { dx: 1, dy: 1, num: 1 }),
        (Weight { dx: 0, dy: 2, num: 1 }),
    ]
}

/// The Atkinson denominator.
pub open spec fn atkinson_den() -> int {
    8
}

/// The Sierra Lite kernel, in fourths: right 2, below-left 1, below 1.
pub open spec fn sierra_lite_kernel() -> Seq<Weight> {
    seq![
        (Weight { dx: 1, dy: 0, num: 2 }),
        (Weight { dx: -1i32, dy: 1, num: 1 }),
        (Weight { dx: 0, dy: 1, num: 1 }),
    ]
}

/// The Sierra Lite denominator.
pub open spec fn sierra_lite_den() -> int {
    4
}

/// The raster a Floyd-Steinberg pass produces.
pub open spec fn floyd_steinberg_spec<Q: Quantizer>(q: Q, data: Seq<u8>, w: int, h: int) -> Seq<
    u8,
> {
    diffuse_spec(q, data, w, h, floyd_steinberg_kernel(), floyd_steinberg_den())
}

/// The raster an Atkinson pass produces.
pub open spec fn atkinson_spec<Q: Quantizer>(q: Q, data: Seq<u8>, w: int, h: int) -> Seq<u8> {
    diffuse_spec(q, data, w, h, atkinson_kernel(), atkinson_den())
}

/// The raster a Sierra Lite pass produces.
pub open spec fn sierra_lite_spec<Q: Quantizer>(q: Q, data: Seq<u8>, w: int, h: int) -> Seq<u8> {
    diffuse_spec(q, data, w, h, sierra_lite_kernel(), sierra_lite_den())
}

/// All three built-in kernels are admissible.
pub proof fn lemma_builtin_kernels_ok()
    ensures
        kernel_ok(floyd_steinberg_kernel(), floyd_steinberg_den()),
        kernel_ok(atkinson_kernel(), atkinson_den()),
        kernel_ok(sierra_lite_kernel(), sierra_lite_den()),
{
}

/// Checks that a raster's buffer holds exactly one sample per pixel.
pub(crate) fn check_raster(raster: &Raster) -> (ok: bool)
    ensures
        ok <==> raster@.wf(),
{
    proof {
        crate::raster::lemma_u64_range_mul_fits_u128(
            raster@.width as int,
            raster@.height as int,
        );
    }
    (raster.width as u128) * (raster.height as u128) == (raster.data.len() as u128)
}

/// Quantizes the raster with Floyd-Steinberg error diffusion: each pixel of
/// the row-major scan is clamped, quantized, and the error spread over the
/// four unvisited neighbors in sixteenths (7 right, 3 below-left, 5 below,
/// 1 below-right); shares aimed off the raster are dropped.
pub fn dither_floyd_steinberg<Q: Quantizer>(raster: &mut Raster, q: &Q) -> (r: Result<
    (),
    DitherError,
>)
    ensures
        r is Ok <==> old(raster)@.wf(),
        !old(raster)@.wf() ==> *final(raster) == *old(raster) && r == Result::<
            (),
            DitherError,
        >::Err(DitherError::InvalidRaster),
        old(raster)@.wf() ==> final(raster)@ == (crate::raster::RasterModel {
            data: floyd_steinberg_spec(
                *q,
                old(raster)@.data,
                old(raster)@.width as int,
                old(raster)@.height as int,
            ),
            ..old(raster)@
        }),
{
    if !check_raster(raster) {
        return Err(DitherError::InvalidRaster);
    }
    proof {
        lemma_builtin_kernels_ok();
    }
    let kernel = build_floyd_steinberg_kernel();
    let width = raster.width;
    let height = raster.height;
    diffuse_in_place(&mut raster.data, width, height, &kernel, 16, q);
    Ok(())
}

/// Quantizes the raster with Atkinson error diffusion: six neighbors receive
/// one eighth of the error each and the remaining quarter is discarded;
/// shares aimed off the raster are dropped.
pub fn dither_atkinson<Q: Quantizer>(raster: &mut Raster, q: &Q) -> (r: Result<(), DitherError>)
    ensures
        r is Ok <==> old(raster)@.wf(),
        !old(raster)@.wf() ==> *final(raster) == *old(raster) && r == Result::<
            (),
            DitherError,
        >::Err(DitherError::InvalidRaster),
        old(raster)@.wf() ==> final(raster)@ == (crate::raster::RasterModel {
            data: atkinson_spec(
                *q,
                old(raster)@.data,
                old(raster)@.width as int,
                old(raster)@.height as int,
            ),
            ..old(raster)@
        }),
{
    if !check_raster(raster) {
        return Err(DitherError::InvalidRaster);
    }
    proof {
        lemma_builtin_kernels_ok();
    }
    let kernel = build_atkinson_kernel();
    let width = raster.width;
    let height = raster.height;
    diffuse_in_place(&mut raster.data, width, height, &kernel, 8, q);
    Ok(())
}

/// Quantizes the raster with Sierra Lite error diffusion: the error is spread
/// in fourths (2 right, 1 below-left, 1 below); shares aimed off the raster
/// are dropped.
pub fn dither_sierra_lite<Q: Quantizer>(raster: &mut Raster, q: &Q) -> (r: Result<(), DitherError>)
    ensures
        r is Ok <==> old(raster)@.wf(),
        !old(raster)@.wf() ==> *final(raster) == *old(raster) && r == Result::<
            (),
            DitherError,
        >::Err(DitherError::InvalidRaster),
        old(raster)@.wf() ==> final(raster)@ == (crate::raster::RasterModel {
            data: sierra_lite_spec(
                *q,
                old(raster)@.data,
                old(raster)@.width as int,
                old(raster)@.height as int,
            ),
            ..old(raster)@
        }),
{
    if !check_raster(raster) {
        return Err(DitherError::InvalidRaster);
    }
    proof {
        lemma_builtin_kernels_ok();
    }
    let kernel = build_sierra_lite_kernel();
    let width = raster.width;
    let height = raster.height;
    diffuse_in_place(&mut raster.data, width, height, &kernel, 4, q);
    Ok(())
}

/// The Floyd-Steinberg kernel as an executable table.
fn build_floyd_steinberg_kernel() -> (k: Vec<Weight>)
    ensures
        k@ == floyd_steinberg_kernel(),
{
    let mut k: Vec<Weight> = Vec::new();
    k.push(Weight { dx: 1, dy: 0, num: 7 });
    k.push(Weight { dx: -1i32, dy: 1, num: 3 });
    k.push(Weight { dx: 0, dy: 1, num: 5 });
    k.push(Weight { dx: 1, dy: 1, num: 1 });
    proof {
        assert(k@ =~= floyd_steinberg_kernel());
    }
    k
}

/// The Atkinson kernel as an executable table.
fn build_atkinson_kernel() -> (k: Vec<Weight>)
    ensures
        k@ == atkinson_kernel(),
{
    let mut k: Vec<Weight> = Vec::new();
    k.push(Weight { dx: 1, dy: 0, num: 1 });
    k.push(Weight { dx: 2, dy: 0, num: 1 });
    k.push(Weight { dx: -1i32, dy: 1, num: 1 });
    k.push(Weight { dx: 0, dy: 1, num: 1 });
    k.push(Weight { dx: 1, dy: 1, num: 1 });
    k.push(Weight { dx: 0, dy: 2, num: 1 });
    proof {
        assert(k@ =~= atkinson_kernel());
    }
    k
}

/// The Sierra Lite kernel as an executable table.
fn build_sierra_lite_kernel() -> (k: Vec<Weight>)
    ensures
        k@ == sierra_lite_kernel(),
{
    let mut k: Vec<Weight> = Vec::new();
    k.push(Weight { dx: 1, dy: 0, num: 2 });
    k.push(Weight { dx: -1i32, dy: 1, num: 1 });
    k.push(Weight { dx: 0, dy: 1, num: 1 });
    proof {
        assert(k@ =~= sierra_lite_kernel());
    }
    k
}

} // verus!
