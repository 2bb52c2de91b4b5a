use crate::{HEIGHT, WIDTH};
use vstd::arithmetic::mul::lemma_mul_inequality;
use vstd::arithmetic::div_mod::{
    lemma_div_multiples_vanish_fancy, lemma_mod_multiples_vanish, lemma_small_mod,
};
use vstd::prelude::*;

verus! {

/// Pixel column of the framebuffer byte at offset `k`.
pub open spec fn px_of(k: int) -> int {
    (k / 4) % (WIDTH as int)
}

/// Pixel row of the framebuffer byte at offset `k`.
pub open spec fn py_of(k: int) -> int {
    (k / 4) / (WIDTH as int)
}

/// Whether the byte at offset `k` of a framebuffer of `len` bytes belongs to
/// the `scale * scale` pixel block that `set_pixel(x, y, scale)` paints: the
/// block starts at column `x * scale` and row `y * scale`, and a pixel is
/// painted only when it lies on screen and its four bytes lie within `len`.
pub open spec fn covers(k: int, x: int, y: int, scale: int, len: int) -> bool {
    &&& (k / 4) * 4 + 4 <= len
    &&& py_of(k) < HEIGHT as int
    &&& x * scale <= px_of(k) < x * scale + scale
    &&& y * scale <= py_of(k) < y * scale + scale
}

/// `covers` restricted to the sub-blocks already painted when the outer loop
/// is at column offset `i` and the inner loop at row offset `j`.
pub open spec fn covers_upto(k: int, x: int, y: int, scale: int, len: int, i: int, j: int) -> bool {
    &&& covers(k, x, y, scale, len)
    &&& (px_of(k) - x * scale < i || (px_of(k) - x * scale == i && py_of(k) - y * scale < j))
}

/// Whether `n` lies in the closed interval spanned by `a` and `b`, in either
/// order.
pub fn is_between(n: i64, a: i64, b: i64) -> (r: bool)
    ensures
        r == (a <= n <= b || b <= n <= a),
{
    let (start, end) = if a < b {
        (a, b)
    } else {
        (b, a)
    };
    start <= n && n <= end
}

/// The byte region a `verline(x, y1, y2, scale)` call paints: the pixel
/// column block of `x`, rows `y1 * scale` through `y2 * scale` inclusive,
/// each painted as a `scale * scale` block.
pub open spec fn vl_covers(k: int, x: int, y1: int, y2: int, scale: int, len: int) -> bool {
    &&& (k / 4) * 4 + 4 <= len
    &&& py_of(k) < HEIGHT as int
    &&& x * scale <= px_of(k) < x * scale + scale
    &&& (y1 * scale) * scale <= py_of(k) < (y2 * scale + 1) * scale
}

/// The byte region a `filled_rectangle(x1, y1, x2, y2, scale)` call paints.
pub open spec fn fr_covers(
    k: int,
    x1: int,
    y1: int,
    x2: int,
    y2: int,
    scale: int,
    len: int,
) -> bool {
    &&& (k / 4) * 4 + 4 <= len
    &&& py_of(k) < HEIGHT as int
    &&& (x1 * scale) * scale <= px_of(k) < (x2 * scale + 1) * scale
    &&& (y1 * scale) * scale <= py_of(k) < (y2 * scale + 1) * scale
}

/// Paint the `scale * scale` pixel block of screen pixel `(x, y)` with
/// `color`, skipping anything that falls off the screen or past the end of
/// the buffer.
#[verifier::loop_isolation(false)]
pub fn set_pixel(frame: &mut Vec<u8>, x: usize, y: usize, color: [u8; 4], scale: usize)
    requires
        x * scale + scale <= usize::MAX,
        y * scale + scale <= usize::MAX,
    ensures
        final(frame)@.len() == old(frame)@.len(),
        forall|k: int|
            0 <= k < old(frame)@.len() ==> final(frame)@[k] == (if covers(
                k,
                x as int,
                y as int,
                scale as int,
                old(frame)@.len() as int,
            ) {
                color@[k % 4]
            } else {
                old(frame)@[k]
            }),
        forall|k: int|
            WIDTH * HEIGHT * 4 <= k < old(frame)@.len() ==> final(frame)@[k] == old(frame)@[k],
{
    let ghost orig = frame@;
    let ghost xi0 = x as int;
    let ghost yi0 = y as int;
    let ghost sc = scale as int;
    let ghost len = orig.len() as int;
    let mut i: usize = 0;
    while i < scale
        invariant
            frame@.len() == orig.len(),
            i <= scale,
            x * scale + scale <= usize::MAX,
            y * scale + scale <= usize::MAX,
            forall|k: int|
                0 <= k < orig.len() ==> frame@[k] == (if covers_upto(
                    k,
                    xi0,
                    yi0,
                    sc,
                    len,
                    i as int,
                    0,
                ) {
                    color@[k % 4]
                } else {
                    orig[k]
                }),
        decreases scale - i,
    {
        let mut j: usize = 0;
        while j < scale
            invariant
                frame@.len() == orig.len(),
                i < scale,
                j <= scale,
                x * scale + scale <= usize::MAX,
                y * scale + scale <= usize::MAX,
                forall|k: int|
                    0 <= k < orig.len() ==> frame@[k] == (if covers_upto(
                        k,
                        xi0,
                        yi0,
                        sc,
                        len,
                        i as int,
                        j as int,
                    ) {
                        color@[k % 4]
                    } else {
                        orig[k]
                    }),
            decreases scale - j,
        {
            let xi = x * scale + i;
            let yj = y * scale + j;
            if xi < WIDTH && yj < HEIGHT {
                let index = (yj * WIDTH + xi) * 4;
                proof {
                    lemma_mod_multiples_vanish(yj as int, xi as int, WIDTH as int);
                    lemma_small_mod(xi as nat, WIDTH as nat);
                    lemma_div_multiples_vanish_fancy(yj as int, xi as int, WIDTH as int);
                }
                if index + 4 <= frame.len() {
                    let ghost pre = frame@;
                    frame[index] = color[0];
                    frame[index + 1] = color[1];
                    frame[index + 2] = color[2];
                    frame[index + 3] = color[3];
                    proof {
                        let p = (yj as int) * (WIDTH as int) + (xi as int);
                        assert forall|k: int| 0 <= k < orig.len() implies frame@[k] == (
                        if covers_upto(k, xi0, yi0, sc, len, i as int, j as int + 1) {
                            color@[k % 4]
                        } else {
                            orig[k]
                        }) by {
                            if index <= k < index + 4 {
                                lemma_div_multiples_vanish_fancy(p, k - 4 * p, 4);
                                lemma_mod_multiples_vanish(p, k - 4 * p, 4);
                                lemma_small_mod((k - 4 * p) as nat, 4);
                                assert(k / 4 == p);
                                assert(k % 4 == k - 4 * p);
                            } else {
                                assert(frame@[k] == pre[k]);
                                if covers(k, xi0, yi0, sc, len) && px_of(k) - xi0 * sc == i && py_of(
                                    k,
                                ) - yi0 * sc == j {
                                    assert(k / 4 == p) by {
                                        assert(px_of(k) == xi as int && py_of(k) == yj as int);
                                        vstd::arithmetic::div_mod::lemma_fundamental_div_mod(
                                            k / 4,
                                            WIDTH as int,
                                        );
                                    }
                                    vstd::arithmetic::div_mod::lemma_fundamental_div_mod(k, 4);
                                    assert(false);
                                }
                            }
                        }
                    }
                } else {
                    proof {
                        assert forall|k: int| 0 <= k < orig.len() implies (covers_upto(
                            k,
                            xi0,
                            yi0,
                            sc,
                            len,
                            i as int,
                            j as int + 1,
                        ) == covers_upto(k, xi0, yi0, sc, len, i as int, j as int)) by {
                            if covers(k, xi0, yi0, sc, len) && px_of(k) - xi0 * sc == i && py_of(k)
                                - yi0 * sc == j {
                                let p = (yj as int) * (WIDTH as int) + (xi as int);
                                assert(k / 4 == p) by {
                                    vstd::arithmetic::div_mod::lemma_fundamental_div_mod(
                                        k / 4,
                                        WIDTH as int,
                                    );
                                }
                                assert(false);
                            }
                        }
                    }
                }
            } else {
                proof {
                    assert forall|k: int| 0 <= k < orig.len() implies (covers_upto(
                        k,
                        xi0,
                        yi0,
                        sc,
                        len,
                        i as int,
                        j as int + 1,
                    ) == covers_upto(k, xi0, yi0, sc, len, i as int, j as int)) by {
                        if covers(k, xi0, yi0, sc, len) && px_of(k) - xi0 * sc == i && py_of(k)
                            - yi0 * sc == j {
                            assert(px_of(k) < WIDTH as int);
                            assert(py_of(k) < HEIGHT as int);
                            assert(false);
                        }
                    }
                }
            }
            j = j + 1;
        }
        i = i + 1;
        proof {
            assert forall|k: int| 0 <= k < orig.len() implies (covers_upto(
                k,
                xi0,
                yi0,
                sc,
                len,
                i as int,
                0,
            ) == covers_upto(k, xi0, yi0, sc, len, i as int - 1, sc)) by {}
        }
    }
    proof {
        assert forall|k: int| 0 <= k < orig.len() implies (covers_upto(
            k,
            xi0,
            yi0,
            sc,
            len,
            sc,
            0,
        ) == covers(k, xi0, yi0, sc, len)) by {}
    }
}

/// Fill the pixel column `x` with `rgba` from row `y1` to row `y2`
/// inclusive (rows in the scaled grid, as the drawing primitives use it).
#[verifier::loop_isolation(false)]
pub fn verline(frame: &mut Vec<u8>, x: usize, y1: usize, y2: usize, rgba: [u8; 4], scale: usize)
    requires
        x * scale + scale <= usize::MAX,
        y1 * scale <= usize::MAX,
        y2 * scale + 1 <= usize::MAX,
        y2 * scale * scale + scale <= usize::MAX,
    ensures
        final(frame)@.len() == old(frame)@.len(),
        forall|k: int|
            0 <= k < old(frame)@.len() ==> final(frame)@[k] == (if vl_covers(
                k,
                x as int,
                y1 as int,
                y2 as int,
                scale as int,
                old(frame)@.len() as int,
            ) {
                rgba@[k % 4]
            } else {
                old(frame)@[k]
            }),
        forall|k: int|
            WIDTH * HEIGHT * 4 <= k < old(frame)@.len() ==> final(frame)@[k] == old(frame)@[k],
{
    let ghost orig = frame@;
    let ghost len = orig.len() as int;
    let ghost xi = x as int;
    let ghost sc = scale as int;
    let ghost y1s = (y1 as int) * sc;
    let ghost y2s = (y2 as int) * sc;
    let mut y: usize = y1 * scale;
    while y <= y2 * scale
        invariant
            frame@.len() == orig.len(),
            y1 * scale <= y,
            y <= y2 * scale + 1 || y == y1 * scale,
            forall|k: int|
                0 <= k < orig.len() ==> frame@[k] == (if ((k / 4) * 4 + 4 <= len && py_of(k)
                    < HEIGHT as int && xi * sc <= px_of(k) < xi * sc + sc && y1s * sc <= py_of(k)
                    < (y as int) * sc) {
                    rgba@[k % 4]
                } else {
                    orig[k]
                }),
        decreases y2 * scale + 1 - y,
    {
        proof {
            lemma_mul_inequality(y as int, y2s, sc);
            lemma_mul_inequality(y1s, y as int, sc);
            assert((y as int + 1) * sc == y as int * sc + sc) by (nonlinear_arith);
        }
        set_pixel(frame, x, y, rgba, scale);
        y = y + 1;
    }
    proof {
        if y1 * scale > y2 * scale {
            lemma_mul_inequality(y2s + 1, y1s, sc);
        }
        assert forall|k: int| 0 <= k < orig.len() implies (((k / 4) * 4 + 4 <= len && py_of(k)
            < HEIGHT as int && xi * sc <= px_of(k) < xi * sc + sc && y1s * sc <= py_of(k) < (
        y as int) * sc) == vl_covers(k, xi, y1 as int, y2 as int, sc, len)) by {
            assert((y2 as int * sc + 1) * sc == (y2 as int * sc) * sc + sc) by (nonlinear_arith);
        }
    }
}

/// Fill the axis-aligned rectangle with corners `(x1, y1)` and `(x2, y2)`
/// (in the scaled grid, both inclusive) with `color`, skipping pixels that
/// fall off the screen.
#[verifier::loop_isolation(false)]
pub fn filled_rectangle(
    frame: &mut Vec<u8>,
    x1: usize,
    y1: usize,
    x2: usize,
    y2: usize,
    color: [u8; 4],
    scale: usize,
)
    requires
        x1 * scale <= usize::MAX,
        y1 * scale <= usize::MAX,
        x2 * scale + 1 <= usize::MAX,
        y2 * scale + 1 <= usize::MAX,
        x2 * scale * scale + scale <= usize::MAX,
        y2 * scale * scale + scale <= usize::MAX,
    ensures
        final(frame)@.len() == old(frame)@.len(),
        forall|k: int|
            0 <= k < old(frame)@.len() ==> final(frame)@[k] == (if fr_covers(
                k,
                x1 as int,
                y1 as int,
                x2 as int,
                y2 as int,
                scale as int,
                old(frame)@.len() as int,
            ) {
                color@[k % 4]
            } else {
                old(frame)@[k]
            }),
        forall|k: int|
            WIDTH * HEIGHT * 4 <= k < old(frame)@.len() ==> final(frame)@[k] == old(frame)@[k],
{
    let ghost orig = frame@;
    let ghost len = orig.len() as int;
    let ghost sc = scale as int;
    let ghost x1s = (x1 as int) * sc;
    let ghost y1s = (y1 as int) * sc;
    let ghost x2s = (x2 as int) * sc;
    let ghost y2s = (y2 as int) * sc;
    let mut x: usize = x1 * scale;
    while x <= x2 * scale
        invariant
            frame@.len() == orig.len(),
            x1 * scale <= x,
            x <= x2 * scale + 1 || x == x1 * scale,
            forall|k: int|
                0 <= k < orig.len() ==> frame@[k] == (if ((k / 4) * 4 + 4 <= len && py_of(k)
                    < HEIGHT as int && x1s * sc <= px_of(k) < (x as int) * sc && y1s * sc <= py_of(
                    k,
                ) < (y2s + 1) * sc) {
                    color@[k % 4]
                } else {
                    orig[k]
                }),
        decreases x2 * scale + 1 - x,
    {
        proof {
            lemma_mul_inequality(x as int, x2s, sc);
            lemma_mul_inequality(x1s, x as int, sc);
            assert((x as int + 1) * sc == x as int * sc + sc) by (nonlinear_arith);
        }
        if x < WIDTH {
            let ghost col_pre = frame@;
            let mut y: usize = y1 * scale;
            while y <= y2 * scale
                invariant
                    x < WIDTH,
                    frame@.len() == orig.len(),
                    y1 * scale <= y,
                    y <= y2 * scale + 1 || y == y1 * scale,
                    forall|k: int|
                        0 <= k < orig.len() ==> frame@[k] == (if ((k / 4) * 4 + 4 <= len && py_of(k)
                            < HEIGHT as int && ((x1s * sc <= px_of(k) < (x as int) * sc && y1s * sc
                            <= py_of(k) < (y2s + 1) * sc) || ((x as int) * sc <= px_of(k) < (
                        x as int) * sc + sc && y1s * sc <= py_of(k) < (y as int) * sc))) {
                            color@[k % 4]
                        } else {
                            orig[k]
                        }),
                decreases y2 * scale + 1 - y,
            {
                proof {
                    lemma_mul_inequality(y as int, y2s, sc);
                    lemma_mul_inequality(y1s, y as int, sc);
                    assert((y as int + 1) * sc == y as int * sc + sc) by (nonlinear_arith);
                }
                if y < HEIGHT {
                    set_pixel(frame, x, y, color, scale);
                } else {
                    proof {
                        lemma_mul_inequality(HEIGHT as int, y as int, sc);
                        if sc >= 1 {
                            lemma_mul_inequality(1, sc, HEIGHT as int);
                        }
                    }
                }
                y = y + 1;
            }
            proof {
                if y1 * scale > y2 * scale {
                    lemma_mul_inequality(y2s + 1, y1s, sc);
                }
assert((y2 as int * sc + 1) * sc == (y2 as int * sc) * sc + sc) by (nonlinear_arith);
            }
        } else {
            proof {
                lemma_mul_inequality(WIDTH as int, x as int, sc);
                if sc >= 1 {
                    lemma_mul_inequality(1, sc, WIDTH as int);
                }
                assert forall|k: int| 0 <= #[trigger] px_of(k) < WIDTH as int by {}
            }
        }
        x = x + 1;
    }
    proof {
        if x1 * scale > x2 * scale {
            lemma_mul_inequality(x2s + 1, x1s, sc);
        }
assert((x2 as int * sc + 1) * sc == (x2 as int * sc) * sc + sc) by (nonlinear_arith);
        assert forall|k: int| 0 <= k < orig.len() implies (((k / 4) * 4 + 4 <= len && py_of(k)
            < HEIGHT as int && x1s * sc <= px_of(k) < (x as int) * sc && y1s * sc <= py_of(k) < (
        y2s + 1) * sc) == fr_covers(k, x1 as int, y1 as int, x2 as int, y2 as int, sc, len)) by {}
    }
}

/// The pixels Bresenham's walk paints, starting at `(x, y)` with error term
/// `err`, until it reaches `(x2s, y2s)`: at each step it advances x and/or
/// y by the scaled step whose doubled error term allows it.
pub open spec fn bres_path(
    x: int,
    y: int,
    err: int,
    x2s: int,
    y2s: int,
    dx: int,
    dy: int,
    sxs: int,
    sys: int,
    fuel: nat,
) -> Seq<(int, int)>
    decreases fuel,
{
    if fuel == 0 {
        seq![]
    } else if x == x2s && y == y2s {
        seq![(x, y)]
    } else {
        let e2 = 2 * err;
        let stx = e2 >= dy;
        let sty = e2 <= dx;
        let x3 = if stx {
            x + sxs
        } else {
            x
        };
        let y3 = if sty {
            y + sys
        } else {
            y
        };
        let err2 = err + (if stx {
            dy
        } else {
            0
        }) + (if sty {
            dx
        } else {
            0
        });
        seq![(x, y)] + bres_path(x3, y3, err2, x2s, y2s, dx, dy, sxs, sys, (fuel - 1) as nat)
    }
}

/// Whether byte `k` belongs to the block of any pixel in `pts` (each drawn
/// as a `scale * scale` block).
pub open spec fn line_covers(k: int, pts: Seq<(int, int)>, scale: int, len: int) -> bool {
    exists|i: int| 0 <= i < pts.len() && #[trigger] covers(k, pts[i].0, pts[i].1, scale, len)
}

proof fn lemma_line_covers_push(k: int, pts: Seq<(int, int)>, p: (int, int), scale: int, len: int)
    ensures
        line_covers(k, pts.push(p), scale, len) == (line_covers(k, pts, scale, len) || covers(
            k,
            p.0,
            p.1,
            scale,
            len,
        )),
{
    let pts2 = pts.push(p);
    if line_covers(k, pts, scale, len) {
        let i = choose|i: int| 0 <= i < pts.len() && #[trigger] covers(k, pts[i].0, pts[i].1, scale, len);
        assert(pts2[i] == pts[i]);
        assert(covers(k, pts2[i].0, pts2[i].1, scale, len));
    }
    if covers(k, p.0, p.1, scale, len) {
        assert(pts2[pts.len() as int] == p);
        assert(covers(k, pts2[pts.len() as int].0, pts2[pts.len() as int].1, scale, len));
    }
    if line_covers(k, pts2, scale, len) {
        let i = choose|i: int|
            0 <= i < pts2.len() && #[trigger] covers(k, pts2[i].0, pts2[i].1, scale, len);
        if i < pts.len() {
            assert(pts2[i] == pts[i]);
            assert(covers(k, pts[i].0, pts[i].1, scale, len));
        } else {
            assert(pts2[i] == p);
        }
    }
}

/// Draw a straight line from `(x1, y1)` to `(x2, y2)` (inclusive) with
/// Bresenham's walk; a vertical line is drawn as a column fill. The
/// contract names every painted byte through the walk's own path.
#[verifier::rlimit(60)]
pub fn line(
    frame: &mut Vec<u8>,
    x1: isize,
    y1: isize,
    x2: isize,
    y2: isize,
    color: [u8; 4],
    scale: usize,
)
    requires
        0 <= x1 <= 0xFFFF,
        0 <= y1 <= 0xFFFF,
        0 <= x2 <= 0xFFFF,
        0 <= y2 <= 0xFFFF,
        1 <= scale <= 64,
    ensures
        final(frame)@.len() == old(frame)@.len(),
        x1 == x2 ==> forall|k: int|
            0 <= k < old(frame)@.len() ==> final(frame)@[k] == (if vl_covers(
                k,
                x1 as int,
                y1 as int,
                y2 as int,
                scale as int,
                old(frame)@.len() as int,
            ) {
                color@[k % 4]
            } else {
                old(frame)@[k]
            }),
        x1 != x2 ==> forall|k: int|
            0 <= k < old(frame)@.len() ==> final(frame)@[k] == (if line_covers(
                k,
                line_path(x1 as int, y1 as int, x2 as int, y2 as int, scale as int),
                scale as int,
                old(frame)@.len() as int,
            ) {
                color@[k % 4]
            } else {
                old(frame)@[k]
            }),
        forall|k: int|
            WIDTH * HEIGHT * 4 <= k < old(frame)@.len() ==> final(frame)@[k] == old(frame)@[k],
{
    proof {
        assert forall|k: int| WIDTH * HEIGHT * 4 <= k implies py_of(k) >= HEIGHT as int by {
            lemma_off_screen_byte(k);
        }
    }
    if x1 == x2 {
        proof {
            vstd::arithmetic::mul::lemma_mul_upper_bound(x1 as int, 0xFFFF, scale as int, 64);
            vstd::arithmetic::mul::lemma_mul_upper_bound(y1 as int, 0xFFFF, scale as int, 64);
            vstd::arithmetic::mul::lemma_mul_upper_bound(y2 as int, 0xFFFF, scale as int, 64);
            vstd::arithmetic::mul::lemma_mul_nonnegative(x1 as int, scale as int);
            vstd::arithmetic::mul::lemma_mul_nonnegative(y1 as int, scale as int);
            vstd::arithmetic::mul::lemma_mul_nonnegative(y2 as int, scale as int);
            assert(y2 as int * scale * scale <= 0x3FFFC0 * 64) by (nonlinear_arith)
                requires
                    0 <= y2 as int * scale <= 0x3FFFC0,
                    1 <= scale <= 64,
            ;
        }
        verline(frame, x1 as usize, y1 as usize, y2 as usize, color, scale);
        return ;
    }
    let ghost orig = frame@;
    let ghost len = orig.len() as int;
    let ghost sc = scale as int;
    let a: isize = if x2 >= x1 {
        x2 - x1
    } else {
        x1 - x2
    };
    let b: isize = if y2 >= y1 {
        y2 - y1
    } else {
        y1 - y2
    };
    proof {
        vstd::arithmetic::mul::lemma_mul_upper_bound(a as int, 0xFFFF, scale as int, 64);
        vstd::arithmetic::mul::lemma_mul_upper_bound(b as int, 0xFFFF, scale as int, 64);
        vstd::arithmetic::mul::lemma_mul_upper_bound(x1 as int, 0xFFFF, scale as int, 64);
        vstd::arithmetic::mul::lemma_mul_upper_bound(y1 as int, 0xFFFF, scale as int, 64);
        vstd::arithmetic::mul::lemma_mul_upper_bound(x2 as int, 0xFFFF, scale as int, 64);
        vstd::arithmetic::mul::lemma_mul_upper_bound(y2 as int, 0xFFFF, scale as int, 64);
        vstd::arithmetic::mul::lemma_mul_nonnegative(a as int, scale as int);
        vstd::arithmetic::mul::lemma_mul_nonnegative(b as int, scale as int);
        vstd::arithmetic::mul::lemma_mul_nonnegative(x1 as int, scale as int);
        vstd::arithmetic::mul::lemma_mul_nonnegative(y1 as int, scale as int);
        vstd::arithmetic::mul::lemma_mul_nonnegative(x2 as int, scale as int);
        vstd::arithmetic::mul::lemma_mul_nonnegative(y2 as int, scale as int);
    }
    let dx = a * (scale as isize);
    let sx: isize = if x1 < x2 {
        1
    } else {
        -1
    };
    let dy = -(b * (scale as isize));
    let sy: isize = if y1 < y2 {
        1
    } else {
        -1
    };
    let mut err = dx + dy;
    let mut x = x1 * (scale as isize);
    let mut y = y1 * (scale as isize);
    let ghost x2s = (x2 as int) * sc;
    let ghost y2s = (y2 as int) * sc;
    let ghost sxs = (sx as int) * sc;
    let ghost sys = (sy as int) * sc;
    let ghost full = line_path(x1 as int, y1 as int, x2 as int, y2 as int, sc);
    let mut i: usize = 0;
    let mut j: usize = 0;
    let ghost mut visited: Seq<(int, int)> = seq![];
    proof {
        assert(x2s == x1 as int * sc + (a as int) * sxs && y2s == y1 as int * sc + (b as int)
            * sys) by (nonlinear_arith)
            requires
                sxs == sx as int * sc,
                sys == sy as int * sc,
                x2s == x2 as int * sc,
                y2s == y2 as int * sc,
                a as int == (if x2 >= x1 {
                    x2 - x1
                } else {
                    x1 - x2
                }),
                b as int == (if y2 >= y1 {
                    y2 - y1
                } else {
                    y1 - y2
                }),
                sx as int == (if x1 < x2 {
                    1int
                } else {
                    -1int
                }),
                sy as int == (if y1 < y2 {
                    1int
                } else {
                    -1int
                }),
                x1 != x2,
        ;
        assert(err == (a as int * sc) * (1 + 0) - (b as int * sc) * (1 + 0)) by (nonlinear_arith)
            requires
                err == a as int * sc - b as int * sc,
        ;
        assert(x as int == x1 as int * sc + 0 * sxs && y as int == y1 as int * sc + 0 * sys) by (nonlinear_arith)
            requires
                x as int == x1 as int * sc,
                y as int == y1 as int * sc,
        ;
        assert(-64 <= sxs <= 64 && -64 <= sys <= 64) by (nonlinear_arith)
            requires
                sxs == sx as int * sc,
                sys == sy as int * sc,
                (sx as int == 1 || sx as int == -1),
                (sy as int == 1 || sy as int == -1),
                1 <= sc <= 64,
        ;
    }
    loop
        invariant
            orig == old(frame)@,
            full == line_path(x1 as int, y1 as int, x2 as int, y2 as int, sc),
            frame@.len() == orig.len(),
            1 <= scale <= 64,
            0 <= x1 <= 0xFFFF,
            0 <= y1 <= 0xFFFF,
            0 <= x2 <= 0xFFFF,
            0 <= y2 <= 0xFFFF,
            x1 != x2,
            sc == scale as int,
            len == orig.len() as int,
            a as int == (if x2 >= x1 {
                x2 - x1
            } else {
                x1 - x2
            }),
            b as int == (if y2 >= y1 {
                y2 - y1
            } else {
                y1 - y2
            }),
            dx as int == a as int * sc,
            dy as int == -(b as int * sc),
            sx as int == (if x1 < x2 {
                1int
            } else {
                -1int
            }),
            sy as int == (if y1 < y2 {
                1int
            } else {
                -1int
            }),
            x2s == x2 as int * sc,
            y2s == y2 as int * sc,
            sxs == sx as int * sc,
            sys == sy as int * sc,
            0 <= x1 as int * sc <= 0x100_0000,
            0 <= y1 as int * sc <= 0x100_0000,
            0 <= x2s <= 0x100_0000,
            0 <= y2s <= 0x100_0000,
            -64 <= sxs <= 64,
            -64 <= sys <= 64,
            0 <= dx <= 0x100_0000,
            -0x100_0000 <= dy <= 0,
            i <= a,
            j <= b,
            0 <= x <= 0x100_0000,
            0 <= y <= 0x100_0000,
            x as int == x1 as int * sc + i as int * sxs,
            y as int == y1 as int * sc + j as int * sys,
            x2s == x1 as int * sc + a as int * sxs,
            y2s == y1 as int * sc + b as int * sys,
            err as int == (a as int * sc) * (1 + j as int) - (b as int * sc) * (1 + i as int),
            -0x300_0000 <= err <= 0x300_0000,
            visited.len() <= i + j,
            full == visited + bres_path(
                x as int,
                y as int,
                err as int,
                x2s,
                y2s,
                dx as int,
                dy as int,
                sxs,
                sys,
                (a + b + 1 - visited.len()) as nat,
            ),
            forall|k: int|
                0 <= k < orig.len() ==> frame@[k] == (if line_covers(k, visited, sc, len) {
                    color@[k % 4]
                } else {
                    orig[k]
                }),
        decreases a + b - i - j,
    {
        let ghost ox = x as int;
        let ghost oy = y as int;
        let ghost oerr = err as int;
        let ghost ovl = visited;
        let ghost fuel0 = (a + b + 1 - visited.len()) as nat;
        proof {
            assert(x as int * sc + sc <= 0x4100_0000 && y as int * sc + sc <= 0x4100_0000)
                by (nonlinear_arith)
                requires
                    0 <= x as int <= 0x100_0000,
                    0 <= y as int <= 0x100_0000,
                    1 <= sc <= 64,
            ;
        }
        set_pixel(frame, x as usize, y as usize, color, scale);
        proof {
            assert(fuel0 >= 1);
            assert forall|k: int| 0 <= k < orig.len() implies frame@[k] == (if line_covers(
                k,
                ovl.push((ox, oy)),
                sc,
                len,
            ) {
                color@[k % 4]
            } else {
                orig[k]
            }) by {
                lemma_line_covers_push(k, ovl, (ox, oy), sc, len);
            }
            visited = visited.push((ox, oy));
        }
        if x == x2 * (scale as isize) && y == y2 * (scale as isize) {
            proof {
                assert(bres_path(ox, oy, oerr, x2s, y2s, dx as int, dy as int, sxs, sys, fuel0)
                    =~= seq![(ox, oy)]);
                assert(full =~= visited);
            }
            return ;
        }
        let e2 = 2 * err;
        let ghost oi = i as int;
        let ghost oj = j as int;
        let stx = e2 >= dy;
        let sty = e2 <= dx;
        proof {
            assert(stx || sty);
            if i == a {
                assert(j < b) by {
                    if j == b {
                        assert(x as int == x2s && y as int == y2s) by (nonlinear_arith)
                            requires
                                x as int == x1 as int * sc + i as int * sxs,
                                y as int == y1 as int * sc + j as int * sys,
                                x2s == x1 as int * sc + a as int * sxs,
                                y2s == y1 as int * sc + b as int * sys,
                                i == a,
                                j == b,
                        ;
                    }
                }
                assert(!stx) by (nonlinear_arith)
                    requires
                        e2 as int == 2 * ((a as int * sc) * (1 + j as int) - (b as int * sc) * (1
                            + i as int)),
                        dy as int == -(b as int * sc),
                        i == a,
                        0 <= j,
                        j < b,
                        sc >= 1,
                        a >= 0,
                        stx == (e2 as int >= dy as int),
                ;
            }
            if j == b {
                assert(i < a);
                assert(!sty) by (nonlinear_arith)
                    requires
                        e2 as int == 2 * ((a as int * sc) * (1 + j as int) - (b as int * sc) * (1
                            + i as int)),
                        dx as int == a as int * sc,
                        j == b,
                        0 <= i,
                        i < a,
                        sc >= 1,
                        b >= 0,
                        a >= 1,
                        sty == (e2 as int <= dx as int),
                ;
            }
        }
        if stx {
            err = err + dy;
            x = x + sx * (scale as isize);
            i = i + 1;
        }
        if sty {
            err = err + dx;
            y = y + sy * (scale as isize);
            j = j + 1;
        }
        proof {
            assert(err as int == (a as int * sc) * (1 + j as int) - (b as int * sc) * (1
                + i as int)) by (nonlinear_arith)
                requires
                    err as int == (a as int * sc) * (1 + oj) - (b as int * sc) * (1 + oi) + (
                    if stx {
                        -(b as int * sc)
                    } else {
                        0int
                    }) + (if sty {
                        a as int * sc
                    } else {
                        0int
                    }),
                    i as int == oi + (if stx {
                        1int
                    } else {
                        0int
                    }),
                    j as int == oj + (if sty {
                        1int
                    } else {
                        0int
                    }),
            ;
            assert(x as int == x1 as int * sc + i as int * sxs && 0 <= x as int <= 0x100_0000)
                by (nonlinear_arith)
                requires
                    x as int == ox + (if stx {
                        sxs
                    } else {
                        0int
                    }),
                    ox == x1 as int * sc + oi * sxs,
                    i as int == oi + (if stx {
                        1int
                    } else {
                        0int
                    }),
                    sxs == sx as int * sc,
                    sx as int == 1 || sx as int == -1,
                    1 <= sc <= 64,
                    0 <= oi,
                    i as int <= a as int,
                    0 <= x1 as int * sc <= 0x100_0000,
                    x2s == x1 as int * sc + a as int * sxs,
                    0 <= x2s <= 0x100_0000,
            ;
            assert(y as int == y1 as int * sc + j as int * sys && 0 <= y as int <= 0x100_0000)
                by (nonlinear_arith)
                requires
                    y as int == oy + (if sty {
                        sys
                    } else {
                        0int
                    }),
                    oy == y1 as int * sc + oj * sys,
                    j as int == oj + (if sty {
                        1int
                    } else {
                        0int
                    }),
                    sys == sy as int * sc,
                    sy as int == 1 || sy as int == -1,
                    1 <= sc <= 64,
                    0 <= oj,
                    j as int <= b as int,
                    0 <= y1 as int * sc <= 0x100_0000,
                    y2s == y1 as int * sc + b as int * sys,
                    0 <= y2s <= 0x100_0000,
            ;
            assert(bres_path(ox, oy, oerr, x2s, y2s, dx as int, dy as int, sxs, sys, fuel0)
                =~= seq![(ox, oy)] + bres_path(
                x as int,
                y as int,
                err as int,
                x2s,
                y2s,
                dx as int,
                dy as int,
                sxs,
                sys,
                (fuel0 - 1) as nat,
            ));
            assert(full =~= visited + bres_path(
                x as int,
                y as int,
                err as int,
                x2s,
                y2s,
                dx as int,
                dy as int,
                sxs,
                sys,
                (a + b + 1 - visited.len()) as nat,
            ));
        }
    }
}

/// The whole pixel path of a non-vertical `line` call: Bresenham's walk on
/// the scaled grid from `(x1, y1)` to `(x2, y2)`.
pub open spec fn line_path(x1: int, y1: int, x2: int, y2: int, scale: int) -> Seq<(int, int)> {
    let a = if x2 >= x1 {
        x2 - x1
    } else {
        x1 - x2
    };
    let b = if y2 >= y1 {
        y2 - y1
    } else {
        y1 - y2
    };
    let sx: int = if x1 < x2 {
        1
    } else {
        -1
    };
    let sy: int = if y1 < y2 {
        1
    } else {
        -1
    };
    bres_path(
        x1 * scale,
        y1 * scale,
        a * scale - b * scale,
        x2 * scale,
        y2 * scale,
        a * scale,
        -(b * scale),
        sx * scale,
        sy * scale,
        (a + b + 1) as nat,
    )
}

/// Bytes at or past the screen area (`WIDTH * HEIGHT` pixels) belong to no
/// on-screen row, so no drawing primitive ever touches them.
pub proof fn lemma_off_screen_byte(k: int)
    requires
        k >= WIDTH * HEIGHT * 4,
    ensures
        py_of(k) >= HEIGHT as int,
{
    vstd::arithmetic::div_mod::lemma_div_is_ordered(
        (WIDTH * HEIGHT * 4) as int,
        k,
        4,
    );
    vstd::arithmetic::div_mod::lemma_div_by_multiple((WIDTH * HEIGHT) as int, 4);
    vstd::arithmetic::div_mod::lemma_div_is_ordered(
        (WIDTH * HEIGHT) as int,
        k / 4,
        WIDTH as int,
    );
    vstd::arithmetic::div_mod::lemma_div_by_multiple(HEIGHT as int, WIDTH as int);
    assert((WIDTH * HEIGHT * 4) as int == ((WIDTH * HEIGHT) as int) * 4);
    assert(((WIDTH * HEIGHT) as int) == (HEIGHT as int) * (WIDTH as int));
}

/// The byte region a billboard strip paints: the single pixel column `x`,
/// rows `bstart` up to `bstart + n` (one screen row per texel), clipped to
/// the screen and the buffer.
pub open spec fn strip_covers(k: int, x: int, bstart: int, n: int, len: int) -> bool {
    &&& (k / 4) * 4 + 4 <= len
    &&& py_of(k) < HEIGHT as int
    &&& px_of(k) == x
    &&& bstart <= py_of(k) < bstart + n
}

/// Composite one billboard texel row as a vertical strip: texel `t` lands
/// on screen row `bstart + t` of column `x`. Every painted byte takes its
/// value from the texel of its row; everything else is untouched.
#[verifier::loop_isolation(false)]
pub fn draw_strip(frame: &mut Vec<u8>, x: usize, bstart: usize, col: &Vec<[u8; 4]>)
    requires
        x <= WIDTH,
        bstart <= HEIGHT,
        col@.len() <= 4096,
    ensures
        final(frame)@.len() == old(frame)@.len(),
        forall|k: int|
            0 <= k < old(frame)@.len() ==> final(frame)@[k] == (if strip_covers(
                k,
                x as int,
                bstart as int,
                col@.len() as int,
                old(frame)@.len() as int,
            ) {
                col@[py_of(k) - bstart]@[k % 4]
            } else {
                old(frame)@[k]
            }),
{
    let ghost orig = frame@;
    let ghost len = orig.len() as int;
    let mut t: usize = 0;
    while t < col.len()
        invariant
            frame@.len() == orig.len(),
            t <= col@.len(),
            forall|k: int|
                0 <= k < orig.len() ==> frame@[k] == (if strip_covers(
                    k,
                    x as int,
                    bstart as int,
                    t as int,
                    len,
                ) {
                    col@[py_of(k) - bstart]@[k % 4]
                } else {
                    orig[k]
                }),
        decreases col@.len() - t,
    {
        set_pixel(frame, x, bstart + t, col[t], 1);
        proof {
            assert forall|k: int| 0 <= k < orig.len() implies frame@[k] == (if strip_covers(
                k,
                x as int,
                bstart as int,
                t as int + 1,
                len,
            ) {
                col@[py_of(k) - bstart]@[k % 4]
            } else {
                orig[k]
            }) by {
                if covers(k, x as int, bstart as int + t, 1, len) {
                    assert(py_of(k) == bstart + t);
                }
            }
        }
        t = t + 1;
    }
}

} // verus!
