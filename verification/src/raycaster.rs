use crate::fixed::{
    abs_v, div_fp, div_signed, floor_div, tdiv, tdiv_any, COORD_LIMIT, DIR_LIMIT, FP_ONE,
};
use crate::framebuffer::{line, set_pixel, verline};
use crate::gamestate::GameState;
use crate::map::{grid_view, MapCell, MapCellType};
use crate::vector::Vector;
use crate::{HEIGHT, WIDTH};
use vstd::prelude::*;

verus! {

/// Most steps one DDA cast can take before it must have left the grid: the
/// loop's own bound is the coordinate range plus the grid size per axis.
pub const DDA_FUEL: usize = 65536;

/// A wall hit as one ray cast reports it: the wall cell, which face was
/// struck (0 = a vertical x-face, 1 = a horizontal y-face), and the
/// perpendicular (fisheye-corrected) distance in fixed-point units.
#[derive(Clone, Copy, Debug, PartialEq, Eq, Structural)]
pub struct RayHit {
    pub cell_x: i64,
    pub cell_y: i64,
    pub side: u8,
    pub dist: i64,
}

/// Ghost description of one DDA outcome: the wall hit, if any (cell x, cell
/// y, side), and every cell the ray stepped into, in order, ending with the
/// wall cell or with the first cell outside the grid.
pub struct DdaOutcome {
    pub hit: Option<(int, int, int)>,
    pub path: Seq<(int, int)>,
}

/// Step direction along one axis: toward negative cells when the ray
/// component is negative.
pub open spec fn step_of(d: i64) -> int {
    if d < 0 {
        -1
    } else {
        1
    }
}

/// Fixed-point distance along the ray between successive grid-line
/// crossings of one axis, `|1 / d|`; zero stands in for a ray parallel to
/// the axis, whose crossings are never taken.
pub open spec fn delta_spec(d: i64) -> int {
    if d == 0 {
        0
    } else {
        (FP_ONE as int * FP_ONE as int) / abs_v(d as int)
    }
}

/// The grid cell under a fixed-point coordinate, by flooring.
pub open spec fn cell_of(c: i64) -> int {
    c as int / FP_ONE as int
}

/// Initial side distance along one axis: the ray length from the player to
/// the first grid line of that axis.
pub open spec fn sd_init(p: i64, d: i64) -> int {
    if d < 0 {
        ((p - cell_of(p) * FP_ONE) * delta_spec(d)) / FP_ONE as int
    } else {
        (((cell_of(p) + 1) * FP_ONE - p) * delta_spec(d)) / FP_ONE as int
    }
}

/// Whether the DDA steps in x next: it must when the ray never crosses y
/// grid lines, and otherwise does when it can cross x lines and the next x
/// crossing is nearer.
pub open spec fn dda_goes_x(dx: i64, dy: i64, sdx: int, sdy: int) -> bool {
    dy == 0 || (dx != 0 && sdx < sdy)
}

/// The DDA recursion: step into the next cell, stop at the first wall or at
/// the grid boundary, and record each visited cell.
pub open spec fn dda_spec(
    map: Seq<Seq<MapCell>>,
    mx: int,
    my: int,
    sdx: int,
    sdy: int,
    dx: i64,
    dy: i64,
    fuel: nat,
) -> DdaOutcome
    decreases fuel,
{
    if fuel == 0 {
        DdaOutcome { hit: None, path: seq![] }
    } else {
        let go_x = dda_goes_x(dx, dy, sdx, sdy);
        let mx2 = if go_x {
            mx + step_of(dx)
        } else {
            mx
        };
        let my2 = if go_x {
            my
        } else {
            my + step_of(dy)
        };
        let sdx2 = if go_x {
            sdx + delta_spec(dx)
        } else {
            sdx
        };
        let sdy2 = if go_x {
            sdy
        } else {
            sdy + delta_spec(dy)
        };
        let side = if go_x {
            0int
        } else {
            1int
        };
        if !(0 <= my2 < map.len() && 0 <= mx2 < map[my2].len()) {
            DdaOutcome { hit: None, path: seq![(mx2, my2)] }
        } else if map[my2][mx2].solid != MapCellType::Empty {
            DdaOutcome { hit: Some((mx2, my2, side)), path: seq![(mx2, my2)] }
        } else {
            let rest = dda_spec(map, mx2, my2, sdx2, sdy2, dx, dy, (fuel - 1) as nat);
            DdaOutcome { hit: rest.hit, path: seq![(mx2, my2)] + rest.path }
        }
    }
}

/// The whole cast for player position `pos` and ray direction `dir`.
pub open spec fn cast_spec(map: Seq<Seq<MapCell>>, pos: Vector, dir: Vector) -> DdaOutcome {
    dda_spec(
        map,
        cell_of(pos.x),
        cell_of(pos.y),
        sd_init(pos.x, dir.x),
        sd_init(pos.y, dir.y),
        dir.x,
        dir.y,
        DDA_FUEL as nat,
    )
}

/// Perpendicular wall distance of a hit, the fisheye-free projection onto
/// the ray axis: `(cell - pos + (1 - step) / 2) / dir` on the axis of the
/// struck face, in fixed-point units.
pub open spec fn wall_dist_spec(pos: Vector, dir: Vector, hx: int, hy: int, side: int) -> int {
    if side == 0 {
        tdiv_any(
            (hx * FP_ONE + (if dir.x < 0 {
                FP_ONE as int
            } else {
                0
            }) - pos.x) * FP_ONE,
            dir.x as int,
        )
    } else {
        tdiv_any(
            (hy * FP_ONE + (if dir.y < 0 {
                FP_ONE as int
            } else {
                0
            }) - pos.y) * FP_ONE,
            dir.y as int,
        )
    }
}

/// The visited-cell list as mathematical pairs.
pub open spec fn path_view(s: Seq<(i64, i64)>) -> Seq<(int, int)> {
    s.map_values(|c: (i64, i64)| (c.0 as int, c.1 as int))
}

/// How far one DDA state can still run on one axis before leaving the
/// coordinate range or the largest grid.
pub open spec fn rem1(c: int, st: int) -> int {
    if st > 0 {
        if c < 4096 {
            4096 - c
        } else {
            0
        }
    } else {
        if c >= -8192 {
            c + 8193
        } else {
            0
        }
    }
}

/// March one ray through the grid by DDA. Returns the wall hit, if the ray
/// meets one before leaving the grid, and the list of cells the ray stepped
/// into (for billboard compositing). The outcome is exactly `cast_spec`,
/// with the hit's perpendicular distance from `wall_dist_spec`.
pub fn cast_ray(map: &Vec<Vec<MapCell>>, pos: Vector, dir: Vector) -> (r: (
    Option<RayHit>,
    Vec<(i64, i64)>,
))
    requires
        crate::map::grid_bounded(grid_view(map@)),
        abs_v(pos.x as int) <= COORD_LIMIT,
        abs_v(pos.y as int) <= COORD_LIMIT,
        abs_v(dir.x as int) <= DIR_LIMIT,
        abs_v(dir.y as int) <= DIR_LIMIT,
        dir.x != 0 || dir.y != 0,
    ensures
        ({
            let o = cast_spec(grid_view(map@), pos, dir);
            &&& (r.0 is Some) == (o.hit is Some)
            &&& (r.0 matches Some(h) ==> o.hit matches Some(oh) && h.cell_x == oh.0 && h.cell_y
                == oh.1 && h.side == oh.2 && h.dist == wall_dist_spec(pos, dir, oh.0, oh.1, oh.2))
            &&& path_view(r.1@) == o.path
        }),
        forall|t: int|
            0 <= t < r.1@.len() ==> abs_v(#[trigger] r.1@[t].0 as int) <= 20000 && abs_v(
                r.1@[t].1 as int,
            ) <= 20000,
{
    let ghost m = grid_view(map@);
    proof {
        vstd::arithmetic::div_mod::lemma_fundamental_div_mod(pos.x as int, FP_ONE as int);
        vstd::arithmetic::div_mod::lemma_fundamental_div_mod(pos.y as int, FP_ONE as int);
        vstd::arithmetic::div_mod::lemma_mod_division_less_than_divisor(pos.x as int, FP_ONE as int);
        vstd::arithmetic::div_mod::lemma_mod_division_less_than_divisor(pos.y as int, FP_ONE as int);
        crate::fixed::lemma_tdiv_bound(pos.x as int, FP_ONE as int);
        crate::fixed::lemma_tdiv_bound(pos.y as int, FP_ONE as int);
    }
    let mx0 = floor_div(pos.x, FP_ONE);
    let my0 = floor_div(pos.y, FP_ONE);
    let adx = if dir.x >= 0 {
        dir.x
    } else {
        -dir.x
    };
    let ady = if dir.y >= 0 {
        dir.y
    } else {
        -dir.y
    };
    let delta_x = if adx == 0 {
        0
    } else {
        div_fp(FP_ONE * FP_ONE, adx)
    };
    let delta_y = if ady == 0 {
        0
    } else {
        div_fp(FP_ONE * FP_ONE, ady)
    };
    let step_x: i64 = if dir.x < 0 {
        -1
    } else {
        1
    };
    let step_y: i64 = if dir.y < 0 {
        -1
    } else {
        1
    };
    proof {
        if adx != 0 {
            crate::fixed::lemma_tdiv_bound(FP_ONE as int * FP_ONE as int, adx as int);
        }
        if ady != 0 {
            crate::fixed::lemma_tdiv_bound(FP_ONE as int * FP_ONE as int, ady as int);
        }
        vstd::arithmetic::mul::lemma_mul_nonnegative(
            pos.x - cell_of(pos.x) * FP_ONE,
            delta_spec(dir.x),
        );
        vstd::arithmetic::mul::lemma_mul_nonnegative(
            (cell_of(pos.x) + 1) * FP_ONE - pos.x,
            delta_spec(dir.x),
        );
        vstd::arithmetic::mul::lemma_mul_nonnegative(
            pos.y - cell_of(pos.y) * FP_ONE,
            delta_spec(dir.y),
        );
        vstd::arithmetic::mul::lemma_mul_nonnegative(
            (cell_of(pos.y) + 1) * FP_ONE - pos.y,
            delta_spec(dir.y),
        );
        vstd::arithmetic::mul::lemma_mul_upper_bound(
            pos.x - cell_of(pos.x) * FP_ONE,
            FP_ONE as int,
            delta_spec(dir.x),
            0x1_0000_0000,
        );
        vstd::arithmetic::mul::lemma_mul_upper_bound(
            (cell_of(pos.x) + 1) * FP_ONE - pos.x,
            FP_ONE as int,
            delta_spec(dir.x),
            0x1_0000_0000,
        );
        vstd::arithmetic::mul::lemma_mul_upper_bound(
            pos.y - cell_of(pos.y) * FP_ONE,
            FP_ONE as int,
            delta_spec(dir.y),
            0x1_0000_0000,
        );
        vstd::arithmetic::mul::lemma_mul_upper_bound(
            (cell_of(pos.y) + 1) * FP_ONE - pos.y,
            FP_ONE as int,
            delta_spec(dir.y),
            0x1_0000_0000,
        );
        crate::fixed::lemma_tdiv_bound(
            (pos.x - cell_of(pos.x) * FP_ONE) * delta_spec(dir.x),
            FP_ONE as int,
        );
        crate::fixed::lemma_tdiv_bound(
            ((cell_of(pos.x) + 1) * FP_ONE - pos.x) * delta_spec(dir.x),
            FP_ONE as int,
        );
        crate::fixed::lemma_tdiv_bound(
            (pos.y - cell_of(pos.y) * FP_ONE) * delta_spec(dir.y),
            FP_ONE as int,
        );
        crate::fixed::lemma_tdiv_bound(
            ((cell_of(pos.y) + 1) * FP_ONE - pos.y) * delta_spec(dir.y),
            FP_ONE as int,
        );
    }
    let mut sdx: i64 = if dir.x < 0 {
        div_fp((pos.x - mx0 * FP_ONE) * delta_x, FP_ONE)
    } else {
        div_fp(((mx0 + 1) * FP_ONE - pos.x) * delta_x, FP_ONE)
    };
    let mut sdy: i64 = if dir.y < 0 {
        div_fp((pos.y - my0 * FP_ONE) * delta_y, FP_ONE)
    } else {
        div_fp(((my0 + 1) * FP_ONE - pos.y) * delta_y, FP_ONE)
    };
    let mut mx = mx0;
    let mut my = my0;
    let mut path: Vec<(i64, i64)> = Vec::new();
    loop
        invariant
            m == grid_view(map@),
            crate::map::grid_bounded(m),
            dir.x != 0 || dir.y != 0,
            abs_v(pos.x as int) <= COORD_LIMIT,
            abs_v(pos.y as int) <= COORD_LIMIT,
            abs_v(dir.x as int) <= DIR_LIMIT,
            abs_v(dir.y as int) <= DIR_LIMIT,
            step_x == step_of(dir.x),
            step_y == step_of(dir.y),
            delta_x == delta_spec(dir.x),
            delta_y == delta_spec(dir.y),
            0 <= delta_x <= 0x1_0000_0000,
            0 <= delta_y <= 0x1_0000_0000,
            abs_v(mx as int) <= 16384,
            abs_v(my as int) <= 16384,
            0 <= sdx,
            0 <= sdy,
            sdx <= 0x2_0000_0000 * (1 + path@.len()),
            sdy <= 0x2_0000_0000 * (1 + path@.len()),
            path@.len() + rem1(mx as int, step_x as int) + rem1(my as int, step_y as int) <= 33000,
            forall|t: int|
                0 <= t < path@.len() ==> abs_v(#[trigger] path@[t].0 as int) <= 20000 && abs_v(
                    path@[t].1 as int,
                ) <= 20000,
            rem1(mx as int, step_x as int) >= 0,
            rem1(my as int, step_y as int) >= 0,
            cast_spec(m, pos, dir).hit == dda_spec(
                m,
                mx as int,
                my as int,
                sdx as int,
                sdy as int,
                dir.x,
                dir.y,
                (DDA_FUEL - path@.len()) as nat,
            ).hit,
            cast_spec(m, pos, dir).path == path_view(path@) + dda_spec(
                m,
                mx as int,
                my as int,
                sdx as int,
                sdy as int,
                dir.x,
                dir.y,
                (DDA_FUEL - path@.len()) as nat,
            ).path,
        decreases rem1(mx as int, step_x as int) + rem1(my as int, step_y as int),
    {
        let ghost omx = mx as int;
        let ghost omy = my as int;
        let ghost osdx = sdx as int;
        let ghost osdy = sdy as int;
        let ghost olen = path@.len() as int;
        let ghost ofuel = (DDA_FUEL - path@.len()) as nat;
        let go_x = if dir.y == 0 {
            true
        } else if dir.x == 0 {
            false
        } else {
            sdx < sdy
        };
        proof {
            assert(go_x == dda_goes_x(dir.x, dir.y, osdx, osdy));
            assert(ofuel > 0);
        }
        if go_x {
            sdx = sdx + delta_x;
            mx = mx + step_x;
        } else {
            sdy = sdy + delta_y;
            my = my + step_y;
        }
        let side: u8 = if go_x {
            0
        } else {
            1
        };
        path.push((mx, my));
        proof {
            assert(path_view(path@) =~= path_view(path@.take(olen)) + seq![
                (mx as int, my as int),
            ]);
            assert(path@.take(olen) =~= path@.drop_last());
        }
        let in_bounds: bool = if my < 0 || (my as u64) >= (map.len() as u64) {
            false
        } else {
            let row_len = map[my as usize].len();
            !(mx < 0 || (mx as u64) >= (row_len as u64))
        };
        if !in_bounds {
            proof {
                let o = dda_spec(m, omx, omy, osdx, osdy, dir.x, dir.y, ofuel);
                assert(o.hit is None && o.path =~= seq![(mx as int, my as int)]);
                assert(cast_spec(m, pos, dir).path =~= path_view(path@));
            }
            return (None, path);
        }
        let cell = map[my as usize][mx as usize];
        if !matches!(cell.solid, MapCellType::Empty) {
            proof {
                let o = dda_spec(m, omx, omy, osdx, osdy, dir.x, dir.y, ofuel);
                assert(m[my as int][mx as int] == cell);
                assert(o.hit == Some((mx as int, my as int, side as int)));
                assert(o.path =~= seq![(mx as int, my as int)]);
                assert(cast_spec(m, pos, dir).path =~= path_view(path@));
            }
            let numer: i64 = if side == 0 {
                mx * FP_ONE + (if step_x < 0 {
                    FP_ONE
                } else {
                    0
                }) - pos.x
            } else {
                my * FP_ONE + (if step_y < 0 {
                    FP_ONE
                } else {
                    0
                }) - pos.y
            };
            let denom: i64 = if side == 0 {
                dir.x
            } else {
                dir.y
            };
            proof {
                assert(denom != 0);
            }
            let dist = div_signed(numer * FP_ONE, denom);
            return (Some(RayHit { cell_x: mx, cell_y: my, side, dist }), path);
        }
        proof {
            let o = dda_spec(m, omx, omy, osdx, osdy, dir.x, dir.y, ofuel);
            let rest = dda_spec(
                m,
                mx as int,
                my as int,
                sdx as int,
                sdy as int,
                dir.x,
                dir.y,
                (ofuel - 1) as nat,
            );
            assert(o.hit == rest.hit);
            assert(o.path =~= seq![(mx as int, my as int)] + rest.path);
            assert(cast_spec(m, pos, dir).path =~= path_view(path@) + rest.path);
        }
    }
}

/// Squared Euclidean distance between two points, in squared fixed-point
/// units.
pub fn distance_squared(p1: Vector, p2: Vector) -> (d: i64)
    requires
        abs_v(p2.x - p1.x) <= 0x6000_0000,
        abs_v(p2.y - p1.y) <= 0x6000_0000,
    ensures
        d == (p2.x - p1.x) * (p2.x - p1.x) + (p2.y - p1.y) * (p2.y - p1.y),
        d >= 0,
{
    let dx = p2.x - p1.x;
    let dy = p2.y - p1.y;
    proof {
        crate::fixed::lemma_abs_mul(dx as int, dx as int);
        crate::fixed::lemma_abs_mul(dy as int, dy as int);
        vstd::arithmetic::mul::lemma_mul_upper_bound(
            abs_v(dx as int),
            0x6000_0000,
            abs_v(dx as int),
            0x6000_0000,
        );
        vstd::arithmetic::mul::lemma_mul_upper_bound(
            abs_v(dy as int),
            0x6000_0000,
            abs_v(dy as int),
            0x6000_0000,
        );
        vstd::arithmetic::mul::lemma_mul_nonnegative(abs_v(dx as int), abs_v(dx as int));
        vstd::arithmetic::mul::lemma_mul_nonnegative(abs_v(dy as int), abs_v(dy as int));
        assert((dx as int) * (dx as int) >= 0) by (nonlinear_arith);
        assert((dy as int) * (dy as int) >= 0) by (nonlinear_arith);
    }
    let qx: i128 = (dx as i128) * (dx as i128);
    let qy: i128 = (dy as i128) * (dy as i128);
    (qx + qy) as i64
}

/// Height in pixels of the wall column for a wall at perpendicular
/// fixed-point distance `dist`: `|screen_height / dist| * 15`, held to the
/// screen height (a wall on top of the player fills the screen).
pub open spec fn column_height_spec(dist: int) -> int {
    if dist == 0 {
        HEIGHT as int
    } else {
        let h = (15 * (HEIGHT as int) * (FP_ONE as int)) / abs_v(dist);
        if h > HEIGHT as int {
            HEIGHT as int
        } else {
            h
        }
    }
}

/// Compute the wall column height for one hit.
pub fn column_height(dist: i64) -> (h: usize)
    requires
        dist > i64::MIN,
    ensures
        h == column_height_spec(dist as int),
        h <= HEIGHT,
{
    proof {
        lemma_column_height_in_range(dist as int);
    }
    if dist == 0 {
        return HEIGHT;
    }
    let ad = if dist >= 0 {
        dist
    } else {
        -dist
    };
    let num: i64 = 15 * (HEIGHT as i64) * FP_ONE;
    let h = div_fp(num, ad);
    proof {
        vstd::arithmetic::div_mod::lemma_div_pos_is_pos(num as int, ad as int);
    }
    if h > HEIGHT as i64 {
        HEIGHT
    } else {
        h as usize
    }
}

/// A wall column never sticks out of the screen.
pub proof fn lemma_column_height_in_range(d: int)
    ensures
        0 <= column_height_spec(d) <= HEIGHT as int,
{
    if d != 0 {
        vstd::arithmetic::div_mod::lemma_div_pos_is_pos(
            15 * (HEIGHT as int) * (FP_ONE as int),
            abs_v(d),
        );
    }
}

/// For one wall face the projection is monotone: the nearer the wall, the
/// taller the column.
pub proof fn lemma_column_height_monotonic(d1: int, d2: int)
    requires
        0 < d1 <= d2,
    ensures
        column_height_spec(d2) <= column_height_spec(d1),
{
    vstd::arithmetic::div_mod::lemma_div_is_ordered_by_denominator(
        15 * (HEIGHT as int) * (FP_ONE as int),
        d1,
        d2,
    );
}

/// The vertical shear of a look up or down: `pitch * screen_height / 2`
/// pixels, at most half the screen.
pub open spec fn shear_spec(pitch: i64) -> int {
    (pitch as int * (HEIGHT as int / 2)) / (FP_ONE as int)
}

/// Compute the shear for one frame.
pub fn shear_of(pitch: i64) -> (s: usize)
    requires
        0 <= pitch <= FP_ONE,
    ensures
        s == shear_spec(pitch),
        s <= HEIGHT / 2,
{
    let half: i64 = (HEIGHT / 2) as i64;
    proof {
        vstd::arithmetic::mul::lemma_mul_upper_bound(pitch as int, 65536, half as int, 540);
        vstd::arithmetic::mul::lemma_mul_nonnegative(pitch as int, half as int);
    }
    let raw = div_fp(pitch * half, FP_ONE);
    proof {
        vstd::arithmetic::div_mod::lemma_div_pos_is_pos(pitch as int * half as int, FP_ONE as int);
        vstd::arithmetic::mul::lemma_mul_inequality(pitch as int, FP_ONE as int, half as int);
        vstd::arithmetic::div_mod::lemma_div_is_ordered(
            pitch as int * half as int,
            FP_ONE as int * half as int,
            FP_ONE as int,
        );
        vstd::arithmetic::div_mod::lemma_div_by_multiple(half as int, FP_ONE as int);
        assert(FP_ONE as int * half as int == half as int * FP_ONE as int) by (nonlinear_arith);
    }
    raw as usize
}

/// One color channel after distance fog: scaled by
/// `1 / (1 + d^2 / 10000 + shear / 500)` with `d` in world units, the
/// inverse-square haze of the original renderer in integer arithmetic.
pub open spec fn fog_channel_spec(c: int, d: int, shear: int) -> int {
    let q2 = (d * d) / (FP_ONE as int * FP_ONE as int);
    (c * 10000) / (10000 + q2 + 20 * shear)
}

/// Apply fog to one color channel.
pub fn fog_channel(c: u8, d: i64, shear: usize) -> (r: u8)
    requires
        abs_v(d as int) <= 0x1_0000_0000_0000,
        shear <= HEIGHT,
    ensures
        r == fog_channel_spec(c as int, d as int, shear as int),
{
    let ad: u128 = if d >= 0 {
        d as u128
    } else {
        (-d) as u128
    };
    proof {
        assert(d as int * d as int == abs_v(d as int) * abs_v(d as int)) by (nonlinear_arith);
        vstd::arithmetic::mul::lemma_mul_upper_bound(
            abs_v(d as int),
            0x1_0000_0000_0000,
            abs_v(d as int),
            0x1_0000_0000_0000,
        );
        vstd::arithmetic::mul::lemma_mul_nonnegative(abs_v(d as int), abs_v(d as int));
        assert(abs_v(d as int) * abs_v(d as int) <= 0x1000000000000000000000000int);
    }
    proof {
        assert(FP_ONE as int * FP_ONE as int == 0x1_0000_0000int);
    }
    let q2: u128 = (ad * ad) / 0x1_0000_0000u128;
    let den: u128 = 10000 + q2 + 20 * (shear as u128);
    let num: u128 = (c as u128) * 10000;
    let r = num / den;
    proof {
        vstd::arithmetic::div_mod::lemma_div_is_ordered_by_denominator(num as int, 10000, den as int);
        vstd::arithmetic::div_mod::lemma_div_pos_is_pos(num as int, den as int);
        assert(num as int / 10000 <= 255);
    }
    r as u8
}

/// A wall face along the y axis is drawn at half brightness, a cheap
/// directional light.
pub open spec fn side_shaded(c: int, side: int) -> int {
    if side == 1 {
        c / 2
    } else {
        c
    }
}

/// Height in pixels of the billboard strip for a sprite at squared
/// fixed-point distance `bd2`: `|1000 / bd2_world| * 100` held to the
/// screen height.
pub open spec fn billboard_height_spec(bd2: int) -> int {
    if bd2 == 0 {
        HEIGHT as int
    } else {
        let h = (100000 * (FP_ONE as int) * (FP_ONE as int)) / bd2;
        if h > HEIGHT as int {
            HEIGHT as int
        } else {
            h
        }
    }
}

/// Compute the billboard strip height.
pub fn billboard_height(bd2: i64) -> (h: usize)
    requires
        bd2 >= 0,
    ensures
        h == billboard_height_spec(bd2 as int),
        h <= HEIGHT,
{
    if bd2 == 0 {
        return HEIGHT;
    }
    let num: i64 = 100000 * FP_ONE * FP_ONE;
    let h = div_fp(num, bd2);
    proof {
        vstd::arithmetic::div_mod::lemma_div_pos_is_pos(num as int, bd2 as int);
    }
    if h > HEIGHT as i64 {
        HEIGHT
    } else {
        h as usize
    }
}

/// A ray cast straight along +x from inside an empty corridor reports the
/// exact perpendicular distance to the wall that closes it: the fixed-point
/// rendering of "a ray toward a known wall at distance d reports d".
pub proof fn lemma_axis_ray_distance(map: Seq<Seq<MapCell>>, pos: Vector, w: int)
    requires
        crate::map::grid_bounded(map),
        0 <= pos.x,
        0 <= pos.y,
        0 <= cell_of(pos.y) < map.len(),
        cell_of(pos.x) < w < map[cell_of(pos.y)].len(),
        forall|x: int|
            cell_of(pos.x) < x < w ==> (#[trigger] map[cell_of(pos.y)][x]).solid
                == MapCellType::Empty,
        map[cell_of(pos.y)][w].solid == MapCellType::Wall,
    ensures
        cast_spec(map, pos, Vector { x: FP_ONE, y: 0i64 }).hit == Some((w, cell_of(pos.y), 0int)),
        wall_dist_spec(pos, Vector { x: FP_ONE, y: 0i64 }, w, cell_of(pos.y), 0) == w * FP_ONE
            - pos.x,
{
    let dir = Vector { x: FP_ONE, y: 0i64 };
    let ry = cell_of(pos.y);
    let mx0 = cell_of(pos.x);
    vstd::arithmetic::div_mod::lemma_fundamental_div_mod(pos.x as int, FP_ONE as int);
    vstd::arithmetic::div_mod::lemma_mod_division_less_than_divisor(pos.x as int, FP_ONE as int);
    vstd::arithmetic::div_mod::lemma_div_pos_is_pos(pos.x as int, FP_ONE as int);
    lemma_axis_march(
        map,
        ry,
        mx0,
        sd_init(pos.x, FP_ONE),
        sd_init(pos.y, 0),
        w,
        DDA_FUEL as nat,
    );
    let numer = (w * FP_ONE - pos.x) * FP_ONE;
    assert(w * FP_ONE >= (mx0 + 1) * FP_ONE) by (nonlinear_arith)
        requires
            w >= mx0 + 1,
    ;
    assert((mx0 + 1) * FP_ONE == mx0 * FP_ONE + FP_ONE) by (nonlinear_arith);
    assert(wall_dist_spec(pos, dir, w, ry, 0) == tdiv(numer, FP_ONE as int));
    vstd::arithmetic::mul::lemma_mul_nonnegative(w * FP_ONE - pos.x, FP_ONE as int);
    vstd::arithmetic::div_mod::lemma_div_by_multiple(w * FP_ONE - pos.x, FP_ONE as int);
}

/// The march of an axis-aligned ray down an empty corridor: it hits the
/// closing wall.
proof fn lemma_axis_march(
    map: Seq<Seq<MapCell>>,
    ry: int,
    mx: int,
    sdx: int,
    sdy: int,
    w: int,
    fuel: nat,
)
    requires
        0 <= ry < map.len(),
        mx < w < map[ry].len(),
        fuel >= w - mx,
        forall|x: int| mx < x < w ==> (#[trigger] map[ry][x]).solid == MapCellType::Empty,
        map[ry][w].solid == MapCellType::Wall,
        mx + 1 >= 0,
    ensures
        dda_spec(map, mx, ry, sdx, sdy, FP_ONE, 0i64, fuel).hit == Some((w, ry, 0int)),
    decreases w - mx,
{
    assert(step_of(FP_ONE) == 1);
    if mx + 1 == w {
    } else {
        lemma_axis_march(map, ry, mx + 1, sdx + delta_spec(FP_ONE), sdy, w, (fuel - 1) as nat);
    }
}

/// Every wall hit the DDA reports lies inside the grid, on a solid cell.
pub proof fn lemma_dda_hit_in_bounds(
    map: Seq<Seq<MapCell>>,
    mx: int,
    my: int,
    sdx: int,
    sdy: int,
    dx: i64,
    dy: i64,
    fuel: nat,
)
    requires
        dx != 0 || dy != 0,
    ensures
        dda_spec(map, mx, my, sdx, sdy, dx, dy, fuel).hit matches Some(h) ==> 0 <= h.1 < map.len()
            && 0 <= h.0 < map[h.1].len() && map[h.1][h.0].solid != MapCellType::Empty && (h.2 == 0
            ==> dx != 0) && (h.2 == 1 ==> dy != 0) && (h.2 == 0 || h.2 == 1),
    decreases fuel,
{
    if fuel > 0 {
        let go_x = dda_goes_x(dx, dy, sdx, sdy);
        let mx2 = if go_x {
            mx + step_of(dx)
        } else {
            mx
        };
        let my2 = if go_x {
            my
        } else {
            my + step_of(dy)
        };
        let sdx2 = if go_x {
            sdx + delta_spec(dx)
        } else {
            sdx
        };
        let sdy2 = if go_x {
            sdy
        } else {
            sdy + delta_spec(dy)
        };
        if 0 <= my2 < map.len() && 0 <= mx2 < map[my2].len() && map[my2][mx2].solid
            == MapCellType::Empty {
            lemma_dda_hit_in_bounds(map, mx2, my2, sdx2, sdy2, dx, dy, (fuel - 1) as nat);
        }
    }
}

/// The perpendicular distance of any reported hit stays well inside the
/// fixed-point range.
pub proof fn lemma_wall_dist_bounded(pos: Vector, dir: Vector, hx: int, hy: int, side: int)
    requires
        abs_v(pos.x as int) <= COORD_LIMIT,
        abs_v(pos.y as int) <= COORD_LIMIT,
        abs_v(hx) <= 20000,
        abs_v(hy) <= 20000,
        side == 0 ==> dir.x != 0,
        side != 0 ==> dir.y != 0,
    ensures
        abs_v(wall_dist_spec(pos, dir, hx, hy, side)) <= 0x1_0000_0000_0000,
{
    if side == 0 {
        let numer = (hx * FP_ONE + (if dir.x < 0 {
            FP_ONE as int
        } else {
            0
        }) - pos.x) * FP_ONE;
        if dir.x > 0 {
            crate::fixed::lemma_tdiv_bound(numer, dir.x as int);
            vstd::arithmetic::div_mod::lemma_div_is_ordered_by_denominator(
                abs_v(numer),
                1,
                dir.x as int,
            );
        } else {
            crate::fixed::lemma_tdiv_bound(-numer, -dir.x as int);
            vstd::arithmetic::div_mod::lemma_div_is_ordered_by_denominator(
                abs_v(-numer),
                1,
                -dir.x as int,
            );
        }
    } else {
        let numer = (hy * FP_ONE + (if dir.y < 0 {
            FP_ONE as int
        } else {
            0
        }) - pos.y) * FP_ONE;
        if dir.y > 0 {
            crate::fixed::lemma_tdiv_bound(numer, dir.y as int);
            vstd::arithmetic::div_mod::lemma_div_is_ordered_by_denominator(
                abs_v(numer),
                1,
                dir.y as int,
            );
        } else {
            crate::fixed::lemma_tdiv_bound(-numer, -dir.y as int);
            vstd::arithmetic::div_mod::lemma_div_is_ordered_by_denominator(
                abs_v(-numer),
                1,
                -dir.y as int,
            );
        }
    }
}

/// A near-unit heading rotated by unit cosines stays within the direction
/// bound the caster accepts.
pub proof fn lemma_rotated_bounded(v: Vector, r: crate::vector::Rotation)
    requires
        abs_v(v.x as int) <= FP_ONE,
        abs_v(v.y as int) <= FP_ONE,
        abs_v(r.cos as int) <= FP_ONE,
        abs_v(r.sin as int) <= FP_ONE,
    ensures
        abs_v(tdiv(v.x * r.cos - v.y * r.sin, FP_ONE as int)) <= DIR_LIMIT,
        abs_v(tdiv(v.x * r.sin + v.y * r.cos, FP_ONE as int)) <= DIR_LIMIT,
{
    crate::fixed::lemma_abs_mul(v.x as int, r.cos as int);
    crate::fixed::lemma_abs_mul(v.x as int, r.sin as int);
    crate::fixed::lemma_abs_mul(v.y as int, r.cos as int);
    crate::fixed::lemma_abs_mul(v.y as int, r.sin as int);
    vstd::arithmetic::mul::lemma_mul_upper_bound(
        abs_v(v.x as int),
        FP_ONE as int,
        abs_v(r.cos as int),
        FP_ONE as int,
    );
    vstd::arithmetic::mul::lemma_mul_upper_bound(
        abs_v(v.x as int),
        FP_ONE as int,
        abs_v(r.sin as int),
        FP_ONE as int,
    );
    vstd::arithmetic::mul::lemma_mul_upper_bound(
        abs_v(v.y as int),
        FP_ONE as int,
        abs_v(r.cos as int),
        FP_ONE as int,
    );
    vstd::arithmetic::mul::lemma_mul_upper_bound(
        abs_v(v.y as int),
        FP_ONE as int,
        abs_v(r.sin as int),
        FP_ONE as int,
    );
    crate::fixed::lemma_tdiv_bound(v.x * r.cos - v.y * r.sin, FP_ONE as int);
    crate::fixed::lemma_tdiv_bound(v.x * r.sin + v.y * r.cos, FP_ONE as int);
    vstd::arithmetic::div_mod::lemma_div_is_ordered(
        abs_v(v.x * r.cos - v.y * r.sin),
        0x2_0000_0000,
        FP_ONE as int,
    );
    vstd::arithmetic::div_mod::lemma_div_is_ordered(
        abs_v(v.x * r.sin + v.y * r.cos),
        0x2_0000_0000,
        FP_ONE as int,
    );
    assert(0x2_0000_0000int / (FP_ONE as int) == 0x2_0000);
}

/// `m` to the tenth power, by repeated squaring.
fn upow10(m: u64) -> (p: u128)
    requires
        m <= 1024,
    ensures
        p == vstd::arithmetic::power::pow(m as int, 10),
{
    proof {
        vstd::arithmetic::power::lemma_pow1(m as int);
        vstd::arithmetic::power::lemma_pow_adds(m as int, 1, 1);
        vstd::arithmetic::power::lemma_pow_adds(m as int, 2, 2);
        vstd::arithmetic::power::lemma_pow_adds(m as int, 4, 4);
        vstd::arithmetic::power::lemma_pow_adds(m as int, 8, 2);
        vstd::arithmetic::mul::lemma_mul_upper_bound(m as int, 1024, m as int, 1024);
        vstd::arithmetic::mul::lemma_mul_nonnegative(m as int, m as int);
    }
    let m2: u64 = m * m;
    proof {
        vstd::arithmetic::mul::lemma_mul_upper_bound(m2 as int, 0x10_0000, m2 as int, 0x10_0000);
        vstd::arithmetic::mul::lemma_mul_nonnegative(m2 as int, m2 as int);
    }
    let m4: u64 = m2 * m2;
    proof {
        vstd::arithmetic::mul::lemma_mul_upper_bound(
            m4 as int,
            0x100_0000_0000,
            m4 as int,
            0x100_0000_0000,
        );
        vstd::arithmetic::mul::lemma_mul_nonnegative(m4 as int, m4 as int);
    }
    let m8: u128 = (m4 as u128) * (m4 as u128);
    proof {
        vstd::arithmetic::mul::lemma_mul_upper_bound(
            m8 as int,
            0x1_0000_0000_0000_0000_0000,
            m2 as int,
            0x10_0000,
        );
        vstd::arithmetic::mul::lemma_mul_nonnegative(m8 as int, m2 as int);
    }
    m8 * (m2 as u128)
}

/// `129` to the tenth power, spelled out for the root search's upper fence.
proof fn lemma_pow129()
    ensures
        vstd::arithmetic::power::pow(129, 10) == 1276136419117121619201int,
{
    reveal_with_fuel(vstd::arithmetic::power::pow, 3);
    assert(vstd::arithmetic::power::pow(129, 1) == 129int);
    assert(vstd::arithmetic::power::pow(129, 2) == 16641int);
    vstd::arithmetic::power::lemma_pow_adds(129, 2, 2);
    assert(vstd::arithmetic::power::pow(129, 4) == 276922881int);
    vstd::arithmetic::power::lemma_pow_adds(129, 4, 4);
    assert(vstd::arithmetic::power::pow(129, 8) == 76686282021340161int);
    vstd::arithmetic::power::lemma_pow_adds(129, 8, 2);
}

/// The integer tenth root: the largest `r` with `r^10 <= x`, found by
/// binary search. It is the fade exponent of the overlay's distance
/// attenuation, `(d^2 / fov^2) ^ (1/10)`, at 1/128 resolution.
#[verifier::loop_isolation(false)]
pub fn root10(x: u128) -> (r: u64)
    requires
        x <= 0x40_0000_0000_0000_0000,
    ensures
        vstd::arithmetic::power::pow(r as int, 10) <= x < vstd::arithmetic::power::pow(
            r as int + 1,
            10,
        ),
        r <= 128,
{
    proof {
        vstd::arithmetic::power::lemma0_pow(10);
        lemma_pow129();
    }
    let mut lo: u64 = 0;
    let mut hi: u64 = 129;
    while lo + 1 < hi
        invariant
            lo < hi <= 129,
            vstd::arithmetic::power::pow(lo as int, 10) <= x,
            (x as int) < vstd::arithmetic::power::pow(hi as int, 10),
        decreases hi - lo,
    {
        let mid = lo + (hi - lo) / 2;
        let p = upow10(mid);
        if p <= x {
            lo = mid;
        } else {
            hi = mid;
        }
    }
    lo
}

/// The raycasting engine: it owns the map grid, the field of view (degrees
/// in fixed point, used as the overlay's visibility radius), and one
/// ready-made ray rotation per screen column (the cosine/sine of
/// `fov / WIDTH * column - fov / 2`, evaluated by the caller).
pub struct RayCaster {
    pub map: Vec<Vec<MapCell>>,
    pub fov: i64,
    pub column_rotations: Vec<crate::vector::Rotation>,
}

impl RayCaster {
    /// A well-formed caster: a bounded grid, one unit rotation per screen
    /// column, and a plausible field of view.
    pub open spec fn wf(self) -> bool {
        &&& crate::map::grid_bounded(grid_view(self.map@))
        &&& self.column_rotations@.len() == WIDTH
        &&& forall|i: int|
            0 <= i < WIDTH ==> abs_v(#[trigger] self.column_rotations@[i].cos as int) <= FP_ONE
                && abs_v(self.column_rotations@[i].sin as int) <= FP_ONE
        &&& 0 <= self.fov <= 23592960
    }

    /// Build the engine from an already-classified map grid; reading and
    /// decoding the map image, and evaluating the per-column trigonometry,
    /// belong to the caller.
    pub fn new(
        map: Vec<Vec<MapCell>>,
        fov: i64,
        column_rotations: Vec<crate::vector::Rotation>,
    ) -> (rc: RayCaster)
        requires
            crate::map::grid_bounded(grid_view(map@)),
            0 <= fov <= 23592960,
            column_rotations@.len() == WIDTH,
            forall|i: int|
                0 <= i < WIDTH ==> abs_v(#[trigger] column_rotations@[i].cos as int) <= FP_ONE
                    && abs_v(column_rotations@[i].sin as int) <= FP_ONE,
        ensures
            rc.map@ == map@,
            rc.fov == fov,
            rc.column_rotations@ == column_rotations@,
            rc.wf(),
    {
        RayCaster { map, fov, column_rotations }
    }

    /// The overlay's cell pass: every map cell within the visibility
    /// radius, drawn with its distance fade as alpha.
    #[verifier::loop_isolation(false)]
    #[verifier::rlimit(100)]
    fn draw_overlay_cells(&self, frame: &mut Vec<u8>, gs: &GameState, fov2: i64)
        requires
            self.wf(),
            abs_v(gs.player.pos.x as int) <= COORD_LIMIT,
            abs_v(gs.player.pos.y as int) <= COORD_LIMIT,
            0 <= fov2 <= 0x2_0000_0000_0000,
        ensures
            final(frame)@.len() == old(frame)@.len(),
            forall|k: int|
                (WIDTH * HEIGHT * 4) <= k < old(frame)@.len() ==> final(frame)@[k] == old(
                    frame,
                )@[k],
            final(frame)@ == overlay_cells(
                grid_view(self.map@),
                *gs,
                fov2 as int,
                old(frame)@,
                self.map@.len(),
            ),
    {
        let ghost m = grid_view(self.map@);
        let ghost f2 = fov2 as int;
        let mut y: usize = 0;
        while y < self.map.len()
            invariant
                frame@.len() == old(frame)@.len(),
                forall|k: int|
                    (WIDTH * HEIGHT * 4) <= k < old(frame)@.len() ==> frame@[k] == old(
                        frame,
                    )@[k],
                y <= self.map@.len(),
                frame@ == overlay_cells(m, *gs, f2, old(frame)@, y as nat),
            decreases self.map@.len() - y,
        {
            let ghost row_pre = frame@;
            let row_len = self.map[y].len();
            proof {
                assert(grid_view(self.map@)[y as int].len() <= 4096);
            }
            let mut x: usize = 0;
            while x < row_len
                invariant
                    frame@.len() == old(frame)@.len(),
                    forall|k: int|
                        (WIDTH * HEIGHT * 4) <= k < old(frame)@.len() ==> frame@[k] == old(
                            frame,
                        )@[k],
                    y < self.map@.len(),
                    x <= row_len,
                    row_len == self.map@[y as int]@.len(),
                    row_len <= 4096,
                    frame@ == overlay_row(m, *gs, f2, row_pre, y as int, x as nat),
                decreases row_len - x,
            {
                let ghost cell_pre = frame@;
                let cell = self.map[y][x];
                proof {
                    assert(cell == m[y as int][x as int]);
                }
                let cw = Vector::new((x as i64) * FP_ONE, (y as i64) * FP_ONE);
                let d2 = distance_squared(cw, gs.player.pos);
                if d2 <= fov2 && fov2 > 0 {
                    let xw: u128 = ((d2 as u128) * 0x40_0000_0000_0000_0000) / (fov2 as u128);
                    proof {
                        vstd::arithmetic::mul::lemma_mul_inequality(
                            d2 as int,
                            fov2 as int,
                            0x40_0000_0000_0000_0000,
                        );
                        vstd::arithmetic::div_mod::lemma_div_is_ordered(
                            d2 as int * 0x40_0000_0000_0000_0000,
                            fov2 as int * 0x40_0000_0000_0000_0000,
                            fov2 as int,
                        );
                        vstd::arithmetic::div_mod::lemma_div_by_multiple(
                            0x40_0000_0000_0000_0000,
                            fov2 as int,
                        );
                        assert(fov2 as int * 0x40_0000_0000_0000_0000 == 0x40_0000_0000_0000_0000
                            * (fov2 as int)) by (nonlinear_arith);
                    }
                    // alpha follows 255 * (1.01 - (d^2 / fov^2) ^ 0.1),
                    // with the tenth root taken at 1/128 resolution
                    let u = root10(xw);
                    proof {
                        lemma_iroot10_unique(xw as int, u as int);
                    }
                    let fade: u64 = 255 * (129 - u) / 128;
                    let alpha: u8 = if fade > 255 {
                        255
                    } else {
                        fade as u8
                    };
                    proof {
                        assert(alpha as int == overlay_alpha(d2 as int, f2));
                    }
                    set_pixel(
                        frame,
                        x,
                        y,
                        [cell.color[0], cell.color[1], cell.color[2], alpha],
                        1,
                    );
                    proof {
                        assert(frame@ =~= overlay_cell(m, *gs, f2, cell_pre, x as int, y as int));
                    }
                } else {
                    proof {
                        assert(frame@ =~= overlay_cell(m, *gs, f2, cell_pre, x as int, y as int));
                    }
                }
                x = x + 1;
            }
            y = y + 1;
            proof {
                assert(frame@ == overlay_cells(m, *gs, f2, old(frame)@, y as nat));
            }
        }
        proof {
            assert(frame@ == overlay_cells(m, *gs, f2, old(frame)@, self.map@.len()));
        }
    }

    /// Draw the player marker and its heading line onto the overlay.
    #[verifier::loop_isolation(false)]
    #[verifier::rlimit(100)]
    fn draw_player_marks(&self, frame: &mut Vec<u8>, gs: &GameState)
        requires
            abs_v(gs.player.pos.x as int) <= COORD_LIMIT,
            abs_v(gs.player.pos.y as int) <= COORD_LIMIT,
            abs_v(gs.player.dir.x as int) <= FP_ONE,
            abs_v(gs.player.dir.y as int) <= FP_ONE,
        ensures
            final(frame)@.len() == old(frame)@.len(),
            forall|k: int|
                (WIDTH * HEIGHT * 4) <= k < old(frame)@.len() ==> final(frame)@[k] == old(
                    frame,
                )@[k],
            final(frame)@ == player_marks(*gs, old(frame)@),
    {
        proof {
            crate::fixed::lemma_tdiv_bound(gs.player.pos.x as int, FP_ONE as int);
            crate::fixed::lemma_tdiv_bound(gs.player.pos.y as int, FP_ONE as int);
        }
        let px = cell_index(gs.player.pos.x);
        let py = cell_index(gs.player.pos.y);
        set_pixel(frame, px, py, [25, 0, 255, 255], 1);
        proof {
            assert(frame@ =~= px_write(old(frame)@, px as int, py as int, [25u8, 0u8, 255u8, 255u8]));
        }
        let ghost after_player = frame@;
        let hx = cell_index(gs.player.pos.x + 10 * gs.player.dir.x);
        let hy = cell_index(gs.player.pos.y + 10 * gs.player.dir.y);
        line(
            frame,
            px as isize,
            py as isize,
            hx as isize,
            hy as isize,
            [255, 0, 0, 255],
            1,
        );
        proof {
            assert(frame@ =~= line_write(
                after_player,
                px as int,
                py as int,
                hx as int,
                hy as int,
                [255u8, 0u8, 0u8, 255u8],
            ));
        }
    }

    /// Draw the enemy marker and its two orthogonal lines onto the overlay.
    #[verifier::loop_isolation(false)]
    #[verifier::rlimit(100)]
    fn draw_enemy_marks(&self, frame: &mut Vec<u8>, gs: &GameState)
        requires
            abs_v(gs.player.dir.x as int) <= FP_ONE,
            abs_v(gs.player.dir.y as int) <= FP_ONE,
            abs_v(gs.enemy.pos.x as int) <= COORD_LIMIT,
            abs_v(gs.enemy.pos.y as int) <= COORD_LIMIT,
        ensures
            final(frame)@.len() == old(frame)@.len(),
            forall|k: int|
                (WIDTH * HEIGHT * 4) <= k < old(frame)@.len() ==> final(frame)@[k] == old(
                    frame,
                )@[k],
            final(frame)@ == enemy_marks(*gs, old(frame)@),
    {
        proof {
            crate::fixed::lemma_tdiv_bound(gs.enemy.pos.x as int, FP_ONE as int);
            crate::fixed::lemma_tdiv_bound(gs.enemy.pos.y as int, FP_ONE as int);
        }
        let ex = cell_index(gs.enemy.pos.x);
        let ey = cell_index(gs.enemy.pos.y);
        set_pixel(frame, ex, ey, [25, 0, 255, 255], 1);
        proof {
            assert(frame@ =~= px_write(old(frame)@, ex as int, ey as int, [25u8, 0u8, 255u8, 255u8]));
        }
        let ghost after_enemy = frame@;
        let ol = gs.player.dir.orthogonal(crate::gamestate::Direction::Left);
        let lx = cell_index(gs.enemy.pos.x + 10 * ol.x);
        let ly = cell_index(gs.enemy.pos.y + 10 * ol.y);
        line(
            frame,
            ex as isize,
            ey as isize,
            lx as isize,
            ly as isize,
            [0, 255, 0, 255],
            1,
        );
        proof {
            assert(frame@ =~= line_write(
                after_enemy,
                ex as int,
                ey as int,
                lx as int,
                ly as int,
                [0u8, 255u8, 0u8, 255u8],
            ));
        }
        let ghost after_left = frame@;
        let orr = gs.player.dir.orthogonal(crate::gamestate::Direction::Right);
        let rx = cell_index(gs.enemy.pos.x + 10 * orr.x);
        let ry = cell_index(gs.enemy.pos.y + 10 * orr.y);
        line(
            frame,
            ex as isize,
            ey as isize,
            rx as isize,
            ry as isize,
            [0, 0, 255, 255],
            1,
        );
        proof {
            assert(frame@ =~= line_write(
                after_left,
                ex as int,
                ey as int,
                rx as int,
                ry as int,
                [0u8, 0u8, 255u8, 255u8],
            ));
        }
    }

    #[verifier::loop_isolation(false)]
    #[verifier::rlimit(100)]
    fn draw_overlay(&self, frame: &mut Vec<u8>, gs: &GameState)
        requires
            self.wf(),
            abs_v(gs.player.pos.x as int) <= COORD_LIMIT,
            abs_v(gs.player.pos.y as int) <= COORD_LIMIT,
            abs_v(gs.player.dir.x as int) <= FP_ONE,
            abs_v(gs.player.dir.y as int) <= FP_ONE,
            0 <= gs.player.pitch <= FP_ONE,
            abs_v(gs.enemy.pos.x as int) <= COORD_LIMIT,
            abs_v(gs.enemy.pos.y as int) <= COORD_LIMIT,
            gs.enemy.billboard@.len() <= 4096,
            forall|t: int|
                0 <= t < gs.enemy.billboard@.len() ==> (#[trigger] gs.enemy.billboard@[t]).len()
                    <= 4096,
        ensures
            final(frame)@.len() == old(frame)@.len(),
            forall|k: int|
                (WIDTH * HEIGHT * 4) <= k < old(frame)@.len() ==> final(frame)@[k] == old(
                    frame,
                )@[k],
            final(frame)@ == overlay_render(
                grid_view(self.map@),
                *gs,
                self.fov as int * self.fov as int,
                old(frame)@,
            ),
    {

        proof {
            vstd::arithmetic::mul::lemma_mul_upper_bound(
                self.fov as int,
                23592960,
                self.fov as int,
                23592960,
            );
            vstd::arithmetic::mul::lemma_mul_nonnegative(self.fov as int, self.fov as int);
        }
        let ghost m = grid_view(self.map@);
        let fov2: i64 = self.fov * self.fov;
        let ghost f2 = fov2 as int;
        self.draw_overlay_cells(frame, gs, fov2);
        self.draw_player_marks(frame, gs);
        self.draw_enemy_marks(frame, gs);
        proof {
            assert(m.len() == self.map@.len());
            assert(frame@ == overlay_render(m, *gs, f2, old(frame)@));
            assert forall|k: int| (WIDTH * HEIGHT * 4) <= k < old(frame)@.len() implies frame@[k]
                == old(frame)@[k] by {
                crate::framebuffer::lemma_off_screen_byte(k);
            }
        }
    }

    /// One first-person frame: one DDA cast per screen column.
    #[verifier::loop_isolation(false)]
    #[verifier::rlimit(80)]
    fn draw_perspective(&self, frame: &mut Vec<u8>, gs: &GameState)
        requires
            self.wf(),
            abs_v(gs.player.pos.x as int) <= COORD_LIMIT,
            abs_v(gs.player.pos.y as int) <= COORD_LIMIT,
            abs_v(gs.player.dir.x as int) <= FP_ONE,
            abs_v(gs.player.dir.y as int) <= FP_ONE,
            0 <= gs.player.pitch <= FP_ONE,
            abs_v(gs.enemy.pos.x as int) <= COORD_LIMIT,
            abs_v(gs.enemy.pos.y as int) <= COORD_LIMIT,
            gs.enemy.billboard@.len() <= 4096,
            forall|t: int|
                0 <= t < gs.enemy.billboard@.len() ==> (#[trigger] gs.enemy.billboard@[t]).len()
                    <= 4096,
        ensures
            final(frame)@.len() == old(frame)@.len(),
            forall|k: int|
                (WIDTH * HEIGHT * 4) <= k < old(frame)@.len() ==> final(frame)@[k] == old(
                    frame,
                )@[k],
            final(frame)@ == render_columns(
                grid_view(self.map@),
                *gs,
                self.column_rotations@,
                old(frame)@,
                WIDTH as nat,
            ),
    {
        let ghost m = grid_view(self.map@);
        let ghost rots = self.column_rotations@;
        let shear = shear_of(gs.player.pitch);
        let mut i: usize = 0;
        while i < WIDTH
            invariant
                frame@.len() == old(frame)@.len(),
                forall|k: int|
                    (WIDTH * HEIGHT * 4) <= k < old(frame)@.len() ==> frame@[k] == old(
                        frame,
                    )@[k],
                i <= WIDTH,
                frame@ == render_columns(m, *gs, rots, old(frame)@, i as nat),
            decreases WIDTH - i,
        {
            let ghost prev = frame@;
            let rot = self.column_rotations[i];
            let ray = gs.player.dir.rotate(rot);
            proof {
                lemma_rotated_bounded(gs.player.dir, rot);
                assert(ray == crate::gamestate::rotated_spec(gs.player.dir, rot));
            }
            if ray.x != 0 || ray.y != 0 {
                let (hit, visited) = cast_ray(&self.map, gs.player.pos, ray);
                let ghost o = cast_spec(m, gs.player.pos, ray);
                let ghost pv = path_view(visited@);
                let mut bb_d2: i64 = 0;
                let mut bb_col: Option<Vec<[u8; 4]>> = None;
                let mut t: usize = 0;
                while t < visited.len()
                    invariant
                        frame@ == prev,
                        t <= visited@.len(),
                        bb_d2 >= 0,
                        ({
                            match last_bb_cell(*gs, pv.take(t as int)) {
                                Option::None => bb_col is None,
                                Option::Some(c) => bb_col matches Some(row) && row@
                                    == gs.enemy.billboard@[gs.billboard_row(cell_point(c))]
                                    && row@.len() <= 4096 && bb_d2 == (cell_point(c).x
                                    - gs.player.pos.x) * (cell_point(c).x - gs.player.pos.x) + (
                                cell_point(c).y - gs.player.pos.y) * (cell_point(c).y
                                    - gs.player.pos.y),
                            }
                        }),
                    decreases visited@.len() - t,
                {
                    let c = visited[t];
                    proof {
                        assert(abs_v(visited@[t as int].0 as int) <= 20000);
                        assert(abs_v(visited@[t as int].1 as int) <= 20000);
                        assert(pv[t as int] == (c.0 as int, c.1 as int));
                    }
                    let cw = Vector::new(c.0 * FP_ONE, c.1 * FP_ONE);
                    proof {
                        assert(cw == cell_point(pv[t as int]));
                        assert(pv.take(t as int + 1).last() == pv[t as int]);
                        assert(pv.take(t as int + 1).drop_last() =~= pv.take(t as int));
                    }
                    let got = gs.billboard_intersection(cw);
                    if got.is_some() {
                        bb_d2 = distance_squared(gs.player.pos, cw);
                        bb_col = got;
                    }
                    t = t + 1;
                }
                proof {
                    assert(pv.take(visited@.len() as int) =~= pv);
                }
                if let Some(h) = hit {
                    proof {
                        lemma_dda_hit_in_bounds(
                            m,
                            cell_of(gs.player.pos.x),
                            cell_of(gs.player.pos.y),
                            sd_init(gs.player.pos.x, ray.x),
                            sd_init(gs.player.pos.y, ray.y),
                            ray.x,
                            ray.y,
                            DDA_FUEL as nat,
                        );
                        lemma_wall_dist_bounded(
                            gs.player.pos,
                            ray,
                            h.cell_x as int,
                            h.cell_y as int,
                            h.side as int,
                        );
                        assert(o.hit == Some((h.cell_x as int, h.cell_y as int, h.side as int)));
                    }
                    let cell = self.map[h.cell_y as usize][h.cell_x as usize];
                    proof {
                        assert(cell == m[h.cell_y as int][h.cell_x as int]);
                    }
                    let shaded: [u8; 4] = if h.side == 1 {
                        [
                            cell.color[0] / 2,
                            cell.color[1] / 2,
                            cell.color[2] / 2,
                            cell.color[3] / 2,
                        ]
                    } else {
                        cell.color
                    };
                    proof {
                        assert(shaded[0] as int == side_shaded(cell.color[0] as int, h.side as int));
                        assert(shaded[1] as int == side_shaded(cell.color[1] as int, h.side as int));
                        assert(shaded[2] as int == side_shaded(cell.color[2] as int, h.side as int));
                        assert(shaded[3] as int == side_shaded(cell.color[3] as int, h.side as int));
                    }
                    let color: [u8; 4] = [
                        fog_channel(shaded[0], h.dist, shear),
                        fog_channel(shaded[1], h.dist, shear),
                        fog_channel(shaded[2], h.dist, shear),
                        fog_channel(shaded[3], h.dist, shear),
                    ];
                    let height = column_height(h.dist);
                    let cstart = HEIGHT / 2 - height / 2 + shear;
                    let cend = HEIGHT / 2 + height / 2 + shear;
                    verline(frame, i, cstart, cend, color, 1);
                    let ghost walled = vl_write(prev, i as int, cstart as int, cend as int, color);
                    proof {
                        assert(frame@ =~= walled);
                    }
                    if let Some(col) = bb_col {
                        let bh = billboard_height(bb_d2);
                        let bstart = HEIGHT / 2 - bh / 2 + shear;
                        crate::framebuffer::draw_strip(frame, i, bstart, &col);
                        proof {
                            assert(frame@ =~= strip_write(walled, i as int, bstart as int, col@));
                        }
                    }
                    proof {
                        assert(frame@ =~= column_render(m, *gs, rot, prev, i as int));
                    }
                } else {
                    proof {
                        assert(frame@ =~= column_render(m, *gs, rot, prev, i as int));
                    }
                }
            } else {
                proof {
                    assert(frame@ =~= column_render(m, *gs, rot, prev, i as int));
                }
            }
            proof {
                assert(rots[i as int] == rot);
                assert(frame@ =~= column_render(m, *gs, rot, prev, i as int));
                assert(frame@ == render_columns(m, *gs, rots, old(frame)@, (i + 1) as nat));
                assert forall|k: int| (WIDTH * HEIGHT * 4) <= k < old(frame)@.len() implies frame@[k]
                    == old(frame)@[k] by {
                    crate::framebuffer::lemma_off_screen_byte(k);
                }
            }
            i = i + 1;
        }
    }

    /// Render one frame into the caller's framebuffer: the top-down overlay
    /// when the toggle is on, otherwise the first-person projection (one DDA
    /// cast per screen column, perspective column fill, distance fog, side
    /// shading, and the enemy billboard composited over its column). Only
    /// on-screen, in-buffer pixels are touched, and the buffer keeps its
    /// size. Rendering itself cannot fail.
    pub fn draw(&self, frame: &mut Vec<u8>, gs: &GameState) -> (r: Result<(), String>)
        requires
            self.wf(),
            abs_v(gs.player.pos.x as int) <= COORD_LIMIT,
            abs_v(gs.player.pos.y as int) <= COORD_LIMIT,
            abs_v(gs.player.dir.x as int) <= FP_ONE,
            abs_v(gs.player.dir.y as int) <= FP_ONE,
            0 <= gs.player.pitch <= FP_ONE,
            abs_v(gs.enemy.pos.x as int) <= COORD_LIMIT,
            abs_v(gs.enemy.pos.y as int) <= COORD_LIMIT,
            gs.enemy.billboard@.len() <= 4096,
            forall|t: int|
                0 <= t < gs.enemy.billboard@.len() ==> (#[trigger] gs.enemy.billboard@[t]).len()
                    <= 4096,
        ensures
            r is Ok,
            final(frame)@.len() == old(frame)@.len(),
            forall|k: int|
                (WIDTH * HEIGHT * 4) <= k < old(frame)@.len() ==> final(frame)@[k] == old(
                    frame,
                )@[k],
            gs.map_toggle ==> final(frame)@ == overlay_render(
                grid_view(self.map@),
                *gs,
                self.fov as int * self.fov as int,
                old(frame)@,
            ),
            !gs.map_toggle ==> final(frame)@ == render_columns(
                grid_view(self.map@),
                *gs,
                self.column_rotations@,
                old(frame)@,
                WIDTH as nat,
            ),
    {
        if gs.map_toggle {
            self.draw_overlay(frame, gs);
        } else {
            self.draw_perspective(frame, gs);
        }
        Ok(())
    }
}

/// The overlay pixel of a fixed-point coordinate: its cell index, held to
/// the screen-side range (negative coordinates land on the left edge, as a
/// saturating float-to-index cast would).
fn cell_index(c: i64) -> (r: usize)
    requires
        c > i64::MIN,
    ensures
        r == cell_index_spec(c),
{
    let q = div_fp(c, FP_ONE);
    if q < 0 {
        0
    } else if q > 0xFFFF {
        0xFFFF
    } else {
        q as usize
    }
}

/// A byte sequence with one column fill laid over it, as `verline` paints
/// it at scale 1.
pub open spec fn vl_write(frame: Seq<u8>, x: int, y1: int, y2: int, color: [u8; 4]) -> Seq<u8> {
    Seq::new(
        frame.len(),
        |k: int|
            if crate::framebuffer::vl_covers(k, x, y1, y2, 1, frame.len() as int) {
                color[k % 4]
            } else {
                frame[k]
            },
    )
}

/// A byte sequence with one billboard strip laid over it, as `draw_strip`
/// paints it.
pub open spec fn strip_write(frame: Seq<u8>, x: int, bstart: int, col: Seq<[u8; 4]>) -> Seq<u8> {
    Seq::new(
        frame.len(),
        |k: int|
            if crate::framebuffer::strip_covers(k, x, bstart, col.len() as int, frame.len() as int) {
                col[crate::framebuffer::py_of(k) - bstart][k % 4]
            } else {
                frame[k]
            },
    )
}

/// The world point of a visited cell, for the billboard test.
pub open spec fn cell_point(c: (int, int)) -> Vector {
    Vector { x: (c.0 * FP_ONE) as i64, y: (c.1 * FP_ONE) as i64 }
}

/// The last cell along a ray's path whose world point intersects the
/// enemy's billboard segment -- the one whose texel row the renderer
/// composites.
pub open spec fn last_bb_cell(gs: GameState, path: Seq<(int, int)>) -> Option<(int, int)>
    decreases path.len(),
{
    if path.len() == 0 {
        None
    } else if gs.billboard_hit(cell_point(path.last())) && gs.enemy.billboard@.len() > 0 {
        Some(path.last())
    } else {
        last_bb_cell(gs, path.drop_last())
    }
}

/// What one screen column of the perspective view does to the framebuffer:
/// nothing for a degenerate or escaping ray; otherwise the shaded, fogged
/// wall column, with the billboard strip composited over it when some
/// visited cell intersects the billboard.
pub open spec fn column_render(
    map: Seq<Seq<MapCell>>,
    gs: GameState,
    rot: crate::vector::Rotation,
    frame: Seq<u8>,
    i: int,
) -> Seq<u8> {
    let ray = crate::gamestate::rotated_spec(gs.player.dir, rot);
    if ray.x == 0 && ray.y == 0 {
        frame
    } else {
        let o = cast_spec(map, gs.player.pos, ray);
        match o.hit {
            None => frame,
            Some(h) => {
                let cell = map[h.1][h.0];
                let sh = shear_spec(gs.player.pitch);
                let d = wall_dist_spec(gs.player.pos, ray, h.0, h.1, h.2);
                let color: [u8; 4] = [
                    fog_channel_spec(side_shaded(cell.color[0] as int, h.2), d, sh) as u8,
                    fog_channel_spec(side_shaded(cell.color[1] as int, h.2), d, sh) as u8,
                    fog_channel_spec(side_shaded(cell.color[2] as int, h.2), d, sh) as u8,
                    fog_channel_spec(side_shaded(cell.color[3] as int, h.2), d, sh) as u8,
                ];
                let height = column_height_spec(d);
                let cstart = HEIGHT as int / 2 - height / 2 + sh;
                let cend = HEIGHT as int / 2 + height / 2 + sh;
                let walled = vl_write(frame, i, cstart, cend, color);
                match last_bb_cell(gs, o.path) {
                    None => walled,
                    Some(c) => {
                        let p = cell_point(c);
                        let d2 = (p.x - gs.player.pos.x) * (p.x - gs.player.pos.x) + (p.y
                            - gs.player.pos.y) * (p.y - gs.player.pos.y);
                        let bh = billboard_height_spec(d2);
                        let bstart = HEIGHT as int / 2 - bh / 2 + sh;
                        strip_write(
                            walled,
                            i,
                            bstart,
                            gs.enemy.billboard@[gs.billboard_row(p)],
                        )
                    },
                }
            },
        }
    }
}

/// The first `n` columns of the perspective view, rendered left to right.
pub open spec fn render_columns(
    map: Seq<Seq<MapCell>>,
    gs: GameState,
    rots: Seq<crate::vector::Rotation>,
    frame: Seq<u8>,
    n: nat,
) -> Seq<u8>
    decreases n,
{
    if n == 0 {
        frame
    } else {
        column_render(
            map,
            gs,
            rots[n - 1],
            render_columns(map, gs, rots, frame, (n - 1) as nat),
            n - 1,
        )
    }
}

/// Raising to the tenth power is monotone in a nonnegative base.
proof fn lemma_pow_base_le(a: int, b: int, e: nat)
    requires
        0 <= a <= b,
    ensures
        vstd::arithmetic::power::pow(a, e) <= vstd::arithmetic::power::pow(b, e),
    decreases e,
{
    vstd::arithmetic::power::lemma_pow0(a);
    vstd::arithmetic::power::lemma_pow0(b);
    if e > 0 {
        lemma_pow_base_le(a, b, (e - 1) as nat);
        assert(vstd::arithmetic::power::pow(a, e) == a * vstd::arithmetic::power::pow(
            a,
            (e - 1) as nat,
        )) by {
            reveal_with_fuel(vstd::arithmetic::power::pow, 2);
        }
        assert(vstd::arithmetic::power::pow(b, e) == b * vstd::arithmetic::power::pow(
            b,
            (e - 1) as nat,
        )) by {
            reveal_with_fuel(vstd::arithmetic::power::pow, 2);
        }
        if a == 0 && b == 0 {
        } else if a == 0 {
            vstd::arithmetic::power::lemma_pow_positive(b, e);
            assert(0 * vstd::arithmetic::power::pow(a, (e - 1) as nat) == 0)
                by (nonlinear_arith);
        } else {
            vstd::arithmetic::power::lemma_pow_positive(a, (e - 1) as nat);
            vstd::arithmetic::power::lemma_pow_positive(b, (e - 1) as nat);
            vstd::arithmetic::mul::lemma_mul_inequality(
                vstd::arithmetic::power::pow(a, (e - 1) as nat),
                vstd::arithmetic::power::pow(b, (e - 1) as nat),
                a,
            );
            vstd::arithmetic::mul::lemma_mul_inequality(a, b, vstd::arithmetic::power::pow(
                b,
                (e - 1) as nat,
            ));
            assert(a * vstd::arithmetic::power::pow(a, (e - 1) as nat)
                == vstd::arithmetic::power::pow(a, (e - 1) as nat) * a) by (nonlinear_arith);
        }
    }
}

/// The integer tenth root as a mathematical value: the `r` whose tenth
/// power brackets `x`.
pub open spec fn iroot10(x: int) -> int {
    choose|r: int|
        0 <= r && #[trigger] vstd::arithmetic::power::pow(r, 10) <= x
            < vstd::arithmetic::power::pow(r + 1, 10)
}

/// The bracketing root is unique, so `iroot10` is exactly what `root10`
/// computes.
pub proof fn lemma_iroot10_unique(x: int, r: int)
    requires
        0 <= r,
        vstd::arithmetic::power::pow(r, 10) <= x,
        x < vstd::arithmetic::power::pow(r + 1, 10),
    ensures
        iroot10(x) == r,
{
    assert(0 <= r && vstd::arithmetic::power::pow(r, 10) <= x
        < vstd::arithmetic::power::pow(r + 1, 10));
    let r2 = iroot10(x);
    assert(0 <= r2 && vstd::arithmetic::power::pow(r2, 10) <= x
        < vstd::arithmetic::power::pow(r2 + 1, 10));
    if r2 < r {
        lemma_pow_base_le(r2 + 1, r, 10);
        assert(false);
    }
    if r < r2 {
        lemma_pow_base_le(r + 1, r2, 10);
        assert(false);
    }

}


/// The overlay pixel of a fixed-point coordinate: its cell index, held to
/// the screen-side range.
pub open spec fn cell_index_spec(c: i64) -> int {
    let q = tdiv(c as int, FP_ONE as int);
    if q < 0 {
        0
    } else if q > 0xFFFF {
        0xFFFF
    } else {
        q
    }
}

/// A byte sequence with one pixel painted over it, as `set_pixel` paints it
/// at scale 1.
pub open spec fn px_write(frame: Seq<u8>, x: int, y: int, color: [u8; 4]) -> Seq<u8> {
    Seq::new(
        frame.len(),
        |k: int|
            if crate::framebuffer::covers(k, x, y, 1, frame.len() as int) {
                color[k % 4]
            } else {
                frame[k]
            },
    )
}

/// A byte sequence with one debug line painted over it, as `line` paints it
/// at scale 1: a vertical line is a column fill, anything else follows
/// Bresenham's path.
pub open spec fn line_write(
    frame: Seq<u8>,
    x1: int,
    y1: int,
    x2: int,
    y2: int,
    color: [u8; 4],
) -> Seq<u8> {
    Seq::new(
        frame.len(),
        |k: int|
            if (if x1 == x2 {
                crate::framebuffer::vl_covers(k, x1, y1, y2, 1, frame.len() as int)
            } else {
                crate::framebuffer::line_covers(
                    k,
                    crate::framebuffer::line_path(x1, y1, x2, y2, 1),
                    1,
                    frame.len() as int,
                )
            }) {
                color[k % 4]
            } else {
                frame[k]
            },
    )
}

/// The overlay's distance fade: `255 * (1.01 - (d2 / fov2) ^ 0.1)`, with
/// the tenth root taken at 1/128 resolution and the result held to a byte.
pub open spec fn overlay_alpha(d2: int, fov2: int) -> int {
    let u = iroot10((d2 * 0x40_0000_0000_0000_0000) / fov2);
    let fade = 255 * (129 - u) / 128;
    if fade > 255 {
        255
    } else {
        fade
    }
}

/// What one map cell contributes to the overlay: its color with the fade as
/// alpha, skipped entirely beyond the visibility radius.
pub open spec fn overlay_cell(
    map: Seq<Seq<MapCell>>,
    gs: GameState,
    fov2: int,
    frame: Seq<u8>,
    x: int,
    y: int,
) -> Seq<u8> {
    let cell = map[y][x];
    let d2 = (gs.player.pos.x - x * FP_ONE) * (gs.player.pos.x - x * FP_ONE) + (gs.player.pos.y - y
        * FP_ONE) * (gs.player.pos.y - y * FP_ONE);
    if d2 <= fov2 && fov2 > 0 {
        px_write(
            frame,
            x,
            y,
            [cell.color[0], cell.color[1], cell.color[2], overlay_alpha(d2, fov2) as u8],
        )
    } else {
        frame
    }
}

/// The first `n` cells of row `y`, composited left to right.
pub open spec fn overlay_row(
    map: Seq<Seq<MapCell>>,
    gs: GameState,
    fov2: int,
    frame: Seq<u8>,
    y: int,
    n: nat,
) -> Seq<u8>
    decreases n,
{
    if n == 0 {
        frame
    } else {
        overlay_cell(map, gs, fov2, overlay_row(map, gs, fov2, frame, y, (n - 1) as nat), n - 1, y)
    }
}

/// The first `n` rows of the overlay's cell pass.
pub open spec fn overlay_cells(
    map: Seq<Seq<MapCell>>,
    gs: GameState,
    fov2: int,
    frame: Seq<u8>,
    n: nat,
) -> Seq<u8>
    decreases n,
{
    if n == 0 {
        frame
    } else {
        overlay_row(
            map,
            gs,
            fov2,
            overlay_cells(map, gs, fov2, frame, (n - 1) as nat),
            n - 1,
            map[n - 1].len(),
        )
    }
}

/// The whole top-down overlay: every cell with its distance fade, then the
/// player marker with its heading line, then the enemy marker with a short
/// line along each of the player's orthogonals.
pub open spec fn overlay_render(
    map: Seq<Seq<MapCell>>,
    gs: GameState,
    fov2: int,
    frame: Seq<u8>,
) -> Seq<u8> {
    overlay_marks(gs, overlay_cells(map, gs, fov2, frame, map.len()))
}

/// The overlay's marker pass: the player marker with its heading line, then
/// the enemy marker with a short line along each of the player's
/// orthogonals.
pub open spec fn overlay_marks(gs: GameState, cells: Seq<u8>) -> Seq<u8> {
    enemy_marks(gs, player_marks(gs, cells))
}

/// The player's overlay marker and heading line.
pub open spec fn player_marks(gs: GameState, frame: Seq<u8>) -> Seq<u8> {
    let px = cell_index_spec(gs.player.pos.x);
    let py = cell_index_spec(gs.player.pos.y);
    let hx = cell_index_spec((gs.player.pos.x + 10 * gs.player.dir.x) as i64);
    let hy = cell_index_spec((gs.player.pos.y + 10 * gs.player.dir.y) as i64);
    line_write(
        px_write(frame, px, py, [25u8, 0u8, 255u8, 255u8]),
        px,
        py,
        hx,
        hy,
        [255u8, 0u8, 0u8, 255u8],
    )
}

/// The enemy's overlay marker and its two orthogonal lines.
pub open spec fn enemy_marks(gs: GameState, frame: Seq<u8>) -> Seq<u8> {
    let ex = cell_index_spec(gs.enemy.pos.x);
    let ey = cell_index_spec(gs.enemy.pos.y);
    let lx = cell_index_spec((gs.enemy.pos.x + 10 * gs.player.dir.y) as i64);
    let ly = cell_index_spec((gs.enemy.pos.y - 10 * gs.player.dir.x) as i64);
    let rx = cell_index_spec((gs.enemy.pos.x - 10 * gs.player.dir.y) as i64);
    let ry = cell_index_spec((gs.enemy.pos.y + 10 * gs.player.dir.x) as i64);
    let with_left = line_write(
        px_write(frame, ex, ey, [25u8, 0u8, 255u8, 255u8]),
        ex,
        ey,
        lx,
        ly,
        [0u8, 255u8, 0u8, 255u8],
    );
    line_write(with_left, ex, ey, rx, ry, [0u8, 0u8, 255u8, 255u8])
}

} // verus!
