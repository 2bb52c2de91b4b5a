use crate::fixed::{abs_v, div_fp, fp_mul, tdiv, COORD_LIMIT, DIR_LIMIT, FP_ONE};
use crate::framebuffer::is_between;
use crate::map::{grid_view, MapCell, MapCellType};
use crate::vector::{Rotation, Vector};
use crate::DEFAULT_ACCELERATION;
use vstd::prelude::*;

verus! {

/// A discrete movement intent from the input layer. `Up`/`Down` thrust along
/// the heading, `Left`/`Right` strafe along its orthogonals, and `Mouse`
/// carries the turn as a ready-made `Rotation` (cosine/sine of the horizontal
/// mouse delta times the rotation speed) together with the vertical mouse
/// delta in fixed-point units.
pub enum Direction {
    Up,
    Down,
    Left,
    Right,
    Mouse(Rotation, i64),
}

/// Most cells the spawn-recovery pre-pass of `update_positions` will step
/// through before giving up: enough to cross the coordinate range and the
/// largest map once.
pub const NUDGE_LIMIT: usize = 16384;

/// The player's pose: position, unit heading and velocity in fixed-point
/// world units, and the vertical look-shear `pitch` in `(0, FP_ONE)` with
/// `FP_ONE / 2` meaning level.
#[derive(Clone, Copy, Debug)]
pub struct Player {
    pub pos: Vector,
    pub dir: Vector,
    pub vel: Vector,
    pub pitch: i64,
}

/// The player pose at startup: at the origin, facing +x, at rest, looking
/// level.
pub open spec fn default_player() -> Player {
    Player {
        pos: Vector { x: 0, y: 0 },
        dir: Vector { x: FP_ONE, y: 0 },
        vel: Vector { x: 0, y: 0 },
        pitch: 32768i64,
    }
}

impl Default for Player {
    fn default() -> (p: Player)
        ensures
            p == default_player(),
    {
        Player {
            pos: Vector::new(0, 0),
            dir: Vector::new(FP_ONE, 0),
            vel: Vector::new(0, 0),
            pitch: 32768,
        }
    }
}

/// The sprite texture of the enemy: rows of RGBA texels.
#[derive(Debug)]
pub struct Billboard(pub(crate) Vec<Vec<[u8; 4]>>);

impl View for Billboard {
    type V = Seq<Seq<[u8; 4]>>;

    closed spec fn view(&self) -> Seq<Seq<[u8; 4]>> {
        crate::map::pixels_view(self.0@)
    }
}

impl Billboard {
    /// Wrap already-decoded texel rows; decoding the image belongs to the
    /// caller.
    pub fn new(rows: Vec<Vec<[u8; 4]>>) -> (b: Billboard)
        ensures
            b@ == crate::map::pixels_view(rows@),
    {
        Billboard(rows)
    }

    /// Number of texel rows.
    pub fn rows(&self) -> (n: usize)
        ensures
            n == self@.len(),
    {
        self.0.len()
    }
}

impl Default for Billboard {
    /// An empty texture; the real sprite is installed by the caller once the
    /// image is decoded.
    fn default() -> (b: Billboard)
        ensures
            b@ == Seq::<Seq<[u8; 4]>>::empty(),
    {
        let b = Billboard(Vec::new());
        proof {
            assert(b@ =~= Seq::<Seq<[u8; 4]>>::empty());
        }
        b
    }
}

/// Behaviour mode of the enemy; data-only, transitions are left to the
/// caller.
#[derive(Clone, Copy, Debug, PartialEq, Eq, Structural)]
pub enum EnemyState {
    Chasing,
    Hiding,
    Stalking,
}

/// The secondary actor: pose, behaviour mode, sprite texture and whether it
/// currently sees the player.
#[derive(Debug)]
pub struct Enemy {
    pub pos: Vector,
    pub vel: Vector,
    pub dir: Vector,
    pub state: EnemyState,
    pub billboard: Billboard,
    pub line_of_sight: bool,
}

impl Default for Enemy {
    /// The enemy's starting pose (a spot inside the bundled map), stalking,
    /// with an empty sprite; the texture is installed by the caller once its
    /// image is decoded.
    fn default() -> (e: Enemy)
        ensures
            e.pos == (Vector { x: 10137161i64, y: 4070599i64 }),
            e.vel == (Vector { x: 0i64, y: 0i64 }),
            e.dir == (Vector { x: FP_ONE, y: 0i64 }),
            e.state == EnemyState::Stalking,
            e.billboard@ == Seq::<Seq<[u8; 4]>>::empty(),
            !e.line_of_sight,
    {
        Enemy {
            pos: Vector::new(10137161, 4070599),
            vel: Vector::new(0, 0),
            dir: Vector::new(FP_ONE, 0),
            state: EnemyState::Stalking,
            billboard: Billboard::default(),
            line_of_sight: false,
        }
    }
}

/// Everything that changes from tick to tick: the two actors, the map
/// overlay toggle, and the movement tunables (acceleration and rotation
/// speed, both in fixed-point units).
#[derive(Debug)]
pub struct GameState {
    pub enemy: Enemy,
    pub player: Player,
    pub map_toggle: bool,
    pub acceleration: i64,
    pub rotation_speed: i64,
}

/// Whether the cell under a fixed-point position exists and is passable.
pub open spec fn valid_pos(map: Seq<Seq<MapCell>>, pos: Vector) -> bool {
    let cy = tdiv(pos.y as int, FP_ONE as int);
    let cx = tdiv(pos.x as int, FP_ONE as int);
    &&& pos.x >= 0
    &&& pos.y >= 0
    &&& cy < map.len()
    &&& cx < map[cy].len()
    &&& map[cy][cx].solid == MapCellType::Empty
}

/// Where the spawn-recovery pre-pass ends up: step one cell diagonally until
/// the position is valid or the fuel runs out.
pub open spec fn nudge_spec(map: Seq<Seq<MapCell>>, pos: Vector, fuel: nat) -> Vector
    decreases fuel,
{
    if fuel == 0 || valid_pos(map, pos) {
        pos
    } else {
        nudge_spec(
            map,
            Vector { x: (pos.x + FP_ONE) as i64, y: (pos.y + FP_ONE) as i64 },
            (fuel - 1) as nat,
        )
    }
}

/// One axis of wall-sliding: move along x only if the target cell is
/// passable.
pub open spec fn slide_x(map: Seq<Seq<MapCell>>, pos: Vector, vel: Vector) -> Vector {
    let cand = Vector { x: (pos.x + vel.x) as i64, y: pos.y };
    if valid_pos(map, cand) {
        cand
    } else {
        pos
    }
}

/// The other axis of wall-sliding: move along y only if the target cell is
/// passable.
pub open spec fn slide_y(map: Seq<Seq<MapCell>>, pos: Vector, vel: Vector) -> Vector {
    let cand = Vector { x: pos.x, y: (pos.y + vel.y) as i64 };
    if valid_pos(map, cand) {
        cand
    } else {
        pos
    }
}

/// The per-tick velocity damping: each component shrinks to 4/5 of its
/// value, rounded toward zero (the fixed-point rendering of the 0.8 factor).
pub open spec fn damp(vel: Vector) -> Vector {
    Vector { x: tdiv(4 * vel.x, 5) as i64, y: tdiv(4 * vel.y, 5) as i64 }
}

/// `n` ticks of damping with no input in between.
pub open spec fn damp_n(vel: Vector, n: nat) -> Vector
    decreases n,
{
    if n == 0 {
        vel
    } else {
        damp_n(damp(vel), (n - 1) as nat)
    }
}

/// Velocity after a thrust of `sign * d * acc`.
pub open spec fn thrust(vel: Vector, d: Vector, acc: int, sign: int) -> Vector {
    Vector {
        x: (vel.x + sign * tdiv(d.x * acc, FP_ONE as int)) as i64,
        y: (vel.y + sign * tdiv(d.y * acc, FP_ONE as int)) as i64,
    }
}

/// The heading after applying a `Rotation`, as `Vector::rotate` computes it.
pub open spec fn rotated_spec(v: Vector, r: Rotation) -> Vector {
    Vector {
        x: tdiv(v.x * r.cos - v.y * r.sin, FP_ONE as int) as i64,
        y: tdiv(v.x * r.sin + v.y * r.cos, FP_ONE as int) as i64,
    }
}

/// The pitch after a vertical mouse delta: updated only when the new value
/// stays strictly inside `(0, FP_ONE)`, otherwise left as it was.
pub open spec fn pitch_after(pitch: i64, dy: i64, rs: i64) -> i64 {
    let np = pitch - tdiv(dy * rs, FP_ONE as int);
    if 0 < np < FP_ONE {
        np as i64
    } else {
        pitch
    }
}

impl GameState {
    /// The startup state: both actors at their defaults, the overlay on,
    /// and the movement tunables at roughly 0.1 (acceleration) and 0.001
    /// (rotation speed) world units in fixed point.
    pub fn new() -> (g: GameState)
        ensures
            g.player == default_player(),
            g.enemy.pos == (Vector { x: 10137161i64, y: 4070599i64 }),
            g.enemy.vel == (Vector { x: 0i64, y: 0i64 }),
            g.enemy.dir == (Vector { x: FP_ONE, y: 0i64 }),
            g.enemy.state == EnemyState::Stalking,
            g.enemy.billboard@ == Seq::<Seq<[u8; 4]>>::empty(),
            !g.enemy.line_of_sight,
            g.map_toggle,
            g.acceleration == DEFAULT_ACCELERATION,
            g.rotation_speed == 66i64,
    {
        GameState {
            enemy: Enemy::default(),
            player: Player::default(),
            map_toggle: true,
            acceleration: DEFAULT_ACCELERATION,
            rotation_speed: 66,
        }
    }

    /// Whether `pos` stands on a passable cell of `map`.
    fn is_valid_position(&self, pos: &Vector, map: &Vec<Vec<MapCell>>) -> (r: bool)
        ensures
            r == valid_pos(grid_view(map@), *pos),
    {
        if pos.x < 0 || pos.y < 0 {
            return false;
        }
        proof {
            crate::fixed::lemma_tdiv_bound(pos.x as int, FP_ONE as int);
            crate::fixed::lemma_tdiv_bound(pos.y as int, FP_ONE as int);
        }
        let cy = div_fp(pos.y, FP_ONE);
        let cx = div_fp(pos.x, FP_ONE);
        if (cy as u64) < (map.len() as u64) {
            let row = &map[cy as usize];
            if (cx as u64) < (row.len() as u64) {
                if row[cx as usize].solid == MapCellType::Empty {
                    return true;
                }
            }
        }
        false
    }

    /// One movement tick: nudge the player out of solid geometry if needed,
    /// then slide along x and y independently (committing each axis only when
    /// the target cell is passable), then damp the velocity.
    pub fn update_positions(&mut self, map: &Vec<Vec<MapCell>>)
        requires
            abs_v(old(self).player.pos.x as int) <= COORD_LIMIT,
            abs_v(old(self).player.pos.y as int) <= COORD_LIMIT,
            abs_v(old(self).player.vel.x as int) <= COORD_LIMIT,
            abs_v(old(self).player.vel.y as int) <= COORD_LIMIT,
        ensures
            ({
                let m = grid_view(map@);
                let nudged = nudge_spec(m, old(self).player.pos, NUDGE_LIMIT as nat);
                final(self).player.pos == slide_y(
                    m,
                    slide_x(m, nudged, old(self).player.vel),
                    old(self).player.vel,
                )
            }),
            final(self).player.vel == damp(old(self).player.vel),
            final(self).player.dir == old(self).player.dir,
            final(self).player.pitch == old(self).player.pitch,
            final(self).enemy == old(self).enemy,
            final(self).map_toggle == old(self).map_toggle,
            final(self).acceleration == old(self).acceleration,
            final(self).rotation_speed == old(self).rotation_speed,
    {
        let ghost m = grid_view(map@);
        let ghost p0 = self.player.pos;
        let ghost pre = *self;
        let mut steps: usize = 0;
        loop
            invariant
                steps <= NUDGE_LIMIT,
                m == grid_view(map@),
                p0 == pre.player.pos,
                abs_v(p0.x as int) <= COORD_LIMIT,
                abs_v(p0.y as int) <= COORD_LIMIT,
                self.player.pos.x == p0.x + steps * FP_ONE,
                self.player.pos.y == p0.y + steps * FP_ONE,
                nudge_spec(m, p0, NUDGE_LIMIT as nat) == nudge_spec(
                    m,
                    self.player.pos,
                    (NUDGE_LIMIT - steps) as nat,
                ),
                self.player.vel == pre.player.vel,
                self.player.dir == pre.player.dir,
                self.player.pitch == pre.player.pitch,
                self.enemy == pre.enemy,
                self.map_toggle == pre.map_toggle,
                self.acceleration == pre.acceleration,
                self.rotation_speed == pre.rotation_speed,
            ensures
                self.player.pos == nudge_spec(m, p0, NUDGE_LIMIT as nat),
                p0.x <= self.player.pos.x <= p0.x + NUDGE_LIMIT * FP_ONE,
                p0.y <= self.player.pos.y <= p0.y + NUDGE_LIMIT * FP_ONE,
                self.player.vel == pre.player.vel,
                self.player.dir == pre.player.dir,
                self.player.pitch == pre.player.pitch,
                self.enemy == pre.enemy,
                self.map_toggle == pre.map_toggle,
                self.acceleration == pre.acceleration,
                self.rotation_speed == pre.rotation_speed,
            decreases NUDGE_LIMIT - steps,
        {
            if steps >= NUDGE_LIMIT {
                break ;
            }
            if self.is_valid_position(&self.player.pos, map) {
                break ;
            }
            self.player.pos = Vector::new(self.player.pos.x + FP_ONE, self.player.pos.y + FP_ONE);
            steps = steps + 1;
        }
        let new_pos_x = Vector::new(self.player.pos.x + self.player.vel.x, self.player.pos.y);
        if self.is_valid_position(&new_pos_x, map) {
            self.player.pos = new_pos_x;
        }
        let new_pos_y = Vector::new(self.player.pos.x, self.player.pos.y + self.player.vel.y);
        if self.is_valid_position(&new_pos_y, map) {
            self.player.pos = new_pos_y;
        }
        self.player.vel = Vector::new(
            div_fp(4 * self.player.vel.x, 5),
            div_fp(4 * self.player.vel.y, 5),
        );
    }

    /// Apply one movement intent: thrust, strafe, or a mouse turn with its
    /// pitch change.
    pub fn change_direction(&mut self, dir: Direction)
        requires
            abs_v(old(self).player.vel.x as int) <= COORD_LIMIT,
            abs_v(old(self).player.vel.y as int) <= COORD_LIMIT,
            abs_v(old(self).player.dir.x as int) <= DIR_LIMIT,
            abs_v(old(self).player.dir.y as int) <= DIR_LIMIT,
            0 <= old(self).acceleration <= FP_ONE,
            0 <= old(self).rotation_speed <= FP_ONE,
            0 <= old(self).player.pitch <= FP_ONE,
            dir matches Direction::Mouse(r, dy) ==> abs_v(r.cos as int) <= FP_ONE && abs_v(
                r.sin as int,
            ) <= FP_ONE && abs_v(dy as int) <= COORD_LIMIT,
        ensures
            final(self).enemy == old(self).enemy,
            final(self).map_toggle == old(self).map_toggle,
            final(self).acceleration == old(self).acceleration,
            final(self).rotation_speed == old(self).rotation_speed,
            ({
                let p = old(self).player;
                let acc = old(self).acceleration as int;
                match dir {
                    Direction::Up => final(self).player == with_vel(p, thrust(p.vel, p.dir, acc, 1)),
                    Direction::Down => final(self).player == with_vel(
                        p,
                        thrust(p.vel, p.dir, acc, -1),
                    ),
                    Direction::Left => final(self).player == with_vel(
                        p,
                        thrust(p.vel, ortho_left_vec(p.dir), acc, -1),
                    ),
                    Direction::Right => final(self).player == with_vel(
                        p,
                        thrust(p.vel, ortho_right_vec(p.dir), acc, -1),
                    ),
                    Direction::Mouse(r, dy) => final(self).player == turned(
                        p,
                        r,
                        dy,
                        old(self).rotation_speed,
                    ),
                }
            }),
    {
        match dir {
            Direction::Down => {
                self.player.vel.x = self.player.vel.x - fp_mul(self.player.dir.x, self.acceleration);
                self.player.vel.y = self.player.vel.y - fp_mul(self.player.dir.y, self.acceleration);
            },
            Direction::Up => {
                self.player.vel.x = self.player.vel.x + fp_mul(self.player.dir.x, self.acceleration);
                self.player.vel.y = self.player.vel.y + fp_mul(self.player.dir.y, self.acceleration);
            },
            Direction::Left => {
                let ortho = self.player.dir.orthogonal(Direction::Left);
                self.player.vel.x = self.player.vel.x - fp_mul(ortho.x, self.acceleration);
                self.player.vel.y = self.player.vel.y - fp_mul(ortho.y, self.acceleration);
            },
            Direction::Right => {
                let ortho = self.player.dir.orthogonal(Direction::Right);
                self.player.vel.x = self.player.vel.x - fp_mul(ortho.x, self.acceleration);
                self.player.vel.y = self.player.vel.y - fp_mul(ortho.y, self.acceleration);
            },
            Direction::Mouse(r, dy) => {
                self.player.dir = self.player.dir.rotate(r);
                let new_pitch = self.player.pitch - fp_mul(dy, self.rotation_speed);
                if new_pitch > 0 && new_pitch < FP_ONE {
                    self.player.pitch = new_pitch;
                }
            },
        }
    }

    /// One endpoint of the billboard segment: the enemy position pushed 10
    /// world units along the player's left orthogonal.
    pub open spec fn billboard_p1(self) -> Vector {
        Vector {
            x: (self.enemy.pos.x + 10 * self.player.dir.y) as i64,
            y: (self.enemy.pos.y - 10 * self.player.dir.x) as i64,
        }
    }

    /// The other endpoint: 10 world units along the player's right
    /// orthogonal.
    pub open spec fn billboard_p2(self) -> Vector {
        Vector {
            x: (self.enemy.pos.x - 10 * self.player.dir.y) as i64,
            y: (self.enemy.pos.y + 10 * self.player.dir.x) as i64,
        }
    }

    /// The lexicographically lower endpoint, from which the texel offset is
    /// measured.
    pub open spec fn billboard_lower(self) -> Vector {
        if lt_lex(self.billboard_p1(), self.billboard_p2()) {
            self.billboard_p1()
        } else {
            self.billboard_p2()
        }
    }

    /// Whether `ray` falls inside the billboard segment's bounding interval
    /// on both axes.
    pub open spec fn billboard_hit(self, ray: Vector) -> bool {
        &&& between_v(ray.x as int, self.billboard_p1().x as int, self.billboard_p2().x as int)
        &&& between_v(ray.y as int, self.billboard_p1().y as int, self.billboard_p2().y as int)
    }

    /// The texel row a hit selects: the Manhattan distance from the lower
    /// endpoint in world units, capped at the row count, rounded to the
    /// nearest row and clamped to the last one.
    pub open spec fn billboard_row(self, ray: Vector) -> int {
        let least = self.billboard_lower();
        let rows = self.enemy.billboard@.len() as int;
        let d0 = abs_v(ray.x - least.x) + abs_v(ray.y - least.y);
        let d = if d0 > rows * FP_ONE {
            rows * FP_ONE
        } else {
            d0
        };
        let idx = (d + FP_ONE / 2) / (FP_ONE as int);
        if idx >= rows {
            rows - 1
        } else {
            idx
        }
    }

    /// Test a world point (usually a DDA-visited cell) against the enemy's
    /// billboard segment, returning a copy of the selected texel row on a
    /// hit. A miss, or an empty texture, yields `None`.
    pub fn billboard_intersection(&self, ray: Vector) -> (r: Option<Vec<[u8; 4]>>)
        requires
            abs_v(self.enemy.pos.x as int) <= COORD_LIMIT,
            abs_v(self.enemy.pos.y as int) <= COORD_LIMIT,
            abs_v(self.player.dir.x as int) <= DIR_LIMIT,
            abs_v(self.player.dir.y as int) <= DIR_LIMIT,
            abs_v(ray.x as int) <= 0x6000_0000,
            abs_v(ray.y as int) <= 0x6000_0000,
            self.enemy.billboard@.len() <= 4096,
        ensures
            (r is Some) == (self.billboard_hit(ray) && self.enemy.billboard@.len() > 0),
            r matches Some(row) ==> row@ == self.enemy.billboard@[self.billboard_row(ray)] && 0
                <= self.billboard_row(ray) < self.enemy.billboard@.len(),
    {
        let p1 = self.enemy.pos.add(self.player.dir.orthogonal(Direction::Left).scale(10));
        let p2 = self.enemy.pos.add(self.player.dir.orthogonal(Direction::Right).scale(10));
        if !is_between(ray.x, p1.x, p2.x) {
            return None;
        }
        if !is_between(ray.y, p1.y, p2.y) {
            return None;
        }
        let rows = self.enemy.billboard.0.len();
        if rows == 0 {
            return None;
        }
        let least = if p1.x < p2.x || (p1.x == p2.x && p1.y < p2.y) {
            p1
        } else {
            p2
        };
        let dx = if ray.x >= least.x {
            ray.x - least.x
        } else {
            least.x - ray.x
        };
        let dy = if ray.y >= least.y {
            ray.y - least.y
        } else {
            least.y - ray.y
        };
        let mut d = dx + dy;
        let cap = (rows as i64) * FP_ONE;
        if d > cap {
            d = cap;
        }
        proof {
            crate::fixed::lemma_tdiv_bound(d as int + 32768, FP_ONE as int);
        }
        let idx_i = div_fp(d + 32768, FP_ONE);
        let mut idx = idx_i as usize;
        if idx >= rows {
            idx = rows - 1;
        }
        Some(copy_row(&self.enemy.billboard.0[idx]))
    }
}

/// An element-for-element copy of a texel row.
fn copy_row(row: &Vec<[u8; 4]>) -> (r: Vec<[u8; 4]>)
    ensures
        r@ == row@,
{
    let mut out: Vec<[u8; 4]> = Vec::new();
    let mut i: usize = 0;
    while i < row.len()
        invariant
            i <= row@.len(),
            out@ =~= row@.take(i as int),
        decreases row@.len() - i,
    {
        out.push(row[i]);
        proof {
            assert(out@ =~= row@.take(i as int + 1));
        }
        i = i + 1;
    }
    proof {
        assert(out@ =~= row@);
    }
    out
}

/// Whether `n` lies between `a` and `b`, in either order.
pub open spec fn between_v(n: int, a: int, b: int) -> bool {
    (a <= n <= b) || (b <= n <= a)
}

/// Lexicographic order on vectors (x first, then y), the order the billboard
/// test uses to pick the segment's lower endpoint.
pub open spec fn lt_lex(a: Vector, b: Vector) -> bool {
    a.x < b.x || (a.x == b.x && a.y < b.y)
}

/// `p` with its velocity replaced.
pub open spec fn with_vel(p: Player, v: Vector) -> Player {
    Player { vel: v, ..p }
}

/// `p` after a mouse turn: heading rotated, pitch nudged within its open
/// interval, everything else kept.
pub open spec fn turned(p: Player, r: Rotation, dy: i64, rs: i64) -> Player {
    Player { dir: rotated_spec(p.dir, r), pitch: pitch_after(p.pitch, dy, rs), ..p }
}

/// The left orthogonal of a heading, as `Vector::orthogonal` computes it.
pub open spec fn ortho_left_vec(v: Vector) -> Vector {
    Vector { x: v.y, y: (-v.x) as i64 }
}

/// The right orthogonal of a heading, as `Vector::orthogonal` computes it.
pub open spec fn ortho_right_vec(v: Vector) -> Vector {
    Vector { x: (-v.y) as i64, y: v.x }
}

/// Each damping tick scales a velocity component's magnitude by exactly 4/5
/// (rounded toward zero), so with no input the speed decays geometrically;
/// in particular it never grows.
pub proof fn lemma_damp_contracts(vel: Vector)
    ensures
        abs_v(damp(vel).x as int) == tdiv(4 * abs_v(vel.x as int), 5),
        abs_v(damp(vel).y as int) == tdiv(4 * abs_v(vel.y as int), 5),
        abs_v(damp(vel).x as int) <= abs_v(vel.x as int),
        abs_v(damp(vel).y as int) <= abs_v(vel.y as int),
        vel.x != 0 ==> abs_v(damp(vel).x as int) < abs_v(vel.x as int),
        vel.y != 0 ==> abs_v(damp(vel).y as int) < abs_v(vel.y as int),
{
    lemma_damp_component(vel.x);
    lemma_damp_component(vel.y);
}

proof fn lemma_damp_component(v: i64)
    ensures
        abs_v(tdiv(4 * v, 5)) == tdiv(4 * abs_v(v as int), 5),
        abs_v(tdiv(4 * v, 5)) <= abs_v(v as int),
        v != 0 ==> abs_v(tdiv(4 * v, 5)) < abs_v(v as int),
{
    let a = abs_v(v as int);
    assert(4 * a >= 0);
    if v >= 0 {
        assert(4 * v == 4 * a);
    } else {
        assert(-(4 * v) == 4 * a);
    }
    assert(tdiv(4 * a, 5) == (4 * a) / 5);
    vstd::arithmetic::div_mod::lemma_div_pos_is_pos(4 * a, 5);
    if a > 0 {
        assert((4 * a) / 5 < a) by (nonlinear_arith)
            requires
                a > 0,
        ;
    } else {
        assert((4 * a) / 5 == 0) by {
            vstd::arithmetic::div_mod::lemma_basic_div(4 * a, 5);
        }
    }
}

/// With no further input the player comes to a complete stop: after at least
/// `|vel.x| + |vel.y|` damping ticks both velocity components are exactly
/// zero -- no perpetual motion.
pub proof fn lemma_velocity_vanishes(vel: Vector, n: nat)
    requires
        n >= abs_v(vel.x as int) + abs_v(vel.y as int),
    ensures
        damp_n(vel, n) == (Vector { x: 0i64, y: 0i64 }),
    decreases n,
{
    if n == 0 {
        assert(vel.x == 0 && vel.y == 0);
        assert(damp_n(vel, 0) == vel);
    } else {
        lemma_damp_contracts(vel);
        if vel.x == 0 && vel.y == 0 {
            assert(damp(vel) == (Vector { x: 0i64, y: 0i64 }));
            lemma_velocity_vanishes(damp(vel), (n - 1) as nat);
        } else {
            assert(abs_v(damp(vel).x as int) + abs_v(damp(vel).y as int) <= n - 1);
            lemma_velocity_vanishes(damp(vel), (n - 1) as nat);
        }
        assert(damp_n(vel, n) == damp_n(damp(vel), (n - 1) as nat));
    }
}

/// Wall-sliding: when the x-axis target cell is solid but the y-axis target
/// is passable, one movement tick leaves the x coordinate unchanged and
/// still commits the y move -- motion continues along the free axis.
pub proof fn lemma_wall_sliding(map: Seq<Seq<MapCell>>, pos: Vector, vel: Vector)
    requires
        !valid_pos(map, Vector { x: (pos.x + vel.x) as i64, y: pos.y }),
        valid_pos(map, Vector { x: pos.x, y: (pos.y + vel.y) as i64 }),
    ensures
        slide_y(map, slide_x(map, pos, vel), vel).x == pos.x,
        slide_y(map, slide_x(map, pos, vel), vel).y == (pos.y + vel.y) as i64,
{
}

} // verus!
