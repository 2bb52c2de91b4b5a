use raycast::fixed::FP_ONE;
use raycast::gamestate::{Billboard, Direction, GameState};
use raycast::map::{build_map, MapCell, MapCellType};
use raycast::vector::{Rotation, Vector};
use raycast::DEFAULT_ACCELERATION;

fn wall(r: u8, g: u8, b: u8) -> MapCell {
    MapCell::new([r, g, b, 255], MapCellType::Wall, 0)
}

/// A 3x3 grid with walls on the border and the center cell empty.
fn boxed_room() -> Vec<Vec<MapCell>> {
    let w = wall(200, 200, 200);
    vec![
        vec![w, w, w],
        vec![w, MapCell::empty(), w],
        vec![w, w, w],
    ]
}

#[test]
fn classification_by_alpha() {
    let rows = vec![vec![[10, 20, 30, 255], [0, 0, 0, 0], [9, 9, 9, 200]]];
    let map = build_map(&rows);
    assert_eq!(map.len(), 1);
    assert_eq!(map[0].len(), 3);
    assert_eq!(map[0][0].solid, MapCellType::Wall);
    assert_eq!(map[0][0].color, [10, 20, 30, 255]);
    assert_eq!(map[0][1].solid, MapCellType::Empty);
    assert_eq!(map[0][2].solid, MapCellType::Empty);
    assert_eq!(map[0][2].color, [9, 9, 9, 200]);
    assert_eq!(map[0][0].height, 0);
}

#[test]
fn map_cell_empty_is_transparent_and_passable() {
    let c = MapCell::empty();
    assert_eq!(c.color, [0, 0, 0, 0]);
    assert_eq!(c.solid, MapCellType::Empty);
    assert_eq!(c.height, 0);
}

#[test]
fn building_the_same_image_twice_gives_identical_grids() {
    let rows = vec![
        vec![[1, 2, 3, 255], [4, 5, 6, 0]],
        vec![[7, 8, 9, 254], [10, 11, 12, 255]],
    ];
    let a = build_map(&rows);
    let b = build_map(&rows);
    assert_eq!(a, b);
}

#[test]
fn new_game_state_defaults() {
    let gs = GameState::new();
    assert_eq!(gs.player.pos, Vector::new(0, 0));
    assert_eq!(gs.player.dir, Vector::new(FP_ONE, 0));
    assert_eq!(gs.player.vel, Vector::new(0, 0));
    assert_eq!(gs.player.pitch, FP_ONE / 2);
    assert!(gs.map_toggle);
    assert_eq!(gs.acceleration, DEFAULT_ACCELERATION);
    assert_eq!(gs.rotation_speed, 66);
    assert_eq!(gs.enemy.pos, Vector::new(10137161, 4070599));
    assert_eq!(gs.enemy.billboard.rows(), 0);
    assert!(!gs.enemy.line_of_sight);
}

#[test]
fn thrust_forward_and_back() {
    let mut gs = GameState::new();
    gs.change_direction(Direction::Up);
    assert_eq!(gs.player.vel, Vector::new(DEFAULT_ACCELERATION, 0));
    gs.change_direction(Direction::Down);
    assert_eq!(gs.player.vel, Vector::new(0, 0));
}

#[test]
fn strafing_uses_the_orthogonals() {
    let mut gs = GameState::new();
    gs.change_direction(Direction::Left);
    // left orthogonal of (1, 0) is (0, -1); velocity moves opposite to it
    assert_eq!(gs.player.vel, Vector::new(0, DEFAULT_ACCELERATION));
    gs.change_direction(Direction::Right);
    assert_eq!(gs.player.vel, Vector::new(0, 0));
}

#[test]
fn mouse_turn_rotates_heading() {
    let mut gs = GameState::new();
    gs.change_direction(Direction::Mouse(Rotation { cos: 0, sin: FP_ONE }, 0));
    assert_eq!(gs.player.dir, Vector::new(0, FP_ONE));
    assert_eq!(gs.player.pitch, FP_ONE / 2);
}

#[test]
fn pitch_update_and_rejection() {
    let mut gs = GameState::new();
    // one world unit of vertical mouse travel moves pitch by rotation_speed
    gs.change_direction(Direction::Mouse(Rotation { cos: FP_ONE, sin: 0 }, FP_ONE));
    assert_eq!(gs.player.pitch, FP_ONE / 2 - 66);
    // a huge delta would leave (0, 1): the pitch must stay as it was
    gs.change_direction(Direction::Mouse(Rotation { cos: FP_ONE, sin: 0 }, 1 << 29));
    assert_eq!(gs.player.pitch, FP_ONE / 2 - 66);
}

#[test]
fn blocked_on_both_axes_stays_put_and_damps() {
    let mut gs = GameState::new();
    gs.player.pos = Vector::new(98304, 98304);  // (1.5, 1.5)
    gs.player.vel = Vector::new(FP_ONE / 2, 0);
    let map = boxed_room();
    gs.update_positions(&map);
    assert_eq!(gs.player.pos, Vector::new(98304, 98304));
    assert_eq!(gs.player.vel, Vector::new(26214, 0));  // 32768 * 4 / 5
}

#[test]
fn wall_sliding_moves_along_the_free_axis() {
    // x is blocked by a wall, y stays inside the empty column
    let w = wall(9, 9, 9);
    let e = MapCell::empty();
    let map = vec![
        vec![w, w, w],
        vec![w, e, w],
        vec![w, e, w],
        vec![w, w, w],
    ];
    let mut gs = GameState::new();
    gs.player.pos = Vector::new(98304, 98304);  // (1.5, 1.5)
    gs.player.vel = Vector::new(FP_ONE, FP_ONE);  // into the x wall, down in y
    gs.update_positions(&map);
    assert_eq!(gs.player.pos.x, 98304);  // x unchanged
    assert_eq!(gs.player.pos.y, 98304 + FP_ONE);  // y committed
}

#[test]
fn spawn_recovery_nudges_to_a_passable_cell() {
    let w = wall(1, 1, 1);
    let e = MapCell::empty();
    let map = vec![vec![w, w], vec![w, e]];
    let mut gs = GameState::new();
    gs.player.pos = Vector::new(32768, 32768);  // (0.5, 0.5), inside a wall
    gs.update_positions(&map);
    assert_eq!(gs.player.pos, Vector::new(98304, 98304));  // (1.5, 1.5)
}

#[test]
fn velocity_decays_to_exactly_zero() {
    let mut gs = GameState::new();
    gs.player.pos = Vector::new(98304, 98304);
    gs.player.vel = Vector::new(FP_ONE, -FP_ONE);
    let map = boxed_room();
    let mut mag = FP_ONE;
    for _ in 0..100 {
        gs.update_positions(&map);
        // each tick shrinks the magnitude to 4/5, rounded toward zero
        mag = 4 * mag / 5;
        assert_eq!(gs.player.vel.x, mag);
        assert_eq!(gs.player.vel.y, -mag);
    }
    assert_eq!(gs.player.vel, Vector::new(0, 0));
}

fn billboard_of(rows: usize) -> Billboard {
    let mut data: Vec<Vec<[u8; 4]>> = Vec::new();
    for i in 0..rows {
        data.push(vec![[i as u8, 0, 0, 255]; 4]);
    }
    Billboard::new(data)
}

#[test]
fn billboard_center_cell_selects_the_middle_row() {
    let mut gs = GameState::new();
    gs.enemy.pos = Vector::new(5 * FP_ONE, 5 * FP_ONE);
    gs.enemy.billboard = billboard_of(16);
    // heading (1, 0): the segment runs from (5, -5) to (5, 15)
    let row = gs.billboard_intersection(Vector::new(5 * FP_ONE, 5 * FP_ONE));
    let row = row.expect("the center cell lies on the segment");
    assert_eq!(row[0], [10, 0, 0, 255]);  // Manhattan distance 10 from (5, -5)
}

#[test]
fn billboard_lower_endpoint_selects_row_zero() {
    let mut gs = GameState::new();
    gs.enemy.pos = Vector::new(5 * FP_ONE, 5 * FP_ONE);
    gs.enemy.billboard = billboard_of(16);
    let row = gs.billboard_intersection(Vector::new(5 * FP_ONE, -5 * FP_ONE));
    let row = row.expect("the lower endpoint lies on the segment");
    assert_eq!(row[0], [0, 0, 0, 255]);
}

#[test]
fn billboard_miss_and_empty_texture_give_nothing() {
    let mut gs = GameState::new();
    gs.enemy.pos = Vector::new(5 * FP_ONE, 5 * FP_ONE);
    gs.enemy.billboard = billboard_of(16);
    assert!(gs.billboard_intersection(Vector::new(100 * FP_ONE, 5 * FP_ONE)).is_none());
    gs.enemy.billboard = Billboard::new(Vec::new());
    assert!(gs.billboard_intersection(Vector::new(5 * FP_ONE, 5 * FP_ONE)).is_none());
}

#[test]
fn billboard_rows_counts_texel_rows() {
    assert_eq!(billboard_of(7).rows(), 7);
}

#[test]
fn default_player_faces_east_at_rest() {
    let p = raycast::gamestate::Player::default();
    assert_eq!(p.pos, Vector::new(0, 0));
    assert_eq!(p.dir, Vector::new(FP_ONE, 0));
    assert_eq!(p.vel, Vector::new(0, 0));
    assert_eq!(p.pitch, FP_ONE / 2);
}

#[test]
fn default_enemy_stalks_with_an_empty_sprite() {
    let e = raycast::gamestate::Enemy::default();
    assert_eq!(e.state, raycast::gamestate::EnemyState::Stalking);
    assert_eq!(e.billboard.rows(), 0);
    assert_eq!(e.dir, Vector::new(FP_ONE, 0));
    assert!(!e.line_of_sight);
}

#[test]
fn update_positions_touches_only_the_player() {
    let mut gs = GameState::new();
    gs.player.pos = Vector::new(98304, 98304);
    gs.player.vel = Vector::new(1000, 0);
    let enemy_pos = gs.enemy.pos;
    let map = boxed_room();
    gs.update_positions(&map);
    assert_eq!(gs.enemy.pos, enemy_pos);
    assert!(gs.map_toggle);
    assert_eq!(gs.rotation_speed, 66);
}
