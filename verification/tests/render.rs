use raycast::fixed::FP_ONE;
use raycast::framebuffer::{filled_rectangle, is_between, set_pixel, verline};
use raycast::gamestate::GameState;
use raycast::map::{MapCell, MapCellType};
use raycast::raycaster::{
    billboard_height, cast_ray, column_height, distance_squared, fog_channel, root10, shear_of,
    RayCaster,
};
use raycast::vector::{Rotation, Vector};
use raycast::{HEIGHT, WIDTH};

fn wall(r: u8, g: u8, b: u8) -> MapCell {
    MapCell::new([r, g, b, 255], MapCellType::Wall, 0)
}

fn boxed_room() -> Vec<Vec<MapCell>> {
    let w = wall(200, 100, 50);
    vec![
        vec![w, w, w],
        vec![w, MapCell::empty(), w],
        vec![w, w, w],
    ]
}

fn byte_index(x: usize, y: usize) -> usize {
    (y * WIDTH + x) * 4
}

#[test]
fn is_between_accepts_either_order() {
    assert!(is_between(3, 1, 5));
    assert!(is_between(3, 5, 1));
    assert!(is_between(5, 5, 1));
    assert!(!is_between(0, 1, 5));
    assert!(!is_between(6, 5, 1));
}

#[test]
fn set_pixel_writes_one_rgba_block() {
    let mut frame = vec![0u8; 40000];
    set_pixel(&mut frame, 3, 2, [1, 2, 3, 4], 1);
    let i = byte_index(3, 2);
    assert_eq!(&frame[i..i + 4], &[1, 2, 3, 4]);
    assert_eq!(frame[i - 1], 0);
    assert_eq!(frame[i + 4], 0);
}

#[test]
fn set_pixel_off_screen_or_out_of_buffer_is_ignored() {
    let mut frame = vec![7u8; 100];
    set_pixel(&mut frame, WIDTH, 0, [1, 2, 3, 4], 1);
    set_pixel(&mut frame, 0, HEIGHT, [1, 2, 3, 4], 1);
    set_pixel(&mut frame, 100, 0, [1, 2, 3, 4], 1);  // past the buffer end
    assert!(frame.iter().all(|&b| b == 7));
}

#[test]
fn verline_fills_an_inclusive_row_range() {
    let mut frame = vec![0u8; 8 * WIDTH * 4];
    verline(&mut frame, 5, 2, 4, [9, 9, 9, 9], 1);
    for y in 2..=4 {
        let i = byte_index(5, y);
        assert_eq!(&frame[i..i + 4], &[9, 9, 9, 9]);
    }
    assert_eq!(frame[byte_index(5, 1)], 0);
    assert_eq!(frame[byte_index(5, 5)], 0);
    assert_eq!(frame[byte_index(4, 3)], 0);
}

#[test]
fn filled_rectangle_covers_the_box() {
    let mut frame = vec![0u8; 8 * WIDTH * 4];
    filled_rectangle(&mut frame, 1, 1, 3, 2, [5, 6, 7, 8], 1);
    for y in 1..=2 {
        for x in 1..=3 {
            let i = byte_index(x, y);
            assert_eq!(&frame[i..i + 4], &[5, 6, 7, 8]);
        }
    }
    assert_eq!(frame[byte_index(0, 1)], 0);
    assert_eq!(frame[byte_index(4, 1)], 0);
    assert_eq!(frame[byte_index(1, 3)], 0);
}

#[test]
fn line_draws_a_diagonal() {
    let mut frame = vec![0u8; 8 * WIDTH * 4];
    raycast::framebuffer::line(&mut frame, 0, 0, 3, 3, [1, 1, 1, 1], 1);
    for t in 0..=3 {
        let i = byte_index(t, t);
        assert_eq!(&frame[i..i + 4], &[1, 1, 1, 1]);
    }
    assert_eq!(frame[byte_index(1, 0)], 0);
}

#[test]
fn line_draws_horizontals_and_verticals() {
    let mut frame = vec![0u8; 8 * WIDTH * 4];
    raycast::framebuffer::line(&mut frame, 0, 2, 4, 2, [2, 2, 2, 2], 1);
    for x in 0..=4 {
        let i = byte_index(x, 2);
        assert_eq!(&frame[i..i + 4], &[2, 2, 2, 2]);
    }
    let mut frame2 = vec![0u8; 8 * WIDTH * 4];
    raycast::framebuffer::line(&mut frame2, 3, 1, 3, 4, [3, 3, 3, 3], 1);
    for y in 1..=4 {
        let i = byte_index(3, y);
        assert_eq!(&frame2[i..i + 4], &[3, 3, 3, 3]);
    }
}

#[test]
fn center_ray_reports_half_cell_distance() {
    // player at (1.5, 1.5) facing +x in a walled 3x3 room: the wall face of
    // cell (2, 1) stands half a unit away
    let map = boxed_room();
    let pos = Vector::new(98304, 98304);
    let dir = Vector::new(FP_ONE, 0);
    let (hit, visited) = cast_ray(&map, pos, dir);
    let h = hit.expect("the ray must hit the east wall");
    assert_eq!(h.cell_x, 2);
    assert_eq!(h.cell_y, 1);
    assert_eq!(h.side, 0);
    assert_eq!(h.dist, FP_ONE / 2);
    assert_eq!(visited, vec![(2, 1)]);
}

#[test]
fn rays_hit_every_wall_of_the_room() {
    let map = boxed_room();
    let pos = Vector::new(98304, 98304);
    let west = cast_ray(&map, pos, Vector::new(-FP_ONE, 0)).0.unwrap();
    assert_eq!((west.cell_x, west.cell_y, west.side), (0, 1, 0));
    assert_eq!(west.dist, FP_ONE / 2);
    let south = cast_ray(&map, pos, Vector::new(0, FP_ONE)).0.unwrap();
    assert_eq!((south.cell_x, south.cell_y, south.side), (1, 2, 1));
    assert_eq!(south.dist, FP_ONE / 2);
    let north = cast_ray(&map, pos, Vector::new(0, -FP_ONE)).0.unwrap();
    assert_eq!((north.cell_x, north.cell_y, north.side), (1, 0, 1));
    assert_eq!(north.dist, FP_ONE / 2);
}

#[test]
fn ray_leaving_the_grid_reports_no_hit() {
    let e = MapCell::empty();
    let map = vec![vec![e, e, e], vec![e, e, e], vec![e, e, e]];
    let (hit, visited) = cast_ray(&map, Vector::new(98304, 98304), Vector::new(FP_ONE, 0));
    assert!(hit.is_none());
    assert_eq!(visited, vec![(2, 1), (3, 1)]);
}

#[test]
fn distance_squared_is_exact() {
    let d = distance_squared(Vector::new(0, 0), Vector::new(3 * FP_ONE, 4 * FP_ONE));
    assert_eq!(d, 25 * FP_ONE * FP_ONE);
    assert_eq!(distance_squared(Vector::new(5, 5), Vector::new(5, 5)), 0);
}

#[test]
fn column_height_follows_the_projection() {
    // a wall 100 units away: 15 * 1080 / 100 = 162 pixels
    assert_eq!(column_height(100 * FP_ONE), 162);
    // at one unit the column saturates at the screen height
    assert_eq!(column_height(FP_ONE), HEIGHT);
    assert_eq!(column_height(0), HEIGHT);
}

#[test]
fn column_height_grows_as_walls_come_nearer() {
    let mut last = 0;
    for d in [400, 200, 100, 50, 25, 12, 6, 3, 1] {
        let h = column_height(d * FP_ONE);
        assert!(h >= last);
        assert!(h <= HEIGHT);
        last = h;
    }
}

#[test]
fn shear_is_pitch_times_half_screen() {
    assert_eq!(shear_of(FP_ONE / 2), 270);
    assert_eq!(shear_of(0), 0);
    assert_eq!(shear_of(FP_ONE), 540);
}

#[test]
fn fog_leaves_near_colors_and_dims_far_ones() {
    assert_eq!(fog_channel(255, 0, 0), 255);
    // 100 world units: q2 = 10000, so the channel halves
    assert_eq!(fog_channel(200, 100 * FP_ONE, 0), 100);
    // shear alone: denominator 10000 + 20 * 500 = 20000
    assert_eq!(fog_channel(200, 0, 500), 100);
}

#[test]
fn billboard_height_follows_the_sprite_projection() {
    // squared distance 1000 (world^2): 100000 / 1000 = 100 pixels
    assert_eq!(billboard_height(1000 * FP_ONE * FP_ONE), 100);
    assert_eq!(billboard_height(0), HEIGHT);
    assert_eq!(billboard_height(1), HEIGHT);
}

#[test]
fn tenth_roots_are_exact() {
    assert_eq!(root10(0), 0);
    assert_eq!(root10(1), 1);
    assert_eq!(root10(1023), 1);
    assert_eq!(root10(1024), 2);
    assert_eq!(root10(59048), 2);  // 3^10 - 1
    assert_eq!(root10(59049), 3);
    assert_eq!(root10(1u128 << 70), 128);
}

fn forward_rotations() -> Vec<Rotation> {
    vec![Rotation { cos: FP_ONE, sin: 0 }; WIDTH]
}

#[test]
fn perspective_frame_paints_the_wall_column() {
    let rc = RayCaster::new(boxed_room(), 60 * FP_ONE, forward_rotations());
    let mut gs = GameState::new();
    gs.map_toggle = false;
    gs.player.pos = Vector::new(98304, 98304);
    let mut frame = vec![0u8; WIDTH * HEIGHT * 4];
    assert!(rc.draw(&mut frame, &gs).is_ok());
    assert_eq!(frame.len(), WIDTH * HEIGHT * 4);
    // the wall at distance 0.5 fills the whole sheared column: rows
    // 270..=1079 of every column carry the fogged wall color
    // (fog at 0.5 units with shear 270: channel * 10000 / 15400)
    let expected = [
        (200u32 * 10000 / 15400) as u8,
        (100u32 * 10000 / 15400) as u8,
        (50u32 * 10000 / 15400) as u8,
        (255u32 * 10000 / 15400) as u8,
    ];
    let i = byte_index(0, 500);
    assert_eq!(&frame[i..i + 4], &expected);
    let j = byte_index(WIDTH - 1, 1000);
    assert_eq!(&frame[j..j + 4], &expected);
    // above the sheared column start the background is untouched
    assert_eq!(frame[byte_index(0, 100)], 0);
}

#[test]
fn overlay_frame_marks_player_and_heading() {
    let rc = RayCaster::new(boxed_room(), 60 * FP_ONE, forward_rotations());
    let mut gs = GameState::new();
    gs.map_toggle = true;
    gs.player.pos = Vector::new(98304, 98304);
    gs.enemy.pos = Vector::new(2 * FP_ONE, FP_ONE);
    let mut frame = vec![0u8; WIDTH * HEIGHT * 4];
    assert!(rc.draw(&mut frame, &gs).is_ok());
    // the heading line runs from the player cell (1, 1) ten cells along +x
    // and is drawn over the player marker
    let i = byte_index(1, 1);
    assert_eq!(&frame[i..i + 4], &[255, 0, 0, 255]);
    let j = byte_index(6, 1);
    assert_eq!(&frame[j..j + 4], &[255, 0, 0, 255]);
}

#[test]
fn set_pixel_scale_two_paints_a_block() {
    let mut frame = vec![0u8; 8 * WIDTH * 4];
    set_pixel(&mut frame, 1, 0, [4, 4, 4, 4], 2);
    for y in 0..=1 {
        for x in 2..=3 {
            let i = byte_index(x, y);
            assert_eq!(&frame[i..i + 4], &[4, 4, 4, 4]);
        }
    }
    assert_eq!(frame[byte_index(1, 0)], 0);
    assert_eq!(frame[byte_index(4, 0)], 0);
}

#[test]
fn strip_paints_one_texel_per_row() {
    let mut frame = vec![0u8; 8 * WIDTH * 4];
    let col = vec![[1, 0, 0, 255], [2, 0, 0, 255], [3, 0, 0, 255]];
    raycast::framebuffer::draw_strip(&mut frame, 7, 2, &col);
    for (t, texel) in col.iter().enumerate() {
        let i = byte_index(7, 2 + t);
        assert_eq!(&frame[i..i + 4], texel);
    }
    assert_eq!(frame[byte_index(7, 1)], 0);
    assert_eq!(frame[byte_index(7, 5)], 0);
    assert_eq!(frame[byte_index(6, 3)], 0);
}

#[test]
fn draw_leaves_bytes_past_the_screen_area_untouched() {
    let rc = RayCaster::new(boxed_room(), 60 * FP_ONE, forward_rotations());
    let mut gs = GameState::new();
    gs.map_toggle = false;
    gs.player.pos = Vector::new(98304, 98304);
    let mut frame = vec![9u8; WIDTH * HEIGHT * 4 + 64];
    assert!(rc.draw(&mut frame, &gs).is_ok());
    for k in (WIDTH * HEIGHT * 4)..frame.len() {
        assert_eq!(frame[k], 9);
    }
}
