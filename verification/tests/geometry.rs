use raycast::fixed::{div_fp, div_signed, floor_div, fp_mul, FP_ONE};
use raycast::gamestate::Direction;
use raycast::vector::{Rotation, Vector};

#[test]
fn vector_new_holds_components() {
    let v = Vector::new(3, -7);
    assert_eq!(v.x, 3);
    assert_eq!(v.y, -7);
}

#[test]
fn vector_add_and_sub() {
    let a = Vector::new(10, 20);
    let b = Vector::new(-3, 5);
    let s = a.add(b);
    assert_eq!(s.x, 7);
    assert_eq!(s.y, 25);
    let d = a.sub(b);
    assert_eq!(d.x, 13);
    assert_eq!(d.y, 15);
}

#[test]
fn vector_scale_and_dot() {
    let v = Vector::new(3, -4);
    let w = v.scale(10);
    assert_eq!(w.x, 30);
    assert_eq!(w.y, -40);
    let d = Vector::new(2, 3).dot(Vector::new(4, 5));
    assert_eq!(d, 23);
}

#[test]
fn rotate_by_zero_angle_is_identity() {
    let v = Vector::new(FP_ONE, 0);
    let r = v.rotate(Rotation { cos: FP_ONE, sin: 0 });
    assert_eq!(r.x, FP_ONE);
    assert_eq!(r.y, 0);
}

#[test]
fn rotate_quarter_turn() {
    let v = Vector::new(FP_ONE, 0);
    let r = v.rotate(Rotation { cos: 0, sin: FP_ONE });
    assert_eq!(r.x, 0);
    assert_eq!(r.y, FP_ONE);
}

#[test]
fn rotate_preserves_length_for_exact_quarter_turns() {
    // |rotate(v, r)| == |v| for the rotations whose cosine/sine pair is
    // exact in fixed point.
    let v = Vector::new(3 * FP_ONE, 4 * FP_ONE);
    let len2 = (v.x as i128) * (v.x as i128) + (v.y as i128) * (v.y as i128);
    for r in [
        Rotation { cos: FP_ONE, sin: 0 },
        Rotation { cos: 0, sin: FP_ONE },
        Rotation { cos: -FP_ONE, sin: 0 },
        Rotation { cos: 0, sin: -FP_ONE },
    ] {
        let w = v.rotate(r);
        let wl = (w.x as i128) * (w.x as i128) + (w.y as i128) * (w.y as i128);
        assert_eq!(wl, len2);
    }
}

#[test]
fn orthogonals_are_perpendicular_and_antiparallel() {
    let v = Vector::new(5 * FP_ONE, 7 * FP_ONE);
    let l = v.orthogonal(Direction::Left);
    let r = v.orthogonal(Direction::Right);
    assert_eq!(v.dot(l), 0);
    assert_eq!(v.dot(r), 0);
    assert_eq!(l.x, -r.x);
    assert_eq!(l.y, -r.y);
    assert_eq!(l.x, v.y);
    assert_eq!(l.y, -v.x);
}

#[test]
fn division_rounds_toward_zero() {
    assert_eq!(div_fp(7, 2), 3);
    assert_eq!(div_fp(-7, 2), -3);
    assert_eq!(div_signed(7, -2), -3);
    assert_eq!(div_signed(-7, -2), 3);
}

#[test]
fn floor_division_rounds_down() {
    assert_eq!(floor_div(7, 2), 3);
    assert_eq!(floor_div(-7, 2), -4);
    assert_eq!(floor_div(-65536, 65536), -1);
    assert_eq!(floor_div(-1, 65536), -1);
    assert_eq!(floor_div(65535, 65536), 0);
}

#[test]
fn fixed_point_products() {
    let one_and_half = FP_ONE + FP_ONE / 2;
    let two = 2 * FP_ONE;
    assert_eq!(fp_mul(one_and_half, two), 3 * FP_ONE);
    assert_eq!(fp_mul(-one_and_half, two), -3 * FP_ONE);
    assert_eq!(fp_mul(FP_ONE / 2, FP_ONE / 2), FP_ONE / 4);
}

#[test]
fn vector_add_assign_accumulates() {
    let mut v = Vector::new(1, 2);
    v.add_assign(Vector::new(10, 20));
    assert_eq!(v.x, 11);
    assert_eq!(v.y, 22);
}

#[test]
fn vector_fixed_point_scaling() {
    // scaling by 0.5 in fixed point halves both components
    let v = Vector::new(10 * FP_ONE, -6 * FP_ONE);
    let w = v.mul_fp(FP_ONE / 2);
    assert_eq!(w.x, 5 * FP_ONE);
    assert_eq!(w.y, -3 * FP_ONE);
}
