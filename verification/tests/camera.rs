use ocean_fft::camera::{is_diagonal, move_vector, MoveKeys, Step};

fn keys(forward: bool, left: bool, back: bool, right: bool, up: bool, down: bool) -> MoveKeys {
    MoveKeys { forward, left, back, right, up, down }
}

#[test]
fn no_key_is_no_step() {
    assert_eq!(
        move_vector(keys(false, false, false, false, false, false)),
        Step { x: 0, y: 0, z: 0 }
    );
}

#[test]
fn each_key_is_a_unit_step() {
    assert_eq!(move_vector(keys(true, false, false, false, false, false)), Step { x: 0, y: 0, z: -1 });
    assert_eq!(move_vector(keys(false, true, false, false, false, false)), Step { x: -1, y: 0, z: 0 });
    assert_eq!(move_vector(keys(false, false, true, false, false, false)), Step { x: 0, y: 0, z: 1 });
    assert_eq!(move_vector(keys(false, false, false, true, false, false)), Step { x: 1, y: 0, z: 0 });
    assert_eq!(move_vector(keys(false, false, false, false, true, false)), Step { x: 0, y: 1, z: 0 });
    assert_eq!(move_vector(keys(false, false, false, false, false, true)), Step { x: 0, y: -1, z: 0 });
}

#[test]
fn opposite_keys_cancel() {
    assert_eq!(move_vector(keys(true, false, true, false, false, false)), Step { x: 0, y: 0, z: 0 });
    assert_eq!(move_vector(keys(true, true, true, true, true, true)), Step { x: 0, y: 0, z: 0 });
    assert_eq!(move_vector(keys(true, true, false, true, true, false)), Step { x: 0, y: 1, z: -1 });
}

#[test]
fn steps_along_several_axes_are_diagonal() {
    assert!(!is_diagonal(Step { x: 0, y: 0, z: 0 }));
    assert!(!is_diagonal(Step { x: 1, y: 0, z: 0 }));
    assert!(!is_diagonal(Step { x: 0, y: -1, z: 0 }));
    assert!(!is_diagonal(Step { x: 0, y: 0, z: 1 }));
    assert!(is_diagonal(Step { x: 1, y: 1, z: 0 }));
    assert!(is_diagonal(Step { x: 1, y: 0, z: -1 }));
    assert!(is_diagonal(Step { x: -1, y: 1, z: 1 }));
    assert!(is_diagonal(Step { x: 2, y: 0, z: 0 }));
    assert!(is_diagonal(Step { x: 0, y: 0, z: i32::MIN }));
    assert!(is_diagonal(Step { x: i32::MAX, y: i32::MAX, z: i32::MAX }));
}

#[test]
fn diagonal_is_a_length_above_one() {
    for bits in 0..64u32 {
        let step = move_vector(keys(
            bits & 1 != 0,
            bits & 2 != 0,
            bits & 4 != 0,
            bits & 8 != 0,
            bits & 16 != 0,
            bits & 32 != 0,
        ));
        let length = ((step.x * step.x + step.y * step.y + step.z * step.z) as f32).sqrt();
        assert_eq!(is_diagonal(step), length > 1.0);
    }
}
