use sdf_triangle::vertex::{main_vs, ClipPosition};

fn pos(x: i32, y: i32) -> ClipPosition {
    ClipPosition { x, y, z: 0, w: 1 }
}

#[test]
fn corners_of_the_three_invocations() {
    assert_eq!(main_vs(0), pos(-1, -1));
    assert_eq!(main_vs(1), pos(3, -1));
    assert_eq!(main_vs(2), pos(-1, 3));
}

#[test]
fn triangle_covers_the_clip_square() {
    let c: Vec<ClipPosition> = (0..3).map(main_vs).collect();
    // every corner of [-1, 1] x [-1, 1] lies on the inner side of each edge
    for &(px, py) in &[(-1, -1), (1, -1), (-1, 1), (1, 1), (0, 0)] {
        for k in 0..3 {
            let a = c[k];
            let b = c[(k + 1) % 3];
            let side = (b.x - a.x) * (py - a.y) - (b.y - a.y) * (px - a.x);
            assert!(side >= 0, "point ({}, {}) outside edge {}", px, py, k);
        }
    }
    assert!(c.iter().any(|p| p.x > 1));
    assert!(c.iter().any(|p| p.y > 1));
}

#[test]
fn index_bits_pick_the_coordinates() {
    assert_eq!(main_vs(3), pos(3, 3));
    assert_eq!(main_vs(4), pos(-1, -1));
    assert_eq!(main_vs(-1), pos(3, 3));
}
