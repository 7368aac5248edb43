use sierpinsky::affine::{sierpinsky_transforms, Affine};
use sierpinsky::lsfr64::LSFR64;
use sierpinsky::util::{point_to_linear_index, to_range, Point, UNIT};

// Range values below count thousandths: 2800 stands for 2.8.

#[test]
fn test_converts_to_new_range() {
    let converted10 = to_range(100, 0, 1000, 2000, 10000);
    let converted50 = to_range(500, 0, 1000, 2000, 10000);
    let converted80 = to_range(800, 0, 1000, 2000, 10000);

    assert_eq!(converted10, 2800);
    assert_eq!(converted50, 6000);
    assert_eq!(converted80, 8400);
}

#[test]
fn test_out_of_bounds_when_convertingto_new_range() {
    let converted_sup = to_range(1100, 0, 1000, 2000, 10000);
    let converted_inf = to_range(-100, 0, 1000, 2000, 10000);

    assert_eq!(converted_sup, 10000);
    assert_eq!(converted_inf, 2000);
}

#[test]
fn test_converts_point_to_lin_index() {
    let point = Point { x: UNIT / 2, y: UNIT / 2 };
    let index = point_to_linear_index(&point, 100, 200);
    assert_eq!(index, 9949);
}

#[test]
fn test_out_of_bounds_when_point_to_lin_index() {
    let point = Point { x: UNIT / 10 * 11, y: -UNIT };
    let index = point_to_linear_index(&point, 100, 200);
    assert_eq!(index, 99);
}

#[test]
fn to_range_rounds_down_and_handles_negative_ranges() {
    assert_eq!(to_range(1, 0, 3, 0, 10), 3);
    assert_eq!(to_range(2, 0, 3, 0, 10), 6);
    assert_eq!(to_range(5, 0, 10, -10, 10), 0);
    assert_eq!(to_range(i32::MIN, -5, 5, i32::MIN, i32::MAX), i32::MIN);
    assert_eq!(to_range(i32::MAX, -5, 5, i32::MIN, i32::MAX), i32::MAX);
}

#[test]
fn point_index_stays_in_buffer_for_extreme_points() {
    for &(w, h) in &[(1u16, 1u16), (3, 7), (256, 512), (65535, 65535)] {
        for &x in &[i32::MIN, -1, 0, UNIT / 3, UNIT - 1, UNIT, i32::MAX] {
            for &y in &[i32::MIN, 0, UNIT / 2, UNIT, i32::MAX] {
                let index = point_to_linear_index(&Point { x, y }, w, h);
                assert!(index < w as usize * h as usize);
            }
        }
    }
    let last = point_to_linear_index(&Point { x: UNIT, y: UNIT }, 100, 200);
    assert_eq!(last, 19999);
    let first = point_to_linear_index(&Point { x: 0, y: 0 }, 100, 200);
    assert_eq!(first, 0);
}

#[test]
fn generator_replaces_zero_seed_and_is_deterministic() {
    let mut zero = LSFR64::new(0);
    let first = zero.next();
    assert_ne!(first, 0);

    let mut a = LSFR64::new(12345);
    let mut b = LSFR64::new(12345);
    for _ in 0..100 {
        assert_eq!(a.next(), b.next());
    }

    let mut one = LSFR64::new(1);
    let x: u64 = 1;
    let x = x ^ (x << 13);
    let x = x ^ (x >> 7);
    let x = x ^ (x << 17);
    assert_eq!(one.next(), x);
}

#[test]
fn generator_stays_in_range() {
    let mut g = LSFR64::new(99);
    let mut seen = [false; 3];
    for _ in 0..1000 {
        let v = g.gen_in_range(0, 2);
        assert!(v <= 2);
        seen[v as usize] = true;
    }
    assert!(seen.iter().all(|&s| s));
    for _ in 0..100 {
        let v = g.gen_in_range(10, 12);
        assert!((10..=12).contains(&v));
    }
    assert_eq!(g.gen_in_range(7, 7), 7);
    let mut h = LSFR64::new(5);
    let mut k = LSFR64::new(5);
    assert_eq!(h.gen_in_range(0, u64::MAX), k.next());
}

#[test]
fn affine_maps_halve_toward_their_corner() {
    let t = sierpinsky_transforms();
    let p = Point { x: UNIT, y: UNIT / 2 };
    assert_eq!(t[0].apply(&p), Point { x: UNIT / 2, y: UNIT / 4 });
    assert_eq!(t[1].apply(&p), Point { x: UNIT, y: UNIT / 4 });
    assert_eq!(t[2].apply(&p), Point { x: UNIT / 2, y: UNIT / 4 * 3 });
    let odd = Point { x: 3, y: 1 };
    assert_eq!(t[0].apply(&odd), Point { x: 1, y: 0 });
    let m = Affine { xx: UNIT / 4, xy: UNIT / 4, x0: 0, yx: 0, yy: 0, y0: UNIT };
    assert_eq!(m.apply(&Point { x: UNIT, y: UNIT }), Point { x: UNIT / 2, y: UNIT });
}
