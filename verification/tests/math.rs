use nablo_ui::math::color::{color, rgba, vec4, Color};
use nablo_ui::math::rect::{rect, rect_ltrb, Rect};
use nablo_ui::math::transform2d::Transform2D;
use nablo_ui::math::vec2::{saturating, saturating_wide, vec2, Vec2};

#[test]
fn test_mul() {
    let lhs = Transform2D::column_major(1, 2, 3, 4, 5, 6);
    let rhs = Transform2D::column_major(7, 8, 9, 10, 11, 12);
    let vec = Vec2::new(7, 8);
    let expected_l = Transform2D::column_major(27, 30, 36, 78, 87, 102);
    let expected_r = Transform2D::column_major(39, 54, 78, 54, 75, 108);
    assert_eq!(lhs >> rhs, expected_l);
    assert_eq!(lhs << rhs, expected_r);
    assert_eq!(lhs >> vec, Vec2::new(26, 74));
}

#[test]
fn arithmetic_saturates() {
    assert_eq!(saturating(i64::MAX), i32::MAX);
    assert_eq!(saturating(i64::MIN), i32::MIN);
    assert_eq!(saturating(-5), -5);
    assert_eq!(saturating_wide(i128::MAX), i32::MAX);
    assert_eq!(Vec2::new(i32::MAX, 1).plus(Vec2::new(1, 1)), Vec2::new(i32::MAX, 2));
    assert_eq!(Vec2::new(i32::MIN, 1).minus(Vec2::new(1, 3)), Vec2::new(i32::MIN, -2));
    assert!(Vec2::inf().has_inf());
    assert!(!Vec2::same(3).has_inf());
}

#[test]
fn rect_corners_and_emptiness() {
    let r = Rect::new(1, 2, 3, 4);
    assert_eq!(r.lt(), Vec2::new(1, 2));
    assert_eq!(r.rb(), Vec2::new(4, 6));
    assert_eq!(r.size(), Vec2::new(3, 4));
    assert!(r.is_positive());
    assert!(Rect::new(0, 0, -1, 5).is_empty());
    assert!(!Rect::zero().is_empty());
    assert_eq!(Rect::from_ltrb(Vec2::new(1, 2), Vec2::new(4, 6)), r);
    assert_eq!(Rect::from_lt_size(Vec2::new(1, 2), Vec2::new(3, 4)), r);
    assert_eq!(Rect::from_size(Vec2::new(3, 4)), Rect::new(0, 0, 3, 4));
    assert!(r.contains(Vec2::new(4, 6)));
    assert!(!r.contains(Vec2::new(5, 6)));
    assert_eq!(Rect::window().rb(), Vec2::inf());
}

#[test]
fn rect_intersection_and_union() {
    let a = Rect::new(0, 0, 10, 10);
    let b = Rect::new(5, 5, 10, 10);
    assert_eq!(a.intersection(b), Rect::new(5, 5, 5, 5));
    assert_eq!(a.union(b), Rect::new(0, 0, 15, 15));
    let far = Rect::new(20, 20, 5, 5);
    assert!(a.intersection(far).is_empty());
    assert_eq!(a.intersection(far), Rect::new(20, 20, -10, -10));
    assert_eq!(a.intersection(Rect::window()), a);
    assert_eq!(Rect::window().union(b), Rect::window());
}

#[test]
fn rect_moves_shrinks_and_blends() {
    let a = Rect::new(0, 0, 10, 10);
    assert_eq!(a.move_by(Vec2::new(3, -4)), Rect::new(3, -4, 10, 10));
    assert_eq!(a.shrink(Vec2::new(2, 3)), Rect::new(2, 3, 6, 4));
    assert_eq!(a.shrink(Vec2::same(-1)), Rect::new(-1, -1, 12, 12));
    let b = Rect::new(100, 200, 30, 50);
    assert_eq!(a.lerp(b, 0), a);
    assert_eq!(a.lerp(b, 256), b);
    assert_eq!(a.lerp(b, 128), Rect::new(50, 100, 20, 30));
    assert_eq!(b.lerp(a, 64), Rect::new(75, 150, 25, 40));
}

#[test]
fn rect_transformed_is_the_bounding_box() {
    let a = Rect::new(1, 2, 3, 4);
    assert_eq!(a.transformed(Transform2D::identity()), a);
    assert_eq!(a.transformed(Transform2D::translate(Vec2::new(10, 20))), Rect::new(11, 22, 3, 4));
    assert_eq!(a.transformed(Transform2D::scale(Vec2::new(2, -1))), Rect::new(2, -6, 6, 4));
    let quarter_turn = Transform2D::column_major(0, -1, 0, 1, 0, 0);
    assert_eq!(a.transformed(quarter_turn), Rect::new(-6, 1, 4, 3));
}

#[test]
fn transforms_compose() {
    let t = Transform2D::translate(Vec2::new(5, 6));
    let s = Transform2D::scale(Vec2::new(2, 3));
    assert_eq!(t.mul(s).apply(Vec2::new(1, 1)), Vec2::new(7, 9));
    assert_eq!(s.mul(t).apply(Vec2::new(1, 1)), Vec2::new(12, 21));
    assert_eq!(Transform2D::identity().mul(t), t);
    assert_eq!(Transform2D::row_major(1, 2, 3, 4, 5, 6), Transform2D::column_major(1, 3, 5, 2, 4, 6));
}

#[test]
fn colors_premultiply() {
    assert_eq!(Color::new(255, 128, 0, 255).premultiply(), Color::new(255, 128, 0, 255));
    assert_eq!(Color::new(255, 128, 10, 128).premultiply(), Color::new(128, 64, 5, 128));
    assert_eq!(Color::white().premultiply(), Color::white());
    assert_eq!(Color::new(200, 100, 50, 0).premultiply(), Color::transparent());
    assert_eq!(Color::new(-255, 10, 10, 255).premultiply(), Color::new(-255, 10, 10, 255));
    assert_eq!(Color::new(300, -4, 10, 255).clamp(0, 255), Color::new(255, 0, 10, 255));
    assert_eq!(Color::from_rgba_u8(1, 2, 3, 4), Color::new(1, 2, 3, 4));
}

#[test]
fn operators_are_the_methods() {
    let t = Transform2D::column_major(2, 0, 5, 0, 3, -1);
    let u = Transform2D::translate(Vec2::new(1, 1));
    assert_eq!(t >> u, t.mul(u));
    assert_eq!(t << u, u.mul(t));
    assert_eq!(Vec2::new(4, 4) << t, t.apply(Vec2::new(4, 4)));
    assert_eq!(Vec2::new(4, 4) << t, Vec2::new(13, 11));
    assert_eq!(Transform2D::default(), Transform2D::identity());
    assert_eq!(Vec2::new(1, 2) + Vec2::new(10, 20), Vec2::new(11, 22));
    assert_eq!(Vec2::new(1, 2) - Vec2::new(10, 20), Vec2::new(-9, -18));
    assert_eq!(Vec2::new(3, -2) * Vec2::new(10, 20), Vec2::new(30, -40));
    assert_eq!(Vec2::new(i32::MAX, 2) * Vec2::new(2, i32::MIN), Vec2::new(i32::MAX, i32::MIN));
    assert_eq!(-Vec2::new(3, i32::MIN), Vec2::new(-3, i32::MAX));
    let a = Rect::new(0, 0, 10, 10);
    let b = Rect::new(5, 5, 10, 10);
    assert_eq!(a & b, Rect::new(5, 5, 5, 5));
    assert_eq!(a | b, Rect::new(0, 0, 15, 15));
    assert_eq!(a - b, a.difference(b));
    assert_eq!(-a, Rect::new(10, 10, -10, -10));
    assert_eq!(Rect::default(), Rect::zero());
    assert_eq!(Color::new(200, 10, 0, 255) + Color::new(100, 10, 1, 1), Color::new(300, 20, 1, 256));
    assert_eq!(Color::new(200, 10, 0, 255) - Color::new(100, 10, 1, 1), Color::new(100, 0, -1, 254));
    assert_eq!(Color::new(255, 128, 0, 255) * Color::new(255, 255, 9, 51), Color::new(255, 128, 0, 51));
    assert_eq!(Color::default(), Color::new(0, 0, 0, 255));
}

#[test]
fn vectors_are_compared_componentwise() {
    let a = Vec2::new(3, -8);
    let b = Vec2::new(-1, 5);
    assert_eq!(a.min(b), Vec2::new(-1, -8));
    assert_eq!(a.max(b), Vec2::new(3, 5));
    assert_eq!(a.min_both(b), a.min(b));
    assert_eq!(a.max_both(b), a.max(b));
    assert_eq!(a.abs(), Vec2::new(3, 8));
    assert_eq!(Vec2::new(i32::MIN, 0).abs(), Vec2::new(i32::MAX, 0));
    assert_eq!(a.sign(), Vec2::new(1, -1));
    assert_eq!(Vec2::zero().sign(), Vec2::zero());
    assert_eq!(a.yx(), Vec2::new(-8, 3));
    assert_eq!(a.clamp(-2, 2), Vec2::new(2, -2));
    assert_eq!(a.clamp_both(Vec2::new(0, -10), Vec2::new(1, -9)), Vec2::new(1, -9));
    assert_eq!(Vec2::x(4), Vec2::new(4, 0));
    assert_eq!(Vec2::y(4), Vec2::new(0, 4));
    assert!(Vec2::zero().is_zero());
    assert!(!a.is_zero());
    assert_eq!(vec2(1, 2), Vec2::new(1, 2));
    assert_eq!(Vec2::from((1, 2)), Vec2::new(1, 2));
    assert_eq!(Vec2::from([1, 2]), Vec2::new(1, 2));
    assert_eq!(Vec2::default(), Vec2::zero());
}

#[test]
fn rectangles_have_corners_and_a_middle() {
    let r = Rect::new(1, 2, 5, 7);
    assert_eq!(r.rt(), Vec2::new(6, 2));
    assert_eq!(r.lb(), Vec2::new(1, 9));
    assert_eq!(r.center(), Vec2::new(3, 5));
    assert_eq!(Rect::new(0, 0, -5, -7).center(), Vec2::new(-2, -3));
    assert_eq!(r.width(), 5);
    assert_eq!(r.height(), 7);
    assert_eq!(r.area(), 35);
    assert_eq!(r.perimeter(), 24);
    assert_eq!(Rect::new(0, 0, i32::MAX, i32::MAX).area(), (i32::MAX as i64) * (i32::MAX as i64));
    assert_eq!(Rect::from_center_size(Vec2::new(10, 10), Vec2::new(5, 4)), Rect::new(8, 8, 5, 4));
    assert_eq!(Rect::from_center_size(Vec2::new(0, 0), Vec2::new(-5, 4)), Rect::new(2, -2, -5, 4));
    assert_eq!(r.move_to(Vec2::new(-1, -1)), Rect::new(-1, -1, 5, 7));
    assert_eq!(r.shrink_size(Vec2::new(1, 9)), Rect::new(1, 2, 4, -2));
    assert_eq!(r.rev(), Rect::new(6, 9, -5, -7));
    assert_eq!(r.abs(), r);
    assert_eq!(r.rev().abs(), r);
    assert_eq!(rect(1, 2, 5, 7), r);
    assert_eq!(rect_ltrb(Vec2::new(1, 2), Vec2::new(6, 9)), r);
    assert!(r.is_close_to_edge(Vec2::new(1, 5), Vec2::new(1, 1)));
    assert!(!r.is_close_to_edge(Vec2::new(3, 5), Vec2::new(1, 1)));
    assert!(!r.is_close_to_edge(Vec2::new(0, 5), Vec2::new(1, 1)));
}

#[test]
fn a_difference_follows_the_overlap() {
    let a = Rect::new(0, 0, 10, 10);
    assert!(a.intersects(Rect::new(9, 9, 5, 5)));
    assert!(!a.intersects(Rect::new(10, 0, 5, 5)));
    assert!(!a.intersects(Rect::new(0, -5, 5, 5)));
    // No overlap: nothing changes.
    assert_eq!(a.difference(Rect::new(20, 20, 5, 5)), a);
    // The other sticks out at the right and at the bottom.
    assert_eq!(a.difference(Rect::new(5, 6, 10, 10)), Rect::new(0, 0, 5, 4));
    // The other sticks out at the left and at the top.
    assert_eq!(a.difference(Rect::new(-3, -2, 5, 5)), Rect::new(-3, -2, 13, 12));
    // The other lies inside.
    assert_eq!(a.difference(Rect::new(2, 2, 3, 3)), a);
    // The other covers everything.
    assert_eq!(a.difference(Rect::new(-1, -1, 20, 20)), Rect::new(-1, -1, 11, 11));
}

#[test]
fn colours_and_their_numbers() {
    assert_eq!(Color::from_hex(0x11223344), Color::new(0x11, 0x22, 0x33, 0x44));
    assert_eq!(Color::from_hex(0xffffffff), Color::white());
    assert_eq!(Color::from_hex(0), Color::transparent());
    assert_eq!(Color::new(0x11, 0x22, 0x33, 0x44).to_hex(), 0x11223344);
    assert_eq!(Color::new(300, -1, 255, 0).to_hex(), 0xff00ff00);
    for hex in [0u32, 1, 0xff, 0x100, 0xdeadbeef, 0x80000000, u32::MAX] {
        assert_eq!(Color::from_hex(hex).to_hex(), hex);
    }
    assert_eq!(Color::from_rgb_u8(1, 2, 3), Color::new(1, 2, 3, 255));
    assert_eq!(Color::from_gray_u8(7), Color::new(7, 7, 7, 255));
    assert_eq!(Color::from_gray_alpha_u8(7, 9), Color::new(7, 7, 7, 9));
    assert_eq!(Color::new(255, 0, 100, 77).inverse(), Color::new(0, 255, 155, 77));
    assert_eq!(Color::new(0, 0, 0, 0).lerp(Color::new(256, -256, 100, 1), 128), Color::new(128, -128, 50, 0));
    assert_eq!(Color::new(10, 20, 30, 40).lerp(Color::white(), 0), Color::new(10, 20, 30, 40));
    assert_eq!(Color::new(10, 20, 30, 40).lerp(Color::white(), 256), Color::white());
    assert_eq!(Color::new(-5, 20, 300, 40).clamp(0, 100), Color::new(0, 20, 100, 40));
    let mut c = Color::new(1, 2, 3, 4);
    assert_eq!((c.x(), c.y(), c.z(), c.w()), (1, 2, 3, 4));
    c.set_x(5);
    c.set_y(6);
    c.set_z(7);
    c.set_w(8);
    assert_eq!(c, vec4(5, 6, 7, 8));
    assert_eq!(rgba(5, 6, 7, 8), c);
    assert_eq!(color(5, 6, 7, 8), c);
    assert_eq!(Color::new(1, 2, 3, 4).brighten(10), Color::new(11, 12, 13, 14));
}
