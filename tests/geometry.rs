use lithium_engine::algebra::Vec2;
use lithium_engine::error::{EngineError, GeometryError, MathError, Quantity};
use lithium_engine::geometry::{
    bbox_of_points, ApplyGlobalPos, Circle, HitBox, Polygon, Quad, Rect, Segment, Shape, ToHitBox,
    Triangle, Validate,
};
use lithium_engine::hull::{convex_hull, sort_points};

fn v(x: i64, y: i64) -> Vec2 {
    Vec2::new(x, y)
}

#[test]
fn hull_of_square_corners_is_the_square_ccw() {
    let pts = vec![v(10, 10), v(0, 0), v(10, 0), v(0, 10)];
    let hull = convex_hull(pts).unwrap();
    assert_eq!(hull.verts().clone(), vec![v(0, 0), v(0, 10), v(10, 10), v(10, 0)]);
}

#[test]
fn hull_contains_every_input_point() {
    let pts = vec![
        v(0, 0),
        v(5, 1),
        v(9, 0),
        v(4, 4),
        v(10, 7),
        v(2, 9),
        v(6, 6),
        v(0, 5),
        v(5, 1),
    ];
    let hull = convex_hull(pts.clone()).unwrap();
    let h = hull.verts();
    let n = h.len();
    for p in &pts {
        for i in 0..n {
            let a = h[i];
            let b = h[(i + 1) % n];
            assert!(a.signed_area(b, *p) <= 0, "point {:?} outside edge {:?}-{:?}", p, a, b);
        }
    }
}

#[test]
fn hull_drops_interior_and_collinear_points() {
    let pts = vec![v(0, 0), v(5, 0), v(10, 0), v(10, 10), v(0, 10), v(5, 5)];
    let hull = convex_hull(pts).unwrap();
    assert_eq!(hull.verts().len(), 4);
}

#[test]
fn hull_of_two_points_is_too_few() {
    assert_eq!(convex_hull(vec![v(0, 0), v(1, 1)]).unwrap_err(), GeometryError::TooFewVertices(2));
}

#[test]
fn hull_of_collinear_points_fails() {
    assert!(convex_hull(vec![v(0, 0), v(1, 1), v(2, 2)]).is_err());
}

#[test]
fn dart_quad_is_not_convex() {
    let r = Polygon::new(vec![v(0, 0), v(5, 3), v(10, 0), v(5, 10)]);
    assert_eq!(r.unwrap_err(), GeometryError::NotConvex);
    let q = Quad::new(v(0, 0), v(5, 3), v(10, 0), v(5, 10));
    assert_eq!(q.unwrap_err(), GeometryError::NotConvex);
}

#[test]
fn convex_quad_is_accepted() {
    let q = Quad::new(v(0, 0), v(0, 10), v(10, 10), v(10, 0)).unwrap();
    assert_eq!(q.a(), v(0, 0));
    assert_eq!(q.validate(), Ok(()));
}

#[test]
fn clockwise_polygon_is_not_convex() {
    let r = Polygon::new(vec![v(0, 0), v(10, 0), v(10, 10), v(0, 10)]);
    assert_eq!(r.unwrap_err(), GeometryError::NotConvex);
}

#[test]
fn polygon_errors() {
    assert_eq!(Polygon::new(vec![v(0, 0), v(1, 0)]).unwrap_err(), GeometryError::TooFewVertices(2));
    assert_eq!(
        Polygon::new(vec![v(0, 0), v(0, 10), v(0, 0), v(10, 0)]).unwrap_err(),
        GeometryError::DuplicateVertices
    );
    let p = Polygon::new(vec![v(0, 0), v(0, 10), v(10, 10), v(10, 0)]).unwrap();
    assert_eq!(p.verts().len(), 4);
}

#[test]
fn segment_and_triangle_validation() {
    assert_eq!(Segment::new(v(1, 1), v(1, 1)).unwrap_err(), GeometryError::DuplicateVertices);
    let s = Segment::new(v(0, 0), v(3, 4)).unwrap();
    assert_eq!((s.a(), s.b()), (v(0, 0), v(3, 4)));
    assert_eq!(
        Triangle::new(v(0, 0), v(1, 0), v(1, 0)).unwrap_err(),
        GeometryError::DuplicateVertices
    );
    let t = Triangle::new(v(0, 0), v(1, 0), v(0, 1)).unwrap();
    assert_eq!(t.c(), v(0, 1));
}

#[test]
fn rect_rejects_non_positive_sizes() {
    assert_eq!(Rect::new(0, 5).unwrap_err(), MathError::NonPositive(Quantity::Width));
    assert_eq!(Rect::new(5, -1).unwrap_err(), MathError::NonPositive(Quantity::Height));
    assert_eq!(Quantity::Width.name(), "width");
    let r = Rect::new(3, 4).unwrap();
    assert_eq!((r.width(), r.height()), (3, 4));
}

#[test]
fn hitboxes_of_shapes() {
    let t = Triangle::new(v(-3, 2), v(5, -1), v(0, 7)).unwrap();
    assert_eq!(t.to_hitbox(), HitBox::new(-3, -1, 5, 7));
    let r = Rect::new(4, 6).unwrap();
    assert_eq!(r.to_hitbox(), HitBox::new(0, 0, 4, 6));
    let s = Shape::Segment(Segment::new(v(2, 9), v(-1, 3)).unwrap());
    assert_eq!(s.to_hitbox(), HitBox::new(-1, 3, 2, 9));
    assert_eq!(bbox_of_points(&vec![v(1, 1)]), HitBox::new(1, 1, 1, 1));
    let moved = HitBox::new(0, 0, 4, 6).add_pos(v(10, -2));
    assert_eq!(moved, HitBox::new(10, -2, 14, 4));
}

#[test]
fn sort_orders_by_x_then_y() {
    let mut pts = vec![v(3, 1), v(0, 5), v(3, 0), v(0, 2)];
    sort_points(&mut pts);
    assert_eq!(pts, vec![v(0, 2), v(0, 5), v(3, 0), v(3, 1)]);
}

#[test]
fn vector_arithmetic() {
    let a = v(3, -4);
    let b = v(1, 2);
    assert_eq!(a.add(b), v(4, -2));
    assert_eq!(a.sub(b), v(2, -6));
    assert_eq!(a.dot(b), -5);
    assert_eq!(a.cross(b), 10);
    assert_eq!(a.square_mag(), 25);
    assert_eq!(a.perp_ccw(), v(4, 3));
    assert_eq!(a.perp_cw(), v(-4, -3));
    assert_eq!(a.abs(), v(3, 4));
    assert_eq!(a.scale(2), v(6, -8));
    assert_eq!(v(0, 0).square_dist(v(3, 4)), 25);
    assert_eq!(v(0, 0).signed_area(v(0, 10), v(10, 10)), -100);
}

#[test]
fn shapes_move_to_global_positions() {
    let s = Segment::new(v(0, 0), v(3, 4)).unwrap();
    let g = s.apply_global_pos(v(10, -5)).unwrap();
    assert_eq!((g.a(), g.b()), (v(10, -5), v(13, -1)));
    let t = Triangle::new(v(0, 0), v(1, 0), v(0, 1)).unwrap();
    assert_eq!(t.apply_global_pos(v(2, 2)).unwrap().c(), v(2, 3));
    let q = Quad::new(v(0, 0), v(0, 10), v(10, 10), v(10, 0)).unwrap();
    assert_eq!(q.apply_global_pos(v(1, 1)).unwrap().d(), v(11, 1));
    let p = Polygon::new(vec![v(0, 0), v(0, 10), v(10, 10), v(10, 0)]).unwrap();
    let moved = p.apply_global_pos(v(-3, 7)).unwrap();
    assert_eq!(moved.verts().clone(), vec![v(-3, 7), v(-3, 17), v(7, 17), v(7, 7)]);
    let bad = Polygon::new_unchecked(vec![v(0, 0), v(10, 0), v(10, 10), v(0, 10)]);
    assert_eq!(bad.apply_global_pos(v(1, 1)).unwrap_err(), GeometryError::NotConvex);
    let shape = Shape::Polygon(p);
    match shape.apply_global_pos(v(1, 2)).unwrap() {
        Shape::Polygon(g) => assert_eq!(g.verts()[2], v(11, 12)),
        _ => panic!("expected a polygon"),
    }
}

#[test]
fn circle_checks_its_radius() {
    assert_eq!(Circle::new(0).unwrap_err(), MathError::NonPositive(Quantity::Radius));
    let c = Circle::new(5).unwrap();
    assert_eq!(c.radius(), 5);
    assert_eq!(c.to_hitbox(), HitBox::new(0, 0, 10, 10));
}

#[test]
fn shape_validation_reports_each_error() {
    let r = Shape::Rect(Rect { width: 0, height: 3 });
    assert_eq!(r.validate(), Err(EngineError::MathError(MathError::NonPositive(Quantity::Width))));
    let s = Shape::Segment(Segment { a: v(1, 1), b: v(1, 1) });
    assert_eq!(s.validate(), Err(EngineError::GeometryError(GeometryError::DuplicateVertices)));
    let p = Shape::Polygon(Polygon::new_unchecked(vec![v(0, 0), v(5, 3), v(10, 0), v(5, 10)]));
    assert_eq!(p.validate(), Err(EngineError::GeometryError(GeometryError::NotConvex)));
    let ok = Shape::Triangle(Triangle { a: v(0, 0), b: v(0, 4), c: v(4, 0) });
    assert_eq!(ok.validate(), Ok(()));
}

#[test]
fn sort_keeps_equal_points_together() {
    let mut pts = vec![v(1, 1), v(0, 0), v(1, 1), v(0, 0)];
    sort_points(&mut pts);
    assert_eq!(pts, vec![v(0, 0), v(0, 0), v(1, 1), v(1, 1)]);
}
