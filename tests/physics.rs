use lithium_engine::algebra::{Axis, Vec2};
use lithium_engine::collision::{check_collision, check_hitboxes, check_sat};
use lithium_engine::components::{Material, Color, Surface, Transform, Translation};
use lithium_engine::dynamics::{
    apply_axis_force, apply_axis_lin_vel, apply_force, apply_vel, clamp_toward_zero, reset_force,
    reset_rest, reset_vel, update_lin_vel, update_pos,
};
use lithium_engine::entities::EntityManager;
use lithium_engine::error::{ComponentError, EngineError, GeometryError, MathError, Quantity};
use lithium_engine::geometry::{HitBox, Polygon, Rect, Segment, Shape};
use lithium_engine::loader::{insert_component, load_components, Component};
use lithium_engine::numeric::isqrt;
use lithium_engine::reaction::react;
use lithium_engine::scene::Camera;
use lithium_engine::solver::resolve_collisions;
use lithium_engine::storage::SparseSet;
use lithium_engine::swept::{generate_swept_shape, SweptShape};
use lithium_engine::world::World;

fn v(x: i64, y: i64) -> Vec2 {
    Vec2::new(x, y)
}

fn rect(w: i64, h: i64) -> Shape {
    Shape::Rect(Rect::new(w, h).unwrap())
}

#[test]
fn sat_separated_rectangles() {
    let a = rect(10, 10);
    let b = rect(10, 10);
    let s1 = generate_swept_shape(v(0, 0), v(0, 0), &a);
    let s2 = generate_swept_shape(v(20, 0), v(20, 0), &b);
    assert_eq!(check_sat(&s1, &s2), None);
    assert_eq!(check_collision(&s1, &s2), None);
}

#[test]
fn sat_overlapping_rectangles_give_horizontal_normal() {
    let a = rect(10, 10);
    let b = rect(10, 10);
    let s1 = generate_swept_shape(v(0, 0), v(0, 0), &a);
    let s2 = generate_swept_shape(v(5, 0), v(5, 0), &b);
    let n = check_collision(&s1, &s2).unwrap();
    assert_eq!(n.y, 0);
    assert!(n.x > 0);
    // seen from the other side the normal flips
    assert_eq!(check_collision(&s2, &s1).unwrap(), v(-n.x, 0));
}

#[test]
fn broad_phase_never_misses_a_narrow_phase_hit() {
    let shapes = vec![
        rect(10, 10),
        Shape::Polygon(Polygon::new(vec![v(0, 0), v(0, 10), v(10, 10), v(10, 0)]).unwrap()),
        Shape::Segment(Segment::new(v(0, 0), v(8, 8)).unwrap()),
    ];
    for a in &shapes {
        for b in &shapes {
            for dx in -14..15 {
                for dy in [-12, -3, 0, 7, 11] {
                    let s1 = generate_swept_shape(v(0, 0), v(3, 0), a);
                    let s2 = generate_swept_shape(v(dx, dy), v(dx, dy), b);
                    if check_sat(&s1, &s2).is_some() {
                        assert!(check_hitboxes(&s1.hitbox(), &s2.hitbox()));
                    }
                }
            }
        }
    }
}

#[test]
fn swept_rectangle_is_widened_along_its_motion() {
    let r = rect(10, 20);
    match generate_swept_shape(v(5, 5), v(5, -3), &r) {
        SweptShape::AxisRect { swept, pos } => {
            assert_eq!((swept.width, swept.height), (10, 28));
            assert_eq!(pos, v(5, -3));
        }
        _ => panic!("expected a widened rectangle"),
    }
    match generate_swept_shape(v(5, 5), v(9, 5), &r) {
        SweptShape::AxisRect { swept, pos } => {
            assert_eq!((swept.width, swept.height), (14, 20));
            assert_eq!(pos, v(5, 5));
        }
        _ => panic!("expected a widened rectangle"),
    }
    match generate_swept_shape(v(0, 0), v(4, 4), &r) {
        SweptShape::Moved { swept } => {
            assert_eq!(swept.verts().len(), 6);
            assert_eq!(SweptShape::Moved { swept: swept.clone() }.hitbox(), HitBox::new(0, 0, 14, 24));
        }
        _ => panic!("expected a hull"),
    }
}

fn body(vx: i64, vy: i64, mass: u16) -> Translation {
    Translation::new(v(vx, vy), v(0, 0), mass).unwrap()
}

#[test]
fn elastic_equal_masses_exchange_velocities() {
    let s = Surface::new(1000, 0, 0);
    let (a, b) = react(body(30, 0, 1), Some(body(-30, 0, 1)), s, s, v(1, 0));
    assert_eq!(a.lin_vel, v(-30, 0));
    assert_eq!(b.unwrap().lin_vel, v(30, 0));
    let (a, b) = react(body(7, 0, 3), Some(body(-7, 0, 3)), s, s, v(20, 0));
    assert_eq!(a.lin_vel, v(-7, 0));
    assert_eq!(b.unwrap().lin_vel, v(7, 0));
}

#[test]
fn separating_bodies_get_no_impulse() {
    let s = Surface::new(1000, 500, 500);
    let (a, b) = react(body(-5, 0, 1), Some(body(5, 0, 1)), s, s, v(1, 0));
    assert_eq!(a.lin_vel, v(-5, 0));
    assert_eq!(b.unwrap().lin_vel, v(5, 0));
}

#[test]
fn restitution_is_the_smaller_coefficient() {
    let bouncy = Surface::new(1000, 0, 0);
    let dull = Surface::new(500, 0, 0);
    // a body falling at 8 onto a static floor bounces back at half speed
    let (a, _) = react(body(0, 40, 1), None, bouncy, dull, v(0, 1));
    assert_eq!(a.lin_vel, v(0, -20));
    assert!(a.rest);
}

#[test]
fn resting_body_speed_snaps_to_zero() {
    let s = Surface::new(500, 0, 0);
    let (a, _) = react(body(0, 8, 1), None, s, s, v(0, 1));
    assert_eq!(a.lin_vel, v(0, 0));
    assert!(a.rest);
}

#[test]
fn static_friction_stops_sliding() {
    let s = Surface::new(0, 1000, 1000);
    let (a, _) = react(body(3, 8, 1), None, s, s, v(0, 1));
    assert_eq!(a.lin_vel, v(0, 0));
}

#[test]
fn kinetic_friction_slows_fast_sliding() {
    let s = Surface::new(0, 100, 100);
    let (a, _) = react(body(100, 40, 1), None, s, s, v(0, 1));
    assert_eq!(a.lin_vel, v(96, 0));
}

fn scene() -> World {
    let mut w = World::new();
    // a unit-mass box of restitution one half above a static floor
    w.transform.insert(0, Transform::new(v(0, 0), 0)).unwrap();
    w.translation.insert(0, body(0, 0, 1)).unwrap();
    w.surface.insert(0, Surface::new(500, 300, 200)).unwrap();
    w.shape.insert(0, rect(40, 40)).unwrap();
    w.transform.insert(1, Transform::new(v(-500, 100), 0)).unwrap();
    w.surface.insert(1, Surface::new(500, 300, 200)).unwrap();
    w.shape.insert(1, rect(1000, 20)).unwrap();
    w
}

fn step(w: &mut World) {
    reset_force(w, v(0, 4));
    update_lin_vel(w);
    reset_rest(w);
    resolve_collisions(w, true, 7);
    update_pos(w);
}

#[test]
fn dropped_box_settles_on_the_floor() {
    let mut w = scene();
    for _ in 0..200 {
        step(&mut w);
    }
    let t = w.translation.get(0).unwrap();
    assert_eq!(t.lin_vel.y, 0);
    assert!(t.rest);
    let y = w.transform.get(0).unwrap().pos.y;
    assert!(y + 40 <= 100 && y > 0);
}

#[test]
fn solver_is_deterministic() {
    let mut a = scene();
    let mut b = scene();
    a.translation.set(0, body(3, -20, 1)).unwrap();
    b.translation.set(0, body(3, -20, 1)).unwrap();
    for _ in 0..60 {
        step(&mut a);
        step(&mut b);
        assert_eq!(a.transform.get(0).unwrap(), b.transform.get(0).unwrap());
        assert_eq!(a.translation.get(0).unwrap(), b.translation.get(0).unwrap());
    }
}

#[test]
fn sparse_set_insert_remove_set() {
    let mut s: SparseSet<u32> = SparseSet::new();
    assert_eq!(s.insert(5, 50), Ok(()));
    assert_eq!(s.insert(2, 20), Ok(()));
    assert_eq!(s.insert(9, 90), Ok(()));
    assert_eq!(s.insert(5, 51), Err(ComponentError::AlreadyExistingComponent(5)));
    assert_eq!(s.get(5), Some(&50));
    assert_eq!(s.remove(5), Some(50));
    assert_eq!(s.get(5), None);
    assert_eq!(s.get_ents(), vec![9, 2]);
    assert_eq!(s.get_ref().clone(), vec![90, 20]);
    assert_eq!(s.remove(5), None);
    assert_eq!(s.set(4, 1), Err(ComponentError::MissingComponent(4)));
    assert_eq!(s.set(2, 21), Ok(()));
    *s.get_mut(9).unwrap() = 91;
    assert_eq!(s.get(9), Some(&91));
    assert_eq!(s.get(2), Some(&21));
    assert_eq!(s.get(1000), None);
    assert_eq!(s.len(), 2);
}

#[test]
fn entity_manager_counts_up() {
    let mut m = EntityManager::new();
    assert_eq!(m.create(), 0);
    assert_eq!(m.create(), 1);
    m.skip_to(10);
    assert_eq!(m.create(), 10);
    m.reset();
    assert_eq!(m.create(), 0);
}

#[test]
fn dynamics_helpers() {
    assert_eq!(clamp_toward_zero(15, Some(10)), 10);
    assert_eq!(clamp_toward_zero(-15, Some(-10)), -10);
    assert_eq!(clamp_toward_zero(5, Some(10)), 5);
    assert_eq!(clamp_toward_zero(5, None), 5);
    let mut w = scene();
    assert_eq!(apply_force(&mut w, 0, v(2, 3)), Some(()));
    assert_eq!(apply_force(&mut w, 1, v(2, 3)), None);
    assert_eq!(w.translation.get(0).unwrap().force, v(2, 3));
    assert_eq!(apply_vel(&mut w, 0, v(20, -5), Some(10)), Some(()));
    assert_eq!(w.translation.get(0).unwrap().lin_vel, v(10, -5));
    assert_eq!(apply_axis_lin_vel(&mut w, 0, -12, Some(-12), Axis::Y), Some(()));
    assert_eq!(w.translation.get(0).unwrap().lin_vel, v(10, -12));
    assert_eq!(apply_axis_force(&mut w, 0, 4, None, Axis::X), Some(()));
    assert_eq!(w.translation.get(0).unwrap().force, v(6, 3));
    reset_force(&mut w, v(0, 4));
    assert_eq!(w.translation.get(0).unwrap().force, v(0, 4));
    update_lin_vel(&mut w);
    assert_eq!(w.translation.get(0).unwrap().lin_vel, v(10, -8));
    update_pos(&mut w);
    assert_eq!(w.transform.get(0).unwrap().pos, v(10, -8));
    assert_eq!(w.transform.get(1).unwrap().pos, v(-500, 100));
}

#[test]
fn heavier_force_is_divided_by_mass() {
    let mut w = World::new();
    w.translation.insert(3, Translation::new(v(0, 0), v(0, 0), 4).unwrap()).unwrap();
    reset_force(&mut w, v(0, 5));
    assert_eq!(w.translation.get(3).unwrap().force, v(0, 20));
    update_lin_vel(&mut w);
    assert_eq!(w.translation.get(3).unwrap().lin_vel, v(0, 5));
}

#[test]
fn translation_rejects_zero_mass() {
    assert_eq!(
        Translation::new(v(0, 0), v(0, 0), 0).unwrap_err(),
        MathError::NonPositive(Quantity::Mass)
    );
    let mut t = body(1, 2, 3);
    assert_eq!(t.set_mass(0), Err(MathError::NonPositive(Quantity::Mass)));
    assert_eq!(t.mass(), 3);
}

#[test]
fn loader_checks_and_inserts() {
    let mut w = World::new();
    let mut m = EntityManager::new();
    let comps = vec![
        (4, Component::Transform(Transform::new(v(1, 2), 0))),
        (4, Component::Shape(rect(3, 3))),
        (7, Component::Material(Material::new(Color::new(1, 2, 3, 4), 0, true))),
    ];
    let ents = load_components(&mut w, &mut m, comps).unwrap();
    assert_eq!(ents, vec![4, 7]);
    assert_eq!(m.create(), 8);
    let dup = insert_component(&mut w, 4, Component::Transform(Transform::new(v(0, 0), 0)));
    assert_eq!(dup, Err(EngineError::ComponentError(ComponentError::AlreadyExistingComponent(4))));
    let bad = Shape::Polygon(Polygon::new_unchecked(vec![v(0, 0), v(1, 0)]));
    assert_eq!(
        insert_component(&mut w, 9, Component::Shape(bad)),
        Err(EngineError::GeometryError(GeometryError::TooFewVertices(2)))
    );
    assert_eq!(
        insert_component(&mut w, 9, Component::Transform(Transform::new(v(1 << 40, 0), 0))),
        Err(EngineError::MathError(MathError::OutOfRange(Quantity::Position)))
    );
}

#[test]
fn camera_centres_the_focus() {
    let mut c = Camera::new(v(0, -100), Rect::new(1600, 900).unwrap());
    assert_eq!(c.pos(), v(0, 0));
    c.update(v(50, 60));
    assert_eq!(c.pos(), v(50 - 800, 60 - 100 - 450));
}

#[test]
fn integer_square_root() {
    assert_eq!(isqrt(0), 0);
    assert_eq!(isqrt(24), 4);
    assert_eq!(isqrt(25), 5);
    assert_eq!(isqrt(1 << 60), 1 << 30);
}

#[test]
fn collinear_segments_apart_do_not_collide() {
    let a = Shape::Segment(Segment::new(v(0, 0), v(10, 0)).unwrap());
    let b = Shape::Segment(Segment::new(v(0, 0), v(10, 0)).unwrap());
    let s1 = generate_swept_shape(v(0, 0), v(0, 0), &a);
    let s2 = generate_swept_shape(v(20, 0), v(20, 0), &b);
    assert!(!check_hitboxes(&s1.hitbox(), &s2.hitbox()));
    assert_eq!(check_sat(&s1, &s2), None);
    assert_eq!(check_collision(&s1, &s2), None);
    // touching end to end they do meet
    let s3 = generate_swept_shape(v(10, 0), v(10, 0), &b);
    assert!(check_sat(&s1, &s3).is_some());
}

#[test]
fn loader_stops_at_the_first_refusal() {
    let mut w = World::new();
    let mut m = EntityManager::new();
    let comps = vec![
        (1, Component::Transform(Transform::new(v(1, 2), 0))),
        (2, Component::Transform(Transform::new(v(3, 4), 0))),
        (1, Component::Transform(Transform::new(v(5, 6), 0))),
        (3, Component::Transform(Transform::new(v(7, 8), 0))),
    ];
    let r = load_components(&mut w, &mut m, comps);
    assert_eq!(r, Err(EngineError::ComponentError(ComponentError::AlreadyExistingComponent(1))));
    assert_eq!(w.transform.get_ents(), vec![1, 2]);
    assert_eq!(w.transform.get(1).unwrap().pos, v(1, 2));
    assert_eq!(w.transform.get(3), None);
    assert_eq!(m.create(), 0);

    let mut w = World::new();
    let bad = vec![
        (5, Component::Surface(Surface::new(1, 2, 3))),
        (6, Component::Translation(Translation { lin_vel: v(0, 0), force: v(0, 0), mass: 0, rest: false })),
    ];
    let r = load_components(&mut w, &mut m, bad);
    assert_eq!(r, Err(EngineError::MathError(MathError::NonPositive(Quantity::Mass))));
    assert_eq!(w.surface.get_ents(), vec![5]);
    assert_eq!(w.translation.len(), 0);
}

#[test]
fn reset_vel_sets_every_velocity() {
    let mut w = scene();
    w.translation.set(0, body(7, -3, 2)).unwrap();
    reset_vel(&mut w, v(1, 1));
    assert_eq!(w.translation.get(0).unwrap().lin_vel, v(1, 1));
    assert_eq!(w.translation.get(0).unwrap().mass, 2);
}
