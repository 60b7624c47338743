use vstd::prelude::*;

use crate::algebra::{Axis, Vec2, LIMIT};
use crate::components::Translation;
use crate::entities::Entity;
use crate::numeric::{clamp, clamp_exec, quot, quot_exec};
use crate::solver::comp_of;
use crate::world::World;

verus! {

/// Bound on the force components a motion state carries.
pub const FORCE_LIMIT: i64 = 0x20_0000_0000;

/// `value` capped at `limit` on the side of `limit`'s sign: a positive
/// limit caps from above, any other from below.
pub open spec fn clamp_toward_zero_spec(value: int, limit: Option<i64>) -> int {
    match limit {
        Some(l) => if l > 0 {
            if value <= l { value } else { l as int }
        } else {
            if value >= l { value } else { l as int }
        },
        None => value,
    }
}

pub fn clamp_toward_zero(value: i64, limit: Option<i64>) -> (r: i64)
    ensures
        r == clamp_toward_zero_spec(value as int, limit),
{
    match limit {
        Some(l) => if l > 0 {
            if value <= l { value } else { l }
        } else {
            if value >= l { value } else { l }
        },
        None => value,
    }
}

/// The velocity after one step of the accumulated force.
pub open spec fn accelerated(t: Translation) -> Vec2 {
    Vec2 {
        x: clamp(t.lin_vel.x + quot(t.force.x as int, t.mass as int), LIMIT as int) as i64,
        y: clamp(t.lin_vel.y + quot(t.force.y as int, t.mass as int), LIMIT as int) as i64,
    }
}

/// Only the motion states' contents changed.
pub open spec fn motion_only(w0: World, w1: World) -> bool {
    &&& w1.transform == w0.transform
    &&& w1.surface == w0.surface
    &&& w1.shape == w0.shape
    &&& w1.material == w0.material
    &&& w1.translation.ents() == w0.translation.ents()
}

/// Clears the resting flag of every dynamic entity.
pub fn reset_rest(world: &mut World)
    requires
        old(world).wf(),
    ensures
        final(world).wf(),
        motion_only(*old(world), *final(world)),
        final(world).translation.comps() == old(world).translation.comps().map_values(
            |t: Translation| Translation { rest: false, ..t },
        ),
{
    let n = world.translation.len();
    let mut i: usize = 0;
    while i < n
        invariant
            world.wf(),
            old(world).wf(),
            motion_only(*old(world), *world),
            n == world.translation.comps().len(),
            n == world.translation.ents().len(),
            n == old(world).translation.comps().len(),
            0 <= i <= n,
            forall|j: int|
                0 <= j < n ==> #[trigger] world.translation.comps()[j] == if j < i {
                    Translation { rest: false, ..old(world).translation.comps()[j] }
                } else {
                    old(world).translation.comps()[j]
                },
        decreases n - i,
    {
        let t = *world.translation.get_at(i);
        world.translation.set_at(i, Translation { rest: false, ..t });
        proof {
            assert forall|j: int| 0 <= j < world.translation.comps().len() implies (#[trigger] world.translation.comps()[j]).wf() by {
                assert(old(world).translation.comps()[j].wf());
            }
        }
        i = i + 1;
    }
    assert(world.translation.comps() =~= old(world).translation.comps().map_values(
        |t: Translation| Translation { rest: false, ..t },
    ));
}

/// Sets every dynamic entity's velocity to `vel` (back to a spawn state).
pub fn reset_vel(world: &mut World, vel: Vec2)
    requires
        old(world).wf(),
        vel.bounded(LIMIT as int),
    ensures
        final(world).wf(),
        motion_only(*old(world), *final(world)),
        final(world).translation.comps() == old(world).translation.comps().map_values(
            |t: Translation| Translation { lin_vel: vel, ..t },
        ),
{
    let n = world.translation.len();
    let mut i: usize = 0;
    while i < n
        invariant
            world.wf(),
            old(world).wf(),
            vel.bounded(LIMIT as int),
            motion_only(*old(world), *world),
            n == world.translation.comps().len(),
            n == world.translation.ents().len(),
            n == old(world).translation.comps().len(),
            0 <= i <= n,
            forall|j: int|
                0 <= j < n ==> #[trigger] world.translation.comps()[j] == if j < i {
                    Translation { lin_vel: vel, ..old(world).translation.comps()[j] }
                } else {
                    old(world).translation.comps()[j]
                },
        decreases n - i,
    {
        let t = *world.translation.get_at(i);
        world.translation.set_at(i, Translation { lin_vel: vel, ..t });
        proof {
            assert forall|j: int| 0 <= j < world.translation.comps().len() implies (#[trigger] world.translation.comps()[j]).wf() by {
                assert(old(world).translation.comps()[j].wf());
            }
        }
        i = i + 1;
    }
    assert(world.translation.comps() =~= old(world).translation.comps().map_values(
        |t: Translation| Translation { lin_vel: vel, ..t },
    ));
}

/// Sets every dynamic entity's force to `acc` times its mass (a uniform
/// acceleration such as gravity).
pub fn reset_force(world: &mut World, acc: Vec2)
    requires
        old(world).wf(),
        acc.bounded(LIMIT as int),
    ensures
        final(world).wf(),
        motion_only(*old(world), *final(world)),
        final(world).translation.comps() == old(world).translation.comps().map_values(
            |t: Translation| Translation {
                force: Vec2 { x: (acc.x * t.mass) as i64, y: (acc.y * t.mass) as i64 },
                ..t
            },
        ),
{
    let n = world.translation.len();
    let mut i: usize = 0;
    while i < n
        invariant
            world.wf(),
            old(world).wf(),
            motion_only(*old(world), *world),
            acc.bounded(LIMIT as int),
            n == world.translation.comps().len(),
            n == world.translation.ents().len(),
            n == old(world).translation.comps().len(),
            0 <= i <= n,
            forall|j: int|
                0 <= j < n ==> #[trigger] world.translation.comps()[j] == if j < i {
                    Translation {
                        force: Vec2 {
                            x: (acc.x * old(world).translation.comps()[j].mass) as i64,
                            y: (acc.y * old(world).translation.comps()[j].mass) as i64,
                        },
                        ..old(world).translation.comps()[j]
                    }
                } else {
                    old(world).translation.comps()[j]
                },
        decreases n - i,
    {
        let t = *world.translation.get_at(i);
        proof {
            crate::algebra::lemma_mul_bound(acc.x as int, t.mass as int, LIMIT as int, 0x10000);
            crate::algebra::lemma_mul_bound(acc.y as int, t.mass as int, LIMIT as int, 0x10000);
        }
        let f = Vec2 { x: acc.x * (t.mass as i64), y: acc.y * (t.mass as i64) };
        world.translation.set_at(i, Translation { force: f, ..t });
        proof {
            assert forall|j: int| 0 <= j < world.translation.comps().len() implies (#[trigger] world.translation.comps()[j]).wf() by {
                assert(old(world).translation.comps()[j].wf());
            }
        }
        i = i + 1;
    }
    assert(world.translation.comps() =~= old(world).translation.comps().map_values(
        |t: Translation| Translation {
            force: Vec2 { x: (acc.x * t.mass) as i64, y: (acc.y * t.mass) as i64 },
            ..t
        },
    ));
}

/// Adds one step of each dynamic entity's force (divided by its mass) to its
/// velocity, kept within the velocity bound.
pub fn update_lin_vel(world: &mut World)
    requires
        old(world).wf(),
    ensures
        final(world).wf(),
        motion_only(*old(world), *final(world)),
        final(world).translation.comps() == old(world).translation.comps().map_values(
            |t: Translation| Translation { lin_vel: accelerated(t), ..t },
        ),
{
    let n = world.translation.len();
    let mut i: usize = 0;
    while i < n
        invariant
            world.wf(),
            old(world).wf(),
            motion_only(*old(world), *world),
            n == world.translation.comps().len(),
            n == world.translation.ents().len(),
            n == old(world).translation.comps().len(),
            0 <= i <= n,
            forall|j: int|
                0 <= j < n ==> #[trigger] world.translation.comps()[j] == if j < i {
                    Translation {
                        lin_vel: accelerated(old(world).translation.comps()[j]),
                        ..old(world).translation.comps()[j]
                    }
                } else {
                    old(world).translation.comps()[j]
                },
        decreases n - i,
    {
        let t = *world.translation.get_at(i);
        assert(t.wf());
        let m = t.mass as i128;
        let dx = quot_exec(t.force.x as i128, m);
        let dy = quot_exec(t.force.y as i128, m);
        let v = Vec2 {
            x: clamp_exec(t.lin_vel.x as i128 + dx, LIMIT),
            y: clamp_exec(t.lin_vel.y as i128 + dy, LIMIT),
        };
        world.translation.set_at(i, Translation { lin_vel: v, ..t });
        proof {
            assert forall|j: int| 0 <= j < world.translation.comps().len() implies (#[trigger] world.translation.comps()[j]).wf() by {
                assert(old(world).translation.comps()[j].wf());
            }
        }
        i = i + 1;
    }
    assert(world.translation.comps() =~= old(world).translation.comps().map_values(
        |t: Translation| Translation { lin_vel: accelerated(t), ..t },
    ));
}

/// Moves every entity that has a motion state by its velocity, kept within
/// the coordinate bound.
pub fn update_pos(world: &mut World)
    requires
        old(world).wf(),
    ensures
        final(world).wf(),
        final(world).translation == old(world).translation,
        final(world).surface == old(world).surface,
        final(world).shape == old(world).shape,
        final(world).material == old(world).material,
        final(world).transform.ents() == old(world).transform.ents(),
        final(world).transform.comps() == crate::solver::stepped_positions(
            *old(world),
            old(world).translation.comps(),
        ),
        forall|j: int|
            0 <= j < old(world).transform.comps().len() ==> (#[trigger] final(world).transform.comps()[j])
                == if old(world).translation.contains(old(world).transform.ents()[j]) {
                moved(
                    old(world).transform.comps()[j],
                    comp_of(old(world).translation, old(world).transform.ents()[j]).lin_vel,
                )
            } else {
                old(world).transform.comps()[j]
            },
{
    let n = world.transform.len();
    let mut i: usize = 0;
    while i < n
        invariant
            world.wf(),
            old(world).wf(),
            world.translation == old(world).translation,
            world.surface == old(world).surface,
            world.shape == old(world).shape,
            world.material == old(world).material,
            world.transform.ents() == old(world).transform.ents(),
            n == world.transform.comps().len(),
            n == world.transform.ents().len(),
            n == old(world).transform.comps().len(),
            0 <= i <= n,
            forall|j: int|
                0 <= j < n ==> #[trigger] world.transform.comps()[j] == if j < i
                    && old(world).translation.contains(old(world).transform.ents()[j]) {
                    moved(
                        old(world).transform.comps()[j],
                        comp_of(old(world).translation, old(world).transform.ents()[j]).lin_vel,
                    )
                } else {
                    old(world).transform.comps()[j]
                },
        decreases n - i,
    {
        let e = world.transform.entity_at(i);
        let t = *world.transform.get_at(i);
        proof {
            world.lemma_entity_bounds(e);
            assert(old(world).transform.comps()[i as int].pos.bounded(LIMIT as int));
        }
        let vel = match world.translation.get(e) {
            Some(tr) => Some(tr.lin_vel),
            None => None,
        };
        if let Some(v) = vel {
            let p = Vec2 {
                x: clamp_exec(t.pos.x as i128 + v.x as i128, LIMIT),
                y: clamp_exec(t.pos.y as i128 + v.y as i128, LIMIT),
            };
            world.transform.set_at(i, crate::components::Transform { pos: p, ..t });
        }
        proof {
            assert forall|j: int| 0 <= j < world.transform.comps().len() implies (#[trigger] world.transform.comps()[j]).pos.bounded(LIMIT as int) by {
                assert(old(world).transform.comps()[j].pos.bounded(LIMIT as int));
            }
        }
        i = i + 1;
    }
    assert(world.transform.comps() =~= crate::solver::stepped_positions(
        *old(world),
        old(world).translation.comps(),
    ));
}

/// `t` moved by `v`, kept within the coordinate bound.
pub open spec fn moved(t: crate::components::Transform, v: Vec2) -> crate::components::Transform {
    crate::components::Transform {
        pos: Vec2 {
            x: clamp(t.pos.x + v.x, LIMIT as int) as i64,
            y: clamp(t.pos.y + v.y, LIMIT as int) as i64,
        },
        ..t
    }
}

/// Adds `f` to the force of `e`, kept within the force bound; `None` when
/// `e` has no motion state.
pub fn apply_force(world: &mut World, e: Entity, f: Vec2) -> (r: Option<()>)
    requires
        old(world).wf(),
    ensures
        final(world).wf(),
        motion_only(*old(world), *final(world)),
        !old(world).translation.contains(e) ==> r is None && *final(world) == *old(world),
        old(world).translation.contains(e) ==> r is Some && final(world).translation.comps()
            == old(world).translation.comps().update(
            old(world).translation.ents().index_of(e),
            Translation {
                force: Vec2 {
                    x: clamp(comp_of(old(world).translation, e).force.x + f.x, FORCE_LIMIT as int) as i64,
                    y: clamp(comp_of(old(world).translation, e).force.y + f.y, FORCE_LIMIT as int) as i64,
                },
                ..comp_of(old(world).translation, e)
            },
        ),
{
    let t = match world.translation.get(e) {
        Some(t) => *t,
        None => return None,
    };
    proof {
        world.lemma_entity_bounds(e);
        world.translation.lemma_contains_index(e);
    }
    let force = Vec2 {
        x: clamp_exec(t.force.x as i128 + f.x as i128, FORCE_LIMIT),
        y: clamp_exec(t.force.y as i128 + f.y as i128, FORCE_LIMIT),
    };
    let _ = world.translation.set(e, Translation { force, ..t });
    proof {

        assert forall|j: int| 0 <= j < world.translation.comps().len() implies (#[trigger] world.translation.comps()[j]).wf() by {
            assert(old(world).translation.comps()[j].wf());
        }
    }
    Some(())
}

/// Adds `v` to the velocity of `e`, each component then capped by `limit`
/// (see `clamp_toward_zero`) and kept within the velocity bound; `None` when
/// `e` has no motion state.
pub fn apply_vel(world: &mut World, e: Entity, v: Vec2, limit: Option<i64>) -> (r: Option<()>)
    requires
        old(world).wf(),
    ensures
        final(world).wf(),
        motion_only(*old(world), *final(world)),
        !old(world).translation.contains(e) ==> r is None && *final(world) == *old(world),
        old(world).translation.contains(e) ==> r is Some && final(world).translation.comps()
            == old(world).translation.comps().update(
            old(world).translation.ents().index_of(e),
            Translation {
                lin_vel: Vec2 {
                    x: limited(comp_of(old(world).translation, e).lin_vel.x + v.x, limit),
                    y: limited(comp_of(old(world).translation, e).lin_vel.y + v.y, limit),
                },
                ..comp_of(old(world).translation, e)
            },
        ),
{
    let t = match world.translation.get(e) {
        Some(t) => *t,
        None => return None,
    };
    proof {
        world.lemma_entity_bounds(e);
        world.translation.lemma_contains_index(e);
    }
    let lin_vel = Vec2 {
        x: limited_exec(t.lin_vel.x as i128 + v.x as i128, limit),
        y: limited_exec(t.lin_vel.y as i128 + v.y as i128, limit),
    };
    let _ = world.translation.set(e, Translation { lin_vel, ..t });
    proof {
        assert forall|j: int| 0 <= j < world.translation.comps().len() implies (#[trigger] world.translation.comps()[j]).wf() by {
            assert(old(world).translation.comps()[j].wf());
        }
    }
    Some(())
}

/// A velocity component after capping by `limit` and by the velocity bound.
pub open spec fn limited(value: int, limit: Option<i64>) -> i64 {
    clamp(clamp_toward_zero_spec(clamp(value, LIMIT as int), limit), LIMIT as int) as i64
}

fn limited_exec(value: i128, limit: Option<i64>) -> (r: i64)
    ensures
        r == limited(value as int, limit),
{
    let v = clamp_exec(value, LIMIT);
    let c = clamp_toward_zero(v, limit);
    clamp_exec(c as i128, LIMIT)
}

/// Adds `dv` to one velocity component of `e`, capped by `limit`; `None` when
/// `e` has no motion state.
pub fn apply_axis_lin_vel(world: &mut World, e: Entity, dv: i64, limit: Option<i64>, axis: Axis) -> (r: Option<()>)
    requires
        old(world).wf(),
    ensures
        final(world).wf(),
        motion_only(*old(world), *final(world)),
        !old(world).translation.contains(e) ==> r is None && *final(world) == *old(world),
        old(world).translation.contains(e) ==> r is Some && final(world).translation.comps()
            == old(world).translation.comps().update(
            old(world).translation.ents().index_of(e),
            Translation {
                lin_vel: match axis {
                    Axis::X => Vec2 {
                        x: limited(comp_of(old(world).translation, e).lin_vel.x + dv, limit),
                        ..comp_of(old(world).translation, e).lin_vel
                    },
                    Axis::Y => Vec2 {
                        y: limited(comp_of(old(world).translation, e).lin_vel.y + dv, limit),
                        ..comp_of(old(world).translation, e).lin_vel
                    },
                },
                ..comp_of(old(world).translation, e)
            },
        ),
{
    let t = match world.translation.get(e) {
        Some(t) => *t,
        None => return None,
    };
    proof {
        world.lemma_entity_bounds(e);
        world.translation.lemma_contains_index(e);
    }
    let lin_vel = match axis {
        Axis::X => Vec2 { x: limited_exec(t.lin_vel.x as i128 + dv as i128, limit), ..t.lin_vel },
        Axis::Y => Vec2 { y: limited_exec(t.lin_vel.y as i128 + dv as i128, limit), ..t.lin_vel },
    };
    let _ = world.translation.set(e, Translation { lin_vel, ..t });
    proof {
        assert forall|j: int| 0 <= j < world.translation.comps().len() implies (#[trigger] world.translation.comps()[j]).wf() by {
            assert(old(world).translation.comps()[j].wf());
        }
    }
    Some(())
}

/// Adds `df` to one force component of `e`, capped by `limit` and by the force
/// bound; `None` when `e` has no motion state.
pub fn apply_axis_force(world: &mut World, e: Entity, df: i64, limit: Option<i64>, axis: Axis) -> (r: Option<()>)
    requires
        old(world).wf(),
    ensures
        final(world).wf(),
        motion_only(*old(world), *final(world)),
        !old(world).translation.contains(e) ==> r is None && *final(world) == *old(world),
        old(world).translation.contains(e) ==> r is Some && final(world).translation.comps()
            == old(world).translation.comps().update(
            old(world).translation.ents().index_of(e),
            Translation {
                force: match axis {
                    Axis::X => Vec2 {
                        x: clamp(
                            clamp_toward_zero_spec(
                                clamp(comp_of(old(world).translation, e).force.x + df, FORCE_LIMIT as int),
                                limit,
                            ),
                            FORCE_LIMIT as int,
                        ) as i64,
                        ..comp_of(old(world).translation, e).force
                    },
                    Axis::Y => Vec2 {
                        y: clamp(
                            clamp_toward_zero_spec(
                                clamp(comp_of(old(world).translation, e).force.y + df, FORCE_LIMIT as int),
                                limit,
                            ),
                            FORCE_LIMIT as int,
                        ) as i64,
                        ..comp_of(old(world).translation, e).force
                    },
                },
                ..comp_of(old(world).translation, e)
            },
        ),
{
    let t = match world.translation.get(e) {
        Some(t) => *t,
        None => return None,
    };
    proof {
        world.lemma_entity_bounds(e);
        world.translation.lemma_contains_index(e);
    }
    let force = match axis {
        Axis::X => {
            let c = clamp_toward_zero(clamp_exec(t.force.x as i128 + df as i128, FORCE_LIMIT), limit);
            Vec2 { x: clamp_exec(c as i128, FORCE_LIMIT), ..t.force }
        },
        Axis::Y => {
            let c = clamp_toward_zero(clamp_exec(t.force.y as i128 + df as i128, FORCE_LIMIT), limit);
            Vec2 { y: clamp_exec(c as i128, FORCE_LIMIT), ..t.force }
        },
    };
    let _ = world.translation.set(e, Translation { force, ..t });
    proof {
        assert forall|j: int| 0 <= j < world.translation.comps().len() implies (#[trigger] world.translation.comps()[j]).wf() by {
            assert(old(world).translation.comps()[j].wf());
        }
    }
    Some(())
}

} // verus!
