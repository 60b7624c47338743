use vstd::prelude::*;

use crate::algebra::Vec2;
use crate::collision::{check_collision, collision_spec};
use crate::components::Translation;
use crate::entities::Entity;
use crate::reaction::{normal_ok, react, react_spec};
use crate::storage::SparseSet;
use crate::swept::{generate_swept_shape, swept_axes, swept_points};
use crate::world::World;

verus! {

/// The component `e` holds in store `s`.
pub open spec fn comp_of<T>(s: SparseSet<T>, e: Entity) -> T {
    s.comps()[s.ents().index_of(e)]
}

/// Only the motion states changed, and their owners stayed the same.
pub open spec fn only_motion_changed(w0: World, w1: World) -> bool {
    &&& w1.transform == w0.transform
    &&& w1.surface == w0.surface
    &&& w1.shape == w0.shape
    &&& w1.material == w0.material
    &&& w1.translation.ents() == w0.translation.ents()
}

/// The motion state of `e` among the motion states `tr` (parallel to the
/// owners of `w`'s motion store).
pub open spec fn motion_of(w: World, tr: Seq<Translation>, e: Entity) -> Translation {
    tr[w.translation.ents().index_of(e)]
}

/// The motion states after resolving one contact between `e1` (dynamic) and
/// `e2`, with normal `n`.
pub open spec fn reacted_in(w: World, tr: Seq<Translation>, e1: Entity, e2: Entity, n: Vec2) -> Seq<
    Translation,
> {
    let t2 = if w.translation.contains(e2) {
        Some(motion_of(w, tr, e2))
    } else {
        None
    };
    let (n1, n2) = react_spec(
        motion_of(w, tr, e1),
        t2,
        comp_of(w.surface, e1),
        comp_of(w.surface, e2),
        n,
    );
    let c = tr.update(w.translation.ents().index_of(e1), n1);
    match n2 {
        Some(t) => c.update(w.translation.ents().index_of(e2), t),
        None => c,
    }
}

/// `e` has everything a dynamic body needs.
pub open spec fn dynamic_body(w: World, e: Entity) -> bool {
    &&& w.transform.contains(e)
    &&& w.translation.contains(e)
    &&& w.surface.contains(e)
    &&& w.shape.contains(e)
}

/// `e2` is another entity that a dynamic `e1` can collide with.
pub open spec fn partner(w: World, e1: Entity, e2: Entity) -> bool {
    &&& e1 != e2
    &&& w.transform.contains(e2)
    &&& w.surface.contains(e2)
    &&& w.shape.contains(e2)
}

/// Where `e` would be after this step at its current velocity.
pub open spec fn end_of(w: World, tr: Seq<Translation>, e: Entity) -> Vec2 {
    let p = comp_of(w.transform, e).pos;
    if w.translation.contains(e) {
        let v = motion_of(w, tr, e).lin_vel;
        Vec2 { x: (p.x + v.x) as i64, y: (p.y + v.y) as i64 }
    } else {
        p
    }
}

/// The contact normal between the swept regions of `e1` and `e2`, if any.
pub open spec fn pair_contact(w: World, tr: Seq<Translation>, e1: Entity, e2: Entity) -> Option<
    Vec2,
> {
    let s1 = comp_of(w.shape, e1);
    let s2 = comp_of(w.shape, e2);
    let a1 = comp_of(w.transform, e1).pos;
    let a2 = comp_of(w.transform, e2).pos;
    let b1 = end_of(w, tr, e1);
    let b2 = end_of(w, tr, e2);
    collision_spec(
        swept_points(s1, a1, b1),
        swept_points(s2, a2, b2),
        swept_axes(s1, a1, b1) + swept_axes(s2, a2, b2),
    )
}

/// Motion states after testing `e1` against the first `k` entities of
/// `ents`, and whether any contact was found.
pub open spec fn obj_pass(w: World, tr: Seq<Translation>, e1: Entity, ents: Seq<Entity>, k: nat) -> (
    Seq<Translation>,
    bool,
)
    decreases k,
{
    if k == 0 || k > ents.len() {
        (tr, false)
    } else {
        let (t, hit) = obj_pass(w, tr, e1, ents, (k - 1) as nat);
        let e2 = ents[k - 1];
        if partner(w, e1, e2) {
            match pair_contact(w, t, e1, e2) {
                Some(n) => (reacted_in(w, t, e1, e2, n), true),
                None => (t, hit),
            }
        } else {
            (t, hit)
        }
    }
}

/// Motion states after resolving the contacts of `e1` against all of `ents`.
pub open spec fn obj_step(w: World, tr: Seq<Translation>, e1: Entity, ents: Seq<Entity>) -> (
    Seq<Translation>,
    bool,
) {
    if dynamic_body(w, e1) {
        obj_pass(w, tr, e1, ents, ents.len())
    } else {
        (tr, false)
    }
}

/// One pass of the solver over the first `k` entities of `ents`.
pub open spec fn full_pass(w: World, tr: Seq<Translation>, ents: Seq<Entity>, k: nat) -> (
    Seq<Translation>,
    bool,
)
    decreases k,
{
    if k == 0 || k > ents.len() {
        (tr, false)
    } else {
        let (t, hit) = full_pass(w, tr, ents, (k - 1) as nat);
        let (t2, hit2) = obj_step(w, t, ents[k - 1], ents);
        (t2, hit || hit2)
    }
}

/// The motion states after at most `iters` passes, stopping after a pass
/// without contact.
pub open spec fn solve(w: World, tr: Seq<Translation>, ents: Seq<Entity>, iters: nat) -> Seq<
    Translation,
>
    decreases iters,
{
    if iters == 0 {
        tr
    } else {
        let (t, hit) = full_pass(w, tr, ents, ents.len());
        if !hit {
            t
        } else {
            solve(w, t, ents, (iters - 1) as nat)
        }
    }
}

/// Key entities by their y position, in storage order.
pub open spec fn keyed(w: World) -> Seq<(i64, Entity)> {
    Seq::new(
        w.transform.ents().len(),
        |i: int| (w.transform.comps()[i].pos.y, w.transform.ents()[i]),
    )
}

/// Where `x` goes: after the last element, counted from the back, whose key
/// is at most `x`'s.
pub open spec fn key_pos(s: Seq<(i64, Entity)>, x: (i64, Entity)) -> int
    decreases s.len(),
{
    if s.len() == 0 {
        0
    } else if s.last().0 <= x.0 {
        s.len() as int
    } else {
        key_pos(s.drop_last(), x)
    }
}

/// `s` sorted by key, keeping the order of equal keys.
pub open spec fn sort_keyed(s: Seq<(i64, Entity)>) -> Seq<(i64, Entity)>
    decreases s.len(),
{
    if s.len() == 0 {
        s
    } else {
        let t = sort_keyed(s.drop_last());
        t.insert(key_pos(t, s.last()), s.last())
    }
}

/// The order in which the solver visits entities.
pub open spec fn visit_order(w: World, sort: bool) -> Seq<Entity> {
    if sort {
        sort_keyed(keyed(w)).map_values(|p: (i64, Entity)| p.1)
    } else {
        w.transform.ents()
    }
}

/// The two worlds hold the same entities with the same components in every
/// store (motion states aside, whose owners are the same).
pub open spec fn same_view(w0: World, w1: World) -> bool {
    &&& w1.transform.ents() == w0.transform.ents()
    &&& w1.transform.comps() == w0.transform.comps()
    &&& w1.surface.ents() == w0.surface.ents()
    &&& w1.surface.comps() == w0.surface.comps()
    &&& w1.shape.ents() == w0.shape.ents()
    &&& w1.shape.comps() == w0.shape.comps()
    &&& w1.translation.ents() == w0.translation.ents()
}

/// `obj_pass` reads only what a solver step leaves unchanged.
proof fn lemma_obj_pass_frame(
    w0: World,
    w1: World,
    tr: Seq<Translation>,
    e1: Entity,
    ents: Seq<Entity>,
    k: nat,
)
    requires
        same_view(w0, w1),
    ensures
        obj_pass(w0, tr, e1, ents, k) == obj_pass(w1, tr, e1, ents, k),
    decreases k,
{
    if k > 0 && k <= ents.len() {
        lemma_obj_pass_frame(w0, w1, tr, e1, ents, (k - 1) as nat);
        let t = obj_pass(w0, tr, e1, ents, (k - 1) as nat).0;
        let e2 = ents[k - 1];
        assert(pair_contact(w0, t, e1, e2) == pair_contact(w1, t, e1, e2));
        assert(partner(w0, e1, e2) == partner(w1, e1, e2));
        assert(forall|n: Vec2| reacted_in(w0, t, e1, e2, n) == reacted_in(w1, t, e1, e2, n));
    }
}

proof fn lemma_full_pass_frame(w0: World, w1: World, tr: Seq<Translation>, ents: Seq<Entity>, k: nat)
    requires
        same_view(w0, w1),
    ensures
        full_pass(w0, tr, ents, k) == full_pass(w1, tr, ents, k),
    decreases k,
{
    if k > 0 && k <= ents.len() {
        lemma_full_pass_frame(w0, w1, tr, ents, (k - 1) as nat);
        let t = full_pass(w0, tr, ents, (k - 1) as nat).0;
        lemma_obj_pass_frame(w0, w1, t, ents[k - 1], ents, ents.len());
        assert(dynamic_body(w0, ents[k - 1]) == dynamic_body(w1, ents[k - 1]));
    }
}

proof fn lemma_solve_frame(w0: World, w1: World, tr: Seq<Translation>, ents: Seq<Entity>, iters: nat)
    requires
        same_view(w0, w1),
    ensures
        solve(w0, tr, ents, iters) == solve(w1, tr, ents, iters),
    decreases iters,
{
    if iters > 0 {
        lemma_full_pass_frame(w0, w1, tr, ents, ents.len());
        let t = full_pass(w0, tr, ents, ents.len()).0;
        lemma_solve_frame(w0, w1, t, ents, (iters - 1) as nat);
    }
}

/// The positions after one step: each entity with a motion state moved by its
/// velocity in `tr`.
pub open spec fn stepped_positions(w: World, tr: Seq<Translation>) -> Seq<crate::components::Transform> {
    Seq::new(
        w.transform.comps().len(),
        |j: int|
            if w.translation.contains(w.transform.ents()[j]) {
                crate::dynamics::moved(
                    w.transform.comps()[j],
                    motion_of(w, tr, w.transform.ents()[j]).lin_vel,
                )
            } else {
                w.transform.comps()[j]
            },
    )
}

/// Determinism: from two snapshots holding the same entities with the same
/// components, the solver leaves the same motion states, and the position
/// update that follows gives the same positions.
pub proof fn lemma_solver_deterministic(w1: World, w2: World, sort: bool, iters: nat)
    requires
        same_view(w1, w2),
        w1.translation.comps() == w2.translation.comps(),
    ensures
        solve(w1, w1.translation.comps(), visit_order(w1, sort), iters) == solve(
            w2,
            w2.translation.comps(),
            visit_order(w2, sort),
            iters,
        ),
        stepped_positions(w1, solve(w1, w1.translation.comps(), visit_order(w1, sort), iters))
            == stepped_positions(
            w2,
            solve(w2, w2.translation.comps(), visit_order(w2, sort), iters),
        ),
{
    assert(keyed(w1) =~= keyed(w2));
    assert(visit_order(w1, sort) == visit_order(w2, sort));
    lemma_solve_frame(w1, w2, w1.translation.comps(), visit_order(w1, sort), iters);
    let t = solve(w1, w1.translation.comps(), visit_order(w1, sort), iters);
    assert(stepped_positions(w1, t) =~= stepped_positions(w2, t));
}

/// Applies the reaction of one contact to the world's motion states.
fn compute_reaction(world: &mut World, e1: Entity, e2: Entity, n: Vec2)
    requires
        old(world).wf(),
        old(world).translation.contains(e1),
        old(world).surface.contains(e1),
        old(world).surface.contains(e2),
        e1 != e2,
        normal_ok(n),
    ensures
        final(world).wf(),
        only_motion_changed(*old(world), *final(world)),
        final(world).translation.comps() == reacted_in(
            *old(world),
            old(world).translation.comps(),
            e1,
            e2,
            n,
        ),
{
    proof {
        world.translation.lemma_ents_unique();
    }
    let t1 = match world.translation.get(e1) {
        Some(t) => *t,
        None => return,
    };
    let t2 = match world.translation.get(e2) {
        Some(t) => Some(*t),
        None => None,
    };
    let s1 = match world.surface.get(e1) {
        Some(s) => *s,
        None => return,
    };
    let s2 = match world.surface.get(e2) {
        Some(s) => *s,
        None => return,
    };
    let ghost w0 = *world;
    let (n1, n2) = react(t1, t2, s1, s2, n);
    let _ = world.translation.set(e1, n1);
    if let Some(t) = n2 {
        let _ = world.translation.set(e2, t);
    }
    proof {
        let i1 = w0.translation.ents().index_of(e1);
        assert(world.translation.comps()[i1].wf());
        assert forall|i: int|
            0 <= i < world.translation.comps().len() implies (#[trigger] world.translation.comps()[i]).wf() by {
            assert(w0.translation.comps()[i].wf());
        }
    }
}

/// Resolves the collisions of one entity against all of `ents`; returns
/// whether it met none.
fn resolve_obj_collisions(world: &mut World, e1: Entity, ents: &Vec<Entity>) -> (solved: bool)
    requires
        old(world).wf(),
    ensures
        final(world).wf(),
        only_motion_changed(*old(world), *final(world)),
        (final(world).translation.comps(), !solved) == obj_step(
            *old(world),
            old(world).translation.comps(),
            e1,
            ents@,
        ),
{
    let ghost w0 = *world;
    let pos_1 = match world.transform.get(e1) {
        Some(t) => t.pos,
        None => return true,
    };
    if world.translation.get(e1).is_none() || world.surface.get(e1).is_none()
        || world.shape.get(e1).is_none() {
        return true;
    }
    let mut solved = true;
    let mut k: usize = 0;
    while k < ents.len()
        invariant
            world.wf(),
            only_motion_changed(w0, *world),
            dynamic_body(w0, e1),
            pos_1 == comp_of(w0.transform, e1).pos,
            0 <= k <= ents.len(),
            (world.translation.comps(), !solved) == obj_pass(
                w0,
                w0.translation.comps(),
                e1,
                ents@,
                k as nat,
            ),
        decreases ents.len() - k,
    {
        let e2 = ents[k];
        let ghost tr = world.translation.comps();
        k = k + 1;
        proof {
            world.lemma_entity_bounds(e1);
            world.lemma_entity_bounds(e2);
        }
        if e1 == e2 {
            continue;
        }
        let pos_2 = match world.transform.get(e2) {
            Some(t) => t.pos,
            None => continue,
        };
        if world.surface.get(e2).is_none() {
            continue;
        }
        let normal = {
            let shape_2 = match world.shape.get(e2) {
                Some(s) => s,
                None => continue,
            };
            let shape_1 = match world.shape.get(e1) {
                Some(s) => s,
                None => continue,
            };
            let vel_1 = match world.translation.get(e1) {
                Some(t) => t.lin_vel,
                None => continue,
            };
            let end_2 = match world.translation.get(e2) {
                Some(t) => Vec2 { x: pos_2.x + t.lin_vel.x, y: pos_2.y + t.lin_vel.y },
                None => pos_2,
            };
            let end_1 = Vec2 { x: pos_1.x + vel_1.x, y: pos_1.y + vel_1.y };
            assert(end_1 == end_of(w0, tr, e1));
            assert(end_2 == end_of(w0, tr, e2));
            let swept_1 = generate_swept_shape(pos_1, end_1, shape_1);
            let swept_2 = generate_swept_shape(pos_2, end_2, shape_2);
            check_collision(&swept_1, &swept_2)
        };
        assert(normal == pair_contact(w0, tr, e1, e2));
        if let Some(n) = normal {
            solved = false;
            compute_reaction(world, e1, e2, n);
        }
    }
    solved
}

/// Entities that have a position, ordered by ascending y (top of the screen
/// first); entities at the same height keep their storage order.
fn sort_objs_by_y(world: &World) -> (r: Vec<Entity>)
    requires
        world.wf(),
    ensures
        r@ == visit_order(*world, true),
{
    let n = world.transform.len();
    let mut sorted: Vec<(i64, Entity)> = Vec::new();
    let mut k: usize = 0;
    while k < n
        invariant
            world.wf(),
            n == world.transform.ents().len(),
            n == world.transform.comps().len(),
            0 <= k <= n,
            sorted@ == sort_keyed(keyed(*world).subrange(0, k as int)),
        decreases n - k,
    {
        let x = (world.transform.get_at(k).pos.y, world.transform.entity_at(k));
        let mut p: usize = sorted.len();
        assert(sorted@.subrange(0, p as int) =~= sorted@);
        while p > 0 && sorted[p - 1].0 > x.0
            invariant
                0 <= p <= sorted.len(),
                0 <= k < n,
                n == world.transform.ents().len(),
                n == world.transform.comps().len(),
                x == keyed(*world)[k as int],
                sorted@ == sort_keyed(keyed(*world).subrange(0, k as int)),
                key_pos(sorted@, x) == key_pos(sorted@.subrange(0, p as int), x),
            decreases p,
        {
            assert(sorted@.subrange(0, p as int).drop_last() =~= sorted@.subrange(0, p - 1));
            p = p - 1;
        }
        proof {
            if p > 0 {
                assert(sorted@.subrange(0, p as int).last() == sorted@[p - 1]);
            }
            assert(key_pos(sorted@.subrange(0, p as int), x) == p);
            assert(keyed(*world).subrange(0, k + 1).drop_last() =~= keyed(*world).subrange(0, k as int));
            assert(keyed(*world).subrange(0, k + 1).last() == x);
        }
        sorted.insert(p, x);
        k = k + 1;
    }
    assert(keyed(*world).subrange(0, n as int) =~= keyed(*world));
    let mut r: Vec<Entity> = Vec::new();
    let mut i: usize = 0;
    while i < sorted.len()
        invariant
            0 <= i <= sorted.len(),
            r@ == sorted@.subrange(0, i as int).map_values(|p: (i64, Entity)| p.1),
        decreases sorted.len() - i,
    {
        r.push(sorted[i].1);
        i = i + 1;
        assert(r@ =~= sorted@.subrange(0, i as int).map_values(|p: (i64, Entity)| p.1));
    }
    assert(sorted@.subrange(0, sorted.len() as int) =~= sorted@);
    r
}

/// Runs the collision solver for at most `iters` passes: every dynamic
/// entity is tested against every other entity with a position, surface and
/// shape, and each contact found is resolved. Stops early after a pass with
/// no contact. With `sort`, entities are visited from the top of the screen
/// down.
pub fn resolve_collisions(world: &mut World, sort: bool, iters: usize)
    requires
        old(world).wf(),
    ensures
        final(world).wf(),
        only_motion_changed(*old(world), *final(world)),
        final(world).translation.comps() == solve(
            *old(world),
            old(world).translation.comps(),
            visit_order(*old(world), sort),
            iters as nat,
        ),
{
    let ghost w0 = *world;
    let ents = if sort {
        sort_objs_by_y(world)
    } else {
        world.transform.get_ents()
    };
    let mut it: usize = 0;
    let mut done = false;
    while it < iters && !done
        invariant
            world.wf(),
            only_motion_changed(w0, *world),
            ents@ == visit_order(w0, sort),
            0 <= it <= iters,
            !done ==> solve(w0, world.translation.comps(), ents@, (iters - it) as nat) == solve(
                w0,
                w0.translation.comps(),
                ents@,
                iters as nat,
            ),
            done ==> world.translation.comps() == solve(
                w0,
                w0.translation.comps(),
                ents@,
                iters as nat,
            ),
        decreases iters - it,
    {
        let ghost start = world.translation.comps();
        let mut solved = true;
        let mut k: usize = 0;
        while k < ents.len()
            invariant
                world.wf(),
                only_motion_changed(w0, *world),
                0 <= k <= ents.len(),
                (world.translation.comps(), !solved) == full_pass(w0, start, ents@, k as nat),
            decreases ents.len() - k,
        {
            let ghost before = world.translation.comps();
            let ghost wb = *world;
            let ok = resolve_obj_collisions(world, ents[k], &ents);
            proof {
                lemma_obj_pass_frame(w0, wb, before, ents@[k as int], ents@, ents@.len());
                assert(dynamic_body(w0, ents@[k as int]) == dynamic_body(wb, ents@[k as int]));
                assert(obj_step(wb, before, ents@[k as int], ents@) == obj_step(w0, before, ents@[k as int], ents@));
            }
            if !ok {
                solved = false;
            }
            k = k + 1;
        }
        if solved {
            done = true;
        }
        it = it + 1;
    }
}

} // verus!
