use vstd::prelude::*;

use crate::algebra::LIMIT;
use crate::components::{Material, Surface, Transform, Translation};
use crate::dynamics::FORCE_LIMIT;
use crate::entities::{Entity, EntityManager};
use crate::error::{ComponentError, EngineError, MathError, Quantity};
use crate::geometry::{Shape, MAX_VERTS};
use crate::storage::SparseSet;
use crate::swept::local_points;
use crate::world::World;

verus! {

/// One component of a scene description, ready to be attached to an entity.
#[derive(Clone, Debug)]
pub enum Component {
    Transform(Transform),
    Translation(Translation),
    Surface(Surface),
    Shape(Shape),
    Material(Material),
}

/// Whether a component can enter the world, and if not, why.
pub open spec fn admissible(c: Component) -> Result<(), EngineError> {
    match c {
        Component::Transform(t) => if t.pos.bounded(LIMIT as int) {
            Ok(())
        } else {
            Err(EngineError::MathError(MathError::OutOfRange(Quantity::Position)))
        },
        Component::Translation(t) => if t.mass == 0 {
            Err(EngineError::MathError(MathError::NonPositive(Quantity::Mass)))
        } else if !t.lin_vel.bounded(LIMIT as int) {
            Err(EngineError::MathError(MathError::OutOfRange(Quantity::Velocity)))
        } else if !t.force.bounded(FORCE_LIMIT as int) {
            Err(EngineError::MathError(MathError::OutOfRange(Quantity::Force)))
        } else {
            Ok(())
        },
        Component::Shape(s) => if !s.in_range() {
            Err(EngineError::MathError(MathError::OutOfRange(Quantity::Vertices)))
        } else {
            s.check()
        },
        _ => Ok(()),
    }
}

/// `s1` is `s0` with `c` added for `e`.
pub open spec fn placed<T>(s0: SparseSet<T>, s1: SparseSet<T>, e: Entity, c: T) -> bool {
    s1.ents() == s0.ents().push(e) && s1.comps() == s0.comps().push(c)
}

/// `s1` holds what `s0` holds.
pub open spec fn same<T>(s0: SparseSet<T>, s1: SparseSet<T>) -> bool {
    s1.ents() == s0.ents() && s1.comps() == s0.comps()
}

/// The world after an insertion attempt of `c` for `e`: `added` tells whether
/// it went in.
pub open spec fn inserted(w0: World, w1: World, e: Entity, c: Component, added: bool) -> bool {
    &&& (c is Transform && added) ==> placed(w0.transform, w1.transform, e, c->Transform_0)
    &&& !(c is Transform && added) ==> same(w0.transform, w1.transform)
    &&& (c is Translation && added) ==> placed(w0.translation, w1.translation, e, c->Translation_0)
    &&& !(c is Translation && added) ==> same(w0.translation, w1.translation)
    &&& (c is Surface && added) ==> placed(w0.surface, w1.surface, e, c->Surface_0)
    &&& !(c is Surface && added) ==> same(w0.surface, w1.surface)
    &&& (c is Shape && added) ==> placed(w0.shape, w1.shape, e, c->Shape_0)
    &&& !(c is Shape && added) ==> same(w0.shape, w1.shape)
    &&& (c is Material && added) ==> placed(w0.material, w1.material, e, c->Material_0)
    &&& !(c is Material && added) ==> same(w0.material, w1.material)
}

/// Whether `e` already holds a component of the kind of `c`.
pub open spec fn holds_kind(w: World, e: Entity, c: Component) -> bool {
    match c {
        Component::Transform(_) => w.transform.contains(e),
        Component::Translation(_) => w.translation.contains(e),
        Component::Surface(_) => w.surface.contains(e),
        Component::Shape(_) => w.shape.contains(e),
        Component::Material(_) => w.material.contains(e),
    }
}

/// Whether a shape is within the coordinate and vertex-count bounds.
pub fn shape_in_range(s: &Shape) -> (r: bool)
    ensures
        r == s.in_range(),
{
    let pts = local_points(s);
    if pts.len() > MAX_VERTS {
        return false;
    }
    let mut k: usize = 0;
    while k < pts.len()
        invariant
            0 <= k <= pts.len(),
            pts@ == s.local_points(),
            forall|j: int| 0 <= j < k ==> (#[trigger] pts@[j]).bounded(LIMIT as int),
        decreases pts.len() - k,
    {
        let p = pts[k];
        if !(-LIMIT <= p.x && p.x <= LIMIT && -LIMIT <= p.y && p.y <= LIMIT) {
            assert(!pts@[k as int].bounded(LIMIT as int));
            return false;
        }
        k = k + 1;
    }
    true
}

fn check_component(c: &Component) -> (r: Result<(), EngineError>)
    ensures
        r == admissible(*c),
{
    match c {
        Component::Transform(t) => {
            if -LIMIT <= t.pos.x && t.pos.x <= LIMIT && -LIMIT <= t.pos.y && t.pos.y <= LIMIT {
                Ok(())
            } else {
                Err(EngineError::MathError(MathError::OutOfRange(Quantity::Position)))
            }
        },
        Component::Translation(t) => {
            if t.mass == 0 {
                Err(EngineError::MathError(MathError::NonPositive(Quantity::Mass)))
            } else if !(-LIMIT <= t.lin_vel.x && t.lin_vel.x <= LIMIT && -LIMIT <= t.lin_vel.y
                && t.lin_vel.y <= LIMIT) {
                Err(EngineError::MathError(MathError::OutOfRange(Quantity::Velocity)))
            } else if !(-FORCE_LIMIT <= t.force.x && t.force.x <= FORCE_LIMIT && -FORCE_LIMIT
                <= t.force.y && t.force.y <= FORCE_LIMIT) {
                Err(EngineError::MathError(MathError::OutOfRange(Quantity::Force)))
            } else {
                Ok(())
            }
        },
        Component::Shape(s) => {
            if !shape_in_range(s) {
                Err(EngineError::MathError(MathError::OutOfRange(Quantity::Vertices)))
            } else {
                s.validate()
            }
        },
        _ => Ok(()),
    }
}

fn already(e: Entity) -> (r: EngineError)
    ensures
        r == EngineError::ComponentError(ComponentError::AlreadyExistingComponent(e)),
{
    EngineError::ComponentError(ComponentError::AlreadyExistingComponent(e))
}

/// Attaches `c` to `e` after checking it: a component that is invalid or out
/// of range, or of a kind `e` already holds, is refused and nothing changes.
pub fn insert_component(world: &mut World, e: Entity, c: Component) -> (r: Result<(), EngineError>)
    requires
        old(world).wf(),
    ensures
        final(world).wf(),
        admissible(c) is Err ==> r == admissible(c) && inserted(*old(world), *final(world), e, c, false),
        admissible(c) is Ok && holds_kind(*old(world), e, c) ==> r == Err::<(), EngineError>(
            EngineError::ComponentError(ComponentError::AlreadyExistingComponent(e)),
        ) && inserted(*old(world), *final(world), e, c, false),
        admissible(c) is Ok && !holds_kind(*old(world), e, c) ==> r is Ok && inserted(
            *old(world),
            *final(world),
            e,
            c,
            true,
        ),
{
    if let Err(err) = check_component(&c) {
        return Err(err);
    }
    let res = match c {
        Component::Transform(t) => world.transform.insert(e, t),
        Component::Translation(t) => world.translation.insert(e, t),
        Component::Surface(s) => world.surface.insert(e, s),
        Component::Shape(s) => world.shape.insert(e, s),
        Component::Material(m) => world.material.insert(e, m),
    };
    proof {
        assert forall|i: int| 0 <= i < world.transform.comps().len() implies (#[trigger] world.transform.comps()[i]).pos.bounded(LIMIT as int) by {
            if i < old(world).transform.comps().len() {
                assert(old(world).transform.comps()[i].pos.bounded(LIMIT as int));
            }
        }
        assert forall|i: int| 0 <= i < world.translation.comps().len() implies (#[trigger] world.translation.comps()[i]).wf() by {
            if i < old(world).translation.comps().len() {
                assert(old(world).translation.comps()[i].wf());
            }
        }
        assert forall|i: int| 0 <= i < world.shape.comps().len() implies (#[trigger] world.shape.comps()[i]).sound() by {
            if i < old(world).shape.comps().len() {
                assert(old(world).shape.comps()[i].sound());
            }
        }
    }
    match res {
        Ok(()) => Ok(()),
        Err(_) => Err(already(e)),
    }
}

/// Which store a component goes to.
pub open spec fn kind_of(c: Component) -> int {
    match c {
        Component::Transform(_) => 0,
        Component::Translation(_) => 1,
        Component::Surface(_) => 2,
        Component::Shape(_) => 3,
        Component::Material(_) => 4,
    }
}

/// The entities of `s` whose component is of kind `kind`, in order.
pub open spec fn kind_ents(s: Seq<(Entity, Component)>, kind: int) -> Seq<Entity>
    decreases s.len(),
{
    if s.len() == 0 {
        Seq::empty()
    } else {
        let p = kind_ents(s.drop_last(), kind);
        if kind_of(s.last().1) == kind {
            p.push(s.last().0)
        } else {
            p
        }
    }
}

pub open spec fn transforms_in(s: Seq<(Entity, Component)>) -> Seq<Transform>
    decreases s.len(),
{
    if s.len() == 0 {
        Seq::empty()
    } else {
        let p = transforms_in(s.drop_last());
        match s.last().1 {
            Component::Transform(t) => p.push(t),
            _ => p,
        }
    }
}

pub open spec fn translations_in(s: Seq<(Entity, Component)>) -> Seq<Translation>
    decreases s.len(),
{
    if s.len() == 0 {
        Seq::empty()
    } else {
        let p = translations_in(s.drop_last());
        match s.last().1 {
            Component::Translation(t) => p.push(t),
            _ => p,
        }
    }
}

pub open spec fn surfaces_in(s: Seq<(Entity, Component)>) -> Seq<Surface>
    decreases s.len(),
{
    if s.len() == 0 {
        Seq::empty()
    } else {
        let p = surfaces_in(s.drop_last());
        match s.last().1 {
            Component::Surface(t) => p.push(t),
            _ => p,
        }
    }
}

pub open spec fn shapes_in(s: Seq<(Entity, Component)>) -> Seq<Shape>
    decreases s.len(),
{
    if s.len() == 0 {
        Seq::empty()
    } else {
        let p = shapes_in(s.drop_last());
        match s.last().1 {
            Component::Shape(t) => p.push(t),
            _ => p,
        }
    }
}

pub open spec fn materials_in(s: Seq<(Entity, Component)>) -> Seq<Material>
    decreases s.len(),
{
    if s.len() == 0 {
        Seq::empty()
    } else {
        let p = materials_in(s.drop_last());
        match s.last().1 {
            Component::Material(t) => p.push(t),
            _ => p,
        }
    }
}

/// Why the `k`-th component of `s` is refused once the ones before it went in
/// (`None` when it goes in): it is not admissible, or its entity already holds
/// that kind, in `w` or earlier in `s`.
pub open spec fn refusal(w: World, s: Seq<(Entity, Component)>, k: int) -> Option<EngineError> {
    let e = s[k].0;
    let c = s[k].1;
    match admissible(c) {
        Err(x) => Some(x),
        Ok(_) => if holds_kind(w, e, c) || kind_ents(s.take(k), kind_of(c)).contains(e) {
            Some(EngineError::ComponentError(ComponentError::AlreadyExistingComponent(e)))
        } else {
            None
        },
    }
}

/// How many of the first `k` components of `s` go in before the first refusal.
pub open spec fn accepted(w: World, s: Seq<(Entity, Component)>, k: nat) -> nat
    decreases k,
{
    if k == 0 {
        0
    } else {
        let a = accepted(w, s, (k - 1) as nat);
        if a == k - 1 && refusal(w, s, k - 1) is None {
            k
        } else {
            a
        }
    }
}

/// `w1`'s stores are `w0`'s with the components of `s` pushed in order.
pub open spec fn loaded(w0: World, w1: World, s: Seq<(Entity, Component)>) -> bool {
    &&& w1.transform.ents() == w0.transform.ents() + kind_ents(s, 0)
    &&& w1.transform.comps() == w0.transform.comps() + transforms_in(s)
    &&& w1.translation.ents() == w0.translation.ents() + kind_ents(s, 1)
    &&& w1.translation.comps() == w0.translation.comps() + translations_in(s)
    &&& w1.surface.ents() == w0.surface.ents() + kind_ents(s, 2)
    &&& w1.surface.comps() == w0.surface.comps() + surfaces_in(s)
    &&& w1.shape.ents() == w0.shape.ents() + kind_ents(s, 3)
    &&& w1.shape.comps() == w0.shape.comps() + shapes_in(s)
    &&& w1.material.ents() == w0.material.ents() + kind_ents(s, 4)
    &&& w1.material.comps() == w0.material.comps() + materials_in(s)
}

proof fn lemma_accepted_le(w: World, s: Seq<(Entity, Component)>, k: nat)
    ensures
        accepted(w, s, k) <= k,
    decreases k,
{
    if k > 0 {
        lemma_accepted_le(w, s, (k - 1) as nat);
    }
}

/// After a refusal, nothing more goes in.
proof fn lemma_accepted_stops(w: World, s: Seq<(Entity, Component)>, k: nat, j: nat)
    requires
        accepted(w, s, k) == k,
        refusal(w, s, k as int) is Some,
        k < j,
    ensures
        accepted(w, s, j) == k,
    decreases j,
{
    if j > k + 1 {
        lemma_accepted_stops(w, s, k, (j - 1) as nat);
    }
}

proof fn lemma_concat_contains(a: Seq<Entity>, b: Seq<Entity>, e: Entity)
    ensures
        (a + b).contains(e) == (a.contains(e) || b.contains(e)),
{
    if a.contains(e) {
        let i = choose|i: int| 0 <= i < a.len() && a[i] == e;
        assert((a + b)[i] == e);
    }
    if b.contains(e) {
        let i = choose|i: int| 0 <= i < b.len() && b[i] == e;
        assert((a + b)[a.len() + i] == e);
    }
    if (a + b).contains(e) {
        let i = choose|i: int| 0 <= i < (a + b).len() && (a + b)[i] == e;
        if i < a.len() {
            assert(a[i] == e);
        } else {
            assert(b[i - a.len()] == e);
        }
    }
}

/// One more component in the prefix.
proof fn lemma_step_lists(s: Seq<(Entity, Component)>, k: int)
    requires
        0 <= k < s.len(),
    ensures
        forall|kind: int| #[trigger] kind_ents(s.take(k + 1), kind) == if kind_of(s[k].1) == kind {
            kind_ents(s.take(k), kind).push(s[k].0)
        } else {
            kind_ents(s.take(k), kind)
        },
        transforms_in(s.take(k + 1)) == match s[k].1 {
            Component::Transform(t) => transforms_in(s.take(k)).push(t),
            _ => transforms_in(s.take(k)),
        },
        translations_in(s.take(k + 1)) == match s[k].1 {
            Component::Translation(t) => translations_in(s.take(k)).push(t),
            _ => translations_in(s.take(k)),
        },
        surfaces_in(s.take(k + 1)) == match s[k].1 {
            Component::Surface(t) => surfaces_in(s.take(k)).push(t),
            _ => surfaces_in(s.take(k)),
        },
        shapes_in(s.take(k + 1)) == match s[k].1 {
            Component::Shape(t) => shapes_in(s.take(k)).push(t),
            _ => shapes_in(s.take(k)),
        },
        materials_in(s.take(k + 1)) == match s[k].1 {
            Component::Material(t) => materials_in(s.take(k)).push(t),
            _ => materials_in(s.take(k)),
        },
{
    assert(s.take(k + 1).drop_last() =~= s.take(k));
    assert(s.take(k + 1).last() == s[k]);
}

proof fn lemma_push_assoc<T>(a: Seq<T>, b: Seq<T>, x: T)
    ensures
        (a + b).push(x) == a + b.push(x),
{
    assert((a + b).push(x) =~= a + b.push(x));
}

/// Attaches every component of a scene description in order, stopping at the
/// first refusal. On success returns the entities named, each once, in order
/// of first appearance, and makes the entity manager continue after the
/// largest of them.
pub fn load_components(
    world: &mut World,
    entity_manager: &mut EntityManager,
    comps: Vec<(Entity, Component)>,
) -> (r: Result<Vec<Entity>, EngineError>)
    requires
        old(world).wf(),
        forall|k: int| 0 <= k < comps.len() ==> (#[trigger] comps@[k]).0 < u32::MAX,
    ensures
        final(world).wf(),
        match r {
            Ok(ents) => {
                &&& ents@.no_duplicates()
                &&& forall|k: int| 0 <= k < comps.len() ==> ents@.contains(#[trigger] comps@[k].0)
                &&& forall|k: int|
                    0 <= k < ents.len() ==> exists|j: int| 0 <= j < comps.len() && comps@[j].0 == #[trigger] ents@[k]
                &&& comps.len() > 0 ==> (forall|k: int| 0 <= k < comps.len() ==> (#[trigger] comps@[k]).0 < final(entity_manager).next())
                &&& comps.len() > 0 ==> exists|k: int| 0 <= k < comps.len() && (#[trigger] comps@[k]).0 + 1 == final(entity_manager).next()
                &&& comps.len() == 0 ==> final(entity_manager).next() == old(entity_manager).next()
            },
            Err(_) => true,
        },
        (r is Ok) == (accepted(*old(world), comps@, comps.len() as nat) == comps.len()),
        r matches Err(e) ==> accepted(*old(world), comps@, comps.len() as nat) < comps.len()
            && refusal(*old(world), comps@, accepted(*old(world), comps@, comps.len() as nat) as int)
            == Some(e),
        loaded(
            *old(world),
            *final(world),
            comps@.take(accepted(*old(world), comps@, comps.len() as nat) as int),
        ),
{
    let ghost orig = comps@;
    let ghost w0 = *world;
    assert(w0 == *old(world));
    assert(orig.take(0) =~= Seq::<(Entity, Component)>::empty());
    assert(loaded(w0, *world, orig.take(0))) by {
        assert(w0.transform.ents() + Seq::<Entity>::empty() =~= w0.transform.ents());
        assert(w0.transform.comps() + Seq::<Transform>::empty() =~= w0.transform.comps());
        assert(w0.translation.ents() + Seq::<Entity>::empty() =~= w0.translation.ents());
        assert(w0.translation.comps() + Seq::<Translation>::empty() =~= w0.translation.comps());
        assert(w0.surface.ents() + Seq::<Entity>::empty() =~= w0.surface.ents());
        assert(w0.surface.comps() + Seq::<Surface>::empty() =~= w0.surface.comps());
        assert(w0.shape.ents() + Seq::<Entity>::empty() =~= w0.shape.ents());
        assert(w0.shape.comps() + Seq::<Shape>::empty() =~= w0.shape.comps());
        assert(w0.material.ents() + Seq::<Entity>::empty() =~= w0.material.ents());
        assert(w0.material.comps() + Seq::<Material>::empty() =~= w0.material.comps());
    }
    let mut rest = comps;
    let mut ents: Vec<Entity> = Vec::new();
    let mut failure: Option<EngineError> = None;
    let mut max: Entity = 0;
    let mut k: usize = 0;
    let n = rest.len();
    while rest.len() > 0 && failure.is_none()
        invariant
            failure matches Some(err) ==> k < n && accepted(w0, orig, n as nat) == k && refusal(
                w0,
                orig,
                k as int,
            ) == Some(err),
            world.wf(),
            n == orig.len(),
            failure is None ==> k + rest.len() == n,
            failure is None ==> rest@ == orig.subrange(k as int, n as int),
            k <= n,
            ents@.no_duplicates(),
            failure is None ==> forall|j: int| 0 <= j < k ==> ents@.contains(#[trigger] orig[j].0),
            failure is None ==> forall|i: int| 0 <= i < ents.len() ==> exists|j: int| 0 <= j < k && orig[j].0 == #[trigger] ents@[i],
            failure is None && k > 0 ==> forall|j: int| 0 <= j < k ==> (#[trigger] orig[j]).0 <= max,
            failure is None && k > 0 ==> exists|j: int| 0 <= j < k && (#[trigger] orig[j]).0 == max,
            forall|j: int| 0 <= j < n ==> (#[trigger] orig[j]).0 < u32::MAX,
            failure is None ==> accepted(w0, orig, k as nat) == k,
            loaded(w0, *world, orig.take(k as int)),
            w0.wf(),
            w0 == *old(world),
        decreases rest.len(),
    {
        let (e, c) = rest.remove(0);
        assert(orig[k as int] == (e, c));
        let ghost before = ents@;
        let mut seen = false;
        let mut i: usize = 0;
        while i < ents.len()
            invariant
                0 <= i <= ents.len(),
                seen == exists|t: int| 0 <= t < i && ents@[t] == e,
            decreases ents.len() - i,
        {
            if ents[i] == e {
                seen = true;
            }
            i = i + 1;
        }
        if !seen {
            let ghost pre = ents@;
            ents.push(e);
            assert forall|a: int, b: int| 0 <= a < b < ents.len() implies ents@[a] != ents@[b] by {
                if b == ents.len() - 1 {
                    assert(ents@[b] == e);
                    assert(pre[a] == ents@[a]);
                }
            }
            assert(ents@[ents.len() - 1] == e);
        }
        assert(ents@.contains(e));
        if k == 0 || e > max {
            max = e;
        }
        let ghost wb = *world;
        proof {
            lemma_concat_contains(w0.transform.ents(), kind_ents(orig.take(k as int), 0), e);
            lemma_concat_contains(w0.translation.ents(), kind_ents(orig.take(k as int), 1), e);
            lemma_concat_contains(w0.surface.ents(), kind_ents(orig.take(k as int), 2), e);
            lemma_concat_contains(w0.shape.ents(), kind_ents(orig.take(k as int), 3), e);
            lemma_concat_contains(w0.material.ents(), kind_ents(orig.take(k as int), 4), e);
            assert(holds_kind(wb, e, c) == (holds_kind(w0, e, c) || kind_ents(orig.take(k as int), kind_of(c)).contains(e)));
            lemma_step_lists(orig, k as int);
            lemma_accepted_le(w0, orig, n as nat);
        }
        let ghost cc = c;
        match insert_component(world, e, c) {
            Ok(()) => {},
            Err(err) => {
                proof {
                    assert(refusal(w0, orig, k as int) == Some(err));
                    if k + 1 < n {
                        lemma_accepted_stops(w0, orig, k as nat, n as nat);
                    } else {
                        assert(accepted(w0, orig, n as nat) == k);
                    }
                }
                failure = Some(err);
            },
        }
        if failure.is_none() {
            proof {
                assert(refusal(w0, orig, k as int) is None);
                lemma_push_assoc(w0.transform.ents(), kind_ents(orig.take(k as int), 0), e);
                lemma_push_assoc(w0.translation.ents(), kind_ents(orig.take(k as int), 1), e);
                lemma_push_assoc(w0.surface.ents(), kind_ents(orig.take(k as int), 2), e);
                lemma_push_assoc(w0.shape.ents(), kind_ents(orig.take(k as int), 3), e);
                lemma_push_assoc(w0.material.ents(), kind_ents(orig.take(k as int), 4), e);
                match cc {
                    Component::Transform(t) => lemma_push_assoc(w0.transform.comps(), transforms_in(orig.take(k as int)), t),
                    Component::Translation(t) => lemma_push_assoc(w0.translation.comps(), translations_in(orig.take(k as int)), t),
                    Component::Surface(t) => lemma_push_assoc(w0.surface.comps(), surfaces_in(orig.take(k as int)), t),
                    Component::Shape(t) => lemma_push_assoc(w0.shape.comps(), shapes_in(orig.take(k as int)), t),
                    Component::Material(t) => lemma_push_assoc(w0.material.comps(), materials_in(orig.take(k as int)), t),
                }
                assert(kind_ents(orig.take(k + 1), 0) == if kind_of(cc) == 0 { kind_ents(orig.take(k as int), 0).push(e) } else { kind_ents(orig.take(k as int), 0) });
                assert(kind_ents(orig.take(k + 1), 1) == if kind_of(cc) == 1 { kind_ents(orig.take(k as int), 1).push(e) } else { kind_ents(orig.take(k as int), 1) });
                assert(kind_ents(orig.take(k + 1), 2) == if kind_of(cc) == 2 { kind_ents(orig.take(k as int), 2).push(e) } else { kind_ents(orig.take(k as int), 2) });
                assert(kind_ents(orig.take(k + 1), 3) == if kind_of(cc) == 3 { kind_ents(orig.take(k as int), 3).push(e) } else { kind_ents(orig.take(k as int), 3) });
                assert(kind_ents(orig.take(k + 1), 4) == if kind_of(cc) == 4 { kind_ents(orig.take(k as int), 4).push(e) } else { kind_ents(orig.take(k as int), 4) });
            }
            k = k + 1;
            assert forall|j: int| 0 <= j < k implies ents@.contains(#[trigger] orig[j].0) by {
                if j < k - 1 {
                    assert(before.contains(orig[j].0));
                    let t = choose|t: int| 0 <= t < before.len() && before[t] == orig[j].0;
                    assert(ents@[t] == before[t]);
                }
            }
            assert forall|t: int| 0 <= t < ents.len() implies exists|j: int| 0 <= j < k && orig[j].0 == #[trigger] ents@[t] by {
                if ents@[t] == e {
                    assert(orig[k - 1].0 == e);
                }
            }
        }
    }
    if let Some(err) = failure {
        return Err(err);
    }
    assert(orig.take(n as int) =~= orig);
    if k > 0 {
        entity_manager.skip_to(max + 1);
    }
    Ok(ents)
}

} // verus!
