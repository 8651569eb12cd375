//! Position-typed transition messages of the ability pipeline, and the side
//! effect that turns a matched message into a `GoOffOrigin`.

use vstd::prelude::*;

use crate::pipeline::GoOffOrigin;
use crate::relation::{Entity, EntitySet};
use crate::target::Target;

verus! {

/// A diesel message that carries a target payload.
pub trait HasDieselTarget<P>: Sized {
    /// The message's target payload.
    spec fn payload_target(&self) -> Target<P>;

    /// The message's target payload.
    fn diesel_target(&self) -> (t: Target<P>)
        ensures
            t == self.payload_target(),
    ;
}

/// Emitted by the repeater on each iteration.
#[derive(Clone, Copy, Debug)]
pub struct OnRepeat<P> {
    pub entity: Entity,
    pub target: Target<P>,
}

/// Triggers an ability invocation with the invoker's current target.
#[derive(Clone, Copy, Debug)]
pub struct StartInvoke<P> {
    pub entity: Entity,
    pub target: Target<P>,
}

/// Stops a held or channeled ability invocation.
#[derive(Clone, Copy, Debug)]
pub struct StopInvoke<P> {
    pub entity: Entity,
    pub target: Target<P>,
}

impl<P: Copy> OnRepeat<P> {
    /// A repeat tick for the machine `entity`.
    pub fn new(entity: Entity, target: Target<P>) -> (m: Self)
        ensures
            m.entity == entity,
            m.target == target,
    {
        OnRepeat { entity, target }
    }

    /// The state machine the message is addressed to.
    pub fn machine(&self) -> (e: Entity)
        ensures
            e == self.entity,
    {
        self.entity
    }
}

impl<P: Copy> StartInvoke<P> {
    /// Start invoking the ability `entity` at `target`.
    pub fn new(entity: Entity, target: Target<P>) -> (m: Self)
        ensures
            m.entity == entity,
            m.target == target,
    {
        StartInvoke { entity, target }
    }

    /// The state machine the message is addressed to.
    pub fn machine(&self) -> (e: Entity)
        ensures
            e == self.entity,
    {
        self.entity
    }
}

impl<P: Copy> StopInvoke<P> {
    /// Stop invoking the ability `entity`.
    pub fn new(entity: Entity, target: Target<P>) -> (m: Self)
        ensures
            m.entity == entity,
            m.target == target,
    {
        StopInvoke { entity, target }
    }

    /// The state machine the message is addressed to.
    pub fn machine(&self) -> (e: Entity)
        ensures
            e == self.entity,
    {
        self.entity
    }
}

impl<P: Copy> HasDieselTarget<P> for OnRepeat<P> {
    open spec fn payload_target(&self) -> Target<P> {
        self.target
    }

    fn diesel_target(&self) -> (t: Target<P>) {
        self.target
    }
}

impl<P: Copy> HasDieselTarget<P> for StartInvoke<P> {
    open spec fn payload_target(&self) -> Target<P> {
        self.target
    }

    fn diesel_target(&self) -> (t: Target<P>) {
        self.target
    }
}

impl<P: Copy> HasDieselTarget<P> for StopInvoke<P> {
    open spec fn payload_target(&self) -> Target<P> {
        self.target
    }

    fn diesel_target(&self) -> (t: Target<P>) {
        self.target
    }
}

/// A message that matched a transition edge: the edge, the machine entity
/// whose state took it, and the message.
pub struct Matched<M> {
    pub edge: Entity,
    pub target: Entity,
    pub message: M,
}

/// The (entity, target) of an origin.
pub open spec fn origin_view<P, V>(o: GoOffOrigin<P, V>) -> (Entity, Target<P>) {
    (o.entity, o.target)
}

/// The origins written for matched messages: one per message whose edge is
/// not blocked, at the matched entity with the message's target, in order.
pub open spec fn side_effect_origins<P, M: HasDieselTarget<P>>(
    ms: Seq<Matched<M>>,
    blocked: Set<Entity>,
) -> Seq<(Entity, Target<P>)>
    decreases ms.len(),
{
    if ms.len() == 0 {
        Seq::empty()
    } else {
        let rest = side_effect_origins(ms.drop_last(), blocked);
        let m = ms.last();
        if blocked.contains(m.edge) {
            rest
        } else {
            rest.push((m.target, m.message.payload_target()))
        }
    }
}

/// For every matched message whose edge survived the blockers, write a
/// `GoOffOrigin` at the matched entity with the message's target and an
/// empty scope.
pub fn go_off_side_effect<P: Copy, V, M: HasDieselTarget<P>>(
    matched: &Vec<Matched<M>>,
    blocked: &EntitySet,
) -> (r: Vec<GoOffOrigin<P, V>>)
    ensures
        r@.map_values(|o: GoOffOrigin<P, V>| origin_view(o)) == side_effect_origins(
            matched@,
            blocked@,
        ),
        forall|i: int| 0 <= i < r@.len() ==> (#[trigger] r@[i]).gather@.len() == 0,
{
    let mut r: Vec<GoOffOrigin<P, V>> = Vec::new();
    let mut i: usize = 0;
    while i < matched.len()
        invariant
            i <= matched@.len(),
            r@.map_values(|o: GoOffOrigin<P, V>| origin_view(o)) == side_effect_origins(
                matched@.take(i as int),
                blocked@,
            ),
            forall|j: int| 0 <= j < r@.len() ==> (#[trigger] r@[j]).gather@.len() == 0,
        decreases matched@.len() - i,
    {
        let m = &matched[i];
        proof {
            assert(matched@.take(i + 1).drop_last() =~= matched@.take(i as int));
        }
        if !blocked.contains(m.edge) {
            let o = GoOffOrigin::new(m.target, m.message.diesel_target());
            let ghost before = r@;
            r.push(o);
            proof {
                assert(r@.map_values(|o: GoOffOrigin<P, V>| origin_view(o)) =~= before.map_values(
                    |o: GoOffOrigin<P, V>| origin_view(o),
                ).push(origin_view(o)));
            }
        }
        i = i + 1;
    }
    proof {
        assert(matched@.take(i as int) =~= matched@);
    }
    r
}

} // verus!
