//! Invocation status of abilities.

use vstd::prelude::*;

use crate::component::ComponentMap;
use crate::relation::Entity;

verus! {

/// Set to `TryInvoke` from input/AI to trigger an ability.
#[derive(Clone, Copy, Debug, PartialEq, Eq, Structural)]
pub enum InvokeStatus {
    Idle,
    TryInvoke,
}

impl Default for InvokeStatus {
    /// The default status: idle.
    fn default() -> (s: Self)
        ensures
            s == InvokeStatus::Idle,
    {
        InvokeStatus::Idle
    }
}

/// Fired when an ability invocation completes.
#[derive(Clone, Copy, Debug)]
pub struct InvocationComplete {
    pub target: Entity,
}

/// The machines, among those whose states just became active, whose ability
/// is still held (`TryInvoke`): their status is marked changed so that the
/// invocation fires again. In order, repeats kept.
pub open spec fn reinvoked(machines: Seq<Entity>, status: Map<Entity, InvokeStatus>) -> Seq<Entity> {
    machines.filter(held(status))
}

/// Whether a machine's ability is still held.
pub open spec fn held(status: Map<Entity, InvokeStatus>) -> spec_fn(Entity) -> bool {
    |m: Entity| status.contains_key(m) && status[m] == InvokeStatus::TryInvoke
}

/// Re-trigger invocation on state entry if the ability is still held.
pub fn check_should_reinvoke_ability(
    newly_active_machines: &Vec<Entity>,
    status: &ComponentMap<InvokeStatus>,
) -> (r: Vec<Entity>)
    requires
        status.wf(),
    ensures
        r@ == reinvoked(newly_active_machines@, status@),
{
    let mut r: Vec<Entity> = Vec::new();
    let mut i: usize = 0;
    while i < newly_active_machines.len()
        invariant
            i <= newly_active_machines@.len(),
            status.wf(),
            r@ == newly_active_machines@.take(i as int).filter(held(status@)),
        decreases newly_active_machines@.len() - i,
    {
        let m = newly_active_machines[i];
        proof {
            assert(newly_active_machines@.take(i + 1) =~= newly_active_machines@.take(i as int).push(m));
            newly_active_machines@.take(i as int).lemma_filter_push(m, held(status@));
        }
        match status.get(m) {
            Some(InvokeStatus::TryInvoke) => {
                r.push(m);
            },
            _ => {},
        }
        i = i + 1;
    }
    proof {
        assert(newly_active_machines@.take(i as int) =~= newly_active_machines@);
    }
    r
}

} // verus!
