//! The despawn leaf effect: despawning the target a go-off resolves.

use vstd::prelude::*;

use crate::relation::Entity;
use crate::target::Target;

verus! {

/// Go-off leaf effect: despawn the target the pipeline resolves for it (for
/// example a terminal state tearing down the ability root).
#[derive(Clone, Copy, Debug, PartialEq, Eq, Structural)]
pub struct DespawnEffect;

/// When a go-off fires on an effect carrying [`DespawnEffect`], the entity
/// to despawn: the go-off's target entity. A position-only target, or an
/// effect without the marker, despawns nothing.
pub fn despawn_effect_system<P>(has_despawn_effect: bool, target: &Target<P>) -> (r: Option<Entity>)
    ensures
        r == (if has_despawn_effect {
            target.entity
        } else {
            None::<Entity>
        }),
{
    if !has_despawn_effect {
        return None;
    }
    target.entity
}

} // verus!
