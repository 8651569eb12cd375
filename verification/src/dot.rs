//! Periodic effects (damage or healing over time): the entities a periodic
//! effect affects, and the ticks fired for them.

use vstd::prelude::*;

use crate::relation::{children_seq, fan_out, tagged, Entity, Links};

verus! {

/// Fired each tick of a periodic effect: `source` is the effect, `target`
/// an entity it affects.
#[derive(Clone, Copy, Debug, PartialEq, Eq, Structural)]
pub struct PeriodicTick {
    pub target: Entity,
    pub source: Entity,
}

impl PeriodicTick {
    /// A tick of `source` on `target`.
    pub fn new(source: Entity, target: Entity) -> (t: Self)
        ensures
            t.source == source,
            t.target == target,
    {
        PeriodicTick { target, source }
    }
}

/// The ticks fired for one round: for each effect in turn, one per entity
/// it affects, in the order they became affected.
pub open spec fn periodic_ticks(sources: Seq<Entity>, affected: Seq<(Entity, Entity)>) -> Seq<
    PeriodicTick,
> {
    fan_out(sources, affected).map_values(
        |x: (int, Entity)| PeriodicTick { target: x.1, source: sources[x.0] },
    )
}

/// Fire a `PeriodicTick` for every (effect, affected entity) pair: `sources`
/// are the active periodic effects in the order they are visited;
/// `affected` links each affected entity to its effect
/// (`PeriodicEffectTarget`).
pub fn periodic_tick_system(sources: &Vec<Entity>, affected: &Links) -> (r: Vec<PeriodicTick>)
    ensures
        r@ == periodic_ticks(sources@, affected@),
{
    let ghost s = affected@;
    let mut r: Vec<PeriodicTick> = Vec::new();
    let mut i: usize = 0;
    while i < sources.len()
        invariant
            i <= sources@.len(),
            s == affected@,
            r@.len() == fan_out(sources@.take(i as int), s).len(),
            forall|k: int|
                0 <= k < r@.len() ==> {
                    let x = #[trigger] fan_out(sources@.take(i as int), s)[k];
                    &&& 0 <= x.0 < i
                    &&& r@[k] == (PeriodicTick { target: x.1, source: sources@[x.0] })
                },
        decreases sources@.len() - i,
    {
        let source = sources[i];
        let targets = affected.children_of(source);
        let ghost before = r@;
        let ghost fo = fan_out(sources@.take(i as int), s);
        let ghost add = children_seq(s, sources@[i as int]).map_values(tagged(i as int));
        proof {
            assert(sources@.take(i + 1).drop_last() =~= sources@.take(i as int));
        }
        let mut j: usize = 0;
        while j < targets.len()
            invariant
                j <= targets@.len(),
                i < sources@.len(),
                source == sources@[i as int],
                r@.len() == before.len() + j,
                forall|k: int| 0 <= k < before.len() ==> r@[k] == before[k],
                forall|k: int|
                    0 <= k < j ==> #[trigger] r@[before.len() + k] == (PeriodicTick {
                        target: targets@[k],
                        source,
                    }),
            decreases targets@.len() - j,
        {
            r.push(PeriodicTick::new(source, targets[j]));
            j = j + 1;
        }
        proof {
            assert(fan_out(sources@.take(i + 1), s) == fo + add);
            assert forall|k: int| 0 <= k < r@.len() implies {
                let x = #[trigger] fan_out(sources@.take(i + 1), s)[k];
                &&& 0 <= x.0 < i + 1
                &&& r@[k] == (PeriodicTick { target: x.1, source: sources@[x.0] })
            } by {
                if k < fo.len() {
                    assert(fan_out(sources@.take(i + 1), s)[k] == fo[k]);
                    assert(r@[k] == before[k]);
                } else {
                    let kk = k - fo.len();
                    assert(add[kk] == tagged(i as int)(targets@[kk]));
                    assert(fan_out(sources@.take(i + 1), s)[k] == add[kk]);
                    assert(r@[before.len() + kk] == r@[k]);
                }
            }
        }
        i = i + 1;
    }
    proof {
        assert(sources@.take(i as int) =~= sources@);
        assert(r@ =~= periodic_ticks(sources@, s));
    }
    r
}

} // verus!
