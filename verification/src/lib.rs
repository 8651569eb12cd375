//! Verified core of a data-driven ability engine: entity relations, the
//! targeting pipeline, effect propagation through sub-effect trees, spawn
//! planning, repeaters, persistent attribute effects and ability pools.
use vstd::prelude::*;

pub mod ability_pool;
pub mod avian;
pub mod backend;
pub mod chart;
pub mod collision;
pub mod component;
pub mod derive;
pub mod despawn;
pub mod dot;
pub mod effect;
pub mod events;
pub mod filters;
pub mod gauge;
pub mod invoke;
pub mod invoker;
pub mod pae;
pub mod pipeline;
pub mod print;
pub mod propagation;
pub mod relation;
pub mod repeater;
pub mod scenes;
pub mod spawn;
pub mod target;
pub mod templates;

verus! {

/// System sets ordering the effect pipeline inside the state-machine schedule:
///
/// ```text
/// EntryPhase -> Propagation -> TargetFilter -> Effects (AttributeEffects) -> GaugeSync
/// ```
///
/// Sub-effects (attribute changes, spawns, ...) resolve before derived
/// components are synced and guards are evaluated.
#[derive(Clone, Copy, Debug, PartialEq, Eq, Structural, Hash)]
pub enum DieselSet {
    /// Propagation: reads `GoOffOrigin`, walks the tree, writes `GoOff`.
    Propagation,
    /// Pending go-offs are flushed between propagation and the effects.
    TargetFilter,
    /// Leaf effect systems that consume `GoOff`.
    Effects,
    /// Subset of `Effects`: systems that mutate attributes (instant,
    /// modifiers), so stat changes are visible to branches.
    AttributeEffects,
}

/// The position of a set in the pipeline; a nested set takes its parent's.
pub open spec fn stage_rank(s: DieselSet) -> nat {
    match s {
        DieselSet::Propagation => 0,
        DieselSet::TargetFilter => 1,
        DieselSet::Effects => 2,
        DieselSet::AttributeEffects => 2,
    }
}

/// The set a set is configured inside of, if any.
pub open spec fn enclosing_set(s: DieselSet) -> Option<DieselSet> {
    match s {
        DieselSet::AttributeEffects => Some(DieselSet::Effects),
        _ => None,
    }
}

impl DieselSet {
    /// The set's stage in the pipeline (0: propagation, 1: target filter,
    /// 2: effects).
    pub fn stage(&self) -> (r: u8)
        ensures
            r == stage_rank(*self),
    {
        match self {
            DieselSet::Propagation => 0,
            DieselSet::TargetFilter => 1,
            DieselSet::Effects => 2,
            DieselSet::AttributeEffects => 2,
        }
    }

    /// The set this set is configured inside of (`AttributeEffects` lies in
    /// `Effects`).
    pub fn parent_set(&self) -> (r: Option<DieselSet>)
        ensures
            r == enclosing_set(*self),
    {
        match self {
            DieselSet::AttributeEffects => Some(DieselSet::Effects),
            _ => None,
        }
    }

    /// Whether every system of `self` runs before every system of `other`.
    pub fn runs_before(&self, other: &DieselSet) -> (b: bool)
        ensures
            b == (stage_rank(*self) < stage_rank(*other)),
    {
        self.stage() < other.stage()
    }

    /// The chained top-level sets, in the order they run.
    pub fn pipeline() -> (r: Vec<DieselSet>)
        ensures
            r@ == seq![DieselSet::Propagation, DieselSet::TargetFilter, DieselSet::Effects],
    {
        let mut r: Vec<DieselSet> = Vec::new();
        r.push(DieselSet::Propagation);
        r.push(DieselSet::TargetFilter);
        r.push(DieselSet::Effects);
        r
    }
}

/// The pipeline order is a strict order: no set runs before itself, it is
/// transitive, and any two distinct top-level sets are ordered one way or the
/// other; a nested set is ordered exactly as the set that encloses it, and
/// the chained sets run in the order listed.
pub proof fn lemma_pipeline_order(a: DieselSet, b: DieselSet, c: DieselSet)
    ensures
        !(stage_rank(a) < stage_rank(a)),
        stage_rank(a) < stage_rank(b) && stage_rank(b) < stage_rank(c) ==> stage_rank(a)
            < stage_rank(c),
        enclosing_set(a) is None && enclosing_set(b) is None && a != b ==> (stage_rank(a)
            < stage_rank(b) || stage_rank(b) < stage_rank(a)),
        enclosing_set(a) matches Some(p) ==> stage_rank(a) == stage_rank(p),
        stage_rank(DieselSet::Propagation) < stage_rank(DieselSet::TargetFilter),
        stage_rank(DieselSet::TargetFilter) < stage_rank(DieselSet::Effects),
{
}

} // verus!
