//! The spatial backend: how the pipeline resolves positions, offsets,
//! gathers and filters in a game's coordinate system.

use vstd::prelude::*;

use crate::relation::Entity;
use crate::target::{Scope, Target};

verus! {

/// Defines how the engine interacts with a game's spatial representation.
///
/// A backend value carries the runtime context it needs (spatial index,
/// transforms, random state); the engine calls it while resolving targets.
/// Each method's result is named by a spec function of the backend's state
/// and the call's arguments, which implementations define.
pub trait SpatialBackend: Sized {
    /// Position type.
    type Pos: Copy;
    /// Offset configuration.
    type Offset;
    /// Gatherer configuration.
    type Gatherer;
    /// Post-gather filter configuration.
    type Filter;
    /// Scalar stored in scopes (distances, ranks, counts).
    type Scalar: Copy;

    /// The default position.
    spec fn spec_default_pos() -> Self::Pos;

    /// The default offset.
    spec fn spec_default_offset() -> Self::Offset;

    /// The default filter.
    spec fn spec_default_filter() -> Self::Filter;

    /// The default position.
    fn default_pos() -> (r: Self::Pos)
        ensures
            r == Self::spec_default_pos(),
    ;

    /// The default offset.
    fn default_offset() -> (r: Self::Offset)
        ensures
            r == Self::spec_default_offset(),
    ;

    /// The default filter.
    fn default_filter() -> (r: Self::Filter)
        ensures
            r == Self::spec_default_filter(),
    ;

    /// Where `apply_offset` moves `pos`, and the backend afterwards.
    spec fn spec_apply_offset(&self, pos: Self::Pos, offset: Self::Offset) -> (Self, Self::Pos);

    /// The distance `distance` reports between two positions.
    spec fn spec_distance(&self, a: Self::Pos, b: Self::Pos) -> Self::Scalar;

    /// The position `position_of` reports for an entity.
    spec fn spec_position_of(&self, entity: Entity) -> Option<Self::Pos>;

    /// The targets `gather` returns, and the backend afterwards.
    spec fn spec_gather(&self, origin: Self::Pos, gatherer: Self::Gatherer, exclude: Entity) -> (
        Self,
        Vec<(Target<Self::Pos>, Scope<Self::Scalar>)>,
    );

    /// The targets `apply_filter` keeps, and the backend afterwards.
    spec fn spec_apply_filter(
        &self,
        targets: Vec<(Target<Self::Pos>, Scope<Self::Scalar>)>,
        filter: Self::Filter,
        invoker: Entity,
        origin: Self::Pos,
    ) -> (Self, Vec<(Target<Self::Pos>, Scope<Self::Scalar>)>);

    /// Apply an offset to a position.
    fn apply_offset(&mut self, pos: Self::Pos, offset: &Self::Offset) -> (r: Self::Pos)
        ensures
            (*final(self), r) == old(self).spec_apply_offset(pos, *offset),
    ;

    /// Distance between two positions.
    fn distance(&self, a: &Self::Pos, b: &Self::Pos) -> (r: Self::Scalar)
        ensures
            r == self.spec_distance(*a, *b),
    ;

    /// An entity's position, if it has one.
    fn position_of(&self, entity: Entity) -> (r: Option<Self::Pos>)
        ensures
            r == self.spec_position_of(entity),
    ;

    /// Gather targets around a position.
    fn gather(&mut self, origin: Self::Pos, gatherer: &Self::Gatherer, exclude: Entity) -> (r: Vec<
        (Target<Self::Pos>, Scope<Self::Scalar>),
    >)
        ensures
            (*final(self), r) == old(self).spec_gather(origin, *gatherer, exclude),
    ;

    /// Filter gathered targets (count limits, line of sight, ...).
    fn apply_filter(
        &mut self,
        targets: Vec<(Target<Self::Pos>, Scope<Self::Scalar>)>,
        filter: &Self::Filter,
        invoker: Entity,
        origin: Self::Pos,
    ) -> (r: Vec<(Target<Self::Pos>, Scope<Self::Scalar>)>)
        ensures
            (*final(self), r) == old(self).spec_apply_filter(targets, *filter, invoker, origin),
    ;
}

} // verus!
