# Verified ability engine core

The decision logic of a data-driven ability engine for an entity-component
game engine, written in Verus and proved against its contracts.

Abilities are state charts whose states carry effects. When a state fires,
a *go-off* walks the tree of sub-effects below it, resolving targets at each
level (invoker, root, aim, spawn position, passed target, fixed position;
then an offset, an optional gather and a filter supplied by a spatial
backend). Leaf effects then spawn templates, apply attribute modifiers,
despawn targets, fire periodic ticks or forward messages to subscribers.

## Layout

- `src/relation.rs`, `src/component.rs`: entities, one-to-many relations
  (acyclic hierarchies and cycle-tolerant links), entity sets and component
  columns, with their mathematical models.
- `src/target.rs`, `src/backend.rs`: targets, target types, generators and
  mutators; the spatial backend trait.
- `src/pipeline.rs`: target generation, scope merging and the propagation
  walk, with the law that a go-off reaches every effect below its origin
  exactly once.
- `src/effect.rs`, `src/events.rs`, `src/collision.rs`, `src/propagation.rs`:
  what starts the pipeline (state entry, matched transition messages,
  collisions) and message forwarding to subscribers.
- `src/spawn.rs`, `src/gauge.rs`, `src/despawn.rs`, `src/print.rs`,
  `src/dot.rs`: the leaf effects' decisions.
- `src/chart.rs`, `src/templates.rs`, `src/scenes.rs`, `src/pae.rs`: the
  state charts the ability templates lay down, including persistent
  attribute effects.
- `src/repeater.rs`, `src/invoke.rs`, `src/invoker.rs`, `src/ability_pool.rs`:
  repeaters, re-invocation, invoker resolution and ability pools.
- `src/filters.rs`, `src/avian.rs`: count resolution, reservoir sampling and
  the SplitMix64 generator.
- `src/derive.rs`: the checks behind `#[derive(PropagatedMessage)]`.
- `src/lib.rs`: the system sets that order the effect pipeline.
- `tests/`: executable tests of the library.
- `app/`: console output of the print effect.
