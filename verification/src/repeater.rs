//! Counter-driven repetition: a repeater state fires `OnRepeat` a number of
//! times, then reports `Done` to its parent state.

use vstd::prelude::*;

use crate::relation::{root_of, Entity, Relation};

verus! {

/// Repetition counter placed on a superstate whose substates are re-entered
/// on each cycle.
#[derive(Clone, Copy, Debug, PartialEq, Eq, Structural)]
pub struct Repeater {
    pub remaining: u32,
    pub initial: u32,
}

/// What a repeater does when its activity changes.
#[derive(Clone, Copy, Debug, PartialEq, Eq, Structural)]
pub enum RepeatAction {
    /// Fire another cycle (`OnRepeat`).
    Repeat,
    /// The count is exhausted: report `Done` to the parent state.
    Done,
}

impl Repeater {
    /// A repeater that fires `count` times.
    pub fn new(count: u32) -> (r: Self)
        ensures
            r.remaining == count,
            r.initial == count,
    {
        Repeater { remaining: count, initial: count }
    }

    /// The repeater after one activity change and the action it takes.
    pub open spec fn spec_tick(self, initial_entry: bool) -> (Repeater, RepeatAction) {
        if initial_entry {
            (Repeater { remaining: (self.initial - 1) as u32, ..self }, RepeatAction::Repeat)
        } else if self.remaining > 0 {
            (Repeater { remaining: (self.remaining - 1) as u32, ..self }, RepeatAction::Repeat)
        } else {
            (Repeater { remaining: self.initial, ..self }, RepeatAction::Done)
        }
    }

    /// React to the repeater state becoming active. On a fresh entry the
    /// counter restarts at `initial - 1` and the first cycle fires; on a
    /// re-entry it counts down and fires while cycles remain; once exhausted
    /// it resets to `initial` and reports `Done`.
    pub fn tick(&mut self, initial_entry: bool) -> (a: RepeatAction)
        requires
            initial_entry ==> old(self).initial > 0,
        ensures
            (*final(self), a) == old(self).spec_tick(initial_entry),
    {
        if initial_entry {
            self.remaining = self.initial - 1;
            RepeatAction::Repeat
        } else if self.remaining > 0 {
            self.remaining = self.remaining - 1;
            RepeatAction::Repeat
        } else {
            self.remaining = self.initial;
            RepeatAction::Done
        }
    }
}

/// The message a repeater's activity change produces.
#[derive(Clone, Copy, Debug, PartialEq, Eq, Structural)]
pub enum RepeaterMessage {
    /// `OnRepeat` for the repeater `entity`, aimed at the chart `root`.
    OnRepeat { entity: Entity, root: Entity },
    /// `Done` addressed to `machine` (the repeater's superstate).
    Done { machine: Entity },
}

/// Where a finished repeater sends `Done`: its superstate, or itself.
pub open spec fn done_target(m: Map<Entity, Entity>, entity: Entity) -> Entity {
    if m.contains_key(entity) {
        m[entity]
    } else {
        entity
    }
}

/// One repeater tick as the scheduler runs it: tick the counter, then turn
/// the action into a message. `OnRepeat` targets the root of the repeater's
/// state chart; `Done` goes to the repeater's superstate, or to the repeater
/// itself when it has none.
pub fn repeater_tick(
    repeater: &mut Repeater,
    entity: Entity,
    initial_entry: bool,
    substate_of: &Relation,
) -> (msg: RepeaterMessage)
    requires
        substate_of.wf(),
        initial_entry ==> old(repeater).initial > 0,
    ensures
        *final(repeater) == old(repeater).spec_tick(initial_entry).0,
        old(repeater).spec_tick(initial_entry).1 == RepeatAction::Repeat ==> msg == (
        RepeaterMessage::OnRepeat { entity, root: root_of(substate_of.parents(), entity) }),
        old(repeater).spec_tick(initial_entry).1 == RepeatAction::Done ==> msg == (
        RepeaterMessage::Done { machine: done_target(substate_of.parents(), entity) }),
{
    let root = substate_of.root_ancestor(entity);
    match repeater.tick(initial_entry) {
        RepeatAction::Repeat => RepeaterMessage::OnRepeat { entity, root },
        RepeatAction::Done => {
            let parent = match substate_of.parent_of(entity) {
                Some(p) => p,
                None => entity,
            };
            RepeaterMessage::Done { machine: parent }
        },
    }
}

/// The actions of a fresh entry followed by `k` re-entries.
pub open spec fn run_actions(r: Repeater, k: nat) -> Seq<RepeatAction>
    decreases k,
{
    if k == 0 {
        seq![r.spec_tick(true).1]
    } else {
        run_actions(r, (k - 1) as nat).push(run_state(r, (k - 1) as nat).spec_tick(false).1)
    }
}

/// The repeater after a fresh entry followed by `k` re-entries.
pub open spec fn run_state(r: Repeater, k: nat) -> Repeater
    decreases k,
{
    if k == 0 {
        r.spec_tick(true).0
    } else {
        run_state(r, (k - 1) as nat).spec_tick(false).0
    }
}

/// A repeater of count `n` fires exactly `n` cycles, then reports `Done`
/// and is ready to start over (its counter reset to `n`).
pub proof fn lemma_repeater_fires_count_then_done(r: Repeater)
    requires
        r.initial > 0,
    ensures
        run_actions(r, r.initial as nat).len() == r.initial + 1,
        forall|i: int| 0 <= i < r.initial ==> #[trigger] run_actions(r, r.initial as nat)[i]
            == RepeatAction::Repeat,
        run_actions(r, r.initial as nat)[r.initial as int] == RepeatAction::Done,
        run_state(r, r.initial as nat).remaining == r.initial,
        run_state(r, r.initial as nat).initial == r.initial,
{
    lemma_run(r, (r.initial - 1) as nat);
    let n = r.initial as nat;
    assert(run_state(r, (n - 1) as nat).remaining == 0);
}

/// After a fresh entry and `k < initial` re-entries: `k + 1` cycles fired and
/// `initial - 1 - k` remain.
proof fn lemma_run(r: Repeater, k: nat)
    requires
        r.initial > 0,
        k < r.initial,
    ensures
        run_actions(r, k).len() == k + 1,
        forall|i: int| 0 <= i <= k ==> #[trigger] run_actions(r, k)[i] == RepeatAction::Repeat,
        run_state(r, k).remaining == r.initial - 1 - k,
        run_state(r, k).initial == r.initial,
    decreases k,
{
    if k > 0 {
        lemma_run(r, (k - 1) as nat);
    }
}

} // verus!
