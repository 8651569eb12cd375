//! Message propagation along a per-message-type subscription graph: when a
//! message is written for a source entity, a retargeted copy is written for
//! every entity subscribed to that source.

use vstd::prelude::*;

use crate::relation::{
    children_seq, fan_out, linked_edges, other_than, root_of, tagged, Entity, Links, Relation,
};

verus! {

/// A message that carries the entity it is addressed to, so propagation can
/// re-address a copy for each subscriber.
pub trait PropagatedMessage: Sized + Clone {
    /// The entity the message is addressed to.
    spec fn addressed_to(&self) -> Entity;

    /// The same message, addressed to `entity`.
    spec fn retargeted(&self, entity: Entity) -> Self;

    /// The entity this message is addressed to.
    fn target(&self) -> (e: Entity)
        ensures
            e == self.addressed_to(),
    ;

    /// Re-address this message to `entity`.
    fn set_target(&mut self, entity: Entity)
        ensures
            *final(self) == old(self).retargeted(entity),
            final(self).addressed_to() == entity,
    ;
}

/// Subscribe `target` to `source`'s messages (`PropagationTargetOf(source)`
/// on `target`): one edge of the subscription graph. An entity cannot
/// subscribe to itself; that only drops its earlier subscription.
pub struct RegisterPropagationTarget {
    pub target: Entity,
    pub source: Entity,
}

impl RegisterPropagationTarget {
    /// Subscribe `target` to `source`.
    pub fn new(target: Entity, source: Entity) -> (r: Self)
        ensures
            r.target == target,
            r.source == source,
    {
        RegisterPropagationTarget { target, source }
    }
}

/// Wire one subscription: `target` now receives `source`'s messages.
pub fn register_propagation_target(subscriptions: &mut Links, event: &RegisterPropagationTarget) -> (ok:
    bool)
    requires
        old(subscriptions).wf(),
    ensures
        final(subscriptions).wf(),
        ok == (event.target != event.source),
        final(subscriptions)@ == linked_edges(old(subscriptions)@, event.target, event.source),
{
    subscriptions.link(event.target, event.source)
}

/// The subscription edges after each of `entities`, in turn, subscribes to
/// the root of its `ChildOf` hierarchy.
pub open spec fn subscribed_to_roots(
    s: Seq<(Entity, Entity)>,
    entities: Seq<Entity>,
    child_of: Map<Entity, Entity>,
) -> Seq<(Entity, Entity)>
    decreases entities.len(),
{
    if entities.len() == 0 {
        s
    } else {
        let e = entities.last();
        linked_edges(subscribed_to_roots(s, entities.drop_last(), child_of), e, root_of(child_of, e))
    }
}

/// Every entity carrying the `RegisterPropagationTargetRoot` marker
/// subscribes to messages emitted on its `ChildOf` root. (The marker is
/// consumed afterwards.) A root itself would subscribe to itself, which is
/// refused.
pub fn register_propagation_target_root(
    subscriptions: &mut Links,
    marked: &Vec<Entity>,
    child_of: &Relation,
)
    requires
        old(subscriptions).wf(),
        child_of.wf(),
    ensures
        final(subscriptions).wf(),
        final(subscriptions)@ == subscribed_to_roots(
            old(subscriptions)@,
            marked@,
            child_of.parents(),
        ),
{
    let ghost s0 = subscriptions@;
    let mut i: usize = 0;
    while i < marked.len()
        invariant
            i <= marked@.len(),
            child_of.wf(),
            subscriptions.wf(),
            subscriptions@ == subscribed_to_roots(s0, marked@.take(i as int), child_of.parents()),
        decreases marked@.len() - i,
    {
        let e = marked[i];
        let owner_root = child_of.root_ancestor(e);
        subscriptions.link(e, owner_root);
        proof {
            assert(marked@.take(i + 1).drop_last() =~= marked@.take(i as int));
        }
        i = i + 1;
    }
    proof {
        assert(marked@.take(i as int) =~= marked@);
    }
}

/// The entities messages are addressed to.
pub open spec fn addressees<T: PropagatedMessage>(msgs: Seq<T>) -> Seq<Entity> {
    msgs.map_values(|m: T| m.addressed_to())
}

/// The copies to forward: for each message in turn, one per subscriber of
/// the entity it is addressed to, tagged with the message's index.
pub open spec fn forward_plan<T: PropagatedMessage>(msgs: Seq<T>, s: Seq<(Entity, Entity)>) -> Seq<
    (int, Entity),
> {
    fan_out(addressees(msgs), s)
}

/// Forward messages to subscribers: for each message addressed to a source
/// with subscribers, a clone re-addressed to every subscriber, in order.
/// Each forwarded copy bumps the pending-work counter, so the state-machine
/// fixpoint loop delivers the copies within the same frame. A subscriber
/// without subscribers of its own does not re-propagate.
pub fn propagate_message<T: PropagatedMessage>(
    msgs: &Vec<T>,
    subscriptions: &Links,
    pending: &mut usize,
) -> (r: Vec<T>)
    requires
        *old(pending) + forward_plan(msgs@, subscriptions@).len() <= usize::MAX,
    ensures
        r@.len() == forward_plan(msgs@, subscriptions@).len(),
        *final(pending) == *old(pending) + r@.len(),
        forall|k: int|
            0 <= k < r@.len() ==> {
                let (i, sub) = #[trigger] forward_plan(msgs@, subscriptions@)[k];
                &&& 0 <= i < msgs@.len()
                &&& r@[k].addressed_to() == sub
                &&& exists|c: T| cloned(msgs@[i], c) && r@[k] == c.retargeted(sub)
            },
{
    let ghost s = subscriptions@;
    let ghost keys = addressees(msgs@);
    let ghost p0 = *pending;
    let mut r: Vec<T> = Vec::new();
    let mut i: usize = 0;
    while i < msgs.len()
        invariant
            i <= msgs@.len(),
            s == subscriptions@,
            keys == addressees(msgs@),
            p0 + fan_out(keys, s).len() <= usize::MAX,
            r@.len() == fan_out(keys.take(i as int), s).len(),
            *pending == p0 + r@.len(),
            forall|k: int|
                0 <= k < r@.len() ==> {
                    let (j, sub) = #[trigger] fan_out(keys.take(i as int), s)[k];
                    &&& 0 <= j < i
                    &&& r@[k].addressed_to() == sub
                    &&& exists|c: T| cloned(msgs@[j], c) && r@[k] == c.retargeted(sub)
                },
        decreases msgs@.len() - i,
    {
        let msg = &msgs[i];
        let source = msg.target();
        let subscribers = subscriptions.children_of(source);
        let ghost before = r@;
        let ghost fo = fan_out(keys.take(i as int), s);
        let ghost add = children_seq(s, keys[i as int]).map_values(tagged(i as int));
        proof {
            assert(keys.take(i + 1).drop_last() =~= keys.take(i as int));
            assert(fan_out(keys.take(i + 1), s) == fo + add);
            lemma_fan_out_prefix_len(keys, s, (i + 1) as int);
        }
        let mut j: usize = 0;
        while j < subscribers.len()
            invariant
                j <= subscribers@.len(),
                i < msgs@.len(),
                *msg == msgs@[i as int],
                subscribers@ == children_seq(s, keys[i as int]),
                keys == addressees(msgs@),
                add == children_seq(s, keys[i as int]).map_values(tagged(i as int)),
                p0 + fan_out(keys, s).len() <= usize::MAX,
                fo.len() + add.len() <= fan_out(keys, s).len(),
                r@.len() == fo.len() + j,
                *pending == p0 + r@.len(),
                forall|k: int| 0 <= k < before.len() ==> r@[k] == before[k],
                before.len() == fo.len(),
                forall|k: int|
                    0 <= k < before.len() ==> {
                        let (jj, sub) = #[trigger] fo[k];
                        &&& 0 <= jj < i
                        &&& before[k].addressed_to() == sub
                        &&& exists|c: T| cloned(msgs@[jj], c) && before[k] == c.retargeted(sub)
                    },
                forall|k: int|
                    0 <= k < j ==> {
                        &&& (#[trigger] r@[fo.len() + k]).addressed_to() == subscribers@[k]
                        &&& exists|c: T|
                            cloned(msgs@[i as int], c) && r@[fo.len() + k] == c.retargeted(
                                subscribers@[k],
                            )
                    },
            decreases subscribers@.len() - j,
        {
            let subscriber = subscribers[j];
            let mut copy = msg.clone();
            let ghost c = copy;
            copy.set_target(subscriber);
            proof {
                assert(cloned(msgs@[i as int], c));
            }
            r.push(copy);
            *pending = *pending + 1;
            j = j + 1;
        }
        proof {
            assert(j == subscribers@.len());
            assert(r@.len() == fo.len() + subscribers@.len());
            assert forall|k: int|
                0 <= k < r@.len() implies {
                let (jj, sub) = #[trigger] fan_out(keys.take(i + 1), s)[k];
                &&& 0 <= jj < i + 1
                &&& r@[k].addressed_to() == sub
                &&& exists|c: T| cloned(msgs@[jj], c) && r@[k] == c.retargeted(sub)
            } by {
                if k < fo.len() {
                    assert(fan_out(keys.take(i + 1), s)[k] == fo[k]);
                    assert(r@[k] == before[k]);
                } else {
                    let kk = k - fo.len();
                    assert(fan_out(keys.take(i + 1), s)[k] == add[kk]);
                    assert(kk < subscribers@.len());
                    assert(add[kk] == tagged(i as int)(subscribers@[kk]));
                    assert(add[kk] == (i as int, subscribers@[kk]));
                    assert(r@[fo.len() + kk] == r@[k]);
                }
            }
        }
        i = i + 1;
    }
    proof {
        assert(keys.take(i as int) =~= keys);
    }
    r
}

/// A prefix of the keys fans out to no more than all of them.
pub proof fn lemma_fan_out_prefix_len(keys: Seq<Entity>, s: Seq<(Entity, Entity)>, n: int)
    requires
        0 <= n <= keys.len(),
    ensures
        fan_out(keys.take(n), s).len() <= fan_out(keys, s).len(),
    decreases keys.len(),
{
    if n < keys.len() {
        assert(keys.drop_last().take(n) =~= keys.take(n));
        lemma_fan_out_prefix_len(keys.drop_last(), s, n);
    } else {
        assert(keys.take(n) =~= keys);
    }
}

/// Messages addressed only to entities without subscribers of their own
/// are forwarded nowhere, so forwarding to subscribers that have none ends
/// after one round.
pub proof fn lemma_leaves_forward_nothing(keys: Seq<Entity>, s: Seq<(Entity, Entity)>)
    requires
        forall|i: int| 0 <= i < keys.len() ==> #[trigger] children_seq(s, keys[i]).len() == 0,
    ensures
        fan_out(keys, s).len() == 0,
    decreases keys.len(),
{
    if keys.len() > 0 {
        assert forall|i: int| 0 <= i < keys.drop_last().len() implies #[trigger] children_seq(
            s,
            keys.drop_last()[i],
        ).len() == 0 by {
            assert(keys.drop_last()[i] == keys[i]);
        }
        lemma_leaves_forward_nothing(keys.drop_last(), s);
        assert(children_seq(s, keys[keys.len() - 1]).len() == 0);
    }
}

} // verus!
