//! Active association between entities and their views, and the decisions
//! taken while spawn requests are turned into views.

use std::collections::HashMap;
use std::collections::hash_map::Entry;
use vstd::prelude::*;

use crate::commands::SpawnView;

verus! {

broadcast use vstd::std_specs::hash::group_hash_axioms;

/// Active views, keyed by the full identity of their entity (index and
/// generation, as packed by the ECS into 64 bits), so a reused index never
/// finds the view of a dead entity. The views are engine handles, a type
/// parameter here; the map is the standard hash map keyed by that 64-bit
/// identity, in place of the ECS's entity-keyed map, whose contents could not
/// be described for an arbitrary view type.
pub struct ViewRegistry<V> {
    views: HashMap<u64, V>,
}

impl<V> View for ViewRegistry<V> {
    type V = Map<u64, V>;

    closed spec fn view(&self) -> Map<u64, V> {
        self.views@
    }
}

impl<V> ViewRegistry<V> {
    /// A registry with no view.
    pub fn new() -> (registry: Self)
        ensures
            registry@ == Map::<u64, V>::empty(),
    {
        ViewRegistry { views: HashMap::new() }
    }

    /// Whether `entity` has an active view.
    pub fn contains(&self, entity: u64) -> (found: bool)
        ensures
            found == self@.contains_key(entity),
    {
        self.views.contains_key(&entity)
    }

    /// Makes `view` the active view of `entity`.
    pub fn insert(&mut self, entity: u64, view: V)
        ensures
            final(self)@ == old(self)@.insert(entity, view),
    {
        self.views.insert(entity, view);
    }

    /// The active view of `entity`, to be changed in place.
    pub fn get_mut(&mut self, entity: u64) -> (view: Option<&mut V>)
        ensures
            match view {
                Some(v) => old(self)@.contains_key(entity) && *v == old(self)@[entity]
                    && final(self)@ == old(self)@.insert(entity, *final(v)),
                None => !old(self)@.contains_key(entity) && final(self)@ == old(self)@,
            },
    {
        match self.views.entry(entity) {
            Entry::Occupied(occupied) => Some(occupied.into_mut()),
            Entry::Vacant(_) => None,
        }
    }

    /// Removes the active view of `entity` and hands it back.
    pub fn remove(&mut self, entity: u64) -> (view: Option<V>)
        ensures
            final(self)@ == old(self)@.remove(entity),
            match view {
                Some(v) => old(self)@.contains_key(entity) && v == old(self)@[entity],
                None => !old(self)@.contains_key(entity),
            },
    {
        self.views.remove(&entity)
    }

    /// Number of active views.
    pub fn len(&self) -> (n: usize)
        ensures
            n == self@.len(),
    {
        self.views.len()
    }
}

/// The registry follows the view lifecycle: after a view is registered for
/// an entity it is found for that entity (and other entities keep theirs);
/// after the entity's view is removed, no view of it remains, whatever was
/// registered before.
pub proof fn lemma_registry_lifecycle<V>(views: Map<u64, V>, entity: u64, view: V, other: u64)
    ensures
        views.insert(entity, view).contains_key(entity),
        views.insert(entity, view)[entity] == view,
        other != entity ==> (views.insert(entity, view).contains_key(other) == views.contains_key(
            other,
        ) && views.insert(entity, view).remove(entity).contains_key(other) == views.contains_key(
            other,
        )),
        !views.insert(entity, view).remove(entity).contains_key(entity),
        views.insert(entity, view).remove(entity) == views.remove(entity),
{
    assert(views.insert(entity, view).remove(entity) =~= views.remove(entity));
}

/// What the spawn presenter must do next.
pub enum SpawnAction<T> {
    /// Instantiate a view for this request; its entity has none.
    Instantiate(SpawnView<T>),
    /// Every request was handled, or the batch was stopped.
    Done,
}

/// What became of a request once its view was (or was not) instantiated.
#[derive(Clone, Copy, Debug, PartialEq, Eq, Structural)]
pub enum AttachOutcome {
    /// The scene could not be instantiated; the request is dropped and the batch goes on.
    SceneUnavailable,
    /// There is no root to attach views to; the batch stops and the remaining requests are dropped.
    RootMissing,
    /// The view was registered for the entity and must be attached under the root.
    Attached,
}

/// Walks a batch of spawn requests in order, deciding which entities get a
/// view: a request whose entity already has a view is skipped.
pub struct SpawnBatch<T> {
    requests: Vec<SpawnView<T>>,
    next: usize,
    pending: Option<u64>,
    stopped: bool,
}

impl<T> SpawnBatch<T> {
    /// The requests of the batch, in order.
    pub closed spec fn requests(&self) -> Seq<SpawnView<T>> {
        self.requests@
    }

    /// How many requests were handed out or skipped.
    pub closed spec fn cursor(&self) -> nat {
        self.next as nat
    }

    /// The entity whose view is being instantiated, if any.
    pub closed spec fn pending(&self) -> Option<u64> {
        self.pending
    }

    /// Whether the batch was stopped.
    pub closed spec fn stopped(&self) -> bool {
        self.stopped
    }

    /// The cursor stays within the requests; a pending entity is the one of the last request handed out.
    pub closed spec fn wf(&self) -> bool {
        &&& self.next <= self.requests@.len()
        &&& self.pending matches Some(e) ==> self.next > 0 && e == self.requests@[self.next - 1].entity
    }

    /// A batch over `requests`, none handled yet.
    pub fn new(requests: Vec<SpawnView<T>>) -> (batch: Self)
        ensures
            batch.wf(),
            batch.cursor() <= batch.requests().len(),
            batch.requests() == requests@,
            batch.cursor() == 0,
            batch.pending() is None,
            !batch.stopped(),
    {
        SpawnBatch { requests, next: 0, pending: None, stopped: false }
    }
}

impl<T: Copy> SpawnBatch<T> {
    /// Skips the requests whose entity already has a view and hands out the
    /// next one that needs a view.
    pub fn next_action<V>(&mut self, registry: &ViewRegistry<V>) -> (action: SpawnAction<T>)
        requires
            old(self).wf(),
        ensures
            final(self).wf(),
            final(self).cursor() <= final(self).requests().len(),
            final(self).requests() == old(self).requests(),
            final(self).stopped() == old(self).stopped(),
            old(self).stopped() ==> action is Done && final(self).cursor() == old(self).cursor()
                && final(self).pending() is None,
            !old(self).stopped() ==> match action {
                SpawnAction::Instantiate(request) => {
                    &&& old(self).cursor() < final(self).cursor()
                    &&& request == old(self).requests()[final(self).cursor() - 1]
                    &&& !registry@.contains_key(request.entity)
                    &&& final(self).pending() == Some(request.entity)
                    &&& forall|j: int|
                        old(self).cursor() <= j < final(self).cursor() - 1
                            ==> registry@.contains_key(#[trigger] old(self).requests()[j].entity)
                },
                SpawnAction::Done => {
                    &&& final(self).cursor() == old(self).requests().len()
                    &&& final(self).pending() is None
                    &&& forall|j: int|
                        old(self).cursor() <= j < old(self).requests().len()
                            ==> registry@.contains_key(#[trigger] old(self).requests()[j].entity)
                },
            },
    {
        self.pending = None;
        if self.stopped {
            return SpawnAction::Done;
        }
        let start = self.next;
        while self.next < self.requests.len()
            invariant
                start <= self.next <= self.requests@.len(),
                self.pending is None,
                !self.stopped,
                !old(self).stopped,
                self.requests@ == old(self).requests@,
                start == old(self).next,
                forall|j: int|
                    start <= j < self.next ==> registry@.contains_key(
                        #[trigger] self.requests@[j].entity,
                    ),
            decreases self.requests@.len() - self.next,
        {
            let request = self.requests[self.next];
            self.next = self.next + 1;
            if !registry.contains(request.entity) {
                self.pending = Some(request.entity);
                return SpawnAction::Instantiate(request);
            }
        }
        SpawnAction::Done
    }

    /// Takes the instantiated view (or its absence) of the pending request:
    /// a missing scene drops the request, a missing root stops the batch,
    /// otherwise the view is registered for the entity.
    pub fn on_instantiated<V>(
        &mut self,
        registry: &mut ViewRegistry<V>,
        view: Option<V>,
        root_available: bool,
    ) -> (outcome: AttachOutcome)
        requires
            old(self).wf(),
            old(self).pending() is Some,
            !old(registry)@.contains_key(old(self).pending()->0),
        ensures
            final(self).wf(),
            final(self).cursor() <= final(self).requests().len(),
            forall|e: u64|
                #[trigger] old(registry)@.contains_key(e) ==> final(registry)@.contains_key(e)
                    && final(registry)@[e] == old(registry)@[e],
            final(self).requests() == old(self).requests(),
            final(self).cursor() == old(self).cursor(),
            final(self).pending() is None,
            match view {
                None => outcome == AttachOutcome::SceneUnavailable && final(registry)@ == old(
                    registry,
                )@ && final(self).stopped() == old(self).stopped(),
                Some(v) => if root_available {
                    outcome == AttachOutcome::Attached && final(registry)@ == old(
                        registry,
                    )@.insert(old(self).pending()->0, v) && final(self).stopped() == old(
                        self,
                    ).stopped()
                } else {
                    outcome == AttachOutcome::RootMissing && final(registry)@ == old(registry)@
                        && final(self).stopped()
                },
            },
    {
        let entity = match self.pending {
            Some(entity) => entity,
            None => 0,
        };
        self.pending = None;
        match view {
            None => AttachOutcome::SceneUnavailable,
            Some(v) => {
                if root_available {
                    registry.insert(entity, v);
                    AttachOutcome::Attached
                } else {
                    self.stopped = true;
                    AttachOutcome::RootMissing
                }
            },
        }
    }
}

impl<V> Default for ViewRegistry<V> {
    fn default() -> (registry: Self)
        ensures
            registry@ == Map::<u64, V>::empty(),
    {
        ViewRegistry::new()
    }
}

} // verus!
