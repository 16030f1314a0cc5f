//! Per-tick presentation output, split by domain, and its composition.

use std::collections::HashMap;
use vstd::prelude::*;

use crate::commands::{SpawnView, ViewCommand, ViewKind};

verus! {

broadcast use vstd::std_specs::hash::group_hash_axioms;

/// A presentation domain knows how to apply its data to a context.
pub trait Present<Context> {
    /// Presenting this domain may take the context from `before` to `after`.
    /// A domain that does not describe its effect may take it anywhere.
    open spec fn presents(&self, before: Context, after: Context) -> bool {
        true
    }

    /// Applies the domain's data to the context.
    fn present(&mut self, context: &mut Context)
        ensures
            old(self).presents(*old(context), *final(context)),
    ;
}

/// The patches after writing `writes` in order onto `patches`: each write
/// replaces the transform of its entity.
pub open spec fn patches_after_writes<T>(patches: Map<u64, T>, writes: Seq<(u64, T)>) -> Map<u64, T>
    decreases writes.len(),
{
    if writes.len() == 0 {
        patches
    } else {
        patches_after_writes(patches, writes.drop_last()).insert(writes.last().0, writes.last().1)
    }
}

/// The entities written to by `writes`.
pub open spec fn written_entities<T>(writes: Seq<(u64, T)>) -> Set<u64> {
    Set::new(|e: u64| exists|k: int| 0 <= k < writes.len() && #[trigger] writes[k].0 == e)
}

/// Over any sequence of transform writes, with writes for other entities in
/// between: the patched entities are those patched before plus those written
/// (so, starting with no patch, one entry per distinct entity written), and
/// each entity holds its last write, or its earlier patch when it was not written.
pub proof fn lemma_last_write_wins_over_writes<T>(
    patches: Map<u64, T>,
    writes: Seq<(u64, T)>,
    entity: u64,
)
    ensures
        patches_after_writes(patches, writes).dom() == patches.dom() + written_entities(writes),
        forall|i: int|
            0 <= i < writes.len() && writes[i].0 == entity && (forall|j: int|
                i < j < writes.len() ==> writes[j].0 != entity) ==> #[trigger] writes[i].1
                == patches_after_writes(patches, writes)[entity],
        !written_entities(writes).contains(entity) ==> (patches_after_writes(
            patches,
            writes,
        ).contains_key(entity) == patches.contains_key(entity) && (patches.contains_key(entity)
            ==> patches_after_writes(patches, writes)[entity] == patches[entity])),
    decreases writes.len(),
{
    if writes.len() > 0 {
        let rest = writes.drop_last();
        lemma_last_write_wins_over_writes(patches, rest, entity);
        let last = writes.last();
        assert(written_entities(writes) =~= written_entities(rest).insert(last.0)) by {
            assert forall|e: u64| written_entities(writes).contains(e) implies written_entities(
                rest,
            ).insert(last.0).contains(e) by {
                let k = choose|k: int| 0 <= k < writes.len() && #[trigger] writes[k].0 == e;
                if k < rest.len() {
                    assert(rest[k].0 == e);
                }
            }
            assert forall|e: u64| written_entities(rest).insert(last.0).contains(e) implies written_entities(
                writes,
            ).contains(e) by {
                if e == last.0 {
                    assert(writes[writes.len() - 1].0 == e);
                } else {
                    let k = choose|k: int| 0 <= k < rest.len() && #[trigger] rest[k].0 == e;
                    assert(writes[k].0 == e);
                }
            }
        }
        assert(patches_after_writes(patches, writes).dom() =~= patches.dom() + written_entities(
            writes,
        ));
        assert forall|i: int|
            0 <= i < writes.len() && writes[i].0 == entity && (forall|j: int|
                i < j < writes.len() ==> writes[j].0 != entity) implies #[trigger] writes[i].1
            == patches_after_writes(patches, writes)[entity] by {
            if i < rest.len() {
                assert(writes[writes.len() - 1].0 != entity);
                assert(rest[i] == writes[i]);
                assert(forall|j: int| i < j < rest.len() ==> rest[j] == writes[j]);
            }
        }
        if !written_entities(writes).contains(entity) {
            assert(last.0 != entity);
        }
    }
}

/// The spawn requests among `commands`, in order.
pub open spec fn spawns_in<T>(commands: Seq<ViewCommand<T>>) -> Seq<SpawnView<T>>
    decreases commands.len(),
{
    if commands.len() == 0 {
        Seq::empty()
    } else {
        let rest = spawns_in(commands.drop_last());
        match commands.last() {
            ViewCommand::Spawn(request) => rest.push(request),
            _ => rest,
        }
    }
}

/// The transform writes among `commands`, in order.
pub open spec fn transform_writes_in<T>(commands: Seq<ViewCommand<T>>) -> Seq<(u64, T)>
    decreases commands.len(),
{
    if commands.len() == 0 {
        Seq::empty()
    } else {
        let rest = transform_writes_in(commands.drop_last());
        match commands.last() {
            ViewCommand::SetTransform(update) => rest.push((update.entity, update.transform)),
            _ => rest,
        }
    }
}

/// The despawned entities among `commands`, in order.
pub open spec fn despawns_in<T>(commands: Seq<ViewCommand<T>>) -> Seq<u64>
    decreases commands.len(),
{
    if commands.len() == 0 {
        Seq::empty()
    } else {
        let rest = despawns_in(commands.drop_last());
        match commands.last() {
            ViewCommand::Despawn(entity) => rest.push(entity),
            _ => rest,
        }
    }
}

/// The entities named by the transform updates among `commands`.
pub open spec fn entities_set_in<T>(commands: Seq<ViewCommand<T>>) -> Set<u64> {
    Set::new(
        |e: u64|
            exists|k: int|
                0 <= k < commands.len() && #[trigger] commands[k] is SetTransform
                    && commands[k]->SetTransform_0.entity == e,
    )
}

/// Routing commands into the output writes one patch per transform update,
/// in command order: afterwards the patched entities are the earlier ones
/// plus every entity a transform update names, each named entity holds the
/// transform of its last update among the commands, and every other entity
/// keeps its earlier patch.
pub proof fn lemma_record_last_transform_wins<T>(
    patches: Map<u64, T>,
    commands: Seq<ViewCommand<T>>,
)
    ensures
        patches_after_writes(patches, transform_writes_in(commands)).dom() == patches.dom()
            + entities_set_in(commands),
        forall|i: int|
            0 <= i < commands.len() && (#[trigger] commands[i]) is SetTransform && (forall|j: int|
                i < j < commands.len() && commands[j] is SetTransform
                    ==> commands[j]->SetTransform_0.entity != commands[i]->SetTransform_0.entity)
                ==> patches_after_writes(patches, transform_writes_in(commands))[commands[i]->SetTransform_0.entity]
                == commands[i]->SetTransform_0.transform,
        forall|e: u64|
            !entities_set_in(commands).contains(e) && #[trigger] patches.contains_key(e)
                ==> patches_after_writes(patches, transform_writes_in(commands))[e] == patches[e],
    decreases commands.len(),
{
    if commands.len() > 0 {
        let rest = commands.drop_last();
        lemma_record_last_transform_wins(patches, rest);
        let last = commands.last();
        let before = patches_after_writes(patches, transform_writes_in(rest));
        let after = patches_after_writes(patches, transform_writes_in(commands));
        match last {
            ViewCommand::SetTransform(update) => {
                assert(transform_writes_in(commands) == transform_writes_in(rest).push(
                    (update.entity, update.transform),
                ));
                assert(transform_writes_in(commands).drop_last() =~= transform_writes_in(rest));
                assert(after == before.insert(update.entity, update.transform));
                assert(entities_set_in(commands) =~= entities_set_in(rest).insert(update.entity))
                    by {
                    assert forall|e: u64| entities_set_in(commands).contains(e) implies entities_set_in(
                        rest,
                    ).insert(update.entity).contains(e) by {
                        let k = choose|k: int|
                            0 <= k < commands.len() && #[trigger] commands[k] is SetTransform
                                && commands[k]->SetTransform_0.entity == e;
                        if k < rest.len() {
                            assert(rest[k] == commands[k]);
                        }
                    }
                    assert forall|e: u64| entities_set_in(rest).insert(update.entity).contains(
                        e,
                    ) implies entities_set_in(commands).contains(e) by {
                        if e == update.entity {
                            assert(commands[commands.len() - 1] is SetTransform);
                        } else {
                            let k = choose|k: int|
                                0 <= k < rest.len() && #[trigger] rest[k] is SetTransform
                                    && rest[k]->SetTransform_0.entity == e;
                            assert(commands[k] == rest[k]);
                        }
                    }
                }
                assert(after.dom() =~= patches.dom() + entities_set_in(commands));
                assert forall|i: int|
                    0 <= i < commands.len() && (#[trigger] commands[i]) is SetTransform && (forall|
                        j: int,
                    |
                        i < j < commands.len() && commands[j] is SetTransform
                            ==> commands[j]->SetTransform_0.entity
                            != commands[i]->SetTransform_0.entity) implies after[commands[i]->SetTransform_0.entity]
                    == commands[i]->SetTransform_0.transform by {
                    if i < rest.len() {
                        assert(commands[commands.len() - 1] is SetTransform);
                        assert(rest[i] == commands[i]);
                        assert(forall|j: int| i < j < rest.len() ==> rest[j] == commands[j]);
                    }
                }
            },
            _ => {
                assert(transform_writes_in(commands) == transform_writes_in(rest));
                assert(entities_set_in(commands) =~= entities_set_in(rest)) by {
                    assert forall|e: u64| entities_set_in(commands).contains(e) implies entities_set_in(
                        rest,
                    ).contains(e) by {
                        let k = choose|k: int|
                            0 <= k < commands.len() && #[trigger] commands[k] is SetTransform
                                && commands[k]->SetTransform_0.entity == e;
                        assert(k < rest.len());
                        assert(rest[k] == commands[k]);
                    }
                    assert forall|e: u64| entities_set_in(rest).contains(e) implies entities_set_in(
                        commands,
                    ).contains(e) by {
                        let k = choose|k: int|
                            0 <= k < rest.len() && #[trigger] rest[k] is SetTransform
                                && rest[k]->SetTransform_0.entity == e;
                        assert(commands[k] == rest[k]);
                    }
                }
                assert forall|i: int|
                    0 <= i < commands.len() && (#[trigger] commands[i]) is SetTransform && (forall|
                        j: int,
                    |
                        i < j < commands.len() && commands[j] is SetTransform
                            ==> commands[j]->SetTransform_0.entity
                            != commands[i]->SetTransform_0.entity) implies after[commands[i]->SetTransform_0.entity]
                    == commands[i]->SetTransform_0.transform by {
                    assert(i < rest.len());
                    assert(rest[i] == commands[i]);
                    assert(forall|j: int| i < j < rest.len() ==> rest[j] == commands[j]);
                }
            },
        }
    }
}

/// Routing commands into the output records exactly the spawn requests
/// among them, in command order, with their payloads.
pub proof fn lemma_spawns_in_are_the_spawn_commands<T>(commands: Seq<ViewCommand<T>>)
    ensures
        spawns_in(commands).map_values(|s: SpawnView<T>| ViewCommand::Spawn(s)) == commands.filter(
            |c: ViewCommand<T>| c is Spawn,
        ),
    decreases commands.len(),
{
    reveal(Seq::filter);
    if commands.len() > 0 {
        let rest = commands.drop_last();
        lemma_spawns_in_are_the_spawn_commands(rest);
        assert(spawns_in(commands).map_values(|s: SpawnView<T>| ViewCommand::Spawn(s)) =~= commands.filter(
            |c: ViewCommand<T>| c is Spawn,
        ));
    } else {
        assert(spawns_in(commands).map_values(|s: SpawnView<T>| ViewCommand::Spawn(s)) =~= commands.filter(
            |c: ViewCommand<T>| c is Spawn,
        ));
    }
}

/// Routing commands into the output records exactly the entities of the
/// despawn commands among them, in command order.
pub proof fn lemma_despawns_in_are_the_despawn_commands<T>(commands: Seq<ViewCommand<T>>)
    ensures
        despawns_in(commands).map_values(|e: u64| ViewCommand::<T>::Despawn(e)) == commands.filter(
            |c: ViewCommand<T>| c is Despawn,
        ),
    decreases commands.len(),
{
    reveal(Seq::filter);
    if commands.len() > 0 {
        let rest = commands.drop_last();
        lemma_despawns_in_are_the_despawn_commands(rest);
        assert(despawns_in(commands).map_values(|e: u64| ViewCommand::<T>::Despawn(e)) =~= commands.filter(
            |c: ViewCommand<T>| c is Despawn,
        ));
    } else {
        assert(despawns_in(commands).map_values(|e: u64| ViewCommand::<T>::Despawn(e)) =~= commands.filter(
            |c: ViewCommand<T>| c is Despawn,
        ));
    }
}

/// Within a tick the last transform written for an entity wins, and an entity
/// never holds more than one spatial patch: writing twice leaves the same
/// patches as writing only the second transform.
pub proof fn lemma_last_transform_wins<T>(patches: Map<u64, T>, entity: u64, first: T, second: T)
    ensures
        patches.insert(entity, first).insert(entity, second) == patches.insert(entity, second),
        patches.insert(entity, first).insert(entity, second)[entity] == second,
        patches.insert(entity, first).insert(entity, second).dom() == patches.dom().insert(entity),
{
    assert(patches.insert(entity, first).insert(entity, second) =~= patches.insert(entity, second));
    assert(patches.insert(entity, second).dom() =~= patches.dom().insert(entity));
}

/// Batch of view creations; the order of the requests is kept.
pub struct SpawnCommands<T> {
    requests: Vec<SpawnView<T>>,
}

impl<T> View for SpawnCommands<T> {
    type V = Seq<SpawnView<T>>;

    closed spec fn view(&self) -> Seq<SpawnView<T>> {
        self.requests@
    }
}

impl<T> SpawnCommands<T> {
    /// An empty batch.
    pub fn new() -> (commands: Self)
        ensures
            commands@ == Seq::<SpawnView<T>>::empty(),
    {
        SpawnCommands { requests: Vec::new() }
    }

    fn push(&mut self, request: SpawnView<T>)
        ensures
            final(self)@ == old(self)@.push(request),
    {
        self.requests.push(request);
    }

    /// The requests, in recording order.
    pub fn into_requests(self) -> (requests: Vec<SpawnView<T>>)
        ensures
            requests@ == self@,
    {
        self.requests
    }

    fn clear(&mut self)
        ensures
            final(self)@ == Seq::<SpawnView<T>>::empty(),
    {
        self.requests.clear();
    }

    /// Moves the requests out in recording order and leaves the batch empty,
    /// keeping its storage for the next tick.
    pub fn drain(&mut self) -> (requests: Vec<SpawnView<T>>)
        ensures
            requests@ == old(self)@,
            final(self)@ == Seq::<SpawnView<T>>::empty(),
    {
        self.requests.split_off(0)
    }
}

/// Spatial patches: only the final transform of each entity in a tick
/// matters, so the last write wins.
pub struct SpatialPatches<T> {
    transforms: HashMap<u64, T>,
}

impl<T> View for SpatialPatches<T> {
    type V = Map<u64, T>;

    closed spec fn view(&self) -> Map<u64, T> {
        self.transforms@
    }
}

impl<T> SpatialPatches<T> {
    /// No patch.
    pub fn new() -> (patches: Self)
        ensures
            patches@ == Map::<u64, T>::empty(),
    {
        SpatialPatches { transforms: HashMap::new() }
    }

    fn set_transform(&mut self, entity: u64, transform: T)
        ensures
            final(self)@ == old(self)@.insert(entity, transform),
    {
        self.transforms.insert(entity, transform);
    }

    /// The final transform of each patched entity.
    pub fn into_transforms(self) -> (transforms: HashMap<u64, T>)
        ensures
            transforms@ == self@,
    {
        self.transforms
    }

    fn clear(&mut self)
        ensures
            final(self)@ == Map::<u64, T>::empty(),
    {
        self.transforms.clear();
    }

}

impl<T: Clone> SpatialPatches<T> {
    /// Hands the patches out and leaves no patch behind; the map of the
    /// patches keeps its storage for the next tick.
    pub fn drain(&mut self) -> (transforms: HashMap<u64, T>)
        ensures
            transforms@ == old(self)@,
            final(self)@ == Map::<u64, T>::empty(),
    {
        let transforms = self.transforms.clone();
        self.transforms.clear();
        transforms
    }
}

/// Batch of view removals, in recording order.
pub struct DespawnCommands {
    entities: Vec<u64>,
}

impl View for DespawnCommands {
    type V = Seq<u64>;

    closed spec fn view(&self) -> Seq<u64> {
        self.entities@
    }
}

impl DespawnCommands {
    /// An empty batch.
    pub fn new() -> (commands: Self)
        ensures
            commands@ == Seq::<u64>::empty(),
    {
        DespawnCommands { entities: Vec::new() }
    }

    fn push(&mut self, entity: u64)
        ensures
            final(self)@ == old(self)@.push(entity),
    {
        self.entities.push(entity);
    }

    /// The entities whose view must go, in recording order.
    pub fn into_entities(self) -> (entities: Vec<u64>)
        ensures
            entities@ == self@,
    {
        self.entities
    }

    fn clear(&mut self)
        ensures
            final(self)@ == Seq::<u64>::empty(),
    {
        self.entities.clear();
    }

    /// Moves the entities out in recording order and leaves the batch empty,
    /// keeping its storage for the next tick.
    pub fn drain(&mut self) -> (entities: Vec<u64>)
        ensures
            entities@ == old(self)@,
            final(self)@ == Seq::<u64>::empty(),
    {
        self.entities.split_off(0)
    }
}

/// Everything one tick produced for the presentation, by domain. Domains are
/// applied by increasing order: spawns (10), spatial patches (20), despawns (90).
pub struct PresentationOutput<T> {
    spawns: SpawnCommands<T>,
    spatial: SpatialPatches<T>,
    despawns: DespawnCommands,
}

impl<T> PresentationOutput<T> {
    /// The spawn domain (order 10).
    pub closed spec fn spawn_domain(&self) -> SpawnCommands<T> {
        self.spawns
    }

    /// The spatial domain (order 20).
    pub closed spec fn spatial_domain(&self) -> SpatialPatches<T> {
        self.spatial
    }

    /// The despawn domain (order 90).
    pub closed spec fn despawn_domain(&self) -> DespawnCommands {
        self.despawns
    }

    /// The recorded spawn requests, in order.
    pub open spec fn spawn_requests(&self) -> Seq<SpawnView<T>> {
        self.spawn_domain()@
    }

    /// The final transform patch of each entity.
    pub open spec fn transform_patches(&self) -> Map<u64, T> {
        self.spatial_domain()@
    }

    /// The entities whose view must be removed, in order.
    pub open spec fn despawn_entities(&self) -> Seq<u64> {
        self.despawn_domain()@
    }

    /// An output with nothing recorded.
    pub fn new() -> (output: Self)
        ensures
            output.spawn_requests() == Seq::<SpawnView<T>>::empty(),
            output.transform_patches() == Map::<u64, T>::empty(),
            output.despawn_entities() == Seq::<u64>::empty(),
    {
        PresentationOutput {
            spawns: SpawnCommands::new(),
            spatial: SpatialPatches::new(),
            despawns: DespawnCommands::new(),
        }
    }

    /// Records the creation of a view for `entity`.
    pub fn spawn_view(&mut self, entity: u64, kind: ViewKind, transform: T)
        ensures
            final(self).spawn_requests() == old(self).spawn_requests().push(
                SpawnView { entity, kind, transform },
            ),
            final(self).transform_patches() == old(self).transform_patches(),
            final(self).despawn_entities() == old(self).despawn_entities(),
    {
        self.spawns.push(SpawnView { entity, kind, transform });
    }

    /// Records the final transform of `entity`, replacing an earlier one of the same tick.
    pub fn set_transform(&mut self, entity: u64, transform: T)
        ensures
            final(self).spawn_requests() == old(self).spawn_requests(),
            final(self).transform_patches() == old(self).transform_patches().insert(
                entity,
                transform,
            ),
            final(self).despawn_entities() == old(self).despawn_entities(),
    {
        self.spatial.set_transform(entity, transform);
    }

    /// Records the removal of the view of `entity`.
    pub fn despawn_view(&mut self, entity: u64)
        ensures
            final(self).spawn_requests() == old(self).spawn_requests(),
            final(self).transform_patches() == old(self).transform_patches(),
            final(self).despawn_entities() == old(self).despawn_entities().push(entity),
    {
        self.despawns.push(entity);
    }
}

impl<T: Copy> PresentationOutput<T> {
    /// Records each command in its domain, in the given order.
    pub fn record(&mut self, commands: Vec<ViewCommand<T>>)
        ensures
            final(self).spawn_requests() == old(self).spawn_requests() + spawns_in(commands@),
            final(self).transform_patches() == patches_after_writes(
                old(self).transform_patches(),
                transform_writes_in(commands@),
            ),
            final(self).despawn_entities() == old(self).despawn_entities() + despawns_in(
                commands@,
            ),
            final(self).spawn_requests().skip(old(self).spawn_requests().len() as int).map_values(
                |s: SpawnView<T>| ViewCommand::Spawn(s),
            ) == commands@.filter(|c: ViewCommand<T>| c is Spawn),
            final(self).despawn_entities().skip(old(self).despawn_entities().len() as int).map_values(
                |e: u64| ViewCommand::<T>::Despawn(e),
            ) == commands@.filter(|c: ViewCommand<T>| c is Despawn),
            final(self).transform_patches().dom() == old(self).transform_patches().dom()
                + entities_set_in(commands@),
            forall|i: int|
                0 <= i < commands@.len() && (#[trigger] commands@[i]) is SetTransform && (forall|
                    j: int,
                |
                    i < j < commands@.len() && commands@[j] is SetTransform
                        ==> commands@[j]->SetTransform_0.entity
                        != commands@[i]->SetTransform_0.entity)
                    ==> final(self).transform_patches()[commands@[i]->SetTransform_0.entity]
                    == commands@[i]->SetTransform_0.transform,
            forall|e: u64|
                !entities_set_in(commands@).contains(e) && #[trigger] old(
                    self,
                ).transform_patches().contains_key(e) ==> final(self).transform_patches()[e]
                    == old(self).transform_patches()[e],
    {
        proof {
            lemma_record_last_transform_wins(self.transform_patches(), commands@);
            lemma_spawns_in_are_the_spawn_commands(commands@);
            lemma_despawns_in_are_the_despawn_commands(commands@);
        }
        let mut i: usize = 0;
        while i < commands.len()
            invariant
                i <= commands@.len(),
                self.spawn_requests() == old(self).spawn_requests() + spawns_in(
                    commands@.take(i as int),
                ),
                self.transform_patches() == patches_after_writes(
                    old(self).transform_patches(),
                    transform_writes_in(commands@.take(i as int)),
                ),
                self.despawn_entities() == old(self).despawn_entities() + despawns_in(
                    commands@.take(i as int),
                ),
            decreases commands@.len() - i,
        {
            let command = commands[i];
            proof {
                assert(commands@.take(i + 1).drop_last() =~= commands@.take(i as int));
                assert(commands@.take(i + 1).last() == command);
            }
            match command {
                ViewCommand::Spawn(request) => {
                    self.spawn_view(request.entity, request.kind, request.transform);
                    proof {
                        assert(self.spawn_requests() =~= old(self).spawn_requests() + spawns_in(
                            commands@.take(i + 1),
                        ));
                    }
                },
                ViewCommand::SetTransform(update) => {
                    self.set_transform(update.entity, update.transform);
                    proof {
                        let w = transform_writes_in(commands@.take(i + 1));
                        assert(w.drop_last() =~= transform_writes_in(commands@.take(i as int)));
                    }
                },
                ViewCommand::Despawn(entity) => {
                    self.despawn_view(entity);
                    proof {
                        assert(self.despawn_entities() =~= old(self).despawn_entities()
                            + despawns_in(commands@.take(i + 1)));
                    }
                },
            }
            i = i + 1;
        }
        proof {
            assert(commands@.take(commands@.len() as int) =~= commands@);
            assert(self.spawn_requests().skip(old(self).spawn_requests().len() as int)
                =~= spawns_in(commands@));
            assert(self.despawn_entities().skip(old(self).despawn_entities().len() as int)
                =~= despawns_in(commands@));
        }
    }
}

impl<T, Context> Present<Context> for PresentationOutput<T> where
    SpawnCommands<T>: Present<Context>,
    SpatialPatches<T>: Present<Context>,
    DespawnCommands: Present<Context>,
 {
    /// The spawns are presented first, then the spatial patches, then the
    /// despawns, each from the context the previous domain left.
    open spec fn presents(&self, before: Context, after: Context) -> bool {
        exists|first: Context, second: Context|
            #![trigger self.spawn_domain().presents(before, first), self.spatial_domain().presents(first, second)]
            self.spawn_domain().presents(before, first)
                && self.spatial_domain().presents(first, second)
                && self.despawn_domain().presents(second, after)
    }

    /// Applies the domains by increasing order: spawns, then spatial patches,
    /// then despawns. Each domain is emptied once applied, keeping its
    /// storage, so the output is empty and reusable for the next tick.
    fn present(&mut self, context: &mut Context)
        ensures
            final(self).spawn_requests() == Seq::<SpawnView<T>>::empty(),
            final(self).transform_patches() == Map::<u64, T>::empty(),
            final(self).despawn_entities() == Seq::<u64>::empty(),
    {
        let ghost before = *context;
        self.spawns.present(context);
        let ghost first = *context;
        self.spawns.clear();
        self.spatial.present(context);
        let ghost second = *context;
        self.spatial.clear();
        self.despawns.present(context);
        self.despawns.clear();
        proof {
            assert(old(self).spawn_domain().presents(before, first));
            assert(old(self).spatial_domain().presents(first, second));
            assert(old(self).despawn_domain().presents(second, *context));
        }
    }
}

/// For every output, whatever its contents: presenting it takes the context
/// from `before` to `after` exactly when the spawn domain (order 10) takes it
/// to some first context, the spatial domain (order 20) from there to a
/// second, and the despawn domain (order 90) from there to `after`.
pub proof fn lemma_output_presents_in_declared_order<T, Context>(
    output: PresentationOutput<T>,
    before: Context,
    after: Context,
) where
    SpawnCommands<T>: Present<Context>,
    SpatialPatches<T>: Present<Context>,
    DespawnCommands: Present<Context>,

    ensures
        output.presents(before, after) <==> exists|first: Context, second: Context|
            output.spawn_domain().presents(before, first) && output.spatial_domain().presents(
                first,
                second,
            ) && output.despawn_domain().presents(second, after),
{
}

impl<T> Default for SpawnCommands<T> {
    fn default() -> (commands: Self)
        ensures
            commands@ == Seq::<SpawnView<T>>::empty(),
    {
        SpawnCommands::new()
    }
}

impl<T> Default for SpatialPatches<T> {
    fn default() -> (patches: Self)
        ensures
            patches@ == Map::<u64, T>::empty(),
    {
        SpatialPatches::new()
    }
}

impl Default for DespawnCommands {
    fn default() -> (commands: Self)
        ensures
            commands@ == Seq::<u64>::empty(),
    {
        DespawnCommands::new()
    }
}

impl<T> Default for PresentationOutput<T> {
    fn default() -> (output: Self)
        ensures
            output.spawn_requests() == Seq::<SpawnView<T>>::empty(),
            output.transform_patches() == Map::<u64, T>::empty(),
            output.despawn_entities() == Seq::<u64>::empty(),
    {
        PresentationOutput::new()
    }
}

} // verus!
