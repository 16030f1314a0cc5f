//! Extraction of model changes into presentation commands. The world is
//! queried by the ECS; the rows of each query are handed here in query order.

use vstd::prelude::*;

use crate::commands::{PresentationCommands, SpawnView, TransformUpdate, ViewCommand, ViewKind};

verus! {

/// One spawn command per newly viewed entity, in query order.
pub open spec fn spawn_commands_for<T>(added: Seq<(u64, ViewKind, T)>) -> Seq<ViewCommand<T>> {
    added.map_values(
        |row: (u64, ViewKind, T)|
            ViewCommand::Spawn(SpawnView { entity: row.0, kind: row.1, transform: row.2 }),
    )
}

/// One transform command per changed transform, in query order.
pub open spec fn transform_commands_for<T>(changed: Seq<(u64, T)>) -> Seq<ViewCommand<T>> {
    changed.map_values(
        |row: (u64, T)| ViewCommand::SetTransform(TransformUpdate { entity: row.0, transform: row.1 }),
    )
}

/// One despawn command per entity marked for removal, in query order.
pub open spec fn despawn_commands_for<T>(entities: Seq<u64>) -> Seq<ViewCommand<T>> {
    entities.map_values(|entity: u64| ViewCommand::<T>::Despawn(entity))
}

/// Each spawn command carries the entity, kind and transform of its query
/// row, one command per row, in query order.
pub proof fn lemma_spawn_commands_carry_rows<T>(added: Seq<(u64, ViewKind, T)>)
    ensures
        spawn_commands_for(added).len() == added.len(),
        forall|i: int|
            0 <= i < added.len() ==> spawn_commands_for(added)[i] == ViewCommand::Spawn(
                SpawnView { entity: (#[trigger] added[i]).0, kind: added[i].1, transform: added[i].2 },
            ),
{
}

/// Each transform command carries the entity and transform of its query
/// row, one command per row, in query order.
pub proof fn lemma_transform_commands_carry_rows<T>(changed: Seq<(u64, T)>)
    ensures
        transform_commands_for(changed).len() == changed.len(),
        forall|i: int|
            0 <= i < changed.len() ==> transform_commands_for(changed)[i]
                == ViewCommand::SetTransform(
                TransformUpdate { entity: (#[trigger] changed[i]).0, transform: changed[i].1 },
            ),
{
}

/// Each despawn command names the entity of its query row, one command per
/// row, in query order.
pub proof fn lemma_despawn_commands_carry_rows<T>(entities: Seq<u64>)
    ensures
        despawn_commands_for::<T>(entities).len() == entities.len(),
        forall|i: int|
            0 <= i < entities.len() ==> despawn_commands_for::<T>(entities)[i]
                == ViewCommand::<T>::Despawn(#[trigger] entities[i]),
{
}

/// Turns entities whose view specification was just added into spawn intents.
pub fn extract_added_views<T: Copy>(
    added: &Vec<(u64, ViewKind, T)>,
    presentation: &mut PresentationCommands<T>,
)
    ensures
        final(presentation)@ == old(presentation)@ + spawn_commands_for(added@),
        final(presentation)@.len() == old(presentation)@.len() + added@.len(),
        forall|i: int|
            0 <= i < old(presentation)@.len() ==> final(presentation)@[i] == old(presentation)@[i],
        forall|i: int|
            0 <= i < added@.len() ==> final(presentation)@[old(presentation)@.len() + i]
                == ViewCommand::Spawn(
                SpawnView { entity: (#[trigger] added@[i]).0, kind: added@[i].1, transform: added@[i].2 },
            ),
{
    proof {
        lemma_spawn_commands_carry_rows(added@);
    }
    let mut i: usize = 0;
    while i < added.len()
        invariant
            i <= added@.len(),
            presentation@ == old(presentation)@ + spawn_commands_for(added@.take(i as int)),
        decreases added@.len() - i,
    {
        let (entity, kind, transform) = added[i];
        presentation.spawn_view(entity, kind, transform);
        proof {
            assert(added@.take(i + 1) =~= added@.take(i as int).push(added@[i as int]));
            assert(spawn_commands_for(added@.take(i + 1)) =~= spawn_commands_for(
                added@.take(i as int),
            ).push(ViewCommand::Spawn(SpawnView { entity, kind, transform })));
        }
        i = i + 1;
    }
    proof {
        assert(added@.take(added@.len() as int) =~= added@);
    }
}

/// Turns inserted or changed transforms of viewed entities into transform intents.
pub fn extract_changed_transforms<T: Copy>(
    changed: &Vec<(u64, T)>,
    presentation: &mut PresentationCommands<T>,
)
    ensures
        final(presentation)@ == old(presentation)@ + transform_commands_for(changed@),
        final(presentation)@.len() == old(presentation)@.len() + changed@.len(),
        forall|i: int|
            0 <= i < old(presentation)@.len() ==> final(presentation)@[i] == old(presentation)@[i],
        forall|i: int|
            0 <= i < changed@.len() ==> final(presentation)@[old(presentation)@.len() + i]
                == ViewCommand::SetTransform(
                TransformUpdate { entity: (#[trigger] changed@[i]).0, transform: changed@[i].1 },
            ),
{
    proof {
        lemma_transform_commands_carry_rows(changed@);
    }
    let mut i: usize = 0;
    while i < changed.len()
        invariant
            i <= changed@.len(),
            presentation@ == old(presentation)@ + transform_commands_for(changed@.take(i as int)),
        decreases changed@.len() - i,
    {
        let (entity, transform) = changed[i];
        presentation.set_transform(entity, transform);
        proof {
            assert(changed@.take(i + 1) =~= changed@.take(i as int).push(changed@[i as int]));
            assert(transform_commands_for(changed@.take(i + 1)) =~= transform_commands_for(
                changed@.take(i as int),
            ).push(ViewCommand::SetTransform(TransformUpdate { entity, transform })));
        }
        i = i + 1;
    }
    proof {
        assert(changed@.take(changed@.len() as int) =~= changed@);
    }
}

/// Records the removal of the views of entities just marked for removal,
/// before the entities themselves are destroyed.
pub fn extract_despawn_requests<T>(entities: &Vec<u64>, presentation: &mut PresentationCommands<T>)
    ensures
        final(presentation)@ == old(presentation)@ + despawn_commands_for::<T>(entities@),
        final(presentation)@.len() == old(presentation)@.len() + entities@.len(),
        forall|i: int|
            0 <= i < old(presentation)@.len() ==> final(presentation)@[i] == old(presentation)@[i],
        forall|i: int|
            0 <= i < entities@.len() ==> final(presentation)@[old(presentation)@.len() + i]
                == ViewCommand::<T>::Despawn(#[trigger] entities@[i]),
{
    proof {
        lemma_despawn_commands_carry_rows::<T>(entities@);
    }
    let mut i: usize = 0;
    while i < entities.len()
        invariant
            i <= entities@.len(),
            presentation@ == old(presentation)@ + despawn_commands_for::<T>(
                entities@.take(i as int),
            ),
        decreases entities@.len() - i,
    {
        let entity = entities[i];
        presentation.despawn_view(entity);
        proof {
            assert(entities@.take(i + 1) =~= entities@.take(i as int).push(entities@[i as int]));
            assert(despawn_commands_for::<T>(entities@.take(i + 1)) =~= despawn_commands_for::<T>(
                entities@.take(i as int),
            ).push(ViewCommand::Despawn(entity)));
        }
        i = i + 1;
    }
    proof {
        assert(entities@.take(entities@.len() as int) =~= entities@);
    }
}

} // verus!
