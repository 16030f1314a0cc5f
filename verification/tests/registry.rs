use godot_bevy_ecs_demo::commands::{SpawnView, ViewKind};
use godot_bevy_ecs_demo::registry::{AttachOutcome, SpawnAction, SpawnBatch, ViewRegistry};

fn request(entity: u64) -> SpawnView<f32> {
    SpawnView { entity, kind: ViewKind::Player, transform: 0.0 }
}

#[test]
fn registry_insert_contains_get_mut_remove() {
    let mut registry: ViewRegistry<String> = ViewRegistry::new();
    assert!(!registry.contains(1));
    registry.insert(1, "a".to_string());
    assert!(registry.contains(1));
    assert_eq!(registry.len(), 1);
    if let Some(view) = registry.get_mut(1) {
        view.push('!');
    }
    assert!(registry.get_mut(2).is_none());
    assert_eq!(registry.remove(1), Some("a!".to_string()));
    assert!(!registry.contains(1));
    assert_eq!(registry.remove(1), None);
    assert_eq!(registry.len(), 0);
}

#[test]
fn registry_keys_on_full_entity_identity() {
    // Same index, different generation: distinct entities.
    let old_entity: u64 = (1u64 << 32) | 7;
    let new_entity: u64 = (2u64 << 32) | 7;
    let mut registry: ViewRegistry<u8> = ViewRegistry::default();
    registry.insert(old_entity, 1);
    assert!(!registry.contains(new_entity));
}

fn run(
    batch: &mut SpawnBatch<f32>,
    registry: &mut ViewRegistry<u64>,
    scene_ok: impl Fn(u64) -> bool,
    root: bool,
) -> Vec<(u64, AttachOutcome)> {
    let mut log = Vec::new();
    loop {
        match batch.next_action(registry) {
            SpawnAction::Done => break,
            SpawnAction::Instantiate(r) => {
                let node = if scene_ok(r.entity) { Some(r.entity * 10) } else { None };
                let outcome = batch.on_instantiated(registry, node, root);
                log.push((r.entity, outcome));
            }
        }
    }
    log
}

#[test]
fn spawn_batch_skips_entities_that_already_have_a_view() {
    let mut registry = ViewRegistry::new();
    registry.insert(2, 99);
    let mut batch = SpawnBatch::new(vec![request(1), request(2), request(1), request(3)]);
    let log = run(&mut batch, &mut registry, |_| true, true);
    assert_eq!(
        log,
        vec![(1, AttachOutcome::Attached), (3, AttachOutcome::Attached)]
    );
    assert_eq!(registry.len(), 3);
    assert_eq!(registry.remove(2), Some(99));
    assert_eq!(registry.remove(1), Some(10));
}

#[test]
fn spawn_batch_drops_request_when_scene_is_unavailable() {
    let mut registry = ViewRegistry::new();
    let mut batch = SpawnBatch::new(vec![request(1), request(2), request(1)]);
    let log = run(&mut batch, &mut registry, |e| e != 1, true);
    assert_eq!(
        log,
        vec![
            (1, AttachOutcome::SceneUnavailable),
            (2, AttachOutcome::Attached),
            (1, AttachOutcome::SceneUnavailable)
        ]
    );
    assert!(!registry.contains(1));
    assert!(registry.contains(2));
}

#[test]
fn spawn_batch_stops_without_root() {
    let mut registry = ViewRegistry::new();
    let mut batch = SpawnBatch::new(vec![request(1), request(2)]);
    let log = run(&mut batch, &mut registry, |_| true, false);
    assert_eq!(log, vec![(1, AttachOutcome::RootMissing)]);
    assert_eq!(registry.len(), 0);
    assert!(matches!(batch.next_action(&registry), SpawnAction::Done));
}

#[test]
fn empty_spawn_batch_is_done() {
    let registry: ViewRegistry<u64> = ViewRegistry::new();
    let mut batch: SpawnBatch<f32> = SpawnBatch::new(Vec::new());
    assert!(matches!(batch.next_action(&registry), SpawnAction::Done));
}
