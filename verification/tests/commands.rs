use godot_bevy_ecs_demo::commands::{
    PresentationCommands, SpawnView, TransformUpdate, ViewCommand, ViewKind,
};
use godot_bevy_ecs_demo::extraction::{
    extract_added_views, extract_changed_transforms, extract_despawn_requests,
};

#[derive(Clone, Copy, Debug, PartialEq)]
struct Transform {
    x: f32,
    y: f32,
    rotation: f32,
}

fn t(x: f32) -> Transform {
    Transform { x, y: 0.0, rotation: 0.0 }
}

fn describe(command: &ViewCommand<Transform>) -> (u8, u64) {
    match command {
        ViewCommand::Spawn(s) => (0, s.entity),
        ViewCommand::SetTransform(u) => (1, u.entity),
        ViewCommand::Despawn(e) => (2, *e),
    }
}

#[test]
fn phases_are_spawn_transform_despawn() {
    let spawn: ViewCommand<Transform> = ViewCommand::Spawn(SpawnView {
        entity: 1,
        kind: ViewKind::Player,
        transform: t(0.0),
    });
    let update: ViewCommand<Transform> = ViewCommand::SetTransform(TransformUpdate {
        entity: 1,
        transform: t(1.0),
    });
    let despawn: ViewCommand<Transform> = ViewCommand::Despawn(1);
    assert_eq!(spawn.phase(), 0);
    assert_eq!(update.phase(), 1);
    assert_eq!(despawn.phase(), 2);
}

#[test]
fn take_ordered_orders_by_phase_stably_and_empties_queue() {
    let mut commands = PresentationCommands::new();
    commands.despawn_view(9);
    commands.set_transform(2, t(2.0));
    commands.spawn_view(2, ViewKind::Enemy, t(0.0));
    commands.set_transform(1, t(1.0));
    commands.despawn_view(8);
    commands.spawn_view(1, ViewKind::Player, t(0.5));
    assert_eq!(commands.len(), 6);

    let ordered = commands.take_ordered();
    let described: Vec<(u8, u64)> = ordered.iter().map(describe).collect();
    assert_eq!(
        described,
        vec![(0, 2), (0, 1), (1, 2), (1, 1), (2, 9), (2, 8)]
    );
    assert_eq!(commands.len(), 0);
    assert!(commands.take_ordered().is_empty());
}

#[test]
fn take_ordered_keeps_payloads() {
    let mut commands = PresentationCommands::new();
    commands.set_transform(3, t(4.5));
    commands.spawn_view(3, ViewKind::Player, t(1.5));
    let ordered = commands.take_ordered();
    match (&ordered[0], &ordered[1]) {
        (ViewCommand::Spawn(s), ViewCommand::SetTransform(u)) => {
            assert_eq!(s.kind, ViewKind::Player);
            assert_eq!(s.transform, t(1.5));
            assert_eq!(u.transform, t(4.5));
        }
        _ => panic!("spawn must come before the transform"),
    }
}

#[test]
fn default_queue_is_empty() {
    let commands: PresentationCommands<Transform> = PresentationCommands::default();
    assert_eq!(commands.len(), 0);
}

#[test]
fn added_view_generates_one_spawn() {
    let mut commands = PresentationCommands::new();
    extract_added_views(&vec![(7, ViewKind::Player, t(480.0))], &mut commands);
    let ordered = commands.take_ordered();
    assert_eq!(ordered.len(), 1);
    match &ordered[0] {
        ViewCommand::Spawn(s) => {
            assert_eq!(s.entity, 7);
            assert_eq!(s.kind, ViewKind::Player);
            assert_eq!(s.transform, t(480.0));
        }
        _ => panic!("expected a spawn"),
    }
}

#[test]
fn extraction_keeps_query_order_and_appends() {
    let mut commands = PresentationCommands::new();
    commands.despawn_view(100);
    extract_changed_transforms(&vec![(3, t(3.0)), (1, t(1.0))], &mut commands);
    extract_despawn_requests(&vec![5, 4], &mut commands);
    extract_added_views(
        &vec![(6, ViewKind::Enemy, t(6.0)), (2, ViewKind::Player, t(2.0))],
        &mut commands,
    );
    assert_eq!(commands.len(), 7);
    let described: Vec<(u8, u64)> = commands.take_ordered().iter().map(describe).collect();
    assert_eq!(
        described,
        vec![(0, 6), (0, 2), (1, 3), (1, 1), (2, 100), (2, 5), (2, 4)]
    );
}

#[test]
fn extraction_of_nothing_changes_nothing() {
    let mut commands: PresentationCommands<Transform> = PresentationCommands::new();
    extract_added_views(&Vec::new(), &mut commands);
    extract_changed_transforms(&Vec::new(), &mut commands);
    extract_despawn_requests(&Vec::new(), &mut commands);
    assert_eq!(commands.len(), 0);
}
