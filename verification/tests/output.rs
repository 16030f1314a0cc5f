use godot_bevy_ecs_demo::commands::{PresentationCommands, ViewKind};
use godot_bevy_ecs_demo::output::{
    DespawnCommands, Present, PresentationOutput, SpatialPatches, SpawnCommands,
};

#[derive(Default)]
struct Log(Vec<String>);

impl Present<Log> for SpawnCommands<f32> {
    fn present(&mut self, context: &mut Log) {
        for request in self.drain() {
            context.0.push(format!("spawn {} {:?}", request.entity, request.kind));
        }
    }
}

impl Present<Log> for SpatialPatches<f32> {
    fn present(&mut self, context: &mut Log) {
        let mut patches: Vec<(u64, f32)> = self.drain().into_iter().collect();
        patches.sort_by_key(|(entity, _)| *entity);
        for (entity, x) in patches {
            context.0.push(format!("move {} {}", entity, x));
        }
    }
}

impl Present<Log> for DespawnCommands {
    fn present(&mut self, context: &mut Log) {
        for entity in self.drain() {
            context.0.push(format!("despawn {}", entity));
        }
    }
}

#[test]
fn output_presents_spawns_then_patches_then_despawns() {
    let mut output: PresentationOutput<f32> = PresentationOutput::new();
    output.despawn_view(5);
    output.set_transform(1, 2.0);
    output.spawn_view(1, ViewKind::Player, 0.0);
    let mut log = Log::default();
    output.present(&mut log);
    assert_eq!(log.0, vec!["spawn 1 Player", "move 1 2", "despawn 5"]);
}

#[test]
fn output_is_empty_after_present_and_reusable() {
    let mut output: PresentationOutput<f32> = PresentationOutput::default();
    output.spawn_view(1, ViewKind::Enemy, 0.0);
    let mut log = Log::default();
    output.present(&mut log);
    output.present(&mut log);
    assert_eq!(log.0, vec!["spawn 1 Enemy"]);
    output.set_transform(1, 3.0);
    output.present(&mut log);
    assert_eq!(log.0, vec!["spawn 1 Enemy", "move 1 3"]);
}

#[test]
fn last_transform_of_the_tick_wins() {
    let mut output: PresentationOutput<f32> = PresentationOutput::new();
    output.set_transform(4, 1.0);
    output.set_transform(4, 7.0);
    output.set_transform(2, 3.0);
    let mut log = Log::default();
    output.present(&mut log);
    assert_eq!(log.0, vec!["move 2 3", "move 4 7"]);
}

#[test]
fn spawn_commands_keep_order_and_drain() {
    let mut spawns: SpawnCommands<f32> = SpawnCommands::default();
    assert!(spawns.drain().is_empty());
    let requests = spawns.into_requests();
    assert!(requests.is_empty());
}

#[test]
fn into_accessors_hand_back_contents() {
    let patches: SpatialPatches<f32> = SpatialPatches::default();
    assert!(patches.into_transforms().is_empty());
    let despawns = DespawnCommands::default();
    assert!(despawns.into_entities().is_empty());
}

#[test]
fn record_routes_commands_to_their_domains() {
    let mut commands = PresentationCommands::new();
    commands.set_transform(1, 1.0);
    commands.despawn_view(9);
    commands.spawn_view(1, ViewKind::Player, 0.0);
    commands.set_transform(2, 2.0);
    commands.set_transform(1, 5.0);
    commands.spawn_view(3, ViewKind::Enemy, 0.0);
    let mut output: PresentationOutput<f32> = PresentationOutput::new();
    output.record(commands.take_ordered());
    let mut log = Log::default();
    output.present(&mut log);
    assert_eq!(
        log.0,
        vec!["spawn 1 Player", "spawn 3 Enemy", "move 1 5", "move 2 2", "despawn 9"]
    );
}

#[test]
fn record_of_nothing_presents_nothing() {
    let mut output: PresentationOutput<f32> = PresentationOutput::new();
    output.record(Vec::new());
    let mut log = Log::default();
    output.present(&mut log);
    assert!(log.0.is_empty());
}

#[test]
fn one_patch_per_distinct_entity_written() {
    let mut output: PresentationOutput<f32> = PresentationOutput::new();
    for (entity, x) in [(1u64, 1.0f32), (2, 2.0), (1, 3.0), (3, 4.0), (2, 5.0), (1, 6.0)] {
        output.set_transform(entity, x);
    }
    let mut log = Log::default();
    output.present(&mut log);
    assert_eq!(log.0, vec!["move 1 6", "move 2 5", "move 3 4"]);
}

#[test]
fn spatial_drain_hands_out_all_and_empties() {
    let mut output: PresentationOutput<f32> = PresentationOutput::new();
    output.set_transform(8, 1.5);
    let mut log = Log::default();
    output.present(&mut log);
    let mut patches: SpatialPatches<f32> = SpatialPatches::new();
    assert!(patches.drain().is_empty());
    assert_eq!(log.0, vec!["move 8 1.5"]);
}
