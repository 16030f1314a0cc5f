use godot_bevy_ecs_demo::enemies::{enemies_to_clear, EnemySpawn, EnemySpawnSequence};

#[test]
fn no_spawn_without_request() {
    let mut sequence = EnemySpawnSequence::default();
    assert_eq!(sequence.spawn_enemy(false), None);
    assert_eq!(sequence.next, 0);
}

#[test]
fn enemies_fill_the_grid_row_by_row() {
    let mut sequence = EnemySpawnSequence::new();
    assert_eq!(
        sequence.spawn_enemy(true),
        Some(EnemySpawn { index: 0, column: 0, row: 0, x: 100, y: 310 })
    );
    assert_eq!(
        sequence.spawn_enemy(true),
        Some(EnemySpawn { index: 1, column: 1, row: 0, x: 170, y: 310 })
    );
    assert_eq!(sequence.next, 2);
    sequence.next = 9;
    assert_eq!(
        sequence.spawn_enemy(true),
        Some(EnemySpawn { index: 9, column: 1, row: 1, x: 170, y: 370 })
    );
    sequence.next = 31;
    assert_eq!(
        sequence.spawn_enemy(true),
        Some(EnemySpawn { index: 31, column: 7, row: 3, x: 590, y: 490 })
    );
}

#[test]
fn grid_cells_repeat_every_32_enemies() {
    let mut a = EnemySpawnSequence { next: 5 };
    let mut b = EnemySpawnSequence { next: 37 };
    let first = a.spawn_enemy(true).unwrap();
    let second = b.spawn_enemy(true).unwrap();
    assert_eq!((first.column, first.row, first.x, first.y), (second.column, second.row, second.x, second.y));
    let mut c = EnemySpawnSequence { next: 13 };
    let third = c.spawn_enemy(true).unwrap();
    assert_ne!((first.column, first.row), (third.column, third.row));
}

#[test]
fn last_sequence_number_before_overflow() {
    let mut sequence = EnemySpawnSequence { next: u32::MAX - 1 };
    let spawn = sequence.spawn_enemy(true).unwrap();
    assert_eq!(spawn.index, u32::MAX - 1);
    assert_eq!((spawn.column, spawn.row), (6, 3));
    assert_eq!(sequence.next, u32::MAX);
}

#[test]
fn clear_marks_all_enemies_only_when_requested() {
    assert_eq!(enemies_to_clear(true, vec![3, 1, 2]), vec![3, 1, 2]);
    assert!(enemies_to_clear(false, vec![3, 1, 2]).is_empty());
    assert!(enemies_to_clear(true, Vec::new()).is_empty());
}
