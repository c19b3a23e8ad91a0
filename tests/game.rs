use arena_core::game_manager::{
    generate_food, Command, Effect, Food, GameManager, InternalCommand, MessageToClient,
    PlayerCommand, PlayerMessage, FOOD_FLOOR,
};
use arena_core::player::Player;
use arena_core::vector::Vector2D;

fn join(manager: &mut GameManager, id: u32, name: &str) -> Vec<Effect> {
    manager.execute_command(Command::PlayerCommand(PlayerMessage {
        id,
        command: PlayerCommand::Join { name: String::from(name) },
    }))
}

fn tick(manager: &mut GameManager) -> Vec<Effect> {
    manager.execute_command(Command::InternalCommand(InternalCommand::Update))
}

fn snapshot_players(effects: &[Effect]) -> Vec<u32> {
    match effects.last() {
        Some(Effect::Broadcast { message: MessageToClient::State { players, .. } }) => {
            players.iter().map(|p| p.id).collect()
        }
        other => panic!("no snapshot: {:?}", other),
    }
}

fn removals(effects: &[Effect]) -> Vec<u32> {
    let mut ids = Vec::new();
    for e in effects {
        if let Effect::Enqueue {
            command: Command::InternalCommand(InternalCommand::RemovePlayer { id }),
        } = e
        {
            ids.push(*id);
        }
    }
    ids
}

fn radius_of(manager: &GameManager, id: u32) -> u32 {
    manager.players.iter().find(|p| p.id == id).unwrap().radius
}

#[test]
fn new_world_has_full_food_and_no_players() {
    let manager = GameManager::new();
    assert_eq!(manager.food.len(), FOOD_FLOOR);
    assert_eq!(manager.food.len(), 50);
    assert!(manager.players.is_empty());
}

#[test]
fn generated_food_lies_in_the_arena() {
    let food = generate_food(500);
    assert_eq!(food.len(), 500);
    for f in &food {
        assert!(f.radius >= 2_000_000 && f.radius < 6_000_000);
        let r = f.radius as i64;
        assert!(f.position.x >= r && f.position.x < 800_000_000 - r);
        assert!(f.position.y >= r && f.position.y < 600_000_000 - r);
    }
    assert!(food.iter().any(|f| f.radius != food[0].radius));
    assert!(food.iter().any(|f| f.position != food[0].position));
    assert!(generate_food(0).is_empty());
}

#[test]
fn join_adds_player_and_greets_it() {
    let mut manager = GameManager::new();
    let effects = join(&mut manager, 4, "bob");
    assert_eq!(effects.len(), 1);
    assert!(matches!(
        effects[0],
        Effect::SendToPlayer { id: 4, message: MessageToClient::JoinSuccess { id: 4 } }
    ));
    assert_eq!(manager.players.len(), 1);
    assert_eq!(manager.players[0].name, "bob");
    assert_eq!(manager.players[0].radius, 10_000_000);
}

#[test]
fn remove_player_notifies_then_drops() {
    let mut manager = GameManager::new();
    join(&mut manager, 1, "a");
    join(&mut manager, 2, "b");
    let effects =
        manager.execute_command(Command::InternalCommand(InternalCommand::RemovePlayer { id: 1 }));
    assert_eq!(effects.len(), 1);
    assert!(matches!(
        effects[0],
        Effect::SendToPlayer { id: 1, message: MessageToClient::PlayerEaten { id: 1 } }
    ));
    assert_eq!(manager.get_players().iter().map(|p| p.id).collect::<Vec<_>>(), vec![2]);
}

#[test]
fn move_for_unknown_id_is_a_no_op() {
    let mut manager = GameManager::new();
    join(&mut manager, 1, "a");
    let effects = manager.execute_command(Command::PlayerCommand(PlayerMessage {
        id: 9,
        command: PlayerCommand::Move { position: Vector2D::new(100_000_000, 0) },
    }));
    assert!(effects.is_empty());
    assert_eq!(manager.players[0].position, Vector2D::new(0, 0));
}

#[test]
fn move_moves_the_sender() {
    let mut manager = GameManager::new();
    join(&mut manager, 1, "a");
    join(&mut manager, 2, "b");
    manager.move_player(2, Vector2D::new(0, -100_000_000));
    assert_eq!(manager.players[0].position, Vector2D::new(0, 0));
    assert_eq!(manager.players[1].position, Vector2D::new(0, -3_989_423));
}

#[test]
fn move_target_is_limited_to_the_world() {
    let mut manager = GameManager::new();
    join(&mut manager, 1, "a");
    manager.move_player(1, Vector2D::new(i64::MAX, 0));
    assert_eq!(manager.players[0].position, Vector2D::new(3_989_423, 0));
}

#[test]
fn equal_players_first_is_absorbed() {
    let mut manager = GameManager::new();
    manager.food.clear();
    join(&mut manager, 1, "a");
    join(&mut manager, 2, "b");
    let effects = tick(&mut manager);
    assert_eq!(radius_of(&manager, 1), 0);
    assert_eq!(radius_of(&manager, 2), 14_142_136);
    assert_eq!(removals(&effects), vec![1]);
    assert_eq!(snapshot_players(&effects), vec![1, 2]);
}

#[test]
fn collision_outcome_is_reproducible() {
    for _ in 0..3 {
        let mut manager = GameManager::new();
        manager.food.clear();
        join(&mut manager, 1, "a");
        join(&mut manager, 2, "b");
        manager.check_collision();
        assert_eq!(radius_of(&manager, 1), 0);
        assert_eq!(radius_of(&manager, 2), 14_142_136);
    }
}

#[test]
fn larger_player_absorbs_smaller() {
    let mut manager = GameManager::new();
    manager.food.clear();
    join(&mut manager, 1, "a");
    join(&mut manager, 2, "b");
    manager.players[1].radius = 5_000_000;
    manager.check_collision();
    assert_eq!(radius_of(&manager, 1), 11_180_340);
    assert_eq!(radius_of(&manager, 2), 0);
}

#[test]
fn distant_players_do_not_collide() {
    let mut manager = GameManager::new();
    manager.food.clear();
    join(&mut manager, 1, "a");
    join(&mut manager, 2, "b");
    manager.players[1].position = Vector2D::new(20_000_000, 0);
    manager.check_collision();
    assert_eq!(radius_of(&manager, 1), 10_000_000);
    assert_eq!(radius_of(&manager, 2), 10_000_000);
    manager.players[1].position = Vector2D::new(19_999_999, 0);
    manager.check_collision();
    assert_eq!(radius_of(&manager, 1), 0);
    assert_eq!(radius_of(&manager, 2), 14_142_136);
}

#[test]
fn two_overlapping_players_end_with_one() {
    let mut manager = GameManager::new();
    manager.food.clear();
    join(&mut manager, 1, "a");
    join(&mut manager, 2, "b");
    let effects = tick(&mut manager);
    let radii = [radius_of(&manager, 1), radius_of(&manager, 2)];
    assert!(radii.contains(&0) && radii.contains(&14_142_136));
    let mut eaten = 0;
    for id in removals(&effects) {
        let notes =
            manager.execute_command(Command::InternalCommand(InternalCommand::RemovePlayer { id }));
        for n in &notes {
            if matches!(n, Effect::SendToPlayer { message: MessageToClient::PlayerEaten { .. }, .. }) {
                eaten += 1;
            }
        }
    }
    assert_eq!(eaten, 1);
    let effects = tick(&mut manager);
    assert_eq!(snapshot_players(&effects), vec![2]);
}

#[test]
fn food_under_a_player_is_eaten() {
    let mut manager = GameManager::new();
    join(&mut manager, 1, "a");
    manager.food = vec![
        Food { position: Vector2D::new(3_000_000, 4_000_000), radius: 3_000_000 },
        Food { position: Vector2D::new(500_000_000, 400_000_000), radius: 3_000_000 },
    ];
    manager.check_food_collision();
    assert_eq!(manager.food.len(), 1);
    assert_eq!(manager.food[0].position, Vector2D::new(500_000_000, 400_000_000));
    assert_eq!(radius_of(&manager, 1), 10_440_307);
}

#[test]
fn food_is_topped_up_after_a_tick() {
    let mut manager = GameManager::new();
    join(&mut manager, 1, "a");
    manager.food = vec![Food { position: Vector2D::new(3_000_000, 3_000_000), radius: 2_000_000 }];
    let effects = tick(&mut manager);
    assert!(manager.food.len() >= 50);
    assert_eq!(manager.food.len(), 50);
    assert!(radius_of(&manager, 1) > 10_000_000);
    match effects.last() {
        Some(Effect::Broadcast { message: MessageToClient::State { food, .. } }) => {
            assert_eq!(food.len(), 50)
        }
        other => panic!("no snapshot: {:?}", other),
    }
}

#[test]
fn food_above_the_floor_is_kept() {
    let mut manager = GameManager::new();
    manager.food.extend(generate_food(10));
    let effects = manager.update();
    assert_eq!(manager.food.len(), 60);
    assert!(effects.is_empty());
}

#[test]
fn dead_players_get_one_removal_each() {
    let mut manager = GameManager::new();
    manager.food.clear();
    join(&mut manager, 1, "a");
    join(&mut manager, 2, "b");
    join(&mut manager, 3, "c");
    manager.players[0].radius = 10_000;
    manager.players[1].radius = 10_001;
    manager.players[1].position = Vector2D::new(700_000_000, 0);
    manager.players[2].radius = 0;
    manager.players[2].position = Vector2D::new(0, 500_000_000);
    manager.players[0].position = Vector2D::new(-500_000_000, 0);
    assert_eq!(removals(&manager.remove_dead_players()), vec![1, 3]);
}

#[test]
fn player_helper_copies() {
    let p = Player::new(3, String::from("z"));
    let q = p.duplicate();
    assert_eq!(q.id, 3);
    assert_eq!(q.name, "z");
}

#[test]
fn removing_an_absent_player_says_nothing() {
    let mut manager = GameManager::new();
    join(&mut manager, 1, "a");
    let effects =
        manager.execute_command(Command::InternalCommand(InternalCommand::RemovePlayer { id: 5 }));
    assert!(effects.is_empty());
    assert_eq!(manager.players.len(), 1);
}

#[test]
fn dead_player_is_told_once_across_repeated_ticks() {
    let mut manager = GameManager::new();
    manager.food.clear();
    join(&mut manager, 1, "a");
    join(&mut manager, 2, "b");
    let mut queued = removals(&tick(&mut manager));
    manager.food.clear();
    queued.extend(removals(&tick(&mut manager)));
    assert_eq!(queued, vec![1, 1]);
    let mut eaten = 0;
    for id in queued {
        let notes =
            manager.execute_command(Command::InternalCommand(InternalCommand::RemovePlayer { id }));
        eaten += notes.len();
    }
    assert_eq!(eaten, 1);
    assert_eq!(manager.get_players().iter().map(|p| p.id).collect::<Vec<_>>(), vec![2]);
}
