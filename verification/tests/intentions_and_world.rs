use noname_rl::components::{Attack, GridPos, Health, IntentionKind, MapSize, TileKind};
use noname_rl::intentions::{
    apply_move_actions, process_attack_intention, process_move_intention, resolve_intention_kind,
    AttackIntention, AttackOutcome, IntentionOutcome, MoveIntention, MoveOutcome,
};
use noname_rl::map::TileMap;
use noname_rl::world::GameWorld;

fn gp(x: u32, y: u32) -> GridPos {
    GridPos { x, y }
}

fn stats(hp: i32, dmg: i32) -> (Health, Attack) {
    (Health { current: hp, max: hp }, Attack { damage: dmg })
}

fn small_world() -> GameWorld {
    let map = TileMap::new(MapSize { x: 10, y: 10 });
    let mut world = GameWorld::new(map);
    let (h, a) = stats(20, 3);
    world.add_actor(1, gp(4, 5), h, a, false);
    let (h, a) = stats(8, 2);
    world.add_actor(2, gp(7, 7), h, a, true);
    world
}

fn actor_pos(world: &GameWorld, id: u64) -> (u32, u32) {
    let a = world.actors.iter().find(|a| a.id == id).expect("actor exists");
    (a.pos.x, a.pos.y)
}

#[test]
fn move_into_wall_never_changes_coordinate() {
    let mut world = small_world();
    world.map.set_kind(gp(5, 5), TileKind::Wall);
    let intent = MoveIntention { source: 1, target: gp(5, 5) };
    let (outcome, action) = intent.resolve_intention(&world);
    assert_eq!(outcome, MoveOutcome::BlockedByWall);
    assert!(action.is_none());
    assert_eq!(actor_pos(&world, 1), (4, 5));
}

#[test]
fn move_resolves_and_applies() {
    let mut world = small_world();
    let intent = MoveIntention { source: 1, target: gp(4, 6) };
    let (outcome, action) = intent.resolve_intention(&world);
    assert_eq!(outcome, MoveOutcome::Resolved);
    let action = action.expect("a clear move queues an action");
    let applied = action.apply(&mut world);
    assert!(applied);
    assert_eq!(actor_pos(&world, 1), (4, 6));
    // the occupant reference moved with the actor
    assert_eq!(world.map.get_tile(gp(4, 6)).occupant, Some(1));
    assert_eq!(world.map.get_tile(gp(4, 5)).occupant, None);
    // the actor is flagged dirty-for-visibility
    let a = world.actors.iter().find(|a| a.id == 1).unwrap();
    assert!(a.needs_fov_update);
}

#[test]
fn move_superseded_by_occupant() {
    let world = small_world();
    let intent = MoveIntention { source: 1, target: gp(7, 7) };
    let (outcome, action) = intent.resolve_intention(&world);
    assert_eq!(outcome, MoveOutcome::Superseded);
    assert!(action.is_none());
}

#[test]
fn move_out_of_bounds_rejected() {
    let world = small_world();
    let intent = MoveIntention { source: 1, target: gp(10, 5) };
    let (outcome, action) = intent.resolve_intention(&world);
    assert_eq!(outcome, MoveOutcome::OutOfBounds);
    assert!(action.is_none());
}

#[test]
fn move_with_stale_source_rejected() {
    let world = small_world();
    let intent = MoveIntention { source: 99, target: gp(4, 6) };
    let (outcome, action) = intent.resolve_intention(&world);
    assert_eq!(outcome, MoveOutcome::MissingSource);
    assert!(action.is_none());
}

#[test]
fn move_batch_collects_commands_in_order() {
    let mut world = small_world();
    world.map.set_kind(gp(5, 5), TileKind::Wall);
    let intents = vec![
        MoveIntention { source: 1, target: gp(5, 5) },
        MoveIntention { source: 1, target: gp(4, 6) },
        MoveIntention { source: 2, target: gp(7, 8) },
    ];
    let (cmds, outcomes) = process_move_intention(&world, &intents);
    assert_eq!(
        outcomes,
        vec![MoveOutcome::BlockedByWall, MoveOutcome::Resolved, MoveOutcome::Resolved]
    );
    assert_eq!(cmds.len(), 2);
    assert_eq!(cmds[0].entity, 1);
    assert_eq!((cmds[0].target_tile.x, cmds[0].target_tile.y), (4, 6));
    assert_eq!(cmds[1].entity, 2);

    let applied = apply_move_actions(&mut world, &cmds);
    assert_eq!(applied, vec![true, true]);
    assert_eq!(actor_pos(&world, 1), (4, 6));
    assert_eq!(actor_pos(&world, 2), (7, 8));
}

#[test]
fn attack_applies_damage_subtraction() {
    let mut world = small_world();
    let intent = AttackIntention { source: 1, target: 2, target_pos: gp(7, 7) };
    let outcome = intent.resolve_intention(&mut world);
    assert_eq!(outcome, AttackOutcome::Resolved);
    let target = world.actors.iter().find(|a| a.id == 2).unwrap();
    assert_eq!(target.health.current, 8 - 3);
    assert_eq!(target.health.max, 8);
    // the attack moves nobody
    assert_eq!(actor_pos(&world, 1), (4, 5));
    assert_eq!(actor_pos(&world, 2), (7, 7));
}

#[test]
fn attack_with_stale_target_is_rejected() {
    let mut world = small_world();
    let intent = AttackIntention { source: 1, target: 42, target_pos: gp(7, 7) };
    let outcome = intent.resolve_intention(&mut world);
    assert_eq!(outcome, AttackOutcome::MissingTarget);
    let target = world.actors.iter().find(|a| a.id == 2).unwrap();
    assert_eq!(target.health.current, 8);
}

#[test]
fn attack_batch_processes_in_order() {
    let mut world = small_world();
    let intents = vec![
        AttackIntention { source: 1, target: 2, target_pos: gp(7, 7) },
        AttackIntention { source: 1, target: 2, target_pos: gp(7, 7) },
    ];
    let outcomes = process_attack_intention(&mut world, &intents);
    assert_eq!(outcomes, vec![AttackOutcome::Resolved, AttackOutcome::Resolved]);
    let target = world.actors.iter().find(|a| a.id == 2).unwrap();
    assert_eq!(target.health.current, 8 - 3 - 3);
}

#[test]
fn attack_damage_saturates_at_int_min() {
    let map = TileMap::new(MapSize { x: 4, y: 4 });
    let mut world = GameWorld::new(map);
    world.add_actor(1, gp(0, 0), Health { current: 5, max: 5 }, Attack { damage: i32::MAX }, false);
    world.add_actor(2, gp(1, 1), Health { current: i32::MIN + 4, max: 5 }, Attack { damage: 0 }, true);
    let intent = AttackIntention { source: 1, target: 2, target_pos: gp(1, 1) };
    assert_eq!(intent.resolve_intention(&mut world), AttackOutcome::Resolved);
    let target = world.actors.iter().find(|a| a.id == 2).unwrap();
    assert_eq!(target.health.current, i32::MIN);
}

#[test]
fn occupancy_follows_actors() {
    let world = small_world();
    assert_eq!(world.map.get_tile(gp(4, 5)).occupant, Some(1));
    assert_eq!(world.map.get_tile(gp(7, 7)).occupant, Some(2));
    assert_eq!(world.map.get_tile(gp(0, 0)).occupant, None);
}

#[test]
fn intention_kind_dispatch_covers_all_variants() {
    let mut world = small_world();

    let (outcome, action) =
        resolve_intention_kind(&mut world, 1, IntentionKind::MoveTo { target: gp(4, 6) });
    assert_eq!(outcome, IntentionOutcome::Move(MoveOutcome::Resolved));
    assert!(action.is_some());
    // validation queues the command but mutates nothing itself
    assert_eq!(actor_pos(&world, 1), (4, 5));

    let (outcome, action) = resolve_intention_kind(
        &mut world,
        1,
        IntentionKind::Attack { target: 2, target_pos: gp(7, 7) },
    );
    assert_eq!(outcome, IntentionOutcome::AttackResult(AttackOutcome::Resolved));
    assert!(action.is_none());
    assert_eq!(world.actors.iter().find(|a| a.id == 2).unwrap().health.current, 5);

    let before = actor_pos(&world, 1);
    let (outcome, action) = resolve_intention_kind(&mut world, 1, IntentionKind::Wait);
    assert_eq!(outcome, IntentionOutcome::Waited);
    assert!(action.is_none());
    assert_eq!(actor_pos(&world, 1), before);
}
