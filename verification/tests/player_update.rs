use noname_rl::components::{Attack, GridPos, Health, MapSize};
use noname_rl::map::TileMap;
use noname_rl::monsters::spawn_monster;
use noname_rl::update::{update_player, ActionSnapshot, PlayerUpdate};
use noname_rl::world::GameWorld;

fn gp(x: u32, y: u32) -> GridPos {
    GridPos { x, y }
}

fn snap(up: bool, down: bool, left: bool, right: bool) -> ActionSnapshot {
    ActionSnapshot { up, down, left, right }
}

const SIZE: MapSize = MapSize { x: 20, y: 20 };

#[test]
fn no_input_is_idle() {
    let r = update_player(snap(false, false, false, false), 1, gp(5, 5), SIZE, &vec![]);
    assert!(matches!(r, PlayerUpdate::Idle));
}

#[test]
fn opposite_directions_cancel_out() {
    let r = update_player(snap(true, true, false, false), 1, gp(5, 5), SIZE, &vec![]);
    assert!(matches!(r, PlayerUpdate::Idle));
}

#[test]
fn free_cell_yields_move_intention() {
    let r = update_player(snap(false, false, false, true), 1, gp(5, 5), SIZE, &vec![]);
    match r {
        PlayerUpdate::Movement(m) => {
            assert_eq!(m.source, 1);
            assert_eq!((m.target.x, m.target.y), (6, 5));
        },
        other => panic!("expected a movement, got {other:?}"),
    }
}

#[test]
fn diagonal_input_moves_both_axes() {
    let r = update_player(snap(true, false, false, true), 1, gp(5, 5), SIZE, &vec![]);
    match r {
        PlayerUpdate::Movement(m) => assert_eq!((m.target.x, m.target.y), (6, 6)),
        other => panic!("expected a movement, got {other:?}"),
    }
}

#[test]
fn leaving_the_map_aborts() {
    let r = update_player(snap(false, false, true, false), 1, gp(0, 5), SIZE, &vec![]);
    assert!(matches!(r, PlayerUpdate::OutsideMap));
    let r = update_player(snap(false, true, false, false), 1, gp(5, 0), SIZE, &vec![]);
    assert!(matches!(r, PlayerUpdate::OutsideMap));
}

#[test]
fn occupied_cell_yields_attacks_per_occupant() {
    let monsters = vec![(7u64, gp(6, 5)), (8u64, gp(3, 3)), (9u64, gp(6, 5))];
    let r = update_player(snap(false, false, false, true), 1, gp(5, 5), SIZE, &monsters);
    match r {
        PlayerUpdate::Attacks(v) => {
            assert_eq!(v.len(), 2);
            assert_eq!(v[0].source, 1);
            assert_eq!(v[0].target, 7);
            assert_eq!(v[1].target, 9);
            assert_eq!((v[0].target_pos.x, v[0].target_pos.y), (6, 5));
        },
        other => panic!("expected attacks, got {other:?}"),
    }
}

#[test]
fn spawn_monster_places_on_floor_tiles() {
    let map = TileMap::new(MapSize { x: 16, y: 16 });
    let mut world = GameWorld::new(map);
    world.add_actor(1, gp(0, 0), Health { current: 10, max: 10 }, Attack { damage: 1 }, false);
    let floor: Vec<GridPos> = (0..16u32).map(|x| gp(x, 8)).collect();
    let spawned = spawn_monster(
        &mut world,
        &floor,
        10,
        100,
        Health { current: 5, max: 5 },
        Attack { damage: 2 },
    );
    // every listed cell is free, so the first draw necessarily lands
    assert!(1 <= spawned && spawned <= 10);
    assert_eq!(world.actors.len(), 1 + spawned as usize);
    for a in world.actors.iter().skip(1) {
        assert!(a.monster);
        assert_eq!(a.pos.y, 8);
        assert_eq!(world.map.get_tile(a.pos).occupant, Some(a.id));
    }
}

#[test]
fn spawn_monster_with_no_floor_spawns_none() {
    let map = TileMap::new(MapSize { x: 4, y: 4 });
    let mut world = GameWorld::new(map);
    let spawned = spawn_monster(
        &mut world,
        &Vec::new(),
        5,
        100,
        Health { current: 5, max: 5 },
        Attack { damage: 2 },
    );
    assert_eq!(spawned, 0);
    assert!(world.actors.is_empty());
}
