use noname_rl::components::{IPos, MapSize, TileKind};
use noname_rl::map::TileMap;
use noname_rl::mapgen::{map_room_generator, map_setup};
use noname_rl::room::Room;

fn ipos(x: i32, y: i32) -> IPos {
    IPos { x, y }
}

#[test]
fn room_cells_and_center() {
    let room = Room::new(ipos(2, 3), ipos(4, 5));
    let cells = room.cells();
    assert_eq!(cells.len(), 20);
    assert!(cells.iter().any(|c| c.x == 2 && c.y == 3));
    assert!(cells.iter().any(|c| c.x == 5 && c.y == 7));
    assert!(!cells.iter().any(|c| c.x == 6 || c.y == 8));
    let center = room.center();
    assert_eq!((center.x, center.y), (4, 5));
}

#[test]
fn room_border_and_interior_partition() {
    let room = Room::new(ipos(2, 3), ipos(4, 5));
    let border = room.border_cells();
    let interior = room.interior_cells();
    // two cells pushed per column plus two per row; corners appear twice
    assert_eq!(border.len(), (2 * 4 + 2 * 5) as usize);
    assert_eq!(interior.len(), 2 * 3);
    for c in interior.iter() {
        assert!(3 <= c.x && c.x <= 4 && 4 <= c.y && c.y <= 6);
        assert!(!border.contains(c));
    }
    for corner in [(2, 3), (5, 3), (2, 7), (5, 7)] {
        assert!(border.iter().any(|c| (c.x, c.y) == corner));
    }
}

#[test]
fn room_intersects_is_inclusive() {
    let a = Room::new(ipos(0, 0), ipos(5, 5));
    let b = Room::new(ipos(3, 3), ipos(5, 5));
    let c = Room::new(ipos(5, 0), ipos(5, 5));
    let d = Room::new(ipos(6, 0), ipos(5, 5));
    assert!(a.intersects(&b));
    // rooms whose cells merely touch still count as intersecting
    assert!(a.intersects(&c));
    // one empty column between them is enough to pass
    assert!(!a.intersects(&d));
}

#[test]
fn create_random_respects_bounds() {
    for _ in 0..50 {
        let r = Room::create_random(100, 80);
        assert!(0 <= r.pos.x && r.pos.x < 100);
        assert!(0 <= r.pos.y && r.pos.y < 80);
        assert!(5 <= r.size.x && r.size.x < 15);
        assert!(5 <= r.size.y && r.size.y < 15);
    }
}

#[test]
fn create_random_in_rect_respects_ranges() {
    for _ in 0..50 {
        let r = Room::create_random_in_rect(ipos(10, 20), ipos(50, 60), ((10, 25), (10, 25)));
        assert!(10 <= r.pos.x && r.pos.x < 60);
        assert!(20 <= r.pos.y && r.pos.y < 80);
        assert!(10 <= r.size.x && r.size.x < 25);
        assert!(10 <= r.size.y && r.size.y < 25);
    }
}

#[test]
fn generated_rooms_never_intersect() {
    let mut map = map_setup(MapSize { x: 320, y: 320 });
    let dungeon = map_room_generator(&mut map);
    // the first candidate has nothing to intersect, so one room always lands
    assert!(1 <= dungeon.rooms.len() && dungeon.rooms.len() <= 4);
    for (i, a) in dungeon.rooms.iter().enumerate() {
        for (j, b) in dungeon.rooms.iter().enumerate() {
            if i != j {
                assert!(!a.intersects(b));
            }
        }
    }
}

#[test]
fn spawn_lies_in_a_room_interior() {
    let mut map = map_setup(MapSize { x: 320, y: 320 });
    let dungeon = map_room_generator(&mut map);
    let c = dungeon.spawn.expect("at least one room is always placed, so a spawn cell exists");
    let inside = dungeon.rooms.iter().any(|r| {
        r.pos.x < c.x
            && c.x < r.pos.x + r.size.x - 1
            && r.pos.y < c.y
            && c.y < r.pos.y + r.size.y - 1
    });
    assert!(inside);
}

#[test]
fn carving_marks_interiors_floor_and_borders_wall() {
    let mut map = map_setup(MapSize { x: 320, y: 320 });
    let dungeon = map_room_generator(&mut map);
    // interior cells that lie on the map are floor after the pass
    for room in dungeon.rooms.iter() {
        for c in room.interior_cells() {
            if 0 <= c.x && c.x < 320 && 0 <= c.y && c.y < 320 {
                let t = map.get_tile(noname_rl::components::GridPos {
                    x: c.x as u32,
                    y: c.y as u32,
                });
                assert_eq!(t.kind, TileKind::Floor);
                assert!(!t.occluder);
            }
        }
    }
}

#[test]
fn map_setup_keeps_wall_occluder_invariant() {
    let map = map_setup(MapSize { x: 64, y: 64 });
    let mut walls = 0u32;
    for x in 0..64u32 {
        for y in 0..64u32 {
            let t = map.get_tile(noname_rl::components::GridPos { x, y });
            assert_eq!(t.occluder, t.kind == TileKind::Wall);
            assert!(t.occupant.is_none());
            if t.kind == TileKind::Wall {
                walls += 1;
            }
        }
    }
    // roughly three tiles in ten are walls; leave generous slack
    assert!(walls > 64 * 64 / 10);
    assert!(walls < 64 * 64 * 6 / 10);
}

#[test]
fn tile_map_new_is_all_floor() {
    let map = TileMap::new(MapSize { x: 8, y: 6 });
    for x in 0..8u32 {
        for y in 0..6u32 {
            let t = map.get_tile(noname_rl::components::GridPos { x, y });
            assert_eq!(t.kind, TileKind::Floor);
            assert!(!t.occluder);
            assert!(t.occupant.is_none());
        }
    }
}
