use noname_rl::components::{GridPos, MapSize, Player, TileKind};
use noname_rl::map::TileMap;
use noname_rl::visibility::update_visibile_tiles;

fn open_map(w: u32, h: u32) -> TileMap {
    TileMap::new(MapSize { x: w, y: h })
}

fn player_at(x: u32, y: u32) -> Player {
    Player {
        pos: GridPos { x, y },
        visible_tiles: Vec::new(),
        visited_tiles: Vec::new(),
        needs_fov_update: true,
    }
}

fn sees(p: &Player, x: u32, y: u32) -> bool {
    p.visible_tiles.iter().any(|g| g.x == x && g.y == y)
}

#[test]
fn no_occluders_full_square_visible() {
    let map = open_map(40, 40);
    let mut player = player_at(20, 20);
    update_visibile_tiles(&map, &mut player);
    assert!(!player.needs_fov_update);
    // every cell of the 31x31 square around the actor is visible
    for x in 5..=35u32 {
        for y in 5..=35u32 {
            assert!(sees(&player, x, y), "cell ({x}, {y}) should be visible");
        }
    }
    assert_eq!(player.visible_tiles.len(), 31 * 31);
}

#[test]
fn no_occluders_clipped_at_map_edge() {
    let map = open_map(20, 20);
    let mut player = player_at(2, 2);
    update_visibile_tiles(&map, &mut player);
    for x in 0..=17u32 {
        for y in 0..=17u32 {
            assert!(sees(&player, x, y), "cell ({x}, {y}) should be visible");
        }
    }
    assert!(!sees(&player, 18, 2));
}

#[test]
fn occluder_is_visible_but_cell_behind_is_not() {
    let mut map = open_map(40, 40);
    map.set_kind(GridPos { x: 23, y: 20 }, TileKind::Wall);
    let mut player = player_at(20, 20);
    update_visibile_tiles(&map, &mut player);
    assert!(sees(&player, 21, 20));
    assert!(sees(&player, 22, 20));
    // the occluder itself is visible
    assert!(sees(&player, 23, 20));
    // the far cell on the same ray is shadowed
    assert!(!sees(&player, 26, 20));
    assert!(!sees(&player, 30, 20));
}

#[test]
fn out_of_bounds_actor_aborts_pass() {
    let map = open_map(10, 10);
    let mut player = player_at(15, 3);
    player.visible_tiles.push(GridPos { x: 1, y: 1 });
    update_visibile_tiles(&map, &mut player);
    // nothing was touched: old set kept, dirty flag still set
    assert_eq!(player.visible_tiles.len(), 1);
    assert!(player.needs_fov_update);
}

#[test]
fn pass_rebuilds_set_from_empty() {
    let map = open_map(40, 40);
    let mut player = player_at(20, 20);
    player.visible_tiles.push(GridPos { x: 0, y: 0 });
    update_visibile_tiles(&map, &mut player);
    // (0, 0) is outside the sight radius and must have been discarded
    assert!(!sees(&player, 0, 0));
}
