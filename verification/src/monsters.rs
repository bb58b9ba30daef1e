//! Monster placement: scatter hostile actors over free floor cells.

use vstd::prelude::*;
use crate::components::{Attack, GridPos, Health};
use crate::rng::rand_range_i32;
use crate::world::GameWorld;

verus! {

/// Spawn up to `count` monsters on randomly drawn entries of
/// `floor_tiles`, skipping draws whose cell is already occupied.  New
/// actors receive consecutive ids from `id_start` and the given stats.
pub fn spawn_monster(
    world: &mut GameWorld,
    floor_tiles: &Vec<GridPos>,
    count: u32,
    id_start: u64,
    health: Health,
    attack: Attack,
) -> (spawned: u32)
    requires
        old(world).wf(),
        forall|j: int|
            0 <= j < floor_tiles@.len() ==> old(world).map.size.spec_contains(
                (#[trigger] floor_tiles@[j]).x as int,
                floor_tiles@[j].y as int,
            ),
        forall|i: int|
            0 <= i < old(world).actors@.len() ==> (#[trigger] old(world).actors@[i]).id < id_start,
        id_start + count <= u64::MAX,
    ensures
        final(world).wf(),
        spawned <= count,
        final(world).map.size == old(world).map.size,
        forall|px: int, py: int|
            old(world).map.size.spec_contains(px, py) ==> #[trigger] final(world).map.kind_at(
                px,
                py,
            ) == old(world).map.kind_at(px, py),
        final(world).actors@.len() == old(world).actors@.len() + spawned,
        forall|k: int|
            0 <= k < old(world).actors@.len() ==> #[trigger] final(world).actors@[k]
                == old(world).actors@[k],
        forall|k: int|
            old(world).actors@.len() <= k < final(world).actors@.len()
                ==> (#[trigger] final(world).actors@[k]).monster && floor_tiles@.contains(
                final(world).actors@[k].pos,
            ) && final(world).actors@[k].health == health && final(world).actors@[k].attack
                == attack,
        (count >= 1 && floor_tiles@.len() >= 1 && (forall|j: int|
            0 <= j < floor_tiles@.len() ==> old(world).map.occupant_at(
                (#[trigger] floor_tiles@[j]).x as int,
                floor_tiles@[j].y as int,
            ) is None)) ==> spawned >= 1,
{
    if floor_tiles.len() == 0 {
        return 0;
    }
    let tiles_len: i32 = if floor_tiles.len() > 0x7fff_ffff {
        0x7fff_ffff
    } else {
        floor_tiles.len() as i32
    };
    let mut spawned: u32 = 0;
    let mut n: u32 = 0;
    while n < count
        invariant
            world.wf(),
            n <= count,
            spawned <= n,
            0 < tiles_len,
            tiles_len as int <= floor_tiles@.len(),
            id_start + count <= u64::MAX,
            forall|j: int|
                0 <= j < floor_tiles@.len() ==> world.map.size.spec_contains(
                    (#[trigger] floor_tiles@[j]).x as int,
                    floor_tiles@[j].y as int,
                ),
            world.map.size == old(world).map.size,
            forall|px: int, py: int|
                old(world).map.size.spec_contains(px, py) ==> #[trigger] world.map.kind_at(px, py)
                    == old(world).map.kind_at(px, py),
            world.actors@.len() == old(world).actors@.len() + spawned,
            forall|k: int|
                0 <= k < old(world).actors@.len() ==> #[trigger] world.actors@[k] == old(
                    world,
                ).actors@[k],
            forall|k: int|
                old(world).actors@.len() <= k < world.actors@.len() ==> (#[trigger] world.actors@[
                    k
                ]).monster && floor_tiles@.contains(world.actors@[k].pos) && world.actors@[k].health
                    == health && world.actors@[k].attack == attack,
            forall|i: int|
                0 <= i < world.actors@.len() ==> (#[trigger] world.actors@[i]).id < id_start
                    + spawned,
            spawned == 0 ==> *world == *old(world),
            n >= 1 && (forall|j: int|
                0 <= j < floor_tiles@.len() ==> old(world).map.occupant_at(
                    (#[trigger] floor_tiles@[j]).x as int,
                    floor_tiles@[j].y as int,
                ) is None) ==> spawned >= 1,
        decreases count - n,
    {
        let idx = rand_range_i32(0, tiles_len) as usize;
        let cell = floor_tiles[idx];
        let free = world.map.get_tile(cell).occupant.is_none();
        if free {
            let id = id_start + spawned as u64;
            proof {
                if world.has_actor(id) {
                    let i = choose|i: int|
                        0 <= i < world.actors@.len() && (#[trigger] world.actors@[i]).id == id;
                    assert(world.actors@[i].id < id_start + spawned);
                    assert(false);
                }
                assert(floor_tiles@.contains(floor_tiles@[idx as int]));
            }
            world.add_actor(id, cell, health, attack, true);
            spawned = spawned + 1;
        }
        n = n + 1;
    }
    spawned
}

} // verus!
