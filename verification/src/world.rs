//! The simulation's arena: the tile grid plus every live actor, indexed by
//! a stable integer id, with the occupancy invariant tying the two
//! together.

use vstd::prelude::*;
use crate::components::{Attack, GridPos, Health};
use crate::map::TileMap;

verus! {

/// Any entity with a grid position and combat stats.  The player and
/// monsters alike are actors; `monster` marks a hostile, attackable kind.
#[derive(Clone, Copy, Debug)]
pub struct Actor {
    pub id: u64,
    pub pos: GridPos,
    pub health: Health,
    pub attack: Attack,
    pub needs_fov_update: bool,
    pub monster: bool,
}

/// The world state a simulation pass works on.
#[derive(Clone, Debug)]
pub struct GameWorld {
    pub map: TileMap,
    pub actors: Vec<Actor>,
}

impl GameWorld {
    pub open spec fn has_actor(self, id: u64) -> bool {
        exists|i: int| 0 <= i < self.actors@.len() && (#[trigger] self.actors@[i]).id == id
    }

    /// Every occupied tile's occupant reference matches exactly one live
    /// actor at that coordinate, an actor occupies exactly the tile at its
    /// position, and actor ids are unique.
    pub open spec fn wf(self) -> bool {
        &&& self.map.wf()
        &&& forall|i: int|
            0 <= i < self.actors@.len() ==> self.map.size.spec_contains(
                (#[trigger] self.actors@[i]).pos.x as int,
                self.actors@[i].pos.y as int,
            )
        &&& forall|i: int|
            0 <= i < self.actors@.len() ==> self.map.occupant_at(
                (#[trigger] self.actors@[i]).pos.x as int,
                self.actors@[i].pos.y as int,
            ) == Some(self.actors@[i].id)
        &&& forall|i: int, j: int|
            #![trigger self.actors@[i].id, self.actors@[j].id]
            0 <= i < self.actors@.len() && 0 <= j < self.actors@.len() && i != j
                ==> self.actors@[i].id != self.actors@[j].id
        &&& forall|px: int, py: int|
            self.map.size.spec_contains(px, py) && (#[trigger] self.map.occupant_at(
                px,
                py,
            )) is Some ==> exists|i: int|
                0 <= i < self.actors@.len() && (#[trigger] self.actors@[i]).id
                    == self.map.occupant_at(px, py)->0 && self.actors@[i].pos.x == px
                    && self.actors@[i].pos.y == py
    }

    /// A world with no actors over the given map.
    pub fn new(map: TileMap) -> (w: GameWorld)
        requires
            map.wf(),
            forall|px: int, py: int|
                map.size.spec_contains(px, py) ==> (#[trigger] map.occupant_at(px, py)) is None,
        ensures
            w.wf(),
            w.map == map,
            w.actors@.len() == 0,
    {
        GameWorld { map, actors: Vec::new() }
    }

    /// Find the index of the actor with the given id.
    pub fn find_actor(&self, id: u64) -> (r: Option<usize>)
        ensures
            match r {
                Some(i) => i < self.actors@.len() && self.actors@[i as int].id == id,
                None => !self.has_actor(id),
            },
    {
        let mut i: usize = 0;
        while i < self.actors.len()
            invariant
                i <= self.actors@.len(),
                forall|j: int| 0 <= j < i ==> (#[trigger] self.actors@[j]).id != id,
            decreases self.actors@.len() - i,
        {
            if self.actors[i].id == id {
                return Some(i);
            }
            i = i + 1;
        }
        None
    }

    /// Spawn a new actor on a free tile, wiring up the tile's occupant
    /// reference.
    pub fn add_actor(
        &mut self,
        id: u64,
        pos: GridPos,
        health: Health,
        attack: Attack,
        monster: bool,
    )
        requires
            old(self).wf(),
            old(self).map.size.spec_contains(pos.x as int, pos.y as int),
            old(self).map.occupant_at(pos.x as int, pos.y as int) is None,
            !old(self).has_actor(id),
        ensures
            final(self).wf(),
            final(self).actors@ == old(self).actors@.push(
                Actor { id, pos, health, attack, needs_fov_update: false, monster },
            ),
            final(self).map.size == old(self).map.size,
            forall|px: int, py: int|
                old(self).map.size.spec_contains(px, py) ==> #[trigger] final(self).map.kind_at(
                    px,
                    py,
                ) == old(self).map.kind_at(px, py),
            final(self).map.occupant_at(pos.x as int, pos.y as int) == Some(id),
            forall|px: int, py: int|
                old(self).map.size.spec_contains(px, py) && (px != pos.x || py != pos.y)
                    ==> #[trigger] final(self).map.occupant_at(px, py) == old(
                    self,
                ).map.occupant_at(px, py),
    {
        self.map.set_occupant(pos, Some(id));
        let actor = Actor { id, pos, health, attack, needs_fov_update: false, monster };
        self.actors.push(actor);
        proof {
            let n = old(self).actors@.len() as int;
            assert forall|i: int| 0 <= i < self.actors@.len() implies self.map.occupant_at(
                (#[trigger] self.actors@[i]).pos.x as int,
                self.actors@[i].pos.y as int,
            ) == Some(self.actors@[i].id) by {
                if i < n {
                    assert(self.actors@[i] == old(self).actors@[i]);
                    let a = old(self).actors@[i];
                    if a.pos.x as int == pos.x as int && a.pos.y as int == pos.y as int {
                        assert(old(self).map.occupant_at(pos.x as int, pos.y as int) == Some(
                            a.id,
                        ));
                        assert(false);
                    }
                }
            }
            assert forall|i: int, j: int|
                #![trigger self.actors@[i].id, self.actors@[j].id]
                0 <= i < self.actors@.len() && 0 <= j < self.actors@.len() && i != j implies
                self.actors@[i].id != self.actors@[j].id by {
                if i < n && j < n {
                    assert(old(self).actors@[i].id != old(self).actors@[j].id);
                } else if i == n && j < n {
                    if old(self).actors@[j].id == id {
                        assert(old(self).has_actor(id));
                        assert(false);
                    }
                } else if j == n && i < n {
                    if old(self).actors@[i].id == id {
                        assert(old(self).has_actor(id));
                        assert(false);
                    }
                }
            }
            assert forall|px: int, py: int|
                self.map.size.spec_contains(px, py) && (#[trigger] self.map.occupant_at(
                    px,
                    py,
                )) is Some implies exists|i: int|
                0 <= i < self.actors@.len() && (#[trigger] self.actors@[i]).id
                    == self.map.occupant_at(px, py)->0 && self.actors@[i].pos.x == px
                    && self.actors@[i].pos.y == py by {
                if px == pos.x as int && py == pos.y as int {
                    assert(self.actors@[n].id == id && self.actors@[n].pos == pos);
                } else {
                    assert(self.map.occupant_at(px, py) == old(self).map.occupant_at(px, py));
                    let i = choose|i: int|
                        0 <= i < old(self).actors@.len() && (#[trigger] old(self).actors@[i]).id
                            == old(self).map.occupant_at(px, py)->0 && old(
                            self,
                        ).actors@[i].pos.x == px && old(self).actors@[i].pos.y == py;
                    assert(self.actors@[i] == old(self).actors@[i]);
                }
            }
        }
    }
}

} // verus!
