//! The per-tick player update: turn the input layer's action snapshot into
//! intentions.
//!
//! The accumulated direction vector yields a desired coordinate; a desired
//! coordinate off the map aborts the pass for this actor; occupants of a
//! hostile kind at the desired cell supersede the movement with one attack
//! intention per occupant; otherwise a move intention is produced.

use vstd::prelude::*;
use crate::components::{GridPos, MapSize};
use crate::intentions::{AttackIntention, MoveIntention};
use crate::map::MAP_EXTENT_LIMIT;

verus! {

/// The per-tick input snapshot: whether each directional action was just
/// pressed.
#[derive(Clone, Copy, PartialEq, Eq, Structural, Debug)]
pub struct ActionSnapshot {
    pub up: bool,
    pub down: bool,
    pub left: bool,
    pub right: bool,
}

pub open spec fn dx_of(s: ActionSnapshot) -> int {
    (if s.right {
        1int
    } else {
        0int
    }) - (if s.left {
        1int
    } else {
        0int
    })
}

pub open spec fn dy_of(s: ActionSnapshot) -> int {
    (if s.up {
        1int
    } else {
        0int
    }) - (if s.down {
        1int
    } else {
        0int
    })
}

/// What the player update decides for this tick.
#[derive(Clone, Debug)]
pub enum PlayerUpdate {
    /// No direction was pressed; nothing happens.
    Idle,
    /// The desired coordinate lies off the map; the pass aborts for this
    /// actor with no intention.
    OutsideMap,
    /// Hostile occupants hold the desired cell: one attack intention per
    /// occupant, in their given order; the movement is superseded.
    Attacks(Vec<AttackIntention>),
    /// The desired cell is free of known occupants: a move intention.
    Movement(MoveIntention),
}

/// The monster entry sits on the cell `(tx, ty)`.
pub open spec fn monster_at(m: (u64, GridPos), tx: int, ty: int) -> bool {
    m.1.x == tx && m.1.y == ty
}

/// The filter selecting monster entries on the cell `(tx, ty)`.
pub open spec fn monster_filter(tx: int, ty: int) -> spec_fn((u64, GridPos)) -> bool {
    |m: (u64, GridPos)| monster_at(m, tx, ty)
}

/// The attack intention issued for one occupant of the desired cell.
pub open spec fn attack_of(player_id: u64, tx: int, ty: int) -> spec_fn((u64, GridPos)) -> AttackIntention {
    |m: (u64, GridPos)|
        AttackIntention {
            source: player_id,
            target: m.0,
            target_pos: GridPos { x: tx as u32, y: ty as u32 },
        }
}

/// Decide the player's action for this tick from the input snapshot, the
/// player's cell, the map extent, and the currently known monsters.
pub fn update_player(
    snapshot: ActionSnapshot,
    player_id: u64,
    player_pos: GridPos,
    size: MapSize,
    monsters: &Vec<(u64, GridPos)>,
) -> (r: PlayerUpdate)
    requires
        size.x <= MAP_EXTENT_LIMIT,
        size.y <= MAP_EXTENT_LIMIT,
        size.spec_contains(player_pos.x as int, player_pos.y as int),
    ensures
        r is Idle <==> (dx_of(snapshot) == 0 && dy_of(snapshot) == 0),
        !(r is Idle) ==> {
            let tx = player_pos.x + dx_of(snapshot);
            let ty = player_pos.y + dy_of(snapshot);
            &&& (r is OutsideMap <==> !size.spec_contains(tx, ty))
            &&& (size.spec_contains(tx, ty) ==> {
                let hit = monsters@.filter(monster_filter(tx, ty));
                if hit.len() > 0 {
                    r matches PlayerUpdate::Attacks(v) && v@ == hit.map_values(
                        attack_of(player_id, tx, ty),
                    )
                } else {
                    r == PlayerUpdate::Movement(
                        MoveIntention {
                            source: player_id,
                            target: GridPos { x: tx as u32, y: ty as u32 },
                        },
                    )
                }
            })
        },
{
    let mut dx: i64 = 0;
    let mut dy: i64 = 0;
    if snapshot.up {
        dy = dy + 1;
    }
    if snapshot.down {
        dy = dy - 1;
    }
    if snapshot.left {
        dx = dx - 1;
    }
    if snapshot.right {
        dx = dx + 1;
    }
    if dx == 0 && dy == 0 {
        return PlayerUpdate::Idle;
    }

    let tx: i64 = player_pos.x as i64 + dx;
    let ty: i64 = player_pos.y as i64 + dy;
    if tx < 0 || ty < 0 || tx >= size.x as i64 || ty >= size.y as i64 {
        return PlayerUpdate::OutsideMap;
    }
    let target = GridPos { x: tx as u32, y: ty as u32 };
    let ghost txi = tx as int;
    let ghost tyi = ty as int;
    let ghost pred = monster_filter(txi, tyi);
    let ghost f = attack_of(player_id, txi, tyi);

    let mut hits: Vec<AttackIntention> = Vec::new();
    let mut i: usize = 0;
    while i < monsters.len()
        invariant
            i <= monsters@.len(),
            target == (GridPos { x: txi as u32, y: tyi as u32 }),
            0 <= txi <= MAP_EXTENT_LIMIT && 0 <= tyi <= MAP_EXTENT_LIMIT,
            pred == monster_filter(txi, tyi),
            f == attack_of(player_id, txi, tyi),
            hits@ == monsters@.take(i as int).filter(pred).map_values(f),
        decreases monsters@.len() - i,
    {
        let m = monsters[i];
        proof {
            reveal(Seq::filter);
            let taken = monsters@.take(i as int + 1);
            assert(taken.drop_last() =~= monsters@.take(i as int));
            assert(taken.last() == monsters@[i as int]);
            if pred(monsters@[i as int]) {
                assert(taken.filter(pred).map_values(f) =~= monsters@.take(i as int).filter(
                    pred,
                ).map_values(f).push(f(monsters@[i as int])));
            }
        }
        if m.1.x == target.x && m.1.y == target.y {
            hits.push(
                AttackIntention { source: player_id, target: m.0, target_pos: target },
            );
        }
        i = i + 1;
    }
    proof {
        assert(monsters@.take(monsters@.len() as int) =~= monsters@);
    }

    if hits.len() > 0 {
        PlayerUpdate::Attacks(hits)
    } else {
        PlayerUpdate::Movement(MoveIntention { source: player_id, target })
    }
}

} // verus!
