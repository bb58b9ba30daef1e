//! The deferred intention-resolution pipeline.
//!
//! Input produces transient intention records; validation reads the world
//! and either rejects an intention with no mutation or turns it into a
//! world-mutation command.  Commands are collected into a buffer and
//! applied at a synchronization point between passes, never while the pass
//! that produced them is iterating.
//!
//! Ordering policy (deterministic by construction): attack intentions are
//! resolved before any move intention, each batch in record order.

use vstd::prelude::*;
use crate::components::{GridPos, Health, IntentionKind};
use crate::world::{Actor, GameWorld};

verus! {

/// A request that the source actor move to a target cell.
#[derive(Clone, Copy, PartialEq, Eq, Structural, Debug)]
pub struct MoveIntention {
    pub source: u64,
    pub target: GridPos,
}

/// A request that the source actor attack the target actor.
#[derive(Clone, Copy, PartialEq, Eq, Structural, Debug)]
pub struct AttackIntention {
    pub source: u64,
    pub target: u64,
    pub target_pos: GridPos,
}

/// A validated position-changing world mutation, queued during intention
/// resolution and applied at the next synchronization point.
#[derive(Clone, Copy, PartialEq, Eq, Structural, Debug)]
pub struct MoveAction {
    pub target_tile: GridPos,
    pub entity: u64,
}

/// How a move intention fared during validation.
#[derive(Clone, Copy, PartialEq, Eq, Structural, Debug)]
pub enum MoveOutcome {
    /// Clear and unoccupied: a `MoveAction` was queued.
    Resolved,
    /// The target cell is flagged as a wall; consumed with no mutation.
    BlockedByWall,
    /// An occupant holds the target cell; the move is superseded by the
    /// attack intentions the input layer issued for that occupant.
    Superseded,
    /// The target cell lies off the map; the pass aborts for this record.
    OutOfBounds,
    /// The source actor no longer exists; consumed with no mutation.
    MissingSource,
}

/// How an attack intention fared.
#[derive(Clone, Copy, PartialEq, Eq, Structural, Debug)]
pub enum AttackOutcome {
    Resolved,
    MissingSource,
    /// The target reference is stale; rejected with no mutation.
    MissingTarget,
}

/// What validation decides for a move intention against the current world.
pub open spec fn move_validation(w: GameWorld, m: MoveIntention) -> MoveOutcome {
    if !w.has_actor(m.source) {
        MoveOutcome::MissingSource
    } else if !w.map.size.spec_contains(m.target.x as int, m.target.y as int) {
        MoveOutcome::OutOfBounds
    } else if w.map.is_wall_at(m.target.x as int, m.target.y as int) {
        MoveOutcome::BlockedByWall
    } else if w.map.occupant_at(m.target.x as int, m.target.y as int) is Some {
        MoveOutcome::Superseded
    } else {
        MoveOutcome::Resolved
    }
}

/// What validation decides for an attack intention.
pub open spec fn attack_validation(w: GameWorld, a: AttackIntention) -> AttackOutcome {
    if !w.has_actor(a.source) {
        AttackOutcome::MissingSource
    } else if !w.has_actor(a.target) {
        AttackOutcome::MissingTarget
    } else {
        AttackOutcome::Resolved
    }
}

/// Damage subtraction against a hit-point value, clamped to the 32-bit
/// signed range; death handling is left to a collaborator that observes
/// health reaching zero.
pub open spec fn damage_result(h: int, d: int) -> int {
    if h - d < i32::MIN as int {
        i32::MIN as int
    } else if h - d > i32::MAX as int {
        i32::MAX as int
    } else {
        h - d
    }
}

/// A move command applies only when its actor still exists and the target
/// cell lies on the map and is unoccupied.
pub open spec fn move_applies(w: GameWorld, a: MoveAction) -> bool {
    &&& w.has_actor(a.entity)
    &&& w.map.size.spec_contains(a.target_tile.x as int, a.target_tile.y as int)
    &&& w.map.occupant_at(a.target_tile.x as int, a.target_tile.y as int) is None
}

impl MoveIntention {
    /// Validate this intention against the current world: scan for a wall
    /// at the target, then for an occupant.  Validation only reads the
    /// world; on success the returned `MoveAction` carries the mutation.
    pub fn resolve_intention(&self, world: &GameWorld) -> (r: (MoveOutcome, Option<MoveAction>))
        requires
            world.wf(),
        ensures
            r.0 == move_validation(*world, *self),
            r.1 == if move_validation(*world, *self) is Resolved {
                Some(MoveAction { target_tile: self.target, entity: self.source })
            } else {
                None::<MoveAction>
            },
    {
        match world.find_actor(self.source) {
            None => (MoveOutcome::MissingSource, None),
            Some(_) => {
                if !world.map.in_bounds(self.target) {
                    (MoveOutcome::OutOfBounds, None)
                } else if world.map.is_wall(self.target) {
                    (MoveOutcome::BlockedByWall, None)
                } else if world.map.get_tile(self.target).occupant.is_some() {
                    (MoveOutcome::Superseded, None)
                } else {
                    (
                        MoveOutcome::Resolved,
                        Some(MoveAction { target_tile: self.target, entity: self.source }),
                    )
                }
            },
        }
    }
}

/// A move intention whose target cell is flagged as a wall is rejected:
/// validation reads the world without touching it and queues no command,
/// so the source actor's stored coordinate cannot change.
pub proof fn lemma_wall_move_rejected(w: GameWorld, m: MoveIntention)
    requires
        w.wf(),
        w.has_actor(m.source),
        w.map.size.spec_contains(m.target.x as int, m.target.y as int),
        w.map.is_wall_at(m.target.x as int, m.target.y as int),
    ensures
        move_validation(w, m) == MoveOutcome::BlockedByWall,
        !(move_validation(w, m) is Resolved),
{
}

/// Validate a batch of move intentions in record order.  The world is only
/// read; the returned buffer holds one command for each intention that
/// resolved, in order.
pub fn process_move_intention(world: &GameWorld, intentions: &Vec<MoveIntention>) -> (r: (
    Vec<MoveAction>,
    Vec<MoveOutcome>,
))
    requires
        world.wf(),
    ensures
        r.1@.len() == intentions@.len(),
        forall|i: int|
            0 <= i < intentions@.len() ==> r.1@[i] == move_validation(
                *world,
                #[trigger] intentions@[i],
            ),
        r.0@ == intentions@.filter(
            |m: MoveIntention| move_validation(*world, m) is Resolved,
        ).map_values(|m: MoveIntention| MoveAction { target_tile: m.target, entity: m.source }),
{
    let ghost pred = |m: MoveIntention| move_validation(*world, m) is Resolved;
    let ghost f = |m: MoveIntention| MoveAction { target_tile: m.target, entity: m.source };
    let mut cmds: Vec<MoveAction> = Vec::new();
    let mut outcomes: Vec<MoveOutcome> = Vec::new();
    let mut i: usize = 0;
    while i < intentions.len()
        invariant
            world.wf(),
            i <= intentions@.len(),
            outcomes@.len() == i,
            pred == (|m: MoveIntention| move_validation(*world, m) is Resolved),
            f == (|m: MoveIntention| MoveAction { target_tile: m.target, entity: m.source }),
            forall|j: int|
                0 <= j < i ==> outcomes@[j] == move_validation(*world, #[trigger] intentions@[j]),
            cmds@ == intentions@.take(i as int).filter(pred).map_values(f),
        decreases intentions@.len() - i,
    {
        let m = intentions[i];
        let (outcome, action) = m.resolve_intention(world);
        proof {
            reveal(Seq::filter);
            let taken = intentions@.take(i as int + 1);
            assert(taken.drop_last() =~= intentions@.take(i as int));
            assert(taken.last() == m);
            if pred(m) {
                assert(taken.filter(pred) == intentions@.take(i as int).filter(pred).push(m));
                assert(taken.filter(pred).map_values(f) =~= intentions@.take(i as int).filter(
                    pred,
                ).map_values(f).push(f(m)));
            } else {
                assert(taken.filter(pred) == intentions@.take(i as int).filter(pred));
            }
        }
        outcomes.push(outcome);
        match action {
            Some(a) => {
                cmds.push(a);
            },
            None => {},
        }
        i = i + 1;
    }
    proof {
        assert(intentions@.take(intentions@.len() as int) =~= intentions@);
    }
    (cmds, outcomes)
}

/// Exactly what applying one queued move command does: the flag records
/// whether it applied, a dropped command leaves the world untouched, and
/// an applied one moves its actor, carries the occupant reference along,
/// and flags the actor dirty-for-visibility.
pub open spec fn single_move_applied(
    pre: GameWorld,
    a: MoveAction,
    applied: bool,
    post: GameWorld,
) -> bool {
    &&& post.wf()
    &&& applied == move_applies(pre, a)
    &&& (!applied ==> post == pre)
    &&& post.map.size == pre.map.size
    &&& post.actors@.len() == pre.actors@.len()
    &&& (forall|px: int, py: int|
        pre.map.size.spec_contains(px, py) ==> #[trigger] post.map.kind_at(px, py)
            == pre.map.kind_at(px, py))
    &&& (applied ==> forall|k: int|
        0 <= k < pre.actors@.len() && (#[trigger] pre.actors@[k]).id != a.entity
            ==> post.actors@[k] == pre.actors@[k])
    &&& (applied ==> forall|k: int|
        0 <= k < pre.actors@.len() && (#[trigger] pre.actors@[k]).id == a.entity
            ==> post.actors@[k] == (Actor {
            id: pre.actors@[k].id,
            pos: a.target_tile,
            health: pre.actors@[k].health,
            attack: pre.actors@[k].attack,
            needs_fov_update: true,
            monster: pre.actors@[k].monster,
        }))
    &&& (applied ==> forall|k: int|
        0 <= k < pre.actors@.len() && (#[trigger] pre.actors@[k]).id == a.entity
            ==> post.map.occupant_at(
            pre.actors@[k].pos.x as int,
            pre.actors@[k].pos.y as int,
        ) is None && post.map.occupant_at(a.target_tile.x as int, a.target_tile.y as int)
            == Some(a.entity) && (forall|px: int, py: int|
            pre.map.size.spec_contains(px, py) && (px != a.target_tile.x || py
                != a.target_tile.y) && (px != pre.actors@[k].pos.x || py
                != pre.actors@[k].pos.y) ==> #[trigger] post.map.occupant_at(px, py)
                == pre.map.occupant_at(px, py)))
}

impl MoveAction {
    /// Apply this queued mutation: update the actor's grid coordinate,
    /// move the tile occupant reference with it, and flag the actor
    /// dirty-for-visibility.  A command whose actor vanished or whose
    /// target is now occupied or off the map is dropped whole.
    pub fn apply(&self, world: &mut GameWorld) -> (applied: bool)
        requires
            old(world).wf(),
        ensures
            single_move_applied(*old(world), *self, applied, *final(world)),
    {
        let idx_opt = world.find_actor(self.entity);
        match idx_opt {
            None => false,
            Some(i) => {
                if !world.map.in_bounds(self.target_tile) {
                    return false;
                }
                if world.map.get_tile(self.target_tile).occupant.is_some() {
                    return false;
                }
                let old_pos = world.actors[i].pos;
                let a = world.actors[i];
                proof {
                    assert(old(world).map.occupant_at(old_pos.x as int, old_pos.y as int) == Some(
                        self.entity,
                    ));
                    assert(old_pos.x != self.target_tile.x || old_pos.y != self.target_tile.y);
                }
                world.map.set_occupant(old_pos, None);
                world.map.set_occupant(self.target_tile, Some(self.entity));
                let updated = Actor {
                    id: a.id,
                    pos: self.target_tile,
                    health: a.health,
                    attack: a.attack,
                    needs_fov_update: true,
                    monster: a.monster,
                };
                vstd::pervasive::VecAdditionalExecFns::set(&mut world.actors, i, updated);
                proof {
                    lemma_move_apply_wf(*old(world), *world, *self, i as int);
                }
                true
            },
        }
    }
}

/// Moving one actor to a free, on-map cell preserves the occupancy
/// invariant.
proof fn lemma_move_apply_wf(pre: GameWorld, post: GameWorld, a: MoveAction, i: int)
    requires
        pre.wf(),
        0 <= i < pre.actors@.len(),
        pre.actors@[i].id == a.entity,
        pre.map.size.spec_contains(a.target_tile.x as int, a.target_tile.y as int),
        pre.map.occupant_at(a.target_tile.x as int, a.target_tile.y as int) is None,
        post.map.size == pre.map.size,
        post.map.wf(),
        post.actors@ == pre.actors@.update(
            i,
            Actor {
                id: pre.actors@[i].id,
                pos: a.target_tile,
                health: pre.actors@[i].health,
                attack: pre.actors@[i].attack,
                needs_fov_update: true,
                monster: pre.actors@[i].monster,
            },
        ),
        forall|px: int, py: int|
            pre.map.size.spec_contains(px, py) ==> #[trigger] post.map.kind_at(px, py)
                == pre.map.kind_at(px, py),
        post.map.occupant_at(pre.actors@[i].pos.x as int, pre.actors@[i].pos.y as int) is None,
        post.map.occupant_at(a.target_tile.x as int, a.target_tile.y as int) == Some(a.entity),
        forall|px: int, py: int|
            pre.map.size.spec_contains(px, py) && (px != a.target_tile.x || py != a.target_tile.y)
                && (px != pre.actors@[i].pos.x || py != pre.actors@[i].pos.y)
                ==> #[trigger] post.map.occupant_at(px, py) == pre.map.occupant_at(px, py),
    ensures
        post.wf(),
{
    let old_pos = pre.actors@[i].pos;
    let n = pre.actors@.len() as int;
    assert forall|k: int| 0 <= k < post.actors@.len() implies post.map.occupant_at(
        (#[trigger] post.actors@[k]).pos.x as int,
        post.actors@[k].pos.y as int,
    ) == Some(post.actors@[k].id) by {
        if k == i {
        } else {
            let p = pre.actors@[k].pos;
            assert(pre.map.occupant_at(p.x as int, p.y as int) == Some(pre.actors@[k].id));
            if p.x == a.target_tile.x && p.y == a.target_tile.y {
                assert(false);
            }
            if p.x == old_pos.x && p.y == old_pos.y {
                assert(pre.map.occupant_at(p.x as int, p.y as int) == Some(pre.actors@[i].id));
                assert(pre.actors@[k].id == pre.actors@[i].id);
                assert(false);
            }
        }
    }
    assert forall|px: int, py: int|
        post.map.size.spec_contains(px, py) && (#[trigger] post.map.occupant_at(px, py)) is Some
        implies exists|k: int|
        0 <= k < post.actors@.len() && (#[trigger] post.actors@[k]).id == post.map.occupant_at(
            px,
            py,
        )->0 && post.actors@[k].pos.x == px && post.actors@[k].pos.y == py by {
        if px == a.target_tile.x as int && py == a.target_tile.y as int {
            assert(post.actors@[i].id == a.entity && post.actors@[i].pos == a.target_tile);
        } else if px == old_pos.x as int && py == old_pos.y as int {
            assert(post.map.occupant_at(px, py) is None);
            assert(false);
        } else {
            assert(post.map.occupant_at(px, py) == pre.map.occupant_at(px, py));
            let k = choose|k: int|
                0 <= k < pre.actors@.len() && (#[trigger] pre.actors@[k]).id
                    == pre.map.occupant_at(px, py)->0 && pre.actors@[k].pos.x == px
                    && pre.actors@[k].pos.y == py;
            if k == i {
                assert(pre.actors@[i].pos.x as int == px && pre.actors@[i].pos.y as int == py);
                assert(false);
            }
            assert(post.actors@[k] == pre.actors@[k]);
        }
    }
}

/// Applying a command buffer in order: each flag and each intermediate
/// world is related to the next by one application step.
pub open spec fn moves_applied(
    pre: GameWorld,
    cmds: Seq<MoveAction>,
    flags: Seq<bool>,
    post: GameWorld,
) -> bool
    decreases cmds.len(),
{
    if cmds.len() == 0 {
        flags.len() == 0 && post == pre
    } else {
        flags.len() == cmds.len() && exists|mid: GameWorld|
            #[trigger] single_move_applied(pre, cmds[0], flags[0], mid) && moves_applied(
                mid,
                cmds.skip(1),
                flags.skip(1),
                post,
            )
    }
}

/// One more application step extends an applied buffer at the back.
proof fn lemma_moves_applied_snoc(
    pre: GameWorld,
    cmds: Seq<MoveAction>,
    flags: Seq<bool>,
    mid: GameWorld,
    a: MoveAction,
    b: bool,
    post: GameWorld,
)
    requires
        moves_applied(pre, cmds, flags, mid),
        single_move_applied(mid, a, b, post),
    ensures
        moves_applied(pre, cmds.push(a), flags.push(b), post),
    decreases cmds.len(),
{
    if cmds.len() == 0 {
        assert(mid == pre);
        assert(cmds.push(a)[0] == a && flags.push(b)[0] == b);
        assert(cmds.push(a).skip(1) =~= Seq::<MoveAction>::empty());
        assert(flags.push(b).skip(1) =~= Seq::<bool>::empty());
        assert(single_move_applied(pre, cmds.push(a)[0], flags.push(b)[0], post));
        assert(moves_applied(post, cmds.push(a).skip(1), flags.push(b).skip(1), post));
    } else {
        let m1 = choose|m1: GameWorld|
            #[trigger] single_move_applied(pre, cmds[0], flags[0], m1) && moves_applied(
                m1,
                cmds.skip(1),
                flags.skip(1),
                mid,
            );
        lemma_moves_applied_snoc(m1, cmds.skip(1), flags.skip(1), mid, a, b, post);
        assert(cmds.push(a)[0] == cmds[0] && flags.push(b)[0] == flags[0]);
        assert(cmds.push(a).skip(1) =~= cmds.skip(1).push(a));
        assert(flags.push(b).skip(1) =~= flags.skip(1).push(b));
        assert(single_move_applied(pre, cmds.push(a)[0], flags.push(b)[0], m1));
        assert(moves_applied(m1, cmds.push(a).skip(1), flags.push(b).skip(1), post));
    }
}

/// Drain a command buffer at a synchronization point: apply each queued
/// move in order.  The flags and the final world are pinned by the
/// step-by-step application relation.
pub fn apply_move_actions(world: &mut GameWorld, cmds: &Vec<MoveAction>) -> (applied: Vec<bool>)
    requires
        old(world).wf(),
    ensures
        final(world).wf(),
        applied@.len() == cmds@.len(),
        moves_applied(*old(world), cmds@, applied@, *final(world)),
        final(world).map.size == old(world).map.size,
        final(world).actors@.len() == old(world).actors@.len(),
        forall|px: int, py: int|
            old(world).map.size.spec_contains(px, py) ==> #[trigger] final(world).map.kind_at(
                px,
                py,
            ) == old(world).map.kind_at(px, py),
        cmds@.len() == 0 ==> *final(world) == *old(world),
{
    let mut applied: Vec<bool> = Vec::new();
    let mut i: usize = 0;
    proof {
        assert(cmds@.take(0) =~= Seq::<MoveAction>::empty());
        assert(moves_applied(*world, cmds@.take(0), applied@, *world));
    }
    while i < cmds.len()
        invariant
            world.wf(),
            i <= cmds@.len(),
            applied@.len() == i,
            moves_applied(*old(world), cmds@.take(i as int), applied@, *world),
            world.map.size == old(world).map.size,
            world.actors@.len() == old(world).actors@.len(),
            forall|px: int, py: int|
                old(world).map.size.spec_contains(px, py) ==> #[trigger] world.map.kind_at(px, py)
                    == old(world).map.kind_at(px, py),
            i == 0 ==> *world == *old(world),
        decreases cmds@.len() - i,
    {
        let a = cmds[i];
        let ghost w0 = *world;
        let ghost flags0 = applied@;
        let ok = a.apply(world);
        applied.push(ok);
        proof {
            lemma_moves_applied_snoc(
                *old(world),
                cmds@.take(i as int),
                flags0,
                w0,
                cmds@[i as int],
                ok,
                *world,
            );
            assert(cmds@.take(i as int + 1) =~= cmds@.take(i as int).push(cmds@[i as int]));
            assert(applied@ =~= flags0.push(ok));
        }
        i = i + 1;
    }
    proof {
        assert(cmds@.take(cmds@.len() as int) =~= cmds@);
    }
    applied
}

/// Exactly what resolving one attack intention does: the outcome is the
/// validation verdict, a rejected record leaves the world untouched, and
/// a resolved one subtracts the attacker's damage from the target's
/// current hit points, clamped to the 32-bit range.
pub open spec fn single_attack_applied(
    pre: GameWorld,
    a: AttackIntention,
    outcome: AttackOutcome,
    post: GameWorld,
) -> bool {
    &&& post.wf()
    &&& outcome == attack_validation(pre, a)
    &&& (!(outcome is Resolved) ==> post == pre)
    &&& post.map == pre.map
    &&& post.actors@.len() == pre.actors@.len()
    &&& (forall|k: int|
        0 <= k < pre.actors@.len() && (#[trigger] pre.actors@[k]).id != a.target
            ==> post.actors@[k] == pre.actors@[k])
    &&& (outcome is Resolved ==> forall|k: int|
        0 <= k < pre.actors@.len() && (#[trigger] pre.actors@[k]).id == a.target
            ==> post.actors@[k] == (Actor {
            id: pre.actors@[k].id,
            pos: pre.actors@[k].pos,
            health: Health {
                current: damage_result(
                    pre.actors@[k].health.current as int,
                    spec_attacker_damage(pre, a.source),
                ) as i32,
                max: pre.actors@[k].health.max,
            },
            attack: pre.actors@[k].attack,
            needs_fov_update: pre.actors@[k].needs_fov_update,
            monster: pre.actors@[k].monster,
        }))
}

impl AttackIntention {
    /// Resolve this attack: validated trivially once both actors still
    /// exist, then damage subtraction against the target's current/maximum
    /// health pair.  Death or removal is not handled here; a collaborator
    /// observes health reaching zero.
    pub fn resolve_intention(&self, world: &mut GameWorld) -> (r: AttackOutcome)
        requires
            old(world).wf(),
        ensures
            single_attack_applied(*old(world), *self, r, *final(world)),
    {
        let src = world.find_actor(self.source);
        let tgt = world.find_actor(self.target);
        match (src, tgt) {
            (None, _) => AttackOutcome::MissingSource,
            (Some(_), None) => AttackOutcome::MissingTarget,
            (Some(s), Some(t)) => {
                let damage = world.actors[s].attack.damage;
                proof {
                    assert(damage as int == spec_attacker_damage(*world, self.source));
                }
                let tv = world.actors[t];
                let hc: i64 = tv.health.current as i64 - damage as i64;
                let nh: i32 = if hc < i32::MIN as i64 {
                    i32::MIN
                } else if hc > i32::MAX as i64 {
                    i32::MAX
                } else {
                    hc as i32
                };
                let updated = Actor {
                    id: tv.id,
                    pos: tv.pos,
                    health: Health { current: nh, max: tv.health.max },
                    attack: tv.attack,
                    needs_fov_update: tv.needs_fov_update,
                    monster: tv.monster,
                };
                vstd::pervasive::VecAdditionalExecFns::set(&mut world.actors, t, updated);
                proof {
                    lemma_health_update_wf(*old(world), *world, t as int);
                }
                AttackOutcome::Resolved
            },
        }
    }
}

/// The attack damage of the actor carrying the given id (the id must be
/// live and ids are unique under well-formedness).
pub open spec fn spec_attacker_damage(w: GameWorld, id: u64) -> int {
    let i = choose|i: int| 0 <= i < w.actors@.len() && (#[trigger] w.actors@[i]).id == id;
    w.actors@[i].attack.damage as int
}

/// Changing only an actor's health preserves the occupancy invariant.
proof fn lemma_health_update_wf(pre: GameWorld, post: GameWorld, t: int)
    requires
        pre.wf(),
        0 <= t < pre.actors@.len(),
        post.map == pre.map,
        post.actors@.len() == pre.actors@.len(),
        forall|k: int|
            0 <= k < pre.actors@.len() ==> (#[trigger] post.actors@[k]).id == pre.actors@[k].id
                && post.actors@[k].pos == pre.actors@[k].pos,
    ensures
        post.wf(),
{
    assert forall|px: int, py: int|
        post.map.size.spec_contains(px, py) && (#[trigger] post.map.occupant_at(px, py)) is Some
        implies exists|k: int|
        0 <= k < post.actors@.len() && (#[trigger] post.actors@[k]).id == post.map.occupant_at(
            px,
            py,
        )->0 && post.actors@[k].pos.x == px && post.actors@[k].pos.y == py by {
        let k = choose|k: int|
            0 <= k < pre.actors@.len() && (#[trigger] pre.actors@[k]).id == pre.map.occupant_at(
                px,
                py,
            )->0 && pre.actors@[k].pos.x == px && pre.actors@[k].pos.y == py;
        assert(post.actors@[k].id == pre.actors@[k].id && post.actors@[k].pos
            == pre.actors@[k].pos);
    }
}

/// Resolving an intention batch in order: each outcome and each
/// intermediate world is related to the next by one resolution step.
pub open spec fn attacks_applied(
    pre: GameWorld,
    intentions: Seq<AttackIntention>,
    outcomes: Seq<AttackOutcome>,
    post: GameWorld,
) -> bool
    decreases intentions.len(),
{
    if intentions.len() == 0 {
        outcomes.len() == 0 && post == pre
    } else {
        outcomes.len() == intentions.len() && exists|mid: GameWorld|
            #[trigger] single_attack_applied(pre, intentions[0], outcomes[0], mid)
                && attacks_applied(mid, intentions.skip(1), outcomes.skip(1), post)
    }
}

/// One more resolution step extends an applied batch at the back.
proof fn lemma_attacks_applied_snoc(
    pre: GameWorld,
    intentions: Seq<AttackIntention>,
    outcomes: Seq<AttackOutcome>,
    mid: GameWorld,
    a: AttackIntention,
    b: AttackOutcome,
    post: GameWorld,
)
    requires
        attacks_applied(pre, intentions, outcomes, mid),
        single_attack_applied(mid, a, b, post),
    ensures
        attacks_applied(pre, intentions.push(a), outcomes.push(b), post),
    decreases intentions.len(),
{
    if intentions.len() == 0 {
        assert(mid == pre);
        assert(intentions.push(a)[0] == a && outcomes.push(b)[0] == b);
        assert(intentions.push(a).skip(1) =~= Seq::<AttackIntention>::empty());
        assert(outcomes.push(b).skip(1) =~= Seq::<AttackOutcome>::empty());
        assert(single_attack_applied(pre, intentions.push(a)[0], outcomes.push(b)[0], post));
        assert(attacks_applied(post, intentions.push(a).skip(1), outcomes.push(b).skip(1), post));
    } else {
        let m1 = choose|m1: GameWorld|
            #[trigger] single_attack_applied(pre, intentions[0], outcomes[0], m1)
                && attacks_applied(m1, intentions.skip(1), outcomes.skip(1), mid);
        lemma_attacks_applied_snoc(m1, intentions.skip(1), outcomes.skip(1), mid, a, b, post);
        assert(intentions.push(a)[0] == intentions[0] && outcomes.push(b)[0] == outcomes[0]);
        assert(intentions.push(a).skip(1) =~= intentions.skip(1).push(a));
        assert(outcomes.push(b).skip(1) =~= outcomes.skip(1).push(b));
        assert(single_attack_applied(pre, intentions.push(a)[0], outcomes.push(b)[0], m1));
        assert(attacks_applied(m1, intentions.push(a).skip(1), outcomes.push(b).skip(1), post));
    }
}

/// Resolve a batch of attack intentions in record order; each record is
/// consumed after processing.  The outcomes and the resulting healths are
/// pinned by the step-by-step resolution relation; which actors exist
/// never changes during the batch, so each outcome also equals validation
/// against the world the batch started from.
pub fn process_attack_intention(world: &mut GameWorld, intentions: &Vec<AttackIntention>) -> (r:
    Vec<AttackOutcome>)
    requires
        old(world).wf(),
    ensures
        final(world).wf(),
        r@.len() == intentions@.len(),
        attacks_applied(*old(world), intentions@, r@, *final(world)),
        forall|i: int|
            0 <= i < intentions@.len() ==> r@[i] == attack_validation(
                *old(world),
                #[trigger] intentions@[i],
            ),
        final(world).map == old(world).map,
        final(world).actors@.len() == old(world).actors@.len(),
        forall|k: int|
            0 <= k < old(world).actors@.len() ==> (#[trigger] final(world).actors@[k]).id == old(
                world,
            ).actors@[k].id && final(world).actors@[k].pos == old(world).actors@[k].pos,
        intentions@.len() == 0 ==> *final(world) == *old(world),
{
    let mut outcomes: Vec<AttackOutcome> = Vec::new();
    let mut i: usize = 0;
    proof {
        assert(intentions@.take(0) =~= Seq::<AttackIntention>::empty());
        assert(attacks_applied(*world, intentions@.take(0), outcomes@, *world));
    }
    while i < intentions.len()
        invariant
            world.wf(),
            i <= intentions@.len(),
            outcomes@.len() == i,
            attacks_applied(*old(world), intentions@.take(i as int), outcomes@, *world),
            world.map == old(world).map,
            world.actors@.len() == old(world).actors@.len(),
            forall|k: int|
                0 <= k < old(world).actors@.len() ==> (#[trigger] world.actors@[k]).id == old(
                    world,
                ).actors@[k].id && world.actors@[k].pos == old(world).actors@[k].pos,
            forall|j: int|
                0 <= j < i ==> outcomes@[j] == attack_validation(
                    *old(world),
                    #[trigger] intentions@[j],
                ),
            i == 0 ==> *world == *old(world),
        decreases intentions@.len() - i,
    {
        let a = intentions[i];
        proof {
            lemma_same_ids_same_actors(*old(world), *world);
        }
        let ghost w0 = *world;
        let ghost out0 = outcomes@;
        let outcome = a.resolve_intention(world);
        outcomes.push(outcome);
        proof {
            lemma_attacks_applied_snoc(
                *old(world),
                intentions@.take(i as int),
                out0,
                w0,
                intentions@[i as int],
                outcome,
                *world,
            );
            assert(intentions@.take(i as int + 1) =~= intentions@.take(i as int).push(
                intentions@[i as int],
            ));
            assert(outcomes@ =~= out0.push(outcome));
        }
        i = i + 1;
    }
    proof {
        assert(intentions@.take(intentions@.len() as int) =~= intentions@);
    }
    outcomes
}

/// Two worlds whose actor lists carry the same ids agree on which actors
/// exist, so attack validation agrees on them too.
proof fn lemma_same_ids_same_actors(w1: GameWorld, w2: GameWorld)
    requires
        w2.actors@.len() == w1.actors@.len(),
        forall|k: int|
            0 <= k < w1.actors@.len() ==> (#[trigger] w2.actors@[k]).id == w1.actors@[k].id,
    ensures
        forall|id: u64| #[trigger] w2.has_actor(id) == w1.has_actor(id),
        forall|a: AttackIntention| #[trigger]
            attack_validation(w2, a) == attack_validation(w1, a),
{
    assert forall|id: u64| #[trigger] w2.has_actor(id) == w1.has_actor(id) by {
        if w1.has_actor(id) {
            let k = choose|k: int|
                0 <= k < w1.actors@.len() && (#[trigger] w1.actors@[k]).id == id;
            assert(w2.actors@[k].id == id);
        }
        if w2.has_actor(id) {
            let k = choose|k: int|
                0 <= k < w2.actors@.len() && (#[trigger] w2.actors@[k]).id == id;
            assert(w1.actors@[k].id == id);
        }
    }
}

/// What resolving one tagged intention record produced.
#[derive(Clone, Copy, PartialEq, Eq, Structural, Debug)]
pub enum IntentionOutcome {
    Move(MoveOutcome),
    AttackResult(AttackOutcome),
    /// A wait resolves immediately with no mutation.
    Waited,
}

/// Resolve one intention record: the closed tagged union dispatched by an
/// explicit match, one resolution path per variant.
///
/// A move is validated against the current world and, when clear, queues a
/// command for the next synchronization point; an attack resolves in
/// place; a wait does nothing.  Every record is consumed by its caller
/// after this returns.
pub fn resolve_intention_kind(world: &mut GameWorld, source: u64, kind: IntentionKind) -> (r: (
    IntentionOutcome,
    Option<MoveAction>,
))
    requires
        old(world).wf(),
    ensures
        final(world).wf(),
        final(world).map.size == old(world).map.size,
        final(world).actors@.len() == old(world).actors@.len(),
        (kind matches IntentionKind::MoveTo { target } ==> {
            &&& *final(world) == *old(world)
            &&& r.0 == IntentionOutcome::Move(
                move_validation(*old(world), MoveIntention { source, target }),
            )
            &&& r.1 == (if move_validation(*old(world), MoveIntention { source, target })
                is Resolved {
                Some(MoveAction { target_tile: target, entity: source })
            } else {
                None::<MoveAction>
            })
        }),
        (kind matches IntentionKind::Attack { target, target_pos } ==> {
            &&& r.0 == IntentionOutcome::AttackResult(
                attack_validation(*old(world), AttackIntention { source, target, target_pos }),
            )
            &&& r.1 is None
            &&& final(world).map == old(world).map
            &&& forall|k: int|
                0 <= k < old(world).actors@.len() && (#[trigger] old(world).actors@[k]).id
                    != target ==> final(world).actors@[k] == old(world).actors@[k]
            &&& (attack_validation(*old(world), AttackIntention { source, target, target_pos })
                is Resolved ==> forall|k: int|
                0 <= k < old(world).actors@.len() && (#[trigger] old(world).actors@[k]).id
                    == target ==> final(world).actors@[k] == (Actor {
                    id: old(world).actors@[k].id,
                    pos: old(world).actors@[k].pos,
                    health: Health {
                        current: damage_result(
                            old(world).actors@[k].health.current as int,
                            spec_attacker_damage(*old(world), source),
                        ) as i32,
                        max: old(world).actors@[k].health.max,
                    },
                    attack: old(world).actors@[k].attack,
                    needs_fov_update: old(world).actors@[k].needs_fov_update,
                    monster: old(world).actors@[k].monster,
                }))
        }),
        (kind is Wait ==> *final(world) == *old(world) && r.0 == IntentionOutcome::Waited && r.1
            is None),
{
    match kind {
        IntentionKind::MoveTo { target } => {
            let intent = MoveIntention { source, target };
            let (outcome, action) = intent.resolve_intention(world);
            (IntentionOutcome::Move(outcome), action)
        },
        IntentionKind::Attack { target, target_pos } => {
            let intent = AttackIntention { source, target, target_pos };
            let outcome = intent.resolve_intention(world);
            (IntentionOutcome::AttackResult(outcome), None)
        },
        IntentionKind::Wait => (IntentionOutcome::Waited, None),
    }
}

} // verus!