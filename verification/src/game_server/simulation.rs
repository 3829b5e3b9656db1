//! The simulation's side of a game server: what a tick's network commands
//! do to its entities and input buffer, and what a fireball's collision
//! hits.

use crate::ability::ability::AbilityType;
use crate::game_server::events::SimCommand;
use crate::geometry::Vec2;
use std::collections::HashMap;
use vstd::prelude::*;

verus! {

broadcast use vstd::std_specs::hash::group_hash_axioms;

/// A change the simulation makes to its entities.
#[derive(Debug, Clone, Copy, PartialEq, Eq, Structural)]
pub enum SimEffect {
    /// Spawn the entity of a player, simulated here or mirrored.
    Spawn { connection_id: u128, position: Vec2, is_ghost: bool },
    /// Despawn a player's entity.
    Despawn { connection_id: u128 },
    /// Move a player's entity, keeping its depth.
    Move { connection_id: u128, position: Vec2 },
    /// Turn a mirrored player into one simulated here.
    ClaimAsLocal { connection_id: u128 },
}

/// The effects of a tick's commands and the input each player gave last in
/// it, from the players that were ghosts when the tick began.
pub open spec fn tick_outcome(cmds: Seq<SimCommand>, ghosts: Seq<u128>) -> (Seq<SimEffect>, Map<u128, Vec2>)
    decreases cmds.len(),
{
    if cmds.len() == 0 {
        (Seq::empty(), Map::empty())
    } else {
        let (effects, inputs) = tick_outcome(cmds.drop_last(), ghosts);
        match cmds.last() {
            SimCommand::Joined { connection_id, position } => (
                effects.push(SimEffect::Spawn { connection_id, position, is_ghost: false }),
                inputs,
            ),
            SimCommand::GhostJoined { connection_id, position } => (
                effects.push(SimEffect::Spawn { connection_id, position, is_ghost: true }),
                inputs,
            ),
            SimCommand::GhostPositionUpdate { connection_id, position } => (
                effects.push(SimEffect::Move { connection_id, position }),
                inputs,
            ),
            SimCommand::Left { connection_id } => (
                effects.push(SimEffect::Despawn { connection_id }),
                inputs.remove(connection_id),
            ),
            SimCommand::GhostIsNowLocal { connection_id } => if ghosts.contains(connection_id) {
                (effects.push(SimEffect::ClaimAsLocal { connection_id }), inputs)
            } else {
                (effects, inputs)
            },
            SimCommand::Input { connection_id, direction } => (
                effects,
                inputs.insert(connection_id, direction),
            ),
            SimCommand::LocalIsNowGhost { .. } => (effects, inputs),
        }
    }
}

/// The result of one tick's network commands.
pub struct TickCommands {
    pub effects: Vec<SimEffect>,
    /// The direction each player asked for last in the tick; the buffer
    /// starts empty each tick, so a player who gave none stops.
    pub inputs: HashMap<u128, Vec2>,
}

fn contains_id(v: &Vec<u128>, id: u128) -> (b: bool)
    ensures
        b == v@.contains(id),
{
    let mut i: usize = 0;
    while i < v.len()
        invariant
            i <= v@.len(),
            forall|j: int| 0 <= j < i ==> v@[j] != id,
        decreases v@.len() - i,
    {
        if v[i] == id {
            return true;
        }
        i = i + 1;
    }
    false
}

/// Turns a tick's network commands into changes to the simulation's
/// entities and its input buffer. `ghosts` are the players mirrored here
/// when the tick began.
pub fn process_net_commands(cmds: &Vec<SimCommand>, ghosts: &Vec<u128>) -> (t: TickCommands)
    ensures
        (t.effects@, t.inputs@) == tick_outcome(cmds@, ghosts@),
{
    let mut effects: Vec<SimEffect> = Vec::new();
    let mut inputs: HashMap<u128, Vec2> = HashMap::new();
    let mut i: usize = 0;
    while i < cmds.len()
        invariant
            i <= cmds@.len(),
            (effects@, inputs@) == tick_outcome(cmds@.take(i as int), ghosts@),
        decreases cmds@.len() - i,
    {
        proof {
            assert(cmds@.take(i + 1).drop_last() =~= cmds@.take(i as int));
        }
        match cmds[i] {
            SimCommand::Joined { connection_id, position } => {
                effects.push(SimEffect::Spawn { connection_id, position, is_ghost: false });
            },
            SimCommand::GhostJoined { connection_id, position } => {
                effects.push(SimEffect::Spawn { connection_id, position, is_ghost: true });
            },
            SimCommand::GhostPositionUpdate { connection_id, position } => {
                effects.push(SimEffect::Move { connection_id, position });
            },
            SimCommand::Left { connection_id } => {
                effects.push(SimEffect::Despawn { connection_id });
                inputs.remove(&connection_id);
            },
            SimCommand::GhostIsNowLocal { connection_id } => {
                if contains_id(ghosts, connection_id) {
                    effects.push(SimEffect::ClaimAsLocal { connection_id });
                }
            },
            SimCommand::Input { connection_id, direction } => {
                inputs.insert(connection_id, direction);
            },
            SimCommand::LocalIsNowGhost { .. } => {},
        }
        i = i + 1;
    }
    proof {
        assert(cmds@.take(cmds@.len() as int) =~= cmds@);
    }
    TickCommands { effects, inputs }
}

/// Spawns follow joins: every player that joins in a tick is spawned at the
/// position it joined at, as a mirrored ghost exactly when it joined as a
/// ghost of another shard; and every spawn comes from such a join.
pub proof fn law_spawns_follow_joins(cmds: Seq<SimCommand>, ghosts: Seq<u128>)
    ensures
        forall|i: int|
            0 <= i < cmds.len() ==> match #[trigger] cmds[i] {
                SimCommand::Joined { connection_id, position } => tick_outcome(cmds, ghosts).0.contains(
                    SimEffect::Spawn { connection_id, position, is_ghost: false },
                ),
                SimCommand::GhostJoined { connection_id, position } => tick_outcome(cmds, ghosts).0.contains(
                    SimEffect::Spawn { connection_id, position, is_ghost: true },
                ),
                _ => true,
            },
        forall|k: int|
            0 <= k < tick_outcome(cmds, ghosts).0.len() ==> match #[trigger] tick_outcome(cmds, ghosts).0[k] {
                SimEffect::Spawn { connection_id, position, is_ghost } => exists|i: int|
                    0 <= i < cmds.len() && #[trigger] cmds[i] == if is_ghost {
                        SimCommand::GhostJoined { connection_id, position }
                    } else {
                        SimCommand::Joined { connection_id, position }
                    },
                _ => true,
            },
    decreases cmds.len(),
{
    if cmds.len() > 0 {
        let prev = cmds.drop_last();
        law_spawns_follow_joins(prev, ghosts);
        let (pe, _) = tick_outcome(prev, ghosts);
        let (e, _) = tick_outcome(cmds, ghosts);
        assert(pe.is_prefix_of(e)) by {
            assert forall|k: int| 0 <= k < pe.len() implies pe[k] == e[k] by {}
        }
        assert forall|i: int| 0 <= i < cmds.len() implies match #[trigger] cmds[i] {
            SimCommand::Joined { connection_id, position } => e.contains(
                SimEffect::Spawn { connection_id, position, is_ghost: false },
            ),
            SimCommand::GhostJoined { connection_id, position } => e.contains(
                SimEffect::Spawn { connection_id, position, is_ghost: true },
            ),
            _ => true,
        } by {
            if i < cmds.len() - 1 {
                assert(prev[i] == cmds[i]);
                match cmds[i] {
                    SimCommand::Joined { connection_id, position } => {
                        let x = SimEffect::Spawn { connection_id, position, is_ghost: false };
                        let k = choose|k: int| 0 <= k < pe.len() && pe[k] == x;
                        assert(e[k] == x);
                    },
                    SimCommand::GhostJoined { connection_id, position } => {
                        let x = SimEffect::Spawn { connection_id, position, is_ghost: true };
                        let k = choose|k: int| 0 <= k < pe.len() && pe[k] == x;
                        assert(e[k] == x);
                    },
                    _ => {},
                }
            } else {
                match cmds[i] {
                    SimCommand::Joined { .. } => {
                        assert(e[e.len() - 1] == e.last());
                    },
                    SimCommand::GhostJoined { .. } => {
                        assert(e[e.len() - 1] == e.last());
                    },
                    _ => {},
                }
            }
        }
        assert forall|k: int| 0 <= k < e.len() implies match #[trigger] e[k] {
            SimEffect::Spawn { connection_id, position, is_ghost } => exists|i: int|
                0 <= i < cmds.len() && #[trigger] cmds[i] == if is_ghost {
                    SimCommand::GhostJoined { connection_id, position }
                } else {
                    SimCommand::Joined { connection_id, position }
                },
            _ => true,
        } by {
            if k < pe.len() {
                assert(e[k] == pe[k]);
                match pe[k] {
                    SimEffect::Spawn { connection_id, position, is_ghost } => {
                        let c = if is_ghost {
                            SimCommand::GhostJoined { connection_id, position }
                        } else {
                            SimCommand::Joined { connection_id, position }
                        };
                        let i = choose|i: int| 0 <= i < prev.len() && #[trigger] prev[i] == c;
                        assert(cmds[i] == c);
                    },
                    _ => {},
                }
            } else {
                assert(cmds[cmds.len() - 1] == cmds.last());
            }
        }
    }
}

/// Every other effect of a tick also answers a command of it: a ghost's
/// position update moves it there, a player leaving despawns it, and a
/// ghost becoming local is claimed when it was a ghost as the tick began;
/// each move, despawn and claim comes from such a command; and no command
/// makes more than one effect.
pub proof fn law_effects_follow_commands(cmds: Seq<SimCommand>, ghosts: Seq<u128>)
    ensures
        tick_outcome(cmds, ghosts).0.len() <= cmds.len(),
        forall|i: int|
            0 <= i < cmds.len() ==> match #[trigger] cmds[i] {
                SimCommand::GhostPositionUpdate { connection_id, position } => tick_outcome(cmds, ghosts).0.contains(
                    SimEffect::Move { connection_id, position },
                ),
                SimCommand::Left { connection_id } => tick_outcome(cmds, ghosts).0.contains(
                    SimEffect::Despawn { connection_id },
                ),
                SimCommand::GhostIsNowLocal { connection_id } => ghosts.contains(connection_id)
                    ==> tick_outcome(cmds, ghosts).0.contains(SimEffect::ClaimAsLocal { connection_id }),
                _ => true,
            },
        forall|k: int|
            0 <= k < tick_outcome(cmds, ghosts).0.len() ==> match #[trigger] tick_outcome(cmds, ghosts).0[k] {
                SimEffect::Move { connection_id, position } => exists|i: int|
                    0 <= i < cmds.len() && #[trigger] cmds[i] == SimCommand::GhostPositionUpdate {
                        connection_id,
                        position,
                    },
                SimEffect::Despawn { connection_id } => exists|i: int|
                    0 <= i < cmds.len() && #[trigger] cmds[i] == SimCommand::Left { connection_id },
                SimEffect::ClaimAsLocal { connection_id } => ghosts.contains(connection_id) && exists|i: int|
                    0 <= i < cmds.len() && #[trigger] cmds[i] == SimCommand::GhostIsNowLocal { connection_id },
                _ => true,
            },
    decreases cmds.len(),
{
    if cmds.len() > 0 {
        let prev = cmds.drop_last();
        law_effects_follow_commands(prev, ghosts);
        let (pe, _) = tick_outcome(prev, ghosts);
        let (e, _) = tick_outcome(cmds, ghosts);
        assert forall|k: int| 0 <= k < pe.len() implies pe[k] == e[k] by {}
        assert forall|i: int| 0 <= i < cmds.len() implies match #[trigger] cmds[i] {
            SimCommand::GhostPositionUpdate { connection_id, position } => e.contains(
                SimEffect::Move { connection_id, position },
            ),
            SimCommand::Left { connection_id } => e.contains(SimEffect::Despawn { connection_id }),
            SimCommand::GhostIsNowLocal { connection_id } => ghosts.contains(connection_id) ==> e.contains(
                SimEffect::ClaimAsLocal { connection_id },
            ),
            _ => true,
        } by {
            if i < cmds.len() - 1 {
                assert(prev[i] == cmds[i]);
                match cmds[i] {
                    SimCommand::GhostPositionUpdate { connection_id, position } => {
                        let x = SimEffect::Move { connection_id, position };
                        let k = choose|k: int| 0 <= k < pe.len() && pe[k] == x;
                        assert(e[k] == x);
                    },
                    SimCommand::Left { connection_id } => {
                        let x = SimEffect::Despawn { connection_id };
                        let k = choose|k: int| 0 <= k < pe.len() && pe[k] == x;
                        assert(e[k] == x);
                    },
                    SimCommand::GhostIsNowLocal { connection_id } => {
                        if ghosts.contains(connection_id) {
                            let x = SimEffect::ClaimAsLocal { connection_id };
                            let k = choose|k: int| 0 <= k < pe.len() && pe[k] == x;
                            assert(e[k] == x);
                        }
                    },
                    _ => {},
                }
            } else {
                assert(e.len() > 0 ==> e[e.len() - 1] == e.last());
            }
        }
        assert forall|k: int| 0 <= k < e.len() implies match #[trigger] e[k] {
            SimEffect::Move { connection_id, position } => exists|i: int|
                0 <= i < cmds.len() && #[trigger] cmds[i] == SimCommand::GhostPositionUpdate { connection_id, position },
            SimEffect::Despawn { connection_id } => exists|i: int|
                0 <= i < cmds.len() && #[trigger] cmds[i] == SimCommand::Left { connection_id },
            SimEffect::ClaimAsLocal { connection_id } => ghosts.contains(connection_id) && exists|i: int|
                0 <= i < cmds.len() && #[trigger] cmds[i] == SimCommand::GhostIsNowLocal { connection_id },
            _ => true,
        } by {
            if k < pe.len() {
                assert(e[k] == pe[k]);
                match pe[k] {
                    SimEffect::Move { connection_id, position } => {
                        let c = SimCommand::GhostPositionUpdate { connection_id, position };
                        let i = choose|i: int| 0 <= i < prev.len() && #[trigger] prev[i] == c;
                        assert(cmds[i] == c);
                    },
                    SimEffect::Despawn { connection_id } => {
                        let c = SimCommand::Left { connection_id };
                        let i = choose|i: int| 0 <= i < prev.len() && #[trigger] prev[i] == c;
                        assert(cmds[i] == c);
                    },
                    SimEffect::ClaimAsLocal { connection_id } => {
                        let c = SimCommand::GhostIsNowLocal { connection_id };
                        let i = choose|i: int| 0 <= i < prev.len() && #[trigger] prev[i] == c;
                        assert(cmds[i] == c);
                    },
                    _ => {},
                }
            } else {
                assert(cmds[cmds.len() - 1] == cmds.last());
            }
        }
    }
}

/// Whether a command is an input from player `c`.
pub open spec fn is_input_of(cmd: SimCommand, c: u128) -> bool {
    cmd matches SimCommand::Input { connection_id, .. } && connection_id == c
}

/// The input buffer holds, for each player, the direction of its last
/// input of the tick, and holds a player exactly when it gave an input
/// that no later departure of it followed.
pub proof fn law_inputs_are_the_last_given(cmds: Seq<SimCommand>, ghosts: Seq<u128>)
    ensures
        forall|c: u128|
            #[trigger] tick_outcome(cmds, ghosts).1.contains_key(c) <==> exists|i: int|
                0 <= i < cmds.len() && is_input_of(#[trigger] cmds[i], c) && forall|j: int|
                    i < j < cmds.len() ==> cmds[j] != (SimCommand::Left { connection_id: c }),
        forall|c: u128|
            #[trigger] tick_outcome(cmds, ghosts).1.contains_key(c) ==> exists|i: int|
                0 <= i < cmds.len() && #[trigger] cmds[i] == (SimCommand::Input {
                    connection_id: c,
                    direction: tick_outcome(cmds, ghosts).1[c],
                }) && forall|j: int| i < j < cmds.len() ==> !is_input_of(#[trigger] cmds[j], c),
    decreases cmds.len(),
{
    if cmds.len() > 0 {
        let prev = cmds.drop_last();
        law_inputs_are_the_last_given(prev, ghosts);
        let n = cmds.len() - 1;
        let pm = tick_outcome(prev, ghosts).1;
        let m = tick_outcome(cmds, ghosts).1;
        assert forall|j: int| 0 <= j < n implies #[trigger] prev[j] == cmds[j] by {}
        assert forall|c: u128| #[trigger] m.contains_key(c) <==> exists|i: int|
            0 <= i < cmds.len() && is_input_of(#[trigger] cmds[i], c) && forall|j: int|
                i < j < cmds.len() ==> cmds[j] != (SimCommand::Left { connection_id: c }) by {
            let last = cmds[n];
            let hits_now = is_input_of(last, c);
            let leaves_now = last == SimCommand::Left { connection_id: c };
            if hits_now {
                assert(m.contains_key(c));
                assert(is_input_of(cmds[n], c));
            } else if leaves_now {
                assert(!m.contains_key(c));
                if exists|i: int|
                    0 <= i < cmds.len() && is_input_of(#[trigger] cmds[i], c) && forall|j: int|
                        i < j < cmds.len() ==> cmds[j] != (SimCommand::Left { connection_id: c }) {
                    let i = choose|i: int|
                        0 <= i < cmds.len() && is_input_of(#[trigger] cmds[i], c) && forall|j: int|
                            i < j < cmds.len() ==> cmds[j] != (SimCommand::Left { connection_id: c });
                    assert(i != n);
                    assert(cmds[n] != (SimCommand::Left { connection_id: c }));
                }
            } else {
                assert(m.contains_key(c) == pm.contains_key(c));
                if pm.contains_key(c) {
                    let i = choose|i: int|
                        0 <= i < prev.len() && is_input_of(#[trigger] prev[i], c) && forall|j: int|
                            i < j < prev.len() ==> prev[j] != (SimCommand::Left { connection_id: c });
                    assert(is_input_of(cmds[i], c));
                    assert forall|j: int| i < j < cmds.len() implies cmds[j] != (SimCommand::Left { connection_id: c }) by {
                        if j < n {
                            assert(prev[j] == cmds[j]);
                        }
                    }
                }
                if exists|i: int|
                    0 <= i < cmds.len() && is_input_of(#[trigger] cmds[i], c) && forall|j: int|
                        i < j < cmds.len() ==> cmds[j] != (SimCommand::Left { connection_id: c }) {
                    let i = choose|i: int|
                        0 <= i < cmds.len() && is_input_of(#[trigger] cmds[i], c) && forall|j: int|
                            i < j < cmds.len() ==> cmds[j] != (SimCommand::Left { connection_id: c });
                    assert(i < n);
                    assert(is_input_of(prev[i], c));
                    assert forall|j: int| i < j < prev.len() implies prev[j] != (SimCommand::Left { connection_id: c }) by {
                        assert(prev[j] == cmds[j]);
                    }
                }
            }
        }
        assert forall|c: u128| #[trigger] m.contains_key(c) implies exists|i: int|
            0 <= i < cmds.len() && #[trigger] cmds[i] == SimCommand::Input { connection_id: c, direction: m[c] }
                && forall|j: int| i < j < cmds.len() ==> !is_input_of(#[trigger] cmds[j], c) by {
            let last = cmds[n];
            if is_input_of(last, c) {
                assert(cmds[n] == SimCommand::Input { connection_id: c, direction: m[c] });
            } else {
                assert(pm.contains_key(c) && m[c] == pm[c]);
                let i = choose|i: int|
                    0 <= i < prev.len() && #[trigger] prev[i] == SimCommand::Input { connection_id: c, direction: pm[c] }
                        && forall|j: int| i < j < prev.len() ==> !is_input_of(#[trigger] prev[j], c);
                assert(cmds[i] == prev[i]);
                assert forall|j: int| i < j < cmds.len() implies !is_input_of(#[trigger] cmds[j], c) by {
                    if j < n {
                        assert(prev[j] == cmds[j]);
                    }
                }
            }
        }
    }
}

/// What the simulation knows of a fireball taking part in a collision.
#[derive(Debug, Clone, Copy, PartialEq, Eq, Structural)]
pub struct FireballInfo {
    /// The entity that cast it.
    pub caster: u64,
    /// Whether it is inside the safe zone around the origin.
    pub in_safe_zone: bool,
}

/// A hit to hand to the ability rules.
#[derive(Debug, Clone, Copy, PartialEq, Eq, Structural)]
pub struct AbilityHitEntity {
    pub caster: u64,
    pub hit_entity: u64,
    pub ability_type: AbilityType,
}

/// The hit a collision between two colliders makes, if any: the first of
/// them that is a fireball hits the other, unless the other is its caster,
/// the fireball is in the safe zone, or the other is no entity.
pub open spec fn fireball_hit_spec(
    collider1: u64,
    collider2: u64,
    fireball1: Option<FireballInfo>,
    fireball2: Option<FireballInfo>,
    collidable1: bool,
    collidable2: bool,
) -> Option<AbilityHitEntity> {
    let chosen = match fireball1 {
        Some(f) => Some((f, collider2, collidable2)),
        None => match fireball2 {
            Some(f) => Some((f, collider1, collidable1)),
            None => None,
        },
    };
    match chosen {
        Some((f, hit, collidable)) => if hit == f.caster || f.in_safe_zone || !collidable {
            None
        } else {
            Some(AbilityHitEntity { caster: f.caster, hit_entity: hit, ability_type: AbilityType::Fireball })
        },
        None => None,
    }
}

/// Decides what a collision does: `fireball1` and `fireball2` describe the
/// colliders that are fireballs, `collidable1` and `collidable2` whether
/// each collider is an entity that can be hit.
pub fn fireball_hit(
    collider1: u64,
    collider2: u64,
    fireball1: Option<FireballInfo>,
    fireball2: Option<FireballInfo>,
    collidable1: bool,
    collidable2: bool,
) -> (h: Option<AbilityHitEntity>)
    ensures
        h == fireball_hit_spec(collider1, collider2, fireball1, fireball2, collidable1, collidable2),
{
    let (f, hit, collidable) = match fireball1 {
        Some(f) => (f, collider2, collidable2),
        None => match fireball2 {
            Some(f) => (f, collider1, collidable1),
            None => return None,
        },
    };
    if hit == f.caster || f.in_safe_zone || !collidable {
        None
    } else {
        Some(AbilityHitEntity { caster: f.caster, hit_entity: hit, ability_type: AbilityType::Fireball })
    }
}

} // verus!
