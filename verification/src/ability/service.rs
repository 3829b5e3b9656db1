use crate::ability::ability::{ability_of_type, Ability, AbilityType, AbilityView, AttributeEffect};
use crate::ability::attribute::{Attribute, AttributeType};
use crate::ability::entity::{
    ability_of, attribute_of, attribute_update, cast_times_before, castable, clock_ok, fresh_entity,
    with_ability, with_attribute, Entity, EntityStats,
};
use crate::ability::rounding::{round_single, single_round};
use crate::geometry::Vec2;
use vstd::prelude::*;

verus! {

/// Attribute bounds and values stay within this magnitude, so that the
/// service's arithmetic never leaves `i32`.
pub const ATTRIBUTE_BOUND: i32 = 1_000_000_000;

/// Experience needed for one level.
pub const XP_PER_LEVEL: i32 = 100;

/// Experience earned for a kill.
pub const XP_PER_KILL: i32 = 25;

/// Mana regained per regeneration step.
pub const MANA_REGEN: i32 = 5;

/// A message the ability service reacts to.
#[derive(Debug, Clone, Copy, PartialEq, Eq)]
pub enum AbilityEvent {
    /// A character entered the world.
    PlayerStartingPosition { connection_id: u128 },
    /// A character asks to cast an ability, optionally in a direction.
    RequestCastAbility { entity_id: u128, ability: AbilityType, direction: Option<Vec2> },
    /// An ability cast by `caster_id` hit `hit_entity_id`.
    AbilityHitEntity { caster_id: u128, hit_entity_id: u128, ability_type: AbilityType },
}

/// A message the ability service publishes.
#[derive(Debug, Clone, Copy, PartialEq, Eq)]
pub enum AbilityOutput {
    CastAbility { entity_id: u128, ability: AbilityType, direction: Option<Vec2> },
    AttributeUpdated { entity_id: u128, attribute: AttributeType, new_value: i32 },
    EntityKilled { killer_id: u128, victim_id: u128 },
    LevelUp { entity_id: u128, new_level: i32 },
    XPEarned { entity_id: u128, new_value: i32 },
}

/// The characters known to the ability service, in the order they joined.
pub struct EntityRegistry {
    entities: Vec<Entity>,
}

/// An attribute within the service's bounds.
pub open spec fn attribute_bounded(a: Option<Attribute>) -> bool {
    a matches Some(x) ==> -ATTRIBUTE_BOUND <= x.min_value && x.min_value <= x.current_value
        && x.current_value <= x.max_value && x.max_value <= ATTRIBUTE_BOUND
}

/// An ability whose mana cost is within the service's bounds.
pub open spec fn ability_bounded(a: Option<AbilityView>) -> bool {
    a matches Some(x) ==> -ATTRIBUTE_BOUND <= x.mana_cost && x.mana_cost <= ATTRIBUTE_BOUND
}

/// A character the service can work with: bounded attributes and costs,
/// experience below one level's worth, a non-negative level.
pub open spec fn entity_wf(e: EntityStats) -> bool {
    &&& attribute_bounded(e.health)
    &&& attribute_bounded(e.mana)
    &&& ability_bounded(e.fireball)
    &&& ability_bounded(e.heal)
    &&& 0 <= e.experience_points < XP_PER_LEVEL
    &&& 0 <= e.level
}

/// The characters' abstract values, in order.
pub open spec fn stats_of(s: Seq<Entity>) -> Seq<EntityStats> {
    s.map_values(|e: Entity| e@)
}

/// Index of the character with id `id`, or -1.
pub open spec fn index_of(reg: Seq<EntityStats>, id: u128) -> int
    decreases reg.len(),
{
    if reg.len() == 0 {
        -1
    } else if index_of(reg.drop_last(), id) >= 0 {
        index_of(reg.drop_last(), id)
    } else if reg.last().entity_id == id {
        reg.len() - 1
    } else {
        -1
    }
}

/// A registry: well-formed characters with distinct ids.
pub open spec fn registry_wf(reg: Seq<EntityStats>) -> bool {
    &&& forall|i: int| 0 <= i < reg.len() ==> entity_wf(#[trigger] reg[i])
    &&& forall|i: int, j: int| 0 <= i < j < reg.len() ==> #[trigger] reg[i].entity_id != #[trigger] reg[j].entity_id
}

/// No held ability was cast after `now`.
pub open spec fn registry_cast_times_before(reg: Seq<EntityStats>, now: u64) -> bool {
    forall|i: int| 0 <= i < reg.len() ==> cast_times_before(#[trigger] reg[i], now)
}

/// The clock does not run behind the cast an event asks for: for a cast
/// request by a known character, `clock_ok` holds of the ability it holds
/// of the requested type. Other events do not read the clock.
pub open spec fn event_clock_ok(reg: Seq<EntityStats>, event: AbilityEvent, now: u64) -> bool {
    match event {
        AbilityEvent::RequestCastAbility { entity_id, ability, .. } => {
            let i = index_of(reg, entity_id);
            i >= 0 ==> match ability_of(reg[i], ability) {
                Some(a) => clock_ok(a, reg[i], now),
                None => true,
            }
        },
        _ => true,
    }
}

/// A clock no earlier than every recorded cast suits any event; such a
/// time is what `EntityRegistry::latest_cast_millis` gives.
pub proof fn lemma_latest_cast_suits_every_event(reg: Seq<EntityStats>, event: AbilityEvent, now: u64)
    requires
        registry_cast_times_before(reg, now),
    ensures
        event_clock_ok(reg, event, now),
{
    match event {
        AbilityEvent::RequestCastAbility { entity_id, ability, .. } => {
            lemma_index_of(reg, entity_id);
            let i = index_of(reg, entity_id);
            if i >= 0 {
                assert(cast_times_before(reg[i], now));
            }
        },
        _ => {},
    }
}

/// A character entering the world is registered fresh unless it is known.
pub open spec fn on_starting_position(reg: Seq<EntityStats>, id: u128) -> Seq<EntityStats> {
    if index_of(reg, id) >= 0 {
        reg
    } else {
        reg.push(fresh_entity(id))
    }
}

/// A cast request: when the character is known and can cast the ability
/// now, the cast is recorded and announced, and when the character has
/// mana the cost is taken (when the result is within bounds) and the new
/// mana value is announced.
pub open spec fn on_cast_request(
    reg: Seq<EntityStats>,
    id: u128,
    ability: AbilityType,
    direction: Option<Vec2>,
    now: u64,
) -> (Seq<EntityStats>, Seq<AbilityOutput>) {
    let i = index_of(reg, id);
    if i < 0 {
        (reg, seq![])
    } else if !(ability_of(reg[i], ability) matches Some(a) && castable(a, reg[i], now)) {
        (reg, seq![])
    } else {
        let a = ability_of(reg[i], ability)->0;
        let e1 = with_ability(reg[i], ability, Some(AbilityView { last_cast_millis: now, ..a }));
        let cast = AbilityOutput::CastAbility { entity_id: id, ability: a.ability_type, direction };
        match e1.mana {
            Some(m) => {
                let new_mana = (m.current_value - a.mana_cost) as i32;
                (
                    reg.update(i, attribute_update(e1, AttributeType::ManaPoints, new_mana).0),
                    seq![
                        cast,
                        AbilityOutput::AttributeUpdated {
                            entity_id: id,
                            attribute: AttributeType::ManaPoints,
                            new_value: new_mana,
                        },
                    ],
                )
            },
            None => (reg.update(i, e1), seq![cast]),
        }
    }
}

/// Half of `x`, rounded toward zero.
pub open spec fn half_toward_zero(x: int) -> int {
    if x >= 0 {
        x / 2
    } else {
        -((-x) / 2)
    }
}

/// `x` saturated to the `i32` range.
pub open spec fn saturate_i32(x: int) -> int {
    if x < i32::MIN {
        i32::MIN as int
    } else if x > i32::MAX {
        i32::MAX as int
    } else {
        x
    }
}

/// An effect's modifier scaled by the caster's level as the service scales
/// it in `f32`: the level, the multiplier `1 + level / 2`, the modifier and
/// their product are each rounded to single precision (counted in halves,
/// so the multiplier is `2 + level` halves), and the product is cut toward
/// zero to an `i32`, saturating.
pub open spec fn scaled_modifier(modifier: i32, level: i32) -> int {
    let multiplier = single_round(2 + single_round(level as nat));
    let size = if modifier < 0 { -modifier } else { modifier as int };
    let magnitude = single_round(single_round(size as nat) * multiplier) as int;
    saturate_i32(half_toward_zero(if modifier < 0 { -magnitude } else { magnitude }))
}

/// The effects of an ability applied in order to the character hit. Each
/// effect on an attribute the character has moves it by the scaled
/// modifier when the result stays within bounds, and is announced; the
/// hit kills when the last applied change leaves health at zero or below.
pub open spec fn apply_effects(
    e: EntityStats,
    effects: Seq<AttributeEffect>,
    level: i32,
    caster: u128,
    hit: u128,
) -> (EntityStats, Seq<AbilityOutput>, bool)
    decreases effects.len(),
{
    if effects.len() == 0 {
        (e, seq![], false)
    } else {
        let (e0, outs, killed) = apply_effects(e, effects.drop_last(), level, caster, hit);
        let eff = effects.last();
        match attribute_of(e0, eff.attribute_type) {
            None => (e0, outs, killed),
            Some(a) => {
                let v = a.current_value + scaled_modifier(eff.modifier_value, level);
                if a.min_value <= v && v <= a.max_value {
                    let k = eff.attribute_type == AttributeType::HealthPoints && v <= 0;
                    let updated = AbilityOutput::AttributeUpdated {
                        entity_id: hit,
                        attribute: eff.attribute_type,
                        new_value: v as i32,
                    };
                    (
                        with_attribute(e0, eff.attribute_type, Some(Attribute { current_value: v as i32, ..a })),
                        if k {
                            outs.push(updated).push(AbilityOutput::EntityKilled { killer_id: caster, victim_id: hit })
                        } else {
                            outs.push(updated)
                        },
                        k,
                    )
                } else {
                    (e0, outs, killed)
                }
            },
        }
    }
}

/// The experience a killer earns: 25 points; reaching 100 converts 100
/// points into a level (the level stops at `i32::MAX`), announced before
/// the new experience total.
pub open spec fn award_kill(c: EntityStats) -> (EntityStats, Seq<AbilityOutput>) {
    let xp = c.experience_points + XP_PER_KILL;
    if xp >= XP_PER_LEVEL {
        let level = if c.level < i32::MAX { c.level + 1 } else { c.level as int };
        (
            EntityStats { experience_points: (xp - XP_PER_LEVEL) as i32, level: level as i32, ..c },
            seq![
                AbilityOutput::LevelUp { entity_id: c.entity_id, new_level: level as i32 },
                AbilityOutput::XPEarned { entity_id: c.entity_id, new_value: (xp - XP_PER_LEVEL) as i32 },
            ],
        )
    } else {
        (
            EntityStats { experience_points: xp as i32, ..c },
            seq![AbilityOutput::XPEarned { entity_id: c.entity_id, new_value: xp as i32 }],
        )
    }
}

/// A hit: the ability's effects apply to the character hit (scaled by the
/// caster's level, 1 for an unknown caster); a kill earns the caster
/// experience. A hit on an unknown character changes nothing.
pub open spec fn on_hit(
    reg: Seq<EntityStats>,
    caster: u128,
    hit: u128,
    ability_type: AbilityType,
) -> (Seq<EntityStats>, Seq<AbilityOutput>) {
    let ic = index_of(reg, caster);
    let level: i32 = if ic >= 0 { reg[ic].level } else { 1 };
    let ih = index_of(reg, hit);
    if ih < 0 {
        (reg, seq![])
    } else {
        let (e1, outs, killed) = apply_effects(reg[ih], ability_of_type(ability_type).effects, level, caster, hit);
        let reg1 = reg.update(ih, e1);
        if killed && ic >= 0 {
            let (c2, outs2) = award_kill(reg1[ic]);
            (reg1.update(ic, c2), outs + outs2)
        } else {
            (reg1, outs)
        }
    }
}

/// The effect of one event on the registry, and what it publishes.
pub open spec fn on_event(reg: Seq<EntityStats>, event: AbilityEvent, now: u64) -> (Seq<EntityStats>, Seq<AbilityOutput>) {
    match event {
        AbilityEvent::PlayerStartingPosition { connection_id } => (on_starting_position(reg, connection_id), seq![]),
        AbilityEvent::RequestCastAbility { entity_id, ability, direction } => on_cast_request(reg, entity_id, ability, direction, now),
        AbilityEvent::AbilityHitEntity { caster_id, hit_entity_id, ability_type } => on_hit(reg, caster_id, hit_entity_id, ability_type),
    }
}

/// One character's mana regeneration: below its maximum, mana rises by 5
/// (capped at the maximum) and the new value is announced.
pub open spec fn regen_entity(e: EntityStats) -> (EntityStats, Seq<AbilityOutput>) {
    match e.mana {
        Some(m) => if m.current_value < m.max_value {
            let v = if m.current_value + MANA_REGEN < m.max_value { m.current_value + MANA_REGEN } else { m.max_value as int };
            (
                EntityStats { mana: Some(Attribute { current_value: v as i32, ..m }), ..e },
                seq![AbilityOutput::AttributeUpdated { entity_id: e.entity_id, attribute: AttributeType::ManaPoints, new_value: v as i32 }],
            )
        } else {
            (e, seq![])
        },
        None => (e, seq![]),
    }
}

/// The announcements of a regeneration pass over `reg`, in order.
pub open spec fn regen_outputs(reg: Seq<EntityStats>) -> Seq<AbilityOutput>
    decreases reg.len(),
{
    if reg.len() == 0 {
        seq![]
    } else {
        regen_outputs(reg.drop_last()) + regen_entity(reg.last()).1
    }
}


proof fn lemma_index_of(reg: Seq<EntityStats>, id: u128)
    ensures
        -1 <= index_of(reg, id) < reg.len(),
        index_of(reg, id) >= 0 ==> reg[index_of(reg, id)].entity_id == id,
        index_of(reg, id) >= 0 ==> forall|j: int| 0 <= j < index_of(reg, id) ==> (#[trigger] reg[j]).entity_id != id,
        index_of(reg, id) < 0 ==> forall|j: int| 0 <= j < reg.len() ==> (#[trigger] reg[j]).entity_id != id,
    decreases reg.len(),
{
    if reg.len() > 0 {
        lemma_index_of(reg.drop_last(), id);
        assert forall|j: int| 0 <= j < reg.len() - 1 implies reg.drop_last()[j] == reg[j] by {}
    }
}

proof fn lemma_index_of_found(reg: Seq<EntityStats>, id: u128, i: int)
    requires
        0 <= i < reg.len(),
        reg[i].entity_id == id,
        forall|j: int| 0 <= j < i ==> (#[trigger] reg[j]).entity_id != id,
    ensures
        index_of(reg, id) == i,
{
    lemma_index_of(reg, id);
}

proof fn lemma_index_of_same_ids(r1: Seq<EntityStats>, r2: Seq<EntityStats>, id: u128)
    requires
        r1.len() == r2.len(),
        forall|j: int| 0 <= j < r1.len() ==> (#[trigger] r1[j]).entity_id == r2[j].entity_id,
    ensures
        index_of(r1, id) == index_of(r2, id),
{
    lemma_index_of(r1, id);
    lemma_index_of(r2, id);
    if index_of(r1, id) >= 0 {
        lemma_index_of_found(r2, id, index_of(r1, id));
    } else if index_of(r2, id) >= 0 {
        assert(r1[index_of(r2, id)].entity_id == id);
    }
}

proof fn lemma_apply_effects(e: EntityStats, effects: Seq<AttributeEffect>, level: i32, caster: u128, hit: u128)
    requires
        entity_wf(e),
    ensures
        entity_wf(apply_effects(e, effects, level, caster, hit).0),
        apply_effects(e, effects, level, caster, hit).0.entity_id == e.entity_id,
        apply_effects(e, effects, level, caster, hit).0.level == e.level,
        apply_effects(e, effects, level, caster, hit).0.experience_points == e.experience_points,
        apply_effects(e, effects, level, caster, hit).0.fireball == e.fireball,
        apply_effects(e, effects, level, caster, hit).0.heal == e.heal,
    decreases effects.len(),
{
    if effects.len() > 0 {
        lemma_apply_effects(e, effects.drop_last(), level, caster, hit);
    }
}

impl View for EntityRegistry {
    type V = Seq<EntityStats>;

    closed spec fn view(&self) -> Seq<EntityStats> {
        stats_of(self.entities@)
    }
}

impl EntityRegistry {
    #[verifier::type_invariant]
    spec fn inv(&self) -> bool {
        registry_wf(stats_of(self.entities@))
    }

    /// An empty registry.
    pub fn new() -> (r: EntityRegistry)
        ensures
            r@ == Seq::<EntityStats>::empty(),
    {
        let r = EntityRegistry { entities: Vec::new() };
        proof {
            assert(stats_of(r.entities@) =~= Seq::<EntityStats>::empty());
        }
        r
    }

    /// The number of characters.
    pub fn len(&self) -> (n: usize)
        ensures
            n == self@.len(),
    {
        self.entities.len()
    }

    /// The character with the given id, if known.
    pub fn get(&self, id: u128) -> (r: Option<&Entity>)
        ensures
            index_of(self@, id) >= 0 <==> r is Some,
            r matches Some(e) ==> e@ == self@[index_of(self@, id)],
    {
        proof {
            lemma_index_of(self@, id);
        }
        match find_index(&self.entities, id) {
            Some(i) => Some(&self.entities[i]),
            None => None,
        }
    }

    /// The latest time any held ability was cast.
    pub fn latest_cast_millis(&self) -> (t: u64)
        ensures
            registry_cast_times_before(self@, t),
    {
        let mut t: u64 = 0;
        let mut i: usize = 0;
        while i < self.entities.len()
            invariant
                i <= self.entities@.len(),
                forall|j: int| 0 <= j < i ==> cast_times_before(#[trigger] stats_of(self.entities@)[j], t),
            decreases self.entities@.len() - i,
        {
            match &self.entities[i].abilities.fireball {
                Some(a) => {
                    if a.last_cast_millis > t {
                        t = a.last_cast_millis;
                    }
                },
                None => {},
            }
            match &self.entities[i].abilities.heal {
                Some(a) => {
                    if a.last_cast_millis > t {
                        t = a.last_cast_millis;
                    }
                },
                None => {},
            }
            i = i + 1;
        }
        t
    }
}

/// Index of the character with id `id`.
fn find_index(entities: &Vec<Entity>, id: u128) -> (r: Option<usize>)
    ensures
        r is Some <==> index_of(stats_of(entities@), id) >= 0,
        r matches Some(i) ==> i == index_of(stats_of(entities@), id),
{
    let ghost reg = stats_of(entities@);
    let mut i: usize = 0;
    while i < entities.len()
        invariant
            i <= entities@.len(),
            reg == stats_of(entities@),
            forall|j: int| 0 <= j < i ==> (#[trigger] reg[j]).entity_id != id,
        decreases entities@.len() - i,
    {
        if entities[i].entity_id == id {
            proof {
                lemma_index_of_found(reg, id, i as int);
            }
            return Some(i);
        }
        i = i + 1;
    }
    proof {
        lemma_index_of(reg, id);
    }
    None
}


/// The scaled modifier, rounded at each step as single precision rounds.
pub fn scale_modifier(modifier: i32, level: i32) -> (r: i64)
    requires
        0 <= level,
    ensures
        r == scaled_modifier(modifier, level),
{
    let lv = round_single(level as u128);
    let multiplier = round_single(2 + lv);
    let size: u128 = if modifier < 0 {
        (-(modifier as i64)) as u128
    } else {
        modifier as u128
    };
    let rounded = round_single(size);
    proof {
        assert(rounded * multiplier <= 0x1_0000_0000 * 0x2_0000_0004) by (nonlinear_arith)
            requires
                rounded <= 0x1_0000_0000,
                multiplier <= 0x2_0000_0004,
        ;
    }
    let magnitude = round_single(rounded * multiplier);
    let half: u128 = magnitude / 2;
    if modifier < 0 {
        if half > 0x8000_0000 {
            i32::MIN as i64
        } else {
            -(half as i64)
        }
    } else {
        if half > 0x7fff_ffff {
            i32::MAX as i64
        } else {
            half as i64
        }
    }
}

/// Registers a character entering the world.
fn starting_position(entities: &mut Vec<Entity>, id: u128)
    requires
        registry_wf(stats_of(old(entities)@)),
    ensures
        stats_of(final(entities)@) == on_starting_position(stats_of(old(entities)@), id),
        registry_wf(stats_of(final(entities)@)),
{
    let ghost reg = stats_of(entities@);
    proof {
        lemma_index_of(reg, id);
    }
    match find_index(entities, id) {
        Some(_) => {},
        None => {
            entities.push(Entity::default(id));
            proof {
                assert(stats_of(entities@) =~= reg.push(fresh_entity(id)));
            }
        },
    }
}

/// Handles a cast request.
fn cast_request(
    entities: &mut Vec<Entity>,
    id: u128,
    ability: AbilityType,
    direction: Option<Vec2>,
    now: u64,
) -> (out: Vec<AbilityOutput>)
    requires
        registry_wf(stats_of(old(entities)@)),
        event_clock_ok(
            stats_of(old(entities)@),
            AbilityEvent::RequestCastAbility { entity_id: id, ability, direction },
            now,
        ),
    ensures
        (stats_of(final(entities)@), out@) == on_cast_request(stats_of(old(entities)@), id, ability, direction, now),
        registry_wf(stats_of(final(entities)@)),
{
    let ghost reg = stats_of(entities@);
    proof {
        lemma_index_of(reg, id);
    }
    let i = match find_index(entities, id) {
        Some(i) => i,
        None => {
            return Vec::new();
        },
    };
    proof {
        assert(reg[i as int] == entities@[i as int]@);
    }
    if !entities[i].can_cast_ability(ability, now) {
        return Vec::new();
    }
    let marked = entities[i].mark_cast(ability, now);
    let (cast_type, cost) = match marked {
        Some(x) => x,
        None => {
            return Vec::new();
        },
    };
    let ghost a = ability_of(reg[i as int], ability)->0;
    let ghost e1 = with_ability(reg[i as int], ability, Some(AbilityView { last_cast_millis: now, ..a }));
    proof {
        assert(stats_of(entities@) =~= reg.update(i as int, e1));
    }
    let mut out: Vec<AbilityOutput> = Vec::new();
    out.push(AbilityOutput::CastAbility { entity_id: id, ability: cast_type, direction });
    match entities[i].attribute(AttributeType::ManaPoints) {
        Some(m) => {
            let new_mana = m.current_value - cost;
            let _ = entities[i].update_attribute(AttributeType::ManaPoints, new_mana);
            out.push(
                AbilityOutput::AttributeUpdated {
                    entity_id: id,
                    attribute: AttributeType::ManaPoints,
                    new_value: new_mana,
                },
            );
            proof {
                assert(stats_of(entities@) =~= reg.update(i as int, attribute_update(e1, AttributeType::ManaPoints, new_mana).0));
            }
        },
        None => {},
    }
    proof {
        let r2 = stats_of(entities@);
        assert forall|j: int| 0 <= j < r2.len() implies entity_wf(#[trigger] r2[j]) by {
            assert(entity_wf(reg[j]));
        }
        assert forall|p: int, q: int| 0 <= p < q < r2.len() implies #[trigger] r2[p].entity_id != #[trigger] r2[q].entity_id by {
            assert(r2[p].entity_id == reg[p].entity_id);
            assert(r2[q].entity_id == reg[q].entity_id);
        }
    }
    out
}

/// Applies a hit and awards a kill.
fn hit_entity(entities: &mut Vec<Entity>, caster: u128, hit: u128, ability_type: AbilityType) -> (out: Vec<AbilityOutput>)
    requires
        registry_wf(stats_of(old(entities)@)),
    ensures
        (stats_of(final(entities)@), out@) == on_hit(stats_of(old(entities)@), caster, hit, ability_type),
        registry_wf(stats_of(final(entities)@)),
        forall|j: int| 0 <= j < old(entities)@.len() ==> (#[trigger] stats_of(final(entities)@)[j]).fireball == stats_of(old(entities)@)[j].fireball && stats_of(final(entities)@)[j].heal == stats_of(old(entities)@)[j].heal,
{
    let ghost reg = stats_of(entities@);
    proof {
        lemma_index_of(reg, caster);
        lemma_index_of(reg, hit);
    }
    let level: i32 = match find_index(entities, caster) {
        Some(c) => entities[c].level,
        None => 1,
    };
    proof {
        if index_of(reg, caster) >= 0 {
            assert(entity_wf(reg[index_of(reg, caster)]));
        }
    }
    let ih = match find_index(entities, hit) {
        Some(h) => h,
        None => {
            return Vec::new();
        },
    };
    let ability = Ability::from_type(ability_type);
    let ghost effects = ability@.effects;
    let mut out: Vec<AbilityOutput> = Vec::new();
    let mut killed = false;
    let mut k: usize = 0;
    proof {
        assert(effects.take(0) =~= Seq::<AttributeEffect>::empty());
        assert(entity_wf(reg[ih as int]));
    }
    while k < ability.effects.len()
        invariant
            k <= effects.len(),
            effects == ability@.effects,
            0 <= level,
            0 <= ih < reg.len(),
            entities@.len() == reg.len(),
            forall|j: int| 0 <= j < reg.len() && j != ih ==> #[trigger] stats_of(entities@)[j] == reg[j],
            (stats_of(entities@)[ih as int], out@, killed) == apply_effects(reg[ih as int], effects.take(k as int), level, caster, hit),
            entity_wf(reg[ih as int]),
        decreases effects.len() - k,
    {
        let eff = ability.effects[k];
        proof {
            assert(effects.take(k + 1).drop_last() =~= effects.take(k as int));
            assert(effects.take(k + 1).last() == eff);
            lemma_apply_effects(reg[ih as int], effects.take(k as int), level, caster, hit);
        }
        let ghost before = stats_of(entities@);
        match entities[ih].attribute(eff.attribute_type) {
            Some(a) => {
                let scaled = scale_modifier(eff.modifier_value, level);
                let v: i64 = a.current_value as i64 + scaled;
                if a.min_value as i64 <= v && v <= a.max_value as i64 {
                    let _ = entities[ih].update_attribute(eff.attribute_type, v as i32);
                    let updated = AbilityOutput::AttributeUpdated {
                        entity_id: hit,
                        attribute: eff.attribute_type,
                        new_value: v as i32,
                    };
                    out.push(updated);
                    killed = (match eff.attribute_type {
                        AttributeType::HealthPoints => true,
                        AttributeType::ManaPoints => false,
                    }) && v <= 0;
                    if killed {
                        out.push(AbilityOutput::EntityKilled { killer_id: caster, victim_id: hit });
                    }
                }
            },
            None => {},
        }
        proof {
            assert forall|j: int| 0 <= j < reg.len() && j != ih implies #[trigger] stats_of(entities@)[j] == reg[j] by {
                assert(stats_of(entities@)[j] == before[j]);
            }
        }
        k = k + 1;
    }
    proof {
        assert(effects.take(effects.len() as int) =~= effects);
        lemma_apply_effects(reg[ih as int], effects, level, caster, hit);
    }
    let ghost reg1 = stats_of(entities@);
    proof {
        assert(reg1 =~= reg.update(ih as int, apply_effects(reg[ih as int], effects, level, caster, hit).0));
        lemma_index_of_same_ids(reg, reg1, caster);
    }
    if killed {
        match find_index(entities, caster) {
            Some(c) => {
                proof {
                    assert(entity_wf(reg1[c as int]));
                }
                let xp = entities[c].experience_points + XP_PER_KILL;
                if xp >= XP_PER_LEVEL {
                    let old_level = entities[c].level;
                    let new_level = if old_level < i32::MAX {
                        old_level + 1
                    } else {
                        old_level
                    };
                    entities[c].experience_points = xp - XP_PER_LEVEL;
                    entities[c].level = new_level;
                    out.push(AbilityOutput::LevelUp { entity_id: caster, new_level });
                    out.push(AbilityOutput::XPEarned { entity_id: caster, new_value: xp - XP_PER_LEVEL });
                } else {
                    entities[c].experience_points = xp;
                    out.push(AbilityOutput::XPEarned { entity_id: caster, new_value: xp });
                }
                proof {
                    assert(stats_of(entities@) =~= reg1.update(c as int, award_kill(reg1[c as int]).0));
                }
            },
            None => {},
        }
    }
    proof {
        let r2 = stats_of(entities@);
        assert forall|j: int| 0 <= j < r2.len() implies entity_wf(#[trigger] r2[j]) by {
            assert(entity_wf(reg[j]));
        }
        assert forall|p: int, q: int| 0 <= p < q < r2.len() implies #[trigger] r2[p].entity_id != #[trigger] r2[q].entity_id by {
            assert(r2[p].entity_id == reg[p].entity_id);
            assert(r2[q].entity_id == reg[q].entity_id);
        }
    }
    out
}

/// One mana regeneration pass.
fn regen_all(entities: &mut Vec<Entity>) -> (out: Vec<AbilityOutput>)
    requires
        registry_wf(stats_of(old(entities)@)),
    ensures
        stats_of(final(entities)@) == stats_of(old(entities)@).map_values(|e: EntityStats| regen_entity(e).0),
        out@ == regen_outputs(stats_of(old(entities)@)),
        registry_wf(stats_of(final(entities)@)),
{
    let ghost reg = stats_of(entities@);
    let mut out: Vec<AbilityOutput> = Vec::new();
    let mut i: usize = 0;
    let n = entities.len();
    while i < n
        invariant
            i <= n,
            n == reg.len(),
            entities@.len() == n,
            registry_wf(reg),
            forall|j: int| 0 <= j < i ==> #[trigger] stats_of(entities@)[j] == regen_entity(reg[j]).0,
            forall|j: int| i <= j < n ==> #[trigger] stats_of(entities@)[j] == reg[j],
            out@ == regen_outputs(reg.take(i as int)),
        decreases n - i,
    {
        proof {
            assert(reg.take(i + 1).drop_last() =~= reg.take(i as int));
            assert(reg.take(i + 1).last() == reg[i as int]);
            assert(entity_wf(reg[i as int]));
            assert(stats_of(entities@)[i as int] == reg[i as int]);
            assert(entities@[i as int]@ == reg[i as int]);
        }
        let ghost before = stats_of(entities@);
        match entities[i].attribute(AttributeType::ManaPoints) {
            Some(m) => {
                if m.current_value < m.max_value {
                    let v = if m.current_value + MANA_REGEN < m.max_value {
                        m.current_value + MANA_REGEN
                    } else {
                        m.max_value
                    };
                    let _ = entities[i].update_attribute(AttributeType::ManaPoints, v);
                    out.push(
                        AbilityOutput::AttributeUpdated {
                            entity_id: entities[i].entity_id,
                            attribute: AttributeType::ManaPoints,
                            new_value: v,
                        },
                    );
                }
            },
            None => {},
        }
        proof {
            assert(stats_of(entities@)[i as int] == regen_entity(reg[i as int]).0);
            assert forall|j: int| 0 <= j < n && j != i implies #[trigger] stats_of(entities@)[j] == before[j] by {}
        }
        i = i + 1;
    }
    proof {
        assert(reg.take(n as int) =~= reg);
        assert(stats_of(entities@) =~= reg.map_values(|e: EntityStats| regen_entity(e).0));
        let r2 = stats_of(entities@);
        assert forall|j: int| 0 <= j < r2.len() implies entity_wf(#[trigger] r2[j]) by {
            assert(entity_wf(reg[j]));
        }
        assert forall|p: int, q: int| 0 <= p < q < r2.len() implies #[trigger] r2[p].entity_id != #[trigger] r2[q].entity_id by {
            assert(r2[p].entity_id == reg[p].entity_id);
            assert(r2[q].entity_id == reg[q].entity_id);
        }
    }
    out
}

impl EntityRegistry {
    /// Handles one message: registers characters, grants casts, applies
    /// hits and awards kills, as `on_event` states; returns what to publish,
    /// in order. The clock must not run behind the cast the event asks for.
    pub fn handle_event(&mut self, event: AbilityEvent, now_millis: u64) -> (out: Vec<AbilityOutput>)
        requires
            event_clock_ok(old(self)@, event, now_millis),
        ensures
            (final(self)@, out@) == on_event(old(self)@, event, now_millis),
    {
        proof {
            use_type_invariant(&*self);
        }
        let mut entities: Vec<Entity> = Vec::new();
        std::mem::swap(&mut entities, &mut self.entities);
        let out = match event {
            AbilityEvent::PlayerStartingPosition { connection_id } => {
                starting_position(&mut entities, connection_id);
                Vec::new()
            },
            AbilityEvent::RequestCastAbility { entity_id, ability, direction } => {
                cast_request(&mut entities, entity_id, ability, direction, now_millis)
            },
            AbilityEvent::AbilityHitEntity { caster_id, hit_entity_id, ability_type } => {
                hit_entity(&mut entities, caster_id, hit_entity_id, ability_type)
            },
        };
        self.entities = entities;
        out
    }

    /// One mana regeneration pass over every character, in order.
    pub fn regenerate_mana(&mut self) -> (out: Vec<AbilityOutput>)
        ensures
            final(self)@ == old(self)@.map_values(|e: EntityStats| regen_entity(e).0),
            out@ == regen_outputs(old(self)@),
    {
        proof {
            use_type_invariant(&*self);
        }
        let mut entities: Vec<Entity> = Vec::new();
        std::mem::swap(&mut entities, &mut self.entities);
        let out = regen_all(&mut entities);
        self.entities = entities;
        out
    }
}

} // verus!
