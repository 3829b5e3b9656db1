use crate::ability::ability::{Ability, AbilityType, AbilityView};
use crate::ability::attribute::{Attribute, AttributeType};
use vstd::prelude::*;

verus! {

/// A character's attributes, at most one of each type.
#[derive(Debug, Clone, Copy, PartialEq, Eq)]
pub struct AttributeTable {
    pub health: Option<Attribute>,
    pub mana: Option<Attribute>,
}

/// A character's abilities, at most one of each type.
#[derive(Debug, Clone, PartialEq, Eq)]
pub struct AbilityTable {
    pub fireball: Option<Ability>,
    pub heal: Option<Ability>,
}

/// A character known to the ability service. Experience is counted in
/// whole points.
#[derive(Debug, Clone, PartialEq, Eq)]
pub struct Entity {
    pub entity_id: u128,
    pub experience_points: i32,
    pub level: i32,
    pub attributes: AttributeTable,
    pub abilities: AbilityTable,
}

/// The abstract value of a character.
pub struct EntityStats {
    pub entity_id: u128,
    pub experience_points: i32,
    pub level: i32,
    pub health: Option<Attribute>,
    pub mana: Option<Attribute>,
    pub fireball: Option<AbilityView>,
    pub heal: Option<AbilityView>,
}

pub open spec fn ability_view(a: Option<Ability>) -> Option<AbilityView> {
    match a {
        Some(x) => Some(x@),
        None => None,
    }
}

impl View for Entity {
    type V = EntityStats;

    open spec fn view(&self) -> EntityStats {
        EntityStats {
            entity_id: self.entity_id,
            experience_points: self.experience_points,
            level: self.level,
            health: self.attributes.health,
            mana: self.attributes.mana,
            fireball: ability_view(self.abilities.fireball),
            heal: ability_view(self.abilities.heal),
        }
    }
}

/// The attribute of a type that a character has, if any.
pub open spec fn attribute_of(e: EntityStats, t: AttributeType) -> Option<Attribute> {
    match t {
        AttributeType::HealthPoints => e.health,
        AttributeType::ManaPoints => e.mana,
    }
}

/// The ability of a type that a character holds, if any.
pub open spec fn ability_of(e: EntityStats, t: AbilityType) -> Option<AbilityView> {
    match t {
        AbilityType::Fireball => e.fireball,
        AbilityType::Heal => e.heal,
    }
}

/// The character with the attribute of type `t` replaced.
pub open spec fn with_attribute(e: EntityStats, t: AttributeType, a: Option<Attribute>) -> EntityStats {
    match t {
        AttributeType::HealthPoints => EntityStats { health: a, ..e },
        AttributeType::ManaPoints => EntityStats { mana: a, ..e },
    }
}

/// The character with the ability of type `t` replaced.
pub open spec fn with_ability(e: EntityStats, t: AbilityType, a: Option<AbilityView>) -> EntityStats {
    match t {
        AbilityType::Fireball => EntityStats { fireball: a, ..e },
        AbilityType::Heal => EntityStats { heal: a, ..e },
    }
}

/// The effect of setting an attribute: when the character has the
/// attribute and the value lies within its bounds, the value becomes
/// current and is reported; otherwise nothing changes.
pub open spec fn attribute_update(e: EntityStats, t: AttributeType, value: i32) -> (EntityStats, Option<i32>) {
    match attribute_of(e, t) {
        Some(a) => if a.min_value <= value && value <= a.max_value {
            (with_attribute(e, t, Some(Attribute { current_value: value, ..a })), Some(value))
        } else {
            (e, None)
        },
        None => (e, None),
    }
}

/// Whether an ability can be cast by a character at time `now`: the
/// character has enough mana (or no mana attribute at all), holds an
/// ability of that type, and the ability's cooldown has elapsed since the
/// held ability was last cast.
pub open spec fn castable(a: AbilityView, e: EntityStats, now: u64) -> bool {
    &&& match e.mana {
        Some(m) => m.current_value >= a.mana_cost,
        None => true,
    }
    &&& ability_of(e, a.ability_type) matches Some(held) && now - held.last_cast_millis
        >= a.cooldown_millis
}

/// The clock does not run behind the cast being checked: when the
/// character has the mana for `a`, the ability it holds of `a`'s type was
/// not cast after `now`.
pub open spec fn clock_ok(a: AbilityView, e: EntityStats, now: u64) -> bool {
    let mana_enough = match e.mana {
        Some(m) => m.current_value >= a.mana_cost,
        None => true,
    };
    mana_enough ==> match ability_of(e, a.ability_type) {
        Some(held) => held.last_cast_millis <= now,
        None => true,
    }
}

/// The held ability of type `t` was not cast after `now`.
pub open spec fn cast_times_before(e: EntityStats, now: u64) -> bool {
    &&& e.fireball matches Some(a) ==> a.last_cast_millis <= now
    &&& e.heal matches Some(a) ==> a.last_cast_millis <= now
}

/// A new character: full mana (100 of 100), no health attribute, no
/// abilities, level 0 and no experience.
pub open spec fn fresh_entity(entity_id: u128) -> EntityStats {
    EntityStats {
        entity_id,
        experience_points: 0,
        level: 0,
        health: None,
        mana: Some(
            Attribute {
                attribute_type: AttributeType::ManaPoints,
                max_value: 100,
                min_value: 0,
                current_value: 100,
            },
        ),
        fireball: None,
        heal: None,
    }
}

impl Ability {
    /// Whether this ability can be cast by `entity` at time `now_millis`
    /// (milliseconds since the Unix epoch).
    pub fn can_be_casted(&self, entity: &Entity, now_millis: u64) -> (b: bool)
        requires
            clock_ok(self@, entity@, now_millis),
        ensures
            b == castable(self@, entity@, now_millis),
    {
        match entity.attributes.mana {
            Some(mana_attribute) => {
                if mana_attribute.current_value < self.mana_cost {
                    return false;
                }
            },
            None => {},
        }
        match entity.find_ability(self.ability_type) {
            Some(ability) => now_millis - ability.last_cast_millis >= self.cooldown_millis,
            None => false,
        }
    }
}

impl Entity {
    /// A new character with the given id.
    pub fn default(entity_id: u128) -> (e: Entity)
        ensures
            e@ == fresh_entity(entity_id),
    {
        Entity {
            entity_id,
            experience_points: 0,
            level: 0,
            attributes: AttributeTable {
                health: None,
                mana: Some(
                    Attribute {
                        attribute_type: AttributeType::ManaPoints,
                        max_value: 100,
                        min_value: 0,
                        current_value: 100,
                    },
                ),
            },
            abilities: AbilityTable { fireball: None, heal: None },
        }
    }

    /// The ability of a type that the character holds, if any.
    pub fn find_ability(&self, ability: AbilityType) -> (r: Option<&Ability>)
        ensures
            ability_view(match r { Some(a) => Some(*a), None => None }) == ability_of(self@, ability),
    {
        match ability {
            AbilityType::Fireball => match &self.abilities.fireball {
                Some(a) => Some(a),
                None => None,
            },
            AbilityType::Heal => match &self.abilities.heal {
                Some(a) => Some(a),
                None => None,
            },
        }
    }

    /// The attribute of a type that the character has, if any.
    pub fn attribute(&self, attribute_type: AttributeType) -> (r: Option<Attribute>)
        ensures
            r == attribute_of(self@, attribute_type),
    {
        match attribute_type {
            AttributeType::HealthPoints => self.attributes.health,
            AttributeType::ManaPoints => self.attributes.mana,
        }
    }

    /// Whether the character can cast an ability of the given type now: it
    /// holds one, and that ability can be cast.
    pub fn can_cast_ability(&self, ability: AbilityType, now_millis: u64) -> (b: bool)
        requires
            ability_of(self@, ability) matches Some(a) ==> clock_ok(a, self@, now_millis),
        ensures
            b == (ability_of(self@, ability) matches Some(a) && castable(a, self@, now_millis)),
    {
        match self.find_ability(ability) {
            Some(a) => a.can_be_casted(self, now_millis),
            None => false,
        }
    }

    /// Sets an attribute's current value when the character has that
    /// attribute and the value lies within its bounds; returns the value
    /// set, or `None` when nothing changed.
    pub fn update_attribute(&mut self, attribute_type: AttributeType, value: i32) -> (r: Option<i32>)
        ensures
            (final(self)@, r) == attribute_update(old(self)@, attribute_type, value),
    {
        match attribute_type {
            AttributeType::HealthPoints => match self.attributes.health {
                Some(a) => {
                    if a.min_value <= value && value <= a.max_value {
                        self.attributes.health = Some(Attribute { current_value: value, ..a });
                        Some(value)
                    } else {
                        None
                    }
                },
                None => None,
            },
            AttributeType::ManaPoints => match self.attributes.mana {
                Some(a) => {
                    if a.min_value <= value && value <= a.max_value {
                        self.attributes.mana = Some(Attribute { current_value: value, ..a });
                        Some(value)
                    } else {
                        None
                    }
                },
                None => None,
            },
        }
    }

    /// Records that the held ability of a type was cast at `now_millis`;
    /// returns the held ability's type and mana cost, or `None` when the
    /// character holds no such ability.
    pub fn mark_cast(&mut self, ability: AbilityType, now_millis: u64) -> (r: Option<(AbilityType, i32)>)
        ensures
            match ability_of(old(self)@, ability) {
                Some(a) => {
                    &&& r == Some((a.ability_type, a.mana_cost))
                    &&& final(self)@ == with_ability(old(self)@, ability, Some(AbilityView { last_cast_millis: now_millis, ..a }))
                },
                None => r is None && final(self)@ == old(self)@,
            },
    {
        match ability {
            AbilityType::Fireball => match &mut self.abilities.fireball {
                Some(a) => {
                    a.update_last_cast(now_millis);
                    Some((a.ability_type, a.mana_cost))
                },
                None => None,
            },
            AbilityType::Heal => match &mut self.abilities.heal {
                Some(a) => {
                    a.update_last_cast(now_millis);
                    Some((a.ability_type, a.mana_cost))
                },
                None => None,
            },
        }
    }
}

} // verus!
