use crate::ability::attribute::AttributeType;
use vstd::prelude::*;

verus! {

/// The abilities a character can cast.
#[derive(Debug, Clone, Copy, PartialEq, Eq, Hash, Structural)]
pub enum AbilityType {
    Fireball,
    Heal,
}

/// A change applied to an attribute of the entity an ability hits.
#[derive(Debug, Clone, Copy, PartialEq, Eq, Structural)]
pub struct AttributeEffect {
    pub attribute_type: AttributeType,
    /// Added to the attribute's current value (before scaling by the
    /// caster's level).
    pub modifier_value: i32,
}

/// An ability as a character holds it. Times are milliseconds since the
/// Unix epoch; a cooldown is a duration in milliseconds.
#[derive(Debug, Clone, PartialEq, Eq)]
pub struct Ability {
    pub cooldown_millis: u64,
    pub mana_cost: i32,
    pub last_cast_millis: u64,
    pub ability_type: AbilityType,
    pub effects: Vec<AttributeEffect>,
}

/// The abstract value of an ability.
pub struct AbilityView {
    pub cooldown_millis: u64,
    pub mana_cost: i32,
    pub last_cast_millis: u64,
    pub ability_type: AbilityType,
    pub effects: Seq<AttributeEffect>,
}

impl View for Ability {
    type V = AbilityView;

    open spec fn view(&self) -> AbilityView {
        AbilityView {
            cooldown_millis: self.cooldown_millis,
            mana_cost: self.mana_cost,
            last_cast_millis: self.last_cast_millis,
            ability_type: self.ability_type,
            effects: self.effects@,
        }
    }
}

/// The ability of each type as it is first granted: a fireball costs 25
/// mana, cools down for 2 s and takes 20 health; a heal costs 35 mana,
/// cools down for 5 s and gives 50 health. Neither has been cast yet.
pub open spec fn ability_of_type(ability_type: AbilityType) -> AbilityView {
    match ability_type {
        AbilityType::Fireball => AbilityView {
            cooldown_millis: 2000,
            mana_cost: 25,
            last_cast_millis: 0,
            ability_type,
            effects: seq![
                AttributeEffect { attribute_type: AttributeType::HealthPoints, modifier_value: -20i32 },
            ],
        },
        AbilityType::Heal => AbilityView {
            cooldown_millis: 5000,
            mana_cost: 35,
            last_cast_millis: 0,
            ability_type,
            effects: seq![
                AttributeEffect { attribute_type: AttributeType::HealthPoints, modifier_value: 50i32 },
            ],
        },
    }
}

impl Ability {
    /// Builds the ability of the given type as it is first granted.
    pub fn from_type(ability_type: AbilityType) -> (a: Ability)
        ensures
            a@ == ability_of_type(ability_type),
    {
        match ability_type {
            AbilityType::Fireball => {
                let effects = vec![
                    AttributeEffect { attribute_type: AttributeType::HealthPoints, modifier_value: -20 },
                ];
                proof {
                    assert(effects@ =~= ability_of_type(ability_type).effects);
                }
                Ability {
                    cooldown_millis: 2000,
                    mana_cost: 25,
                    last_cast_millis: 0,
                    effects,
                    ability_type,
                }
            },
            AbilityType::Heal => {
                let effects = vec![
                    AttributeEffect { attribute_type: AttributeType::HealthPoints, modifier_value: 50 },
                ];
                proof {
                    assert(effects@ =~= ability_of_type(ability_type).effects);
                }
                Ability {
                    cooldown_millis: 5000,
                    mana_cost: 35,
                    last_cast_millis: 0,
                    effects,
                    ability_type,
                }
            },
        }
    }

    /// Records a cast at the given time.
    pub fn update_last_cast(&mut self, now_millis: u64)
        ensures
            final(self)@ == (AbilityView { last_cast_millis: now_millis, ..old(self)@ }),
    {
        self.last_cast_millis = now_millis;
    }
}

} // verus!
