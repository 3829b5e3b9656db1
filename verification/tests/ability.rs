use mmo_backend::ability::ability::{Ability, AbilityType, AttributeEffect};
use mmo_backend::ability::attribute::{Attribute, AttributeType};
use mmo_backend::ability::entity::{AbilityTable, AttributeTable, Entity};
use mmo_backend::ability::rounding::round_single;
use mmo_backend::ability::service::{scale_modifier, AbilityEvent, AbilityOutput, EntityRegistry};

fn caster_with_fireball(id: u128, mana: i32, last_cast: u64) -> Entity {
    let mut fireball = Ability::from_type(AbilityType::Fireball);
    fireball.last_cast_millis = last_cast;
    Entity {
        entity_id: id,
        experience_points: 0,
        level: 0,
        attributes: AttributeTable {
            health: None,
            mana: Some(Attribute {
                attribute_type: AttributeType::ManaPoints,
                max_value: 100,
                min_value: 0,
                current_value: mana,
            }),
        },
        abilities: AbilityTable { fireball: Some(fireball), heal: None },
    }
}

#[test]
fn fireball_and_heal_definitions() {
    let f = Ability::from_type(AbilityType::Fireball);
    assert_eq!(f.cooldown_millis, 2000);
    assert_eq!(f.mana_cost, 25);
    assert_eq!(f.last_cast_millis, 0);
    assert_eq!(f.effects, vec![AttributeEffect { attribute_type: AttributeType::HealthPoints, modifier_value: -20 }]);
    let h = Ability::from_type(AbilityType::Heal);
    assert_eq!(h.cooldown_millis, 5000);
    assert_eq!(h.mana_cost, 35);
    assert_eq!(h.effects, vec![AttributeEffect { attribute_type: AttributeType::HealthPoints, modifier_value: 50 }]);
}

#[test]
fn new_entity_has_full_mana_and_no_level() {
    let e = Entity::default(7);
    assert_eq!(e.entity_id, 7);
    assert_eq!(e.level, 0);
    assert_eq!(e.experience_points, 0);
    assert_eq!(e.attribute(AttributeType::ManaPoints).map(|a| a.current_value), Some(100));
    assert_eq!(e.attribute(AttributeType::HealthPoints), None);
}

#[test]
fn attribute_updates_stay_within_bounds() {
    let mut e = Entity::default(1);
    assert_eq!(e.update_attribute(AttributeType::ManaPoints, 40), Some(40));
    assert_eq!(e.attribute(AttributeType::ManaPoints).map(|a| a.current_value), Some(40));
    assert_eq!(e.update_attribute(AttributeType::ManaPoints, 101), None);
    assert_eq!(e.update_attribute(AttributeType::ManaPoints, -1), None);
    assert_eq!(e.attribute(AttributeType::ManaPoints).map(|a| a.current_value), Some(40));
    assert_eq!(e.update_attribute(AttributeType::HealthPoints, 10), None);
}

#[test]
fn cooldown_and_mana_gate_casting() {
    let e = caster_with_fireball(1, 100, 10_000);
    assert!(!e.can_cast_ability(AbilityType::Fireball, 11_999));
    assert!(e.can_cast_ability(AbilityType::Fireball, 12_000));
    assert!(!e.can_cast_ability(AbilityType::Heal, 20_000));
    let poor = caster_with_fireball(2, 24, 0);
    assert!(!poor.can_cast_ability(AbilityType::Fireball, 50_000));
    let f = Ability::from_type(AbilityType::Fireball);
    assert!(f.can_be_casted(&e, 12_000));
}

#[test]
fn mark_cast_records_time_and_cost() {
    let mut e = caster_with_fireball(1, 100, 0);
    assert_eq!(e.mark_cast(AbilityType::Fireball, 5_000), Some((AbilityType::Fireball, 25)));
    assert_eq!(e.find_ability(AbilityType::Fireball).map(|a| a.last_cast_millis), Some(5_000));
    assert_eq!(e.mark_cast(AbilityType::Heal, 5_000), None);
}

#[test]
fn starting_position_registers_once() {
    let mut reg = EntityRegistry::new();
    let out = reg.handle_event(AbilityEvent::PlayerStartingPosition { connection_id: 9 }, 0);
    assert!(out.is_empty());
    reg.handle_event(AbilityEvent::PlayerStartingPosition { connection_id: 9 }, 0);
    assert_eq!(reg.len(), 1);
    assert_eq!(reg.get(9).map(|e| e.entity_id), Some(9));
    assert!(reg.get(10).is_none());
}

#[test]
fn cast_without_the_ability_publishes_nothing() {
    let mut reg = EntityRegistry::new();
    reg.handle_event(AbilityEvent::PlayerStartingPosition { connection_id: 9 }, 0);
    let out = reg.handle_event(
        AbilityEvent::RequestCastAbility { entity_id: 9, ability: AbilityType::Fireball, direction: None },
        reg.latest_cast_millis(),
    );
    assert!(out.is_empty());
    let out = reg.handle_event(
        AbilityEvent::AbilityHitEntity { caster_id: 1, hit_entity_id: 9, ability_type: AbilityType::Fireball },
        0,
    );
    assert!(out.is_empty());
}

#[test]
fn regeneration_at_full_mana_publishes_nothing() {
    let mut reg = EntityRegistry::new();
    reg.handle_event(AbilityEvent::PlayerStartingPosition { connection_id: 3 }, 0);
    let out = reg.regenerate_mana();
    assert!(out.is_empty());
    assert_eq!(reg.get(3).and_then(|e| e.attribute(AttributeType::ManaPoints)).map(|a| a.current_value), Some(100));
    let _ = AbilityOutput::XPEarned { entity_id: 3, new_value: 0 };
}

fn scaled_in_f32(modifier: i32, level: i32) -> i64 {
    let mut multiplier = 1.0;
    multiplier = multiplier + (level as f32 * 0.5);
    (modifier as f32 * multiplier) as i32 as i64
}

#[test]
fn level_scaling_matches_single_precision() {
    assert_eq!(scale_modifier(-20, 1), -30);
    assert_eq!(scale_modifier(50, 3), 125);
    assert_eq!(scale_modifier(-20, 16_777_217), -167_772_176);
    let modifiers = [0, 1, -1, 7, -20, 50, -50, 1_000_001, -16_777_215, i32::MAX, i32::MIN, 123_456_789];
    let levels = [0, 1, 2, 3, 99, 16_777_215, 16_777_217, 33_554_433, 1_000_000_007, i32::MAX];
    for &m in modifiers.iter() {
        for &l in levels.iter() {
            assert_eq!(scale_modifier(m, l), scaled_in_f32(m, l), "modifier {} level {}", m, l);
        }
    }
}

#[test]
fn rounding_to_single_precision() {
    assert_eq!(round_single(16_777_215), 16_777_215);
    assert_eq!(round_single(16_777_217), 16_777_216);
    assert_eq!(round_single(16_777_219), 16_777_220);
    assert_eq!(round_single(33_554_438), 33_554_440);
    for &n in [0u64, 5, 16_777_216, 16_777_217, 123_456_789, 4_294_967_295, 987_654_321_987].iter() {
        assert_eq!(round_single(n as u128), (n as f32) as u128, "n {}", n);
    }
}
