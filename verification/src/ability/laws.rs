//! What holds of the ability service across calls.

use crate::ability::entity::{attribute_update, attribute_of, fresh_entity, EntityStats};
use crate::ability::attribute::{Attribute, AttributeType};
use crate::ability::service::{
    award_kill, entity_wf, index_of, on_starting_position, regen_entity, XP_PER_LEVEL,
};
use vstd::prelude::*;

verus! {

/// A character that enters the world twice is registered once: a second
/// starting position changes nothing.
pub proof fn law_starting_position_idempotent(reg: Seq<EntityStats>, id: u128)
    ensures
        on_starting_position(on_starting_position(reg, id), id) == on_starting_position(reg, id),
{
    if index_of(reg, id) < 0 {
        let r1 = reg.push(fresh_entity(id));
        assert(r1.drop_last() =~= reg);
        assert(index_of(r1, id) >= 0);
    }
}

/// A kill keeps a well-formed killer well-formed: its experience stays
/// below one level's worth, and its level never goes down.
pub proof fn law_kill_keeps_experience_below_a_level(c: EntityStats)
    requires
        entity_wf(c),
    ensures
        entity_wf(award_kill(c).0),
        award_kill(c).0.level >= c.level,
        award_kill(c).0.experience_points >= 0,
        award_kill(c).0.experience_points < XP_PER_LEVEL,
{
}

/// Regeneration never takes mana past its maximum nor lowers it, and keeps
/// a well-formed character well-formed.
pub proof fn law_regeneration_stays_within_maximum(e: EntityStats)
    requires
        entity_wf(e),
    ensures
        entity_wf(regen_entity(e).0),
        e.mana matches Some(m) ==> regen_entity(e).0.mana matches Some(m2) && m.current_value
            <= m2.current_value && m2.current_value <= m2.max_value && m2.max_value == m.max_value,
{
}

/// An attribute update never leaves the attribute outside its bounds: the
/// value is taken only when it lies within them, and reported exactly then.
pub proof fn law_attribute_update_within_bounds(e: EntityStats, t: AttributeType, v: i32)
    ensures
        attribute_update(e, t, v).1 is Some ==> attribute_update(e, t, v).1 == Some(v),
        attribute_update(e, t, v).1 is Some ==> (match attribute_of(e, t) {
            Some(a) => a.min_value <= v <= a.max_value && attribute_of(attribute_update(e, t, v).0, t)
                == Some(Attribute { current_value: v, ..a }),
            None => false,
        }),
        attribute_update(e, t, v).1 is None ==> attribute_update(e, t, v).0 == e,
{
}

} // verus!
