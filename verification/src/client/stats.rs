//! What the game client shows of each player: its stats and labels.

use crate::ability::attribute::AttributeType;
use crate::text::{i32_to_string, signed_decimal};
use vstd::prelude::*;
use vstd::string::StringExecFns;

verus! {

/// A player's stats as the client shows them.
#[derive(Debug, Clone, Copy, PartialEq, Eq, Structural)]
pub struct PlayerStats {
    pub hp: i32,
    pub mp: i32,
    pub level: i32,
    pub xp: i32,
}

/// The name tag of a player: `[Lvl <level>] <name>`.
pub open spec fn player_label(name: Seq<char>, level: i32) -> Seq<char> {
    seq!['[', 'L', 'v', 'l', ' '] + signed_decimal(level as int) + seq![']', ' '] + name
}

/// The stats line of a player: `HP: <hp>/100 | MP: <mp>/100`.
pub open spec fn stats_line(hp: i32, mp: i32) -> Seq<char> {
    seq!['H', 'P', ':', ' '] + signed_decimal(hp as int) + seq![
        '/',
        '1',
        '0',
        '0',
        ' ',
        '|',
        ' ',
        'M',
        'P',
        ':',
        ' ',
    ] + signed_decimal(mp as int) + seq!['/', '1', '0', '0']
}

impl PlayerStats {
    /// The stats a player is shown with when it first appears.
    pub fn spawned() -> (s: PlayerStats)
        ensures
            s == (PlayerStats { hp: 100, mp: 100, level: 0, xp: 0 }),
    {
        PlayerStats { hp: 100, mp: 100, level: 0, xp: 0 }
    }

    /// An attribute of the player changed: its health or its mana is set.
    pub fn apply_attribute_update(&mut self, attribute: AttributeType, new_value: i32)
        ensures
            *final(self) == (match attribute {
                AttributeType::HealthPoints => PlayerStats { hp: new_value, ..*old(self) },
                AttributeType::ManaPoints => PlayerStats { mp: new_value, ..*old(self) },
            }),
    {
        match attribute {
            AttributeType::HealthPoints => {
                self.hp = new_value;
            },
            AttributeType::ManaPoints => {
                self.mp = new_value;
            },
        }
    }

    /// The stats line shown under the player.
    pub fn stats_label(&self) -> (t: String)
        ensures
            t@ == stats_line(self.hp, self.mp),
    {
        let mut t = String::from_str("HP: ");
        let hp = i32_to_string(self.hp);
        t.append(hp.as_str());
        t.append("/100 | MP: ");
        let mp = i32_to_string(self.mp);
        t.append(mp.as_str());
        t.append("/100");
        proof {
            reveal_strlit("HP: ");
            reveal_strlit("/100 | MP: ");
            reveal_strlit("/100");
            assert(t@ =~= stats_line(self.hp, self.mp));
        }
        t
    }
}

/// The name tag shown above a player.
pub fn format_player_label(name: &str, level: i32) -> (t: String)
    ensures
        t@ == player_label(name@, level),
{
    let mut t = String::from_str("[Lvl ");
    let l = i32_to_string(level);
    t.append(l.as_str());
    t.append("] ");
    t.append(name);
    proof {
        reveal_strlit("[Lvl ");
        reveal_strlit("] ");
        assert(t@ =~= player_label(name@, level));
    }
    t
}

} // verus!
