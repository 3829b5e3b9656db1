//! The movement a player asks for with the keyboard.

use vstd::prelude::*;

verus! {

/// The movement keys held down: the arrows, or A, D, W and S.
#[derive(Debug, Clone, Copy, PartialEq, Eq, Structural)]
pub struct HeldKeys {
    pub left: bool,
    pub right: bool,
    pub up: bool,
    pub down: bool,
}

/// The direction the held keys ask for, each coordinate in -1, 0 or 1;
/// `None` when they ask for none, in which case no input is sent.
pub fn movement_direction(keys: HeldKeys) -> (d: Option<(i8, i8)>)
    ensures
        ({
            let dx = (if keys.right { 1int } else { 0int }) - (if keys.left { 1int } else { 0int });
            let dy = (if keys.up { 1int } else { 0int }) - (if keys.down { 1int } else { 0int });
            if dx == 0 && dy == 0 {
                d is None
            } else {
                d == Some((dx as i8, dy as i8))
            }
        }),
{
    let mut dx: i8 = 0;
    let mut dy: i8 = 0;
    if keys.left {
        dx = dx - 1;
    }
    if keys.right {
        dx = dx + 1;
    }
    if keys.up {
        dy = dy + 1;
    }
    if keys.down {
        dy = dy - 1;
    }
    if dx == 0 && dy == 0 {
        None
    } else {
        Some((dx, dy))
    }
}

} // verus!
