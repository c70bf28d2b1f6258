use vstd::prelude::*;

verus! {

/// The state of the player's controls in the current frame.
pub struct Input {
    /// Any key is down.
    pub any: bool,
    pub left: bool,
    pub right: bool,
    pub up: bool,
    pub down: bool,
    /// The swap button is down.
    pub action: bool,
    /// The boost button is down.
    pub alt: bool,
}

impl Default for Input {
    /// No control pressed.
    fn default() -> (i: Input)
        ensures
            !i.any && !i.left && !i.right && !i.up && !i.down && !i.action && !i.alt,
    {
        Input {
            any: false,
            left: false,
            right: false,
            up: false,
            down: false,
            action: false,
            alt: false,
        }
    }
}

/// A C-style flag: any value but zero is true.
pub fn int_to_bool(i: i32) -> (b: bool)
    ensures
        b == (i != 0),
{
    i != 0
}

} // verus!
