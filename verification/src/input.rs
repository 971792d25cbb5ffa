//! The input mapper: turns the set of currently held keys into this
//! frame's movement and rotation intents.

use vstd::prelude::*;

verus! {

/// A logical key the renderer reacts to; anything else is `Other`.
#[derive(PartialEq, Eq, Structural, Clone, Copy, Debug)]
pub enum HeldKey {
    ArrowUp,
    ArrowDown,
    ArrowLeft,
    ArrowRight,
    Other,
}

/// The movement and rotation requests of one frame, applied in the fixed
/// order: forward, backward, rotate right, rotate left.
#[derive(PartialEq, Eq, Structural, Clone, Copy, Debug)]
pub struct Intents {
    pub forward: bool,
    pub backward: bool,
    pub rotate_right: bool,
    pub rotate_left: bool,
}

/// Derives the frame's intents from the held keys; only presence matters,
/// never order or multiplicity.
pub fn intents_from_keys(keys: &Vec<HeldKey>) -> (r: Intents)
    ensures
        r.forward == keys@.contains(HeldKey::ArrowUp),
        r.backward == keys@.contains(HeldKey::ArrowDown),
        r.rotate_right == keys@.contains(HeldKey::ArrowRight),
        r.rotate_left == keys@.contains(HeldKey::ArrowLeft),
{
    let mut r = Intents { forward: false, backward: false, rotate_right: false, rotate_left: false };
    let mut i: usize = 0;
    while i < keys.len()
        invariant
            i <= keys@.len(),
            r.forward == (exists|j: int| 0 <= j < i && keys@[j] == HeldKey::ArrowUp),
            r.backward == (exists|j: int| 0 <= j < i && keys@[j] == HeldKey::ArrowDown),
            r.rotate_right == (exists|j: int| 0 <= j < i && keys@[j] == HeldKey::ArrowRight),
            r.rotate_left == (exists|j: int| 0 <= j < i && keys@[j] == HeldKey::ArrowLeft),
        decreases keys@.len() - i,
    {
        match keys[i] {
            HeldKey::ArrowUp => {
                r.forward = true;
            },
            HeldKey::ArrowDown => {
                r.backward = true;
            },
            HeldKey::ArrowRight => {
                r.rotate_right = true;
            },
            HeldKey::ArrowLeft => {
                r.rotate_left = true;
            },
            HeldKey::Other => {
            },
        }
        i = i + 1;
    }
    r
}

} // verus!
