//! The indicator: lit while any key is held.

use vstd::prelude::*;

use crate::keycode::NO_EVENT;

verus! {

/// The state of the indicator output.
#[derive(Clone, Copy, Debug, PartialEq, Eq, Structural)]
pub enum Indicator {
    Off,
    On,
}

/// Whether `keys` holds a key other than `NO_EVENT`.
pub open spec fn any_key_active(keys: Seq<u8>) -> bool {
    exists|i: int| 0 <= i < keys.len() && keys[i] != NO_EVENT
}

/// The indicator state that goes with the keys of a scan cycle.
pub open spec fn indicator_for(keys: Seq<u8>) -> Indicator {
    if any_key_active(keys) {
        Indicator::On
    } else {
        Indicator::Off
    }
}

impl Indicator {
    /// The indicator state for an "any key pressed" signal.
    pub fn from_active(active: bool) -> (indicator: Indicator)
        ensures
            indicator == if active {
                Indicator::On
            } else {
                Indicator::Off
            },
    {
        if active {
            Indicator::On
        } else {
            Indicator::Off
        }
    }

    /// The indicator state for the keys of a scan cycle: on exactly if one of
    /// them is a key.
    pub fn for_keys(keys: &[u8]) -> (indicator: Indicator)
        ensures
            indicator == indicator_for(keys@),
    {
        let mut at: usize = 0;
        while at < keys.len()
            invariant
                at <= keys@.len(),
                forall|i: int| 0 <= i < at ==> keys@[i] == NO_EVENT,
            decreases keys@.len() - at,
        {
            if keys[at] != NO_EVENT {
                return Indicator::On;
            }
            at += 1;
        }
        Indicator::Off
    }

    /// Whether the output is to be driven on.
    pub fn is_on(&self) -> (on: bool)
        ensures
            on == (*self == Indicator::On),
    {
        match self {
            Indicator::On => true,
            Indicator::Off => false,
        }
    }
}

} // verus!
