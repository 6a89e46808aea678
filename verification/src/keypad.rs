//! Sixteen-key boolean latch, polled by the skip-on-key and await-keypress
//! instructions; the lowest pressed key index wins.

use vstd::prelude::*;

verus! {

/// Number of keys on the keypad.
pub const NUM_KEYS: usize = 16;

/// Latched state of the sixteen keys, replaced wholesale by the embedder
/// once per frame.
#[derive(Clone)]
pub struct Keypad {
    key_states: Vec<bool>,
}

impl View for Keypad {
    type V = Seq<bool>;

    /// The pressed state of each key, by key index.
    closed spec fn view(&self) -> Seq<bool> {
        self.key_states@
    }
}

/// The lowest key index at or above `i` that is pressed, if any.
pub open spec fn spec_first_pressed(keys: Seq<bool>, i: int) -> Option<u8>
    recommends
        keys.len() == NUM_KEYS,
        0 <= i,
    decreases NUM_KEYS - i when i <= NUM_KEYS
{
    if i >= NUM_KEYS {
        None
    } else if keys[i] {
        Some(i as u8)
    } else {
        spec_first_pressed(keys, i + 1)
    }
}

/// If no key below `i` is pressed, the scan for the first pressed key may
/// start at `i` instead of at 0.
pub proof fn lemma_first_pressed_skip(keys: Seq<bool>, i: int)
    requires
        keys.len() == NUM_KEYS,
        0 <= i <= NUM_KEYS,
        forall|j: int| 0 <= j < i ==> !keys[j],
    ensures
        spec_first_pressed(keys, 0) == spec_first_pressed(keys, i),
    decreases i,
{
    if i > 0 {
        lemma_first_pressed_skip(keys, i - 1);
    }
}

impl Keypad {
    pub closed spec fn wf(&self) -> bool {
        self.key_states@.len() == NUM_KEYS
    }

    pub fn new() -> (keypad: Keypad)
        ensures
            keypad.wf(),
            keypad@.len() == NUM_KEYS,
            forall|i: int| 0 <= i < NUM_KEYS ==> !keypad@[i],
    {
        let mut key_states: Vec<bool> = Vec::new();
        while key_states.len() < NUM_KEYS
            invariant
                key_states@.len() <= NUM_KEYS,
                forall|i: int| 0 <= i < key_states@.len() ==> !key_states@[i],
            decreases NUM_KEYS - key_states@.len(),
        {
            key_states.push(false);
        }
        Keypad { key_states }
    }

    pub fn set_key(&mut self, key_id: u8)
        requires
            old(self).wf(),
            key_id < NUM_KEYS,
        ensures
            final(self).wf(),
            final(self)@ == old(self)@.update(key_id as int, true),
    {
        self.key_states.set(key_id as usize, true);
    }

    pub fn unset_key(&mut self, key_id: u8)
        requires
            old(self).wf(),
            key_id < NUM_KEYS,
        ensures
            final(self).wf(),
            final(self)@ == old(self)@.update(key_id as int, false),
    {
        self.key_states.set(key_id as usize, false);
    }

    pub fn check_key_state(&self, key_id: u8) -> (pressed: bool)
        requires
            self.wf(),
            key_id < NUM_KEYS,
        ensures
            pressed == self@[key_id as int],
    {
        self.key_states[key_id as usize]
    }

    /// The lowest pressed key index, if any key is pressed.
    pub fn get_keypress(&self) -> (keypress: Option<u8>)
        requires
            self.wf(),
        ensures
            keypress == spec_first_pressed(self@, 0),
            match keypress {
                Some(key_id) => key_id < NUM_KEYS && self@[key_id as int]
                    && forall|j: int| 0 <= j < key_id ==> !self@[j],
                None => forall|j: int| 0 <= j < NUM_KEYS ==> !self@[j],
            },
    {
        let mut idx: usize = 0;
        while idx < NUM_KEYS
            invariant
                self.wf(),
                idx <= NUM_KEYS,
                forall|j: int| 0 <= j < idx ==> !self@[j],
            decreases NUM_KEYS - idx,
        {
            if self.key_states[idx] {
                proof {
                    lemma_first_pressed_skip(self@, idx as int);
                }
                return Some(idx as u8);
            }
            idx = idx + 1;
        }
        proof {
            lemma_first_pressed_skip(self@, NUM_KEYS as int);
        }
        None
    }
}

} // verus!
