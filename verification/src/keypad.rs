//! The 16-key keypad: a plain pressed/released bitset.
//!
//! The engine only reads it; an external input collaborator writes it
//! through [`Keypad::set_key`] (or the public field) between cycles.

use vstd::prelude::*;

verus! {

pub struct Keypad {
    /// One entry per key, indexed 0x0 to 0xF.
    pub keys: Vec<bool>,
}

/// The lowest pressed key index at or above `k`, if any key is pressed there.
pub open spec fn first_key(keys: Seq<bool>, k: int) -> Option<u8>
    decreases 16 - k,
{
    if k < 0 || k >= 16 {
        None
    } else if keys[k] {
        Some(k as u8)
    } else {
        first_key(keys, k + 1)
    }
}

impl Keypad {
    /// There is exactly one entry per key.
    pub open spec fn wf(&self) -> bool {
        self.keys@.len() == 16
    }

    pub fn new() -> (k: Keypad)
        ensures
            k.wf(),
            k.keys@ == Seq::new(16, |i: int| false),
    {
        let mut keys: Vec<bool> = Vec::new();
        let mut i: usize = 0;
        while i < 16
            invariant
                i <= 16,
                keys@.len() == i,
                forall|j: int| 0 <= j < i ==> !keys@[j],
            decreases 16 - i,
        {
            keys.push(false);
            i = i + 1;
        }
        proof {
            assert(keys@ =~= Seq::new(16, |i: int| false));
        }
        Keypad { keys }
    }

    pub fn is_pressed(&self, index: u8) -> (r: bool)
        requires
            self.wf(),
            index < 16,
        ensures
            r == self.keys@[index as int],
    {
        self.keys[index as usize]
    }

    /// The lowest-indexed key that is currently pressed, if any.
    pub fn first_pressed(&self) -> (r: Option<u8>)
        requires
            self.wf(),
        ensures
            r == first_key(self.keys@, 0),
    {
        let mut k: usize = 0;
        while k < 16
            invariant
                k <= 16,
                self.wf(),
                first_key(self.keys@, 0) == first_key(self.keys@, k as int),
            decreases 16 - k,
        {
            if self.keys[k] {
                return Some(k as u8);
            }
            k = k + 1;
        }
        None
    }

    /// Record a key going down or up; the input collaborator calls this.
    pub fn set_key(&mut self, index: u8, pressed: bool)
        requires
            old(self).wf(),
            index < 16,
        ensures
            final(self).wf(),
            final(self).keys@ == old(self).keys@.update(index as int, pressed),
    {
        self.keys[index as usize] = pressed;
    }
}

} // verus!
