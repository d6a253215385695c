//! A word that moves along one lane.

use vstd::prelude::*;

verus! {

/// Distance units in one unit of the track's length.
pub const DISTANCE_SCALE: u64 = 1000;

/// Progress is measured in parts of this amount: a word whose `x` reaches it
/// has crossed the whole track (100 distance units).
pub const PROGRESS_ONE: u64 = 100_000;

/// One spawned, moving, typeable word.
pub struct Word {
    /// Lowercased display and match form.
    pub text: String,
    /// Set once the word has been typed; a found word no longer moves.
    pub found: bool,
    /// Distance travelled, in thousandths of a distance unit.
    pub x: u64,
    /// The lane the word occupies for its whole life.
    pub lane: usize,
    /// Distance added to `x` at each step, in thousandths of a distance unit.
    pub speed: u64,
}

impl Word {
    pub open spec fn wf(&self) -> bool {
        self.speed > 0
    }

    /// The word after one step: a live word moves by its speed, a found one
    /// stays where it is.
    pub open spec fn advanced(self) -> Word {
        if self.found {
            self
        } else {
            Word { x: self.x.saturating_add(self.speed), ..self }
        }
    }

    pub open spec fn has_escaped(self) -> bool {
        self.x >= PROGRESS_ONE
    }

    pub fn new(text: String, lane: usize, speed: u64) -> (w: Word)
        requires
            speed > 0,
        ensures
            w.text == text,
            !w.found,
            w.x == 0,
            w.lane == lane,
            w.speed == speed,
            w.wf(),
    {
        Word { text, found: false, x: 0, lane, speed }
    }

    /// Moves the word forward by its speed; the distance saturates at the
    /// largest value a `u64` holds.
    pub fn increment(&mut self)
        ensures
            *final(self) == (Word { x: old(self).x.saturating_add(old(self).speed), ..*old(self) }),
    {
        self.x = self.x.saturating_add(self.speed);
    }

    /// Progress along the track, in parts of `PROGRESS_ONE`: the word has
    /// escaped once this reaches `PROGRESS_ONE`.
    pub fn progress(&self) -> (r: u64)
        ensures
            r == self.x,
    {
        self.x
    }

    /// Whether the word has crossed the whole track.
    pub fn escaped(&self) -> (r: bool)
        ensures
            r == self.has_escaped(),
    {
        self.x >= PROGRESS_ONE
    }
}

impl PartialEq for Word {
    /// Two words are equal when their texts are.
    fn eq(&self, other: &Word) -> (r: bool) {
        self.text == other.text
    }
}

impl vstd::std_specs::cmp::PartialEqSpecImpl for Word {
    open spec fn obeys_eq_spec() -> bool {
        true
    }

    open spec fn eq_spec(&self, other: &Word) -> bool {
        self.text@ == other.text@
    }
}

} // verus!
