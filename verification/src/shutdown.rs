use vstd::prelude::*;

verus! {

/// The bounded patience of the shutdown coordinator: once the producer has
/// ended, the process waits for the live subscriber count to reach zero,
/// polling at a fixed interval, but only this many times — so it can never
/// hang on a client that refuses to read its final record.
pub struct ShutdownPatience {
    /// Polls left before giving up unconditionally.
    pub points: u32,
}

impl ShutdownPatience {
    pub fn new(points: u32) -> (r: ShutdownPatience)
        ensures
            r.points == points,
    {
        ShutdownPatience { points }
    }

    /// Spends one poll; says to give up exactly when the budget runs out.
    pub fn tick(&mut self) -> (give_up: bool)
        requires
            old(self).points >= 1,
        ensures
            final(self).points == old(self).points - 1,
            give_up == (final(self).points == 0),
    {
        self.points = self.points - 1;
        self.points == 0
    }
}

} // verus!
