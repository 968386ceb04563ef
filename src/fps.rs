use vstd::prelude::*;

verus! {

/// Counts frames and reports the count once more than a second has passed.
#[derive(Copy, Clone, PartialEq, Eq, Hash, Debug, Structural)]
pub struct FpsCounter {
    pub frames: u128,
}

impl FpsCounter {
    pub fn new() -> (r: FpsCounter)
        ensures
            r.frames == 0,
    {
        FpsCounter { frames: 0 }
    }

    /// Counts one frame, `elapsed_ms` milliseconds after the last report. Past one second,
    /// returns the frame count, this frame included, and starts counting anew; the caller
    /// then restarts its clock.
    pub fn tick(&mut self, elapsed_ms: u128) -> (r: Option<u128>)
        requires
            old(self).frames < u128::MAX,
        ensures
            elapsed_ms > 1000 ==> r == Some((old(self).frames + 1) as u128) && final(self).frames == 0,
            elapsed_ms <= 1000 ==> r is None && final(self).frames == old(self).frames + 1,
    {
        self.frames = self.frames + 1;
        if elapsed_ms > 1000 {
            let frames = self.frames;
            self.frames = 0;
            Some(frames)
        } else {
            None
        }
    }
}

} // verus!
