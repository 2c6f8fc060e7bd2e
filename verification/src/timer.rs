//! A one-shot countdown, ticked once per frame.

use vstd::prelude::*;

verus! {

/// A countdown that runs once from zero to `duration` and then stays
/// finished until it is reset. All times are in milliseconds.
#[derive(Clone, Copy, Debug, PartialEq, Eq, Structural)]
pub struct Timer {
    /// The span after which the countdown finishes.
    pub duration: u32,
    /// The time counted so far.
    pub elapsed: u32,
    /// Whether the countdown has run out.
    pub finished: bool,
    /// Whether it ran out during the latest tick.
    pub just_finished: bool,
}

impl Timer {
    /// A fresh countdown of the given span.
    pub open spec fn started(duration: u32) -> Timer {
        Timer { duration, elapsed: 0, finished: false, just_finished: false }
    }

    /// The countdown after `delta` more milliseconds. A finished countdown
    /// stays as it is and no longer reports that it has only just finished;
    /// a running one finishes once the time counted reaches the span, and
    /// then holds exactly the span.
    pub open spec fn ticked(self, delta: u32) -> Timer {
        if self.finished {
            Timer { just_finished: false, ..self }
        } else if self.elapsed + delta >= self.duration {
            Timer { elapsed: self.duration, finished: true, just_finished: true, ..self }
        } else {
            Timer { elapsed: (self.elapsed + delta) as u32, just_finished: false, ..self }
        }
    }

    /// The countdown wound back to zero, with its span kept.
    pub open spec fn rewound(self) -> Timer {
        Timer { elapsed: 0, finished: false, just_finished: false, ..self }
    }

    /// Time still to run before the countdown finishes.
    pub open spec fn remaining(self) -> int {
        if self.finished || self.elapsed >= self.duration {
            0
        } else {
            self.duration - self.elapsed
        }
    }

    pub fn new(duration: u32) -> (timer: Timer)
        ensures
            timer == Timer::started(duration),
    {
        Timer { duration, elapsed: 0, finished: false, just_finished: false }
    }

    pub fn tick(&mut self, delta: u32)
        ensures
            *final(self) == old(self).ticked(delta),
    {
        if self.finished {
            self.just_finished = false;
        } else if self.elapsed as u64 + delta as u64 >= self.duration as u64 {
            self.elapsed = self.duration;
            self.finished = true;
            self.just_finished = true;
        } else {
            self.elapsed = self.elapsed + delta;
            self.just_finished = false;
        }
    }

    pub fn finished(&self) -> (done: bool)
        ensures
            done == self.finished,
    {
        self.finished
    }

    pub fn just_finished(&self) -> (done: bool)
        ensures
            done == self.just_finished,
    {
        self.just_finished
    }

    pub fn duration(&self) -> (span: u32)
        ensures
            span == self.duration,
    {
        self.duration
    }

    pub fn elapsed(&self) -> (time: u32)
        ensures
            time == self.elapsed,
    {
        self.elapsed
    }

    /// Changes the span; the time counted so far is kept.
    pub fn set_duration(&mut self, duration: u32)
        ensures
            *final(self) == (Timer { duration, ..*old(self) }),
    {
        self.duration = duration;
    }

    pub fn reset(&mut self)
        ensures
            *final(self) == old(self).rewound(),
    {
        self.elapsed = 0;
        self.finished = false;
        self.just_finished = false;
    }
}

/// Longest frame, in milliseconds.
pub const LONGEST_FRAME: u16 = 65_535;

/// The whole milliseconds in a rest of `carry` microseconds and `micros`
/// more, as far as a frame can be long.
pub open spec fn whole_millis(carry: u16, micros: u32) -> int {
    if (carry + micros) / 1000 > LONGEST_FRAME {
        LONGEST_FRAME as int
    } else {
        (carry + micros) / 1000
    }
}

/// Splits the time that has passed since the last frame into the whole
/// milliseconds that make the length of this frame and the rest, in
/// microseconds, that is carried over to the next.
pub fn frame_millis(carry: u16, micros: u32) -> (split: (u16, u16))
    ensures
        split.0 == whole_millis(carry, micros),
        split.1 == (carry + micros) % 1000,
{
    let total: u64 = carry as u64 + micros as u64;
    let whole: u64 = total / 1000;
    let rest: u64 = total % 1000;
    let dt: u16 = if whole > LONGEST_FRAME as u64 {
        LONGEST_FRAME
    } else {
        whole as u16
    };
    (dt, rest as u16)
}

/// A running countdown finishes on exactly the tick that uses up the time it
/// has left, and reports that once.
pub proof fn lemma_tick_finishes(timer: Timer, delta: u32)
    requires
        !timer.finished,
    ensures
        timer.ticked(delta).finished == (delta >= timer.remaining()),
        timer.ticked(delta).just_finished == timer.ticked(delta).finished,
        !timer.ticked(delta).ticked(delta).just_finished || !timer.ticked(delta).finished,
        !timer.ticked(delta).finished ==> timer.ticked(delta).remaining() == timer.remaining()
            - delta,
{
}

/// After a reset, a countdown is not finished before its whole span has
/// passed.
pub proof fn lemma_reset_needs_full_span(timer: Timer, delta: u32)
    ensures
        timer.rewound().remaining() == timer.duration,
        timer.rewound().ticked(delta).finished == (delta >= timer.duration),
{
}

} // verus!
