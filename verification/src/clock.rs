//! The position of the audio, kept from readings of a monotonic clock.
//!
//! While the audio plays, its position is what had been played before
//! plus the time since playback was last started or resumed. A pause
//! latches the position; resuming takes a fresh starting point.

use vstd::prelude::*;

verus! {

/// The playback clock. Readings of the monotonic clock and positions are
/// in nanoseconds.
#[derive(Clone, Copy, Debug, PartialEq, Eq, Structural)]
pub struct AudioClock {
    /// The reading at which playback was last started or resumed.
    pub start_instant: Option<u64>,
    /// What had been played before that.
    pub accumulated_time: u64,
    pub is_playing: bool,
}

/// Time that has passed from the reading `since` to the reading `now`;
/// zero if `now` is the earlier one.
pub open spec fn elapsed(since: u64, now: u64) -> int {
    if now >= since {
        now - since
    } else {
        0
    }
}

impl AudioClock {
    /// The position of the audio at the reading `now`.
    pub open spec fn position(&self, now: u64) -> int {
        if self.is_playing && self.start_instant is Some {
            self.accumulated_time + elapsed(self.start_instant->Some_0, now)
        } else {
            self.accumulated_time as int
        }
    }

    /// The clock as it is before anything is played, and after a stop.
    pub open spec fn stopped() -> AudioClock {
        AudioClock { start_instant: None, accumulated_time: 0, is_playing: false }
    }

    /// While the audio plays its position never runs backwards.
    pub proof fn lemma_position_monotone(&self, earlier: u64, later: u64)
        requires
            earlier <= later,
        ensures
            self.position(earlier) <= self.position(later),
    {
    }

    /// While the audio does not play its position stands still.
    pub proof fn lemma_position_frozen(&self, a: u64, b: u64)
        requires
            !self.is_playing,
        ensures
            self.position(a) == self.position(b),
    {
    }

    /// A clock that has played nothing and does not play.
    pub fn new() -> (r: Self)
        ensures
            r == AudioClock::stopped(),
    {
        AudioClock { start_instant: None, accumulated_time: 0, is_playing: false }
    }

    /// Playback starts from the beginning at the reading `now`.
    pub fn start(&mut self, now: u64)
        ensures
            *final(self) == (AudioClock {
                start_instant: Some(now),
                accumulated_time: 0,
                is_playing: true,
            }),
    {
        self.start_instant = Some(now);
        self.accumulated_time = 0;
        self.is_playing = true;
    }

    /// Pauses at the reading `now`: the position reached is latched. A
    /// clock that does not play stays as it is.
    pub fn pause(&mut self, now: u64)
        requires
            old(self).position(now) <= u64::MAX,
        ensures
            !old(self).is_playing ==> *final(self) == *old(self),
            old(self).is_playing ==> *final(self) == (AudioClock {
                start_instant: None,
                accumulated_time: old(self).position(now) as u64,
                is_playing: false,
            }),
    {
        if self.is_playing {
            if let Some(start) = self.start_instant {
                let passed: u64 = if now >= start { now - start } else { 0 };
                self.accumulated_time = self.accumulated_time + passed;
            }
            self.start_instant = None;
            self.is_playing = false;
        }
    }

    /// Resumes at the reading `now`, which becomes the new starting point.
    /// A clock that plays stays as it is.
    pub fn resume(&mut self, now: u64)
        ensures
            old(self).is_playing ==> *final(self) == *old(self),
            !old(self).is_playing ==> *final(self) == (AudioClock {
                start_instant: Some(now),
                is_playing: true,
                ..*old(self)
            }),
    {
        if !self.is_playing {
            self.start_instant = Some(now);
            self.is_playing = true;
        }
    }

    /// The position of the audio at the reading `now`.
    pub fn get_pos(&self, now: u64) -> (r: u64)
        requires
            self.position(now) <= u64::MAX,
        ensures
            r == self.position(now),
    {
        if !self.is_playing {
            return self.accumulated_time;
        }
        match self.start_instant {
            Some(start) => {
                let passed: u64 = if now >= start { now - start } else { 0 };
                self.accumulated_time + passed
            },
            None => self.accumulated_time,
        }
    }

    /// Stops: nothing has been played and nothing plays.
    pub fn stop(&mut self)
        ensures
            *final(self) == AudioClock::stopped(),
    {
        self.start_instant = None;
        self.accumulated_time = 0;
        self.is_playing = false;
    }

    /// A pause and a later resume take nothing from the position and add
    /// nothing to it: after them the position is the one latched at the
    /// pause plus the time since the resume.
    pub proof fn lemma_pause_resume(&self, paused_at: u64, resumed_at: u64, now: u64)
        requires
            self.is_playing,
            self.position(paused_at) <= u64::MAX,
        ensures
            ({
                let latched = AudioClock {
                    start_instant: None,
                    accumulated_time: self.position(paused_at) as u64,
                    is_playing: false,
                };
                let resumed = AudioClock {
                    start_instant: Some(resumed_at),
                    is_playing: true,
                    ..latched
                };
                &&& latched.position(now) == self.position(paused_at)
                &&& resumed.position(now) == self.position(paused_at) + elapsed(resumed_at, now)
            }),
    {
    }
}

} // verus!
