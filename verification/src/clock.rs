//! The fixed-step clock: it gathers the time that passes between frames and
//! lets one tick go for each tick length gathered, at most one per frame.

use vstd::prelude::*;

verus! {

/// Nanoseconds between two ticks: sixty ticks a second.
pub const NANOS_PER_FRAME: u64 = 16666666;

#[derive(Clone, Copy, Debug)]
pub struct Clock {
    /// The reading at the latest frame; 0 while there has been none.
    pub last_update_nanos: u64,
    /// The time between the two latest frames.
    pub frame_delta: u64,
    /// The amount of cumulative nanos passed that no tick has used up.
    pub nanos_cumul: u64,
    /// Size that `nanos_cumul` needs to be to run a tick.
    pub nanos_per_frame: u64,
}

/// The current value of a high-resolution counter, in nanoseconds since an
/// unspecified epoch. Calls `time::precise_time_ns`; nothing is claimed of
/// the value.
#[verifier::external_body]
fn precise_time_ns() -> (now: u64) {
    time::precise_time_ns()
}

impl Clock {
    /// The time that a frame at `now` adds: the time since the latest
    /// reading; with no reading before it, the delta that the clock holds.
    pub open spec fn delta_at(self, now: u64) -> int {
        if self.last_update_nanos != 0 {
            now - self.last_update_nanos
        } else {
            self.frame_delta as int
        }
    }

    /// The clock can take the reading `now`: time has not run backwards and
    /// the gathered time stays within the counter.
    pub open spec fn takes(self, now: u64) -> bool {
        0 <= self.delta_at(now) && self.nanos_cumul + self.delta_at(now) <= u64::MAX
    }

    /// The clock after the reading `now`.
    pub open spec fn advanced(self, now: u64) -> Clock {
        Clock {
            last_update_nanos: now,
            frame_delta: self.delta_at(now) as u64,
            nanos_cumul: (self.nanos_cumul + self.delta_at(now)) as u64,
            ..self
        }
    }

    /// A tick is due: one tick length has been gathered.
    pub open spec fn due(self) -> bool {
        self.nanos_cumul >= self.nanos_per_frame
    }

    /// The clock after it has let a tick go, if one is due: one tick length
    /// is taken off the gathered time; what is left stays for later frames.
    pub open spec fn drained(self) -> Clock {
        if self.due() {
            Clock { nanos_cumul: (self.nanos_cumul - self.nanos_per_frame) as u64, ..self }
        } else {
            self
        }
    }

    /// The clock after the frame at `now`, and whether a tick goes. A
    /// reading that the clock cannot take leaves it as it is. Else the
    /// reading advances it, and it lets a tick go if one is then due: at
    /// most one for each frame.
    pub open spec fn framed(self, now: u64) -> (Clock, bool) {
        if !self.takes(now) {
            (self, false)
        } else {
            (self.advanced(now).drained(), self.advanced(now).due())
        }
    }

    /// The clock after frames at the readings `nows`, in order.
    pub open spec fn run(self, nows: Seq<u64>) -> Clock
        decreases nows.len(),
    {
        if nows.len() == 0 {
            self
        } else {
            self.run(nows.drop_last()).framed(nows.last()).0
        }
    }

    /// The number of ticks that go during frames at the readings `nows`.
    pub open spec fn ticks(self, nows: Seq<u64>) -> nat
        decreases nows.len(),
    {
        if nows.len() == 0 {
            0
        } else {
            let fired = self.run(nows.drop_last()).framed(nows.last()).1;
            self.ticks(nows.drop_last()) + if fired {
                1nat
            } else {
                0nat
            }
        }
    }

    /// A clock without a reading, for sixty ticks a second.
    pub fn new() -> (r: Clock)
        ensures
            r == (Clock {
                last_update_nanos: 0,
                frame_delta: 0,
                nanos_cumul: 0,
                nanos_per_frame: NANOS_PER_FRAME,
            }),
    {
        Clock {
            last_update_nanos: 0,
            frame_delta: 0,
            nanos_cumul: 0,
            nanos_per_frame: NANOS_PER_FRAME,
        }
    }

    /// Whether the clock can take the reading `now`.
    pub fn can_take(&self, now: u64) -> (r: bool)
        ensures
            r == self.takes(now),
    {
        if self.last_update_nanos != 0 {
            now >= self.last_update_nanos && now - self.last_update_nanos <= u64::MAX
                - self.nanos_cumul
        } else {
            self.frame_delta <= u64::MAX - self.nanos_cumul
        }
    }

    /// Takes the reading `now`.
    pub fn advance(&mut self, now: u64)
        requires
            old(self).takes(now),
        ensures
            *final(self) == old(self).advanced(now),
    {
        if self.last_update_nanos != 0 {
            self.frame_delta = now - self.last_update_nanos;
        }
        self.nanos_cumul += self.frame_delta;
        self.last_update_nanos = now;
    }

    /// Lets a tick go if one is due. Returns true if it did.
    pub fn drain(&mut self) -> (fired: bool)
        ensures
            fired == old(self).due(),
            *final(self) == old(self).drained(),
    {
        if self.nanos_cumul < self.nanos_per_frame {
            return false;
        }
        self.nanos_cumul -= self.nanos_per_frame;
        true
    }

    /// One frame at the reading `now`. Returns true if a tick goes.
    pub fn frame(&mut self, now: u64) -> (fired: bool)
        ensures
            (*final(self), fired) == old(self).framed(now),
    {
        if !self.can_take(now) {
            return false;
        }
        self.advance(now);
        self.drain()
    }

    /// Reads the counter and takes the reading, if the clock can take it.
    /// Returns the reading and whether it was taken.
    pub fn update_delta(&mut self) -> (r: (u64, bool))
        ensures
            r.1 == old(self).takes(r.0),
            *final(self) == if r.1 {
                old(self).advanced(r.0)
            } else {
                *old(self)
            },
    {
        let now: u64 = precise_time_ns();
        if self.can_take(now) {
            self.advance(now);
            (now, true)
        } else {
            (now, false)
        }
    }

    /// Over any frames at readings that never run backwards, starting from
    /// a clock that has a reading, the ticks that went and the time left
    /// over account for no more than the time left over before and the time
    /// between the first and the last reading: no tick goes that the time
    /// elapsed has not paid for.
    pub proof fn lemma_ticks_paid_by_time(self, nows: Seq<u64>)
        requires
            self.last_update_nanos != 0,
            nows.len() > 0,
            self.last_update_nanos <= nows[0],
            forall|i: int, j: int| 0 <= i <= j < nows.len() ==> nows[i] <= nows[j],
        ensures
            self.ticks(nows) * self.nanos_per_frame + self.run(nows).nanos_cumul
                <= self.nanos_cumul + (nows.last() - self.last_update_nanos),
            nows.last() - self.last_update_nanos < self.nanos_per_frame - self.nanos_cumul
                ==> self.ticks(nows) == 0,
    {
        self.lemma_run_accounts(nows);
        let t = self.ticks(nows);
        let p = self.nanos_per_frame;
        if t >= 1 {
            assert(t * p >= p) by (nonlinear_arith)
                requires
                    t >= 1,
                    p >= 0,
            ;
        }
    }

    /// The accounting behind [`Clock::lemma_ticks_paid_by_time`], with what
    /// the recursion needs to go on: after the frames the clock holds a
    /// reading no later than the last one given.
    proof fn lemma_run_accounts(self, nows: Seq<u64>)
        requires
            self.last_update_nanos != 0,
            nows.len() > 0,
            self.last_update_nanos <= nows[0],
            forall|i: int, j: int| 0 <= i <= j < nows.len() ==> nows[i] <= nows[j],
        ensures
            self.run(nows).nanos_per_frame == self.nanos_per_frame,
            self.run(nows).last_update_nanos != 0,
            self.run(nows).last_update_nanos <= nows.last(),
            self.ticks(nows) * self.nanos_per_frame + self.run(nows).nanos_cumul
                + (nows.last() - self.run(nows).last_update_nanos) <= self.nanos_cumul + (
            nows.last() - self.last_update_nanos),
        decreases nows.len(),
    {
        let front = nows.drop_last();
        let p = self.nanos_per_frame as int;
        if front.len() == 0 {
            assert(self.run(front) == self);
        } else {
            assert(front[0] == nows[0]);
            assert(front.last() == nows[nows.len() - 2]);
            self.lemma_run_accounts(front);
        }
        let t = self.ticks(front) as int;
        assert((t + 1) * p == t * p + p) by (nonlinear_arith);
    }
}

} // verus!
