//! The countdown alarm: a three-state machine over a wrapping 32-bit tick clock.

use vstd::prelude::*;

verus! {

/// Where the alarm stands in its life cycle.
#[derive(Copy, Clone, PartialEq, Eq, Structural, Debug)]
pub enum AlarmStatus {
    Idle,
    Running,
    Paused,
}

/// A countdown that began at `start_time` and lasts `duration` ticks.
///
/// Every combination of field values is a valid alarm; `start_time` and
/// `duration` only matter while `status` is `Running`.
#[derive(Copy, Clone, PartialEq, Eq, Structural, Debug)]
pub struct Alarm {
    pub start_time: u32,
    pub duration: u32,
    pub status: AlarmStatus,
}

/// Ticks that have passed between `start` and `now` on a clock that wraps at 2^32.
pub open spec fn ticks_since(start: u32, now: u32) -> int {
    if now >= start {
        now - start
    } else {
        now - start + 0x1_0000_0000
    }
}

impl Alarm {
    /// The alarm after `start(now, duration)`.
    pub open spec fn started(now: u32, duration: u32) -> Alarm {
        Alarm { start_time: now, duration, status: AlarmStatus::Running }
    }

    /// The alarm after `stop()`.
    pub open spec fn stopped(self) -> Alarm {
        Alarm { status: AlarmStatus::Idle, ..self }
    }

    /// The alarm after `pause()`.
    pub open spec fn paused(self) -> Alarm {
        if self.status == AlarmStatus::Running {
            Alarm { status: AlarmStatus::Paused, ..self }
        } else {
            self
        }
    }

    /// Whether the countdown has run out at tick `now`: only a running alarm
    /// expires, and it does so once `duration` ticks have passed since it began.
    pub open spec fn expired_at(self, now: u32) -> bool {
        self.status == AlarmStatus::Running && ticks_since(self.start_time, now) >= self.duration
    }

    /// An idle alarm with both times at zero.
    pub fn new() -> (alarm: Self)
        ensures
            alarm == (Alarm { start_time: 0, duration: 0, status: AlarmStatus::Idle }),
    {
        Alarm { start_time: 0, duration: 0, status: AlarmStatus::Idle }
    }

    /// Begins a countdown of `duration` ticks at tick `now`, whatever the
    /// alarm was doing before. A `duration` of zero expires at once.
    pub fn start(&mut self, now: u32, duration: u32)
        ensures
            *final(self) == Alarm::started(now, duration),
            final(self).status == AlarmStatus::Running,
            final(self).start_time == now,
            final(self).duration == duration,
    {
        self.start_time = now;
        self.duration = duration;
        self.status = AlarmStatus::Running;
    }

    /// Returns the alarm to `Idle` from any state; the recorded times stay.
    pub fn stop(&mut self)
        ensures
            *final(self) == old(self).stopped(),
            final(self).status == AlarmStatus::Idle,
    {
        self.status = AlarmStatus::Idle;
    }

    /// Pauses a running alarm; an idle or paused alarm is left untouched.
    pub fn pause(&mut self)
        ensures
            *final(self) == old(self).paused(),
            old(self).status == AlarmStatus::Running ==> final(self).status == AlarmStatus::Paused,
            old(self).status != AlarmStatus::Running ==> *final(self) == *old(self),
    {
        if self.status == AlarmStatus::Running {
            self.status = AlarmStatus::Paused;
        }
    }

    /// Whether the countdown has run out at tick `now`. Never true of an
    /// alarm that is not running.
    pub fn is_expired(&self, now: u32) -> (expired: bool)
        ensures
            expired == self.expired_at(now),
            self.status != AlarmStatus::Running ==> !expired,
            self.status == AlarmStatus::Running ==> (expired <==> ticks_since(
                self.start_time,
                now,
            ) >= self.duration),
    {
        self.status == AlarmStatus::Running && now.wrapping_sub(self.start_time) >= self.duration
    }

    /// Stopping twice leaves the alarm as stopping once does.
    pub proof fn lemma_stop_idempotent(self)
        ensures
            self.stopped().stopped() == self.stopped(),
            self.stopped().status == AlarmStatus::Idle,
    {
    }

    /// Pausing twice leaves the alarm as pausing once does.
    pub proof fn lemma_pause_idempotent(self)
        ensures
            self.paused().paused() == self.paused(),
    {
    }

    /// Once expired, an alarm stays expired as more ticks pass since its
    /// start: expiry is monotonic in the time elapsed on the wrapping clock.
    pub proof fn lemma_expiry_monotonic_in_elapsed(self, now1: u32, now2: u32)
        requires
            ticks_since(self.start_time, now1) <= ticks_since(self.start_time, now2),
        ensures
            self.expired_at(now1) ==> self.expired_at(now2),
    {
    }

    /// For `now1 <= now2`, an alarm expired at `now1` is expired at `now2`,
    /// unless the clock value wrapped past `start_time` in between
    /// (`now1 < start_time <= now2`), where the elapsed time drops.
    pub proof fn lemma_expiry_monotonic(self, now1: u32, now2: u32)
        requires
            now1 <= now2,
            !(now1 < self.start_time && self.start_time <= now2),
        ensures
            self.expired_at(now1) ==> self.expired_at(now2),
    {
    }

    /// Exactly when expiry fails to be monotonic in `now`: the only pairs
    /// `now1 <= now2` with the alarm expired at `now1` and not at `now2` lie
    /// on two sides of `start_time`.
    pub proof fn lemma_expiry_monotonic_exceptions(self, now1: u32, now2: u32)
        requires
            now1 <= now2,
        ensures
            (self.expired_at(now1) && !self.expired_at(now2)) <==> (self.status
                == AlarmStatus::Running && now1 < self.start_time && self.start_time <= now2
                && now2 - self.start_time < self.duration && self.duration <= now1
                - self.start_time + 0x1_0000_0000),
    {
    }
}

} // verus!
