//! The follower: the unit that keeps one connection to a relay, applies the
//! commands it receives to its own alarm, and reconnects after a fixed delay
//! whenever the connection is lost or cannot be made.
//!
//! The follower here decides; it does no I/O. Its caller performs the action
//! it is given and reports what happened as the next event.

use vstd::prelude::*;
use crate::alarm::Alarm;
use crate::network::{alarm_after_frame, apply_frame, TimerMsg};

verus! {

/// Milliseconds a follower waits before it connects again.
pub const RECONNECT_DELAY_MS: u64 = 2000;

/// What the follower is in the middle of.
#[derive(Copy, Clone, PartialEq, Eq, Structural, Debug)]
pub enum FollowerState {
    /// A connection attempt is under way.
    Connecting,
    /// Connected; the opening command is being sent.
    Greeting,
    /// Connected; waiting for the next frame.
    Receiving,
    /// Not connected; waiting out the reconnect delay.
    Backoff,
}

/// What the caller is to do next.
#[derive(Copy, Clone, PartialEq, Eq, Debug)]
pub enum FollowerAction {
    /// Open a new connection to the relay.
    Connect,
    /// Write these nine bytes to the connection; a failed write is not an error.
    Send([u8; 9]),
    /// Read from the connection.
    Receive,
    /// Drop the connection, if any, and sleep this many milliseconds.
    Wait(u64),
}

/// What the caller reports back.
#[derive(Copy, Clone, Debug)]
pub enum FollowerEvent<'a> {
    /// The connection attempt succeeded.
    Connected,
    /// The connection attempt failed.
    ConnectFailed,
    /// The write ended, well or not.
    Sent,
    /// The read ended. The slice holds the bytes that came; it is empty
    /// where the relay had closed the connection or the read failed.
    Received(&'a [u8]),
    /// The sleep is over.
    Woke,
}

/// A follower's state, and the command it opens every connection with.
#[derive(Copy, Clone, Debug)]
pub struct Follower {
    pub state: FollowerState,
    pub greeting: TimerMsg,
}

impl Follower {
    /// The state that follows `state` on `event`. An event that does not
    /// answer the action of `state` leaves the state as it is.
    pub open spec fn next_state(self, event: FollowerEvent<'_>) -> FollowerState {
        match (self.state, event) {
            (FollowerState::Connecting, FollowerEvent::Connected) => FollowerState::Greeting,
            (FollowerState::Connecting, FollowerEvent::ConnectFailed) => FollowerState::Backoff,
            (FollowerState::Greeting, FollowerEvent::Sent) => FollowerState::Receiving,
            (FollowerState::Receiving, FollowerEvent::Received(bytes)) => if bytes@.len() > 0 {
                FollowerState::Receiving
            } else {
                FollowerState::Backoff
            },
            (FollowerState::Backoff, FollowerEvent::Woke) => FollowerState::Connecting,
            (state, _) => state,
        }
    }

    /// The alarm after `event`: only bytes received while the follower is
    /// receiving touch it.
    pub open spec fn next_alarm(self, event: FollowerEvent<'_>, alarm: Alarm) -> Alarm {
        match (self.state, event) {
            (FollowerState::Receiving, FollowerEvent::Received(bytes)) => if bytes@.len() > 0 {
                alarm_after_frame(alarm, bytes@)
            } else {
                alarm
            },
            _ => alarm,
        }
    }

    /// The action that belongs to the follower's state.
    pub open spec fn pending(self) -> FollowerAction {
        match self.state {
            FollowerState::Connecting => FollowerAction::Connect,
            FollowerState::Greeting => FollowerAction::Send(array_of(self.greeting.encoding())),
            FollowerState::Receiving => FollowerAction::Receive,
            FollowerState::Backoff => FollowerAction::Wait(RECONNECT_DELAY_MS),
        }
    }

    /// A follower about to connect. It sends `greeting` each time a
    /// connection is made, before it starts to receive.
    pub fn new(greeting: TimerMsg) -> (follower: Self)
        ensures
            follower.state == FollowerState::Connecting,
            follower.greeting == greeting,
    {
        Follower { state: FollowerState::Connecting, greeting }
    }

    /// What the caller is to do now.
    pub fn action(&self) -> (action: FollowerAction)
        ensures
            action == self.pending(),
    {
        match self.state {
            FollowerState::Connecting => FollowerAction::Connect,
            FollowerState::Greeting => {
                let frame = self.greeting.to_bytes();
                assert(frame =~= array_of(self.greeting.encoding()));
                FollowerAction::Send(frame)
            },
            FollowerState::Receiving => FollowerAction::Receive,
            FollowerState::Backoff => FollowerAction::Wait(RECONNECT_DELAY_MS),
        }
    }

    /// Takes in what happened and returns what to do next.
    ///
    /// A made connection is greeted and then read from. Every frame that
    /// comes is decoded and applied to `alarm`; one that does not decode is
    /// ignored. A failed connection attempt, a closed connection and a
    /// failed read all lead to a wait of `RECONNECT_DELAY_MS` and a new
    /// connection attempt.
    pub fn step(&mut self, event: FollowerEvent<'_>, alarm: &mut Alarm) -> (action: FollowerAction)
        ensures
            final(self).state == old(self).next_state(event),
            final(self).greeting == old(self).greeting,
            *final(alarm) == old(self).next_alarm(event, *old(alarm)),
            action == final(self).pending(),
    {
        match (self.state, event) {
            (FollowerState::Connecting, FollowerEvent::Connected) => {
                self.state = FollowerState::Greeting;
            },
            (FollowerState::Connecting, FollowerEvent::ConnectFailed) => {
                self.state = FollowerState::Backoff;
            },
            (FollowerState::Greeting, FollowerEvent::Sent) => {
                self.state = FollowerState::Receiving;
            },
            (FollowerState::Receiving, FollowerEvent::Received(bytes)) => {
                if bytes.len() > 0 {
                    apply_frame(alarm, bytes);
                } else {
                    self.state = FollowerState::Backoff;
                }
            },
            (FollowerState::Backoff, FollowerEvent::Woke) => {
                self.state = FollowerState::Connecting;
            },
            _ => {},
        }
        self.action()
    }
}

/// The array whose nine elements are those of `bytes`.
pub open spec fn array_of(bytes: Seq<u8>) -> [u8; 9]
    recommends
        bytes.len() == 9,
{
    choose|a: [u8; 9]| a@ == bytes
}

} // verus!
