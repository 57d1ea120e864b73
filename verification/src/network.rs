//! The nine-byte command frame that carries timer commands between units,
//! and what a received command does to the local alarm.

use vstd::prelude::*;
use crate::alarm::Alarm;

verus! {

/// Length of every frame on the wire.
pub const FRAME_LEN: usize = 9;

/// The command a frame carries; on the wire it is the first byte.
#[derive(Copy, Clone, PartialEq, Eq, Structural, Debug)]
pub enum TimerCmd {
    Start,
    Stop,
    Pause,
}

impl TimerCmd {
    /// The tag byte of the command: 1 for `Start`, 2 for `Stop`, 3 for `Pause`.
    pub open spec fn tag_of(self) -> u8 {
        match self {
            TimerCmd::Start => 1,
            TimerCmd::Stop => 2,
            TimerCmd::Pause => 3,
        }
    }

    /// The command a tag byte stands for, if any.
    pub open spec fn of_tag(tag: u8) -> Option<TimerCmd> {
        if tag == 1 {
            Some(TimerCmd::Start)
        } else if tag == 2 {
            Some(TimerCmd::Stop)
        } else if tag == 3 {
            Some(TimerCmd::Pause)
        } else {
            None
        }
    }

    /// The tag byte of the command.
    pub fn tag(self) -> (tag: u8)
        ensures
            tag == self.tag_of(),
    {
        match self {
            TimerCmd::Start => 1,
            TimerCmd::Stop => 2,
            TimerCmd::Pause => 3,
        }
    }

    /// The command a tag byte stands for; `None` for any byte but 1, 2 and 3.
    pub fn from_tag(tag: u8) -> (cmd: Option<TimerCmd>)
        ensures
            cmd == TimerCmd::of_tag(tag),
    {
        match tag {
            1 => Some(TimerCmd::Start),
            2 => Some(TimerCmd::Stop),
            3 => Some(TimerCmd::Pause),
            _ => None,
        }
    }
}

/// One timer command with its two fields. `Stop` and `Pause` carry the fields
/// too, and receivers ignore them.
#[derive(Copy, Clone, PartialEq, Eq, Structural, Debug)]
pub struct TimerMsg {
    pub cmd: TimerCmd,
    pub start_time: u32,
    pub duration: u32,
}

/// The four bytes of `x`, least significant first.
pub open spec fn le_bytes(x: u32) -> Seq<u8> {
    seq![
        (x % 256) as u8,
        (x / 256 % 256) as u8,
        (x / 65536 % 256) as u8,
        (x / 16777216) as u8,
    ]
}

/// The number whose bytes, least significant first, are the first four of `bytes`.
pub open spec fn le_value(bytes: Seq<u8>) -> u32
    recommends
        bytes.len() >= 4,
{
    (bytes[0] + bytes[1] * 256 + bytes[2] * 65536 + bytes[3] * 16777216) as u32
}

fn u32_to_le(x: u32) -> (bytes: [u8; 4])
    ensures
        bytes@ == le_bytes(x),
{
    [(x % 256) as u8, (x / 256 % 256) as u8, (x / 65536 % 256) as u8, (x / 16777216) as u8]
}

fn u32_from_le(bytes: &[u8], at: usize) -> (x: u32)
    requires
        at + 4 <= bytes@.len(),
    ensures
        x == le_value(bytes@.subrange(at as int, at + 4)),
{
    let b0 = bytes[at] as u32;
    let b1 = bytes[at + 1] as u32;
    let b2 = bytes[at + 2] as u32;
    let b3 = bytes[at + 3] as u32;
    b0 + b1 * 256 + b2 * 65536 + b3 * 16777216
}

impl TimerMsg {
    /// The frame of a message: the tag, then `start_time` and `duration`,
    /// each as four bytes, least significant first.
    pub open spec fn encoding(self) -> Seq<u8> {
        seq![self.cmd.tag_of()] + le_bytes(self.start_time) + le_bytes(self.duration)
    }

    /// The message that a buffer holds in its first nine bytes: none if the
    /// buffer is shorter, or if its first byte is no command tag.
    pub open spec fn decoding(bytes: Seq<u8>) -> Option<TimerMsg> {
        if bytes.len() < FRAME_LEN {
            None
        } else {
            match TimerCmd::of_tag(bytes[0]) {
                None => None,
                Some(cmd) => Some(
                    TimerMsg {
                        cmd,
                        start_time: le_value(bytes.subrange(1, 5)),
                        duration: le_value(bytes.subrange(5, 9)),
                    },
                ),
            }
        }
    }

    /// The alarm after this command has been applied to it.
    pub open spec fn applied_to(self, alarm: Alarm) -> Alarm {
        match self.cmd {
            TimerCmd::Start => Alarm::started(self.start_time, self.duration),
            TimerCmd::Stop => alarm.stopped(),
            TimerCmd::Pause => alarm.paused(),
        }
    }

    /// Encodes the message as a frame.
    pub fn to_bytes(&self) -> (buf: [u8; 9])
        ensures
            buf@ == self.encoding(),
    {
        let s = u32_to_le(self.start_time);
        let d = u32_to_le(self.duration);
        let buf = [self.cmd.tag(), s[0], s[1], s[2], s[3], d[0], d[1], d[2], d[3]];
        buf
    }

    /// Decodes the first nine bytes of `buf`. A buffer shorter than a frame
    /// and a frame with an unknown tag give `None`; bytes past the ninth are
    /// not looked at.
    pub fn from_bytes(buf: &[u8]) -> (msg: Option<Self>)
        ensures
            msg == TimerMsg::decoding(buf@),
            buf@.len() < 9 ==> msg is None,
            buf@.len() >= 9 && !(1 <= buf@[0] <= 3) ==> msg is None,
            buf@.len() >= 9 && 1 <= buf@[0] <= 3 ==> msg is Some,
    {
        if buf.len() < FRAME_LEN {
            return None;
        }
        let cmd = match TimerCmd::from_tag(buf[0]) {
            Some(cmd) => cmd,
            None => {
                return None;
            },
        };
        let start_time = u32_from_le(buf, 1);
        let duration = u32_from_le(buf, 5);
        Some(TimerMsg { cmd, start_time, duration })
    }

    /// Applies the command to `alarm`: `Start` begins a countdown with the
    /// message's fields, `Stop` stops the alarm, `Pause` pauses it.
    pub fn apply(&self, alarm: &mut Alarm)
        ensures
            *final(alarm) == self.applied_to(*old(alarm)),
    {
        match self.cmd {
            TimerCmd::Start => alarm.start(self.start_time, self.duration),
            TimerCmd::Stop => alarm.stop(),
            TimerCmd::Pause => alarm.pause(),
        }
    }

    /// Decoding the frame of any message gives the message back.
    pub proof fn lemma_decode_encode(self)
        ensures
            self.encoding().len() == FRAME_LEN,
            TimerMsg::decoding(self.encoding()) == Some(self),
    {
        let frame = self.encoding();
        assert(frame.subrange(1, 5) =~= le_bytes(self.start_time));
        assert(frame.subrange(5, 9) =~= le_bytes(self.duration));
    }

    /// Bytes that follow a frame do not change what it decodes to.
    pub proof fn lemma_decode_ignores_tail(bytes: Seq<u8>, tail: Seq<u8>)
        requires
            bytes.len() >= FRAME_LEN,
        ensures
            TimerMsg::decoding(bytes + tail) == TimerMsg::decoding(bytes),
    {
    }

    /// A frame of exactly nine bytes that decodes is the frame of what it
    /// decodes to: each message has one encoding.
    pub proof fn lemma_encode_decode(bytes: Seq<u8>)
        requires
            bytes.len() == FRAME_LEN,
            TimerMsg::decoding(bytes) is Some,
        ensures
            TimerMsg::decoding(bytes).unwrap().encoding() == bytes,
    {
        lemma_le_bytes_of_value(bytes.subrange(1, 5));
        lemma_le_bytes_of_value(bytes.subrange(5, 9));
    }
}

/// Four bytes are the little-endian bytes of the number they spell.
proof fn lemma_le_bytes_of_value(bytes: Seq<u8>)
    requires
        bytes.len() == 4,
    ensures
        le_bytes(le_value(bytes)) == bytes,
{
}

/// The alarm after a received buffer has been handled: the decoded command
/// applied, or the alarm unchanged where the buffer holds no command.
pub open spec fn alarm_after_frame(alarm: Alarm, bytes: Seq<u8>) -> Alarm {
    match TimerMsg::decoding(bytes) {
        Some(msg) => msg.applied_to(alarm),
        None => alarm,
    }
}

/// Handles one received buffer: decodes it and applies the command to
/// `alarm`. A buffer that does not decode is ignored. Returns whether a
/// command was applied.
pub fn apply_frame(alarm: &mut Alarm, frame: &[u8]) -> (applied: bool)
    ensures
        *final(alarm) == alarm_after_frame(*old(alarm), frame@),
        applied == TimerMsg::decoding(frame@) is Some,
{
    match TimerMsg::from_bytes(frame) {
        Some(msg) => {
            msg.apply(alarm);
            true
        },
        None => false,
    }
}

} // verus!
